//! Random-access hex reading over arbitrarily large images with a hard
//! memory bound.
//!
//! Reads go through a cache of fixed-size windows, most recently used
//! first, holding at most `capacity` windows of at most `window_size` bytes:
//! whatever the image size, the resident bytes never exceed
//! `window_size × capacity`.  The cache decides; the caller performs the
//! positional reads (`pread`) it asks for and hands the bytes back.  A read
//! past the end of the image is a short read, never an error; rows of 16
//! bytes are rendered with a `??` filler and an ASCII gutter.

use vstd::prelude::*;
use crate::text::{
    push_str, push_char, spec_hex_padded, push_hex_padded, spec_decimal, push_decimal,
    spec_prefixed_hex, push_prefixed_hex, hex_digit, law_byte_in_two_hex_digits,
};
use crate::contract::{ErrorCode, PrincessError};

verus! {

broadcast use vstd::string::group_string_axioms;

/// Default window size: one 4 KiB disk page.
pub const DEFAULT_WINDOW_SIZE: usize = 4096;

/// Default window capacity: 256 windows, 1 MiB.
pub const DEFAULT_WINDOW_CAPACITY: usize = 256;

/// Bytes per rendered row.
pub const BYTES_PER_ROW: u64 = 16;

/// Tunables of the window cache.
#[derive(Debug, Clone, Copy, PartialEq, Eq)]
pub struct HexWindowOptions {
    /// Bytes per cached window (at least 1 is used).
    pub window_size: usize,
    /// Most windows held at once (at least 1 is used).
    pub capacity: usize,
}

impl Default for HexWindowOptions {
    fn default() -> (o: Self)
        ensures
            o.window_size == DEFAULT_WINDOW_SIZE,
            o.capacity == DEFAULT_WINDOW_CAPACITY,
    {
        HexWindowOptions { window_size: DEFAULT_WINDOW_SIZE, capacity: DEFAULT_WINDOW_CAPACITY }
    }
}

/// `n`, but at least one.
pub open spec fn at_least_one(n: usize) -> nat {
    if n == 0 {
        1
    } else {
        n as nat
    }
}

impl HexWindowOptions {
    /// The hard memory bound these options imply, in bytes.
    pub fn byte_bound(&self) -> (r: usize)
        requires
            at_least_one(self.window_size) * at_least_one(self.capacity) <= usize::MAX,
        ensures
            r == at_least_one(self.window_size) * at_least_one(self.capacity),
    {
        let w = if self.window_size == 0 {
            1
        } else {
            self.window_size
        };
        let c = if self.capacity == 0 {
            1
        } else {
            self.capacity
        };
        w * c
    }
}

/// Observable statistics of the cache.
#[derive(Debug, Clone, Copy, Default, PartialEq, Eq)]
pub struct ImageStats {
    /// Positional reads asked for (one per window load).
    pub syscalls: u64,
    /// Window lookups served from the cache.
    pub hits: u64,
    /// Window lookups that had to load.
    pub misses: u64,
    /// Windows currently resident.
    pub resident_windows: usize,
    /// Bytes currently resident: `resident_windows * window_size`.
    pub resident_bytes: usize,
    /// Total bytes handed to callers.
    pub bytes_served: u64,
    /// Total bytes read from the file.
    pub bytes_read: u64,
    /// Reads that came back short (the image ended).
    pub short_reads: u64,
}

// ---------------------------------------------------------------- rows ---

/// One rendered hex row: up to 16 bytes and the ASCII gutter.
#[derive(Debug, Clone, PartialEq, Eq)]
pub struct HexLine {
    /// File offset of the first byte.
    pub offset: u64,
    /// The bytes (fewer than 16 only on the final short row).
    pub bytes: Vec<u8>,
    /// `bb bb ...` for the 16 columns, `??` for an absent byte.
    pub hex: String,
    /// Printable bytes verbatim, other bytes `.`, absent bytes a space.
    pub ascii: String,
    /// The row is short because the image ended.
    pub at_eof: bool,
}

/// A byte that shows as itself in the gutter: ASCII graphic or space.
pub open spec fn printable(b: u8) -> bool {
    0x20 <= b <= 0x7e
}

/// The hex cells of columns `k..16`, each followed by a space.
pub open spec fn hex_cells(bytes: Seq<u8>, k: int) -> Seq<char>
    decreases 16 - k,
{
    if k >= 16 {
        Seq::empty()
    } else {
        (if k < bytes.len() {
            spec_hex_padded(bytes[k] as nat, 2)
        } else {
            "??"@
        }) + " "@ + hex_cells(bytes, k + 1)
    }
}

/// The gutter characters of columns `k..16`.
pub open spec fn gutter(bytes: Seq<u8>, k: int) -> Seq<char>
    decreases 16 - k,
{
    if k >= 16 {
        Seq::empty()
    } else {
        seq![
            if k < bytes.len() {
                if printable(bytes[k]) {
                    bytes[k] as char
                } else {
                    '.'
                }
            } else {
                ' '
            },
        ] + gutter(bytes, k + 1)
    }
}

proof fn lemma_hex_cells_shape(bytes: Seq<u8>, k: int)
    requires
        0 <= k <= 16,
    ensures
        hex_cells(bytes, k).len() == 3 * (16 - k),
        k < 16 ==> hex_cells(bytes, k).last() == ' ',
    decreases 16 - k,
{
    if k < 16 {
        lemma_hex_cells_shape(bytes, k + 1);
        if k < bytes.len() {
            assert(spec_hex_padded(bytes[k] as nat, 2).len() == 2) by {
                crate::text::lemma_hex_padded_two(bytes[k] as nat);
            }
        }
        let head = (if k < bytes.len() {
            spec_hex_padded(bytes[k] as nat, 2)
        } else {
            "??"@
        }) + " "@;
        assert(head.len() == 3) by {
            reveal_strlit("??");
            reveal_strlit(" ");
        }
        if k == 15 {
            assert(hex_cells(bytes, k) =~= head);
            reveal_strlit(" ");
        }
    }
}

/// The row's hex text: the 16 cells with the final space dropped.
pub open spec fn spec_hex_text(bytes: Seq<u8>) -> Seq<char> {
    hex_cells(bytes, 0).drop_last()
}

/// The high digit shown for cell `j` of a row of `bytes`.
pub open spec fn high_digit(bytes: Seq<u8>, j: int) -> char {
    if j < bytes.len() {
        hex_digit((bytes[j] / 16) as nat)
    } else {
        '?'
    }
}

/// The low digit shown for cell `j` of a row of `bytes`.
pub open spec fn low_digit(bytes: Seq<u8>, j: int) -> char {
    if j < bytes.len() {
        hex_digit((bytes[j] % 16) as nat)
    } else {
        '?'
    }
}

proof fn lemma_hex_cells(bytes: Seq<u8>, k: int)
    requires
        0 <= k <= 16,
    ensures
        hex_cells(bytes, k).len() == 3 * (16 - k),
        forall|j: int| k <= j < 16 ==> {
            &&& #[trigger] hex_cells(bytes, k)[3 * (j - k)] == high_digit(bytes, j)
            &&& hex_cells(bytes, k)[3 * (j - k) + 1] == low_digit(bytes, j)
            &&& hex_cells(bytes, k)[3 * (j - k) + 2] == ' '
        },
    decreases 16 - k,
{
    reveal_strlit(" ");
    reveal_strlit("??");
    if k < 16 {
        lemma_hex_cells(bytes, k + 1);
        let cell = if k < bytes.len() {
            spec_hex_padded(bytes[k] as nat, 2)
        } else {
            "??"@
        };
        if k < bytes.len() {
            law_byte_in_two_hex_digits(bytes[k] as nat);
        }
        let rest = hex_cells(bytes, k + 1);
        assert(hex_cells(bytes, k) == cell + " "@ + rest);
        assert forall|j: int| k <= j < 16 implies {
            &&& #[trigger] hex_cells(bytes, k)[3 * (j - k)] == high_digit(bytes, j)
            &&& hex_cells(bytes, k)[3 * (j - k) + 1] == low_digit(bytes, j)
            &&& hex_cells(bytes, k)[3 * (j - k) + 2] == ' '
        } by {
            if j > k {
                assert(rest[3 * (j - (k + 1))] == high_digit(bytes, j));
                assert(3 * (j - k) == 3 + 3 * (j - (k + 1)));
            }
        }
    }
}

/// A row's hex text is sixteen cells of three characters, the last one
/// without its separator: cell `j` shows byte `j`'s high nibble then its
/// low nibble as hex digits (`??` past the end of the bytes), then a space.
pub proof fn law_hex_row_layout(bytes: Seq<u8>)
    ensures
        ({
            let h = spec_hex_text(bytes);
            &&& h.len() == 47
            &&& forall|j: int| 0 <= j < 16 ==> #[trigger] h[3 * j] == high_digit(bytes, j) && h[3 * j + 1]
                == low_digit(bytes, j)
            &&& forall|j: int| 0 <= j < 15 ==> #[trigger] h[3 * j + 2] == ' '
        }),
{
    lemma_hex_cells(bytes, 0);
    let c = hex_cells(bytes, 0);
    let h = spec_hex_text(bytes);
    assert forall|j: int| 0 <= j < 16 implies #[trigger] h[3 * j] == high_digit(bytes, j) && h[3 * j + 1]
        == low_digit(bytes, j) by {
        assert(c[3 * (j - 0)] == high_digit(bytes, j));
    }
    assert forall|j: int| 0 <= j < 15 implies #[trigger] h[3 * j + 2] == ' ' by {
        assert(c[3 * (j - 0)] == high_digit(bytes, j));
    }
}

/// Renders one row (see [`spec_hex_text`] and [`gutter`]).
pub fn render_line(offset: u64, bytes: Vec<u8>, at_eof: bool) -> (line: HexLine)
    ensures
        line.offset == offset,
        line.bytes@ == bytes@,
        line.hex@ == spec_hex_text(bytes@),
        line.ascii@ == gutter(bytes@, 0),
        line.at_eof == at_eof,
{
    let mut hex = String::new();
    let mut ascii = String::new();
    let mut k: usize = 0;
    proof {
        reveal_strlit("??");
        reveal_strlit(" ");
        reveal_strlit("?? ");
    }
    while k < 16
        invariant
            k <= 16,
            hex@ + hex_cells(bytes@, k as int) == hex_cells(bytes@, 0),
            ascii@ + gutter(bytes@, k as int) == gutter(bytes@, 0),
        decreases 16 - k,
    {
        let ghost h = hex@;
        let ghost a = ascii@;
        if k < bytes.len() {
            let b = bytes[k];
            push_hex_padded(&mut hex, b as u64, 2);
            push_str(&mut hex, " ");
            assert(hex@ == h + spec_hex_padded(bytes@[k as int] as nat, 2) + " "@);
            if 0x20 <= b && b <= 0x7e {
                push_char(&mut ascii, b as char);
            } else {
                push_char(&mut ascii, '.');
            }
        } else {
            push_str(&mut hex, "?? ");
            push_char(&mut ascii, ' ');
            proof {
                reveal_strlit("?? ");
                reveal_strlit("??");
                reveal_strlit(" ");
            }
            assert(hex@ =~= h + "??"@ + " "@);
        }
        assert(hex_cells(bytes@, k as int) == (if k < bytes.len() {
            spec_hex_padded(bytes@[k as int] as nat, 2)
        } else {
            "??"@
        }) + " "@ + hex_cells(bytes@, k + 1));
        assert(hex@ + hex_cells(bytes@, k + 1) =~= h + hex_cells(bytes@, k as int));
        assert(ascii@ + gutter(bytes@, k + 1) =~= a + gutter(bytes@, k as int));
        k = k + 1;
    }
    assert(hex@ =~= hex_cells(bytes@, 0));
    assert(ascii@ =~= gutter(bytes@, 0));
    proof {
        lemma_hex_cells_shape(bytes@, 0);
    }
    let mut trimmed = String::new();
    let chars = crate::scan::chars_of(hex.as_str());
    let mut i: usize = 0;
    while i + 1 < chars.len()
        invariant
            i + 1 <= chars.len() || i == 0,
            chars@ == hex_cells(bytes@, 0),
            chars@.len() == 48,
            trimmed@ == chars@.take(i as int),
        decreases chars.len() - i,
    {
        push_char(&mut trimmed, chars[i]);
        i = i + 1;
        assert(trimmed@ =~= chars@.take(i as int));
    }
    assert(trimmed@ =~= chars@.drop_last());
    HexLine { offset, bytes, hex: trimmed, ascii, at_eof }
}

// --------------------------------------------------------- the cache ---

/// A counter advanced by `n`, sticking at `u64::MAX`.
pub open spec fn bump(x: u64, n: int) -> u64 {
    if x + n > u64::MAX {
        u64::MAX
    } else {
        (x + n) as u64
    }
}

/// All counters at zero.
pub open spec fn zero_stats() -> ImageStats {
    ImageStats {
        syscalls: 0,
        hits: 0,
        misses: 0,
        resident_windows: 0,
        resident_bytes: 0,
        bytes_served: 0,
        bytes_read: 0,
        short_reads: 0,
    }
}

/// The model of a [`WindowCache`]: geometry, the resident windows most
/// recently used first (index, bytes), and the counters.
pub struct CacheView {
    pub window_size: nat,
    pub capacity: nat,
    pub windows: Seq<(u64, Seq<u8>)>,
    pub counters: ImageStats,
}

/// The cache's invariant: positive geometry whose product fits in memory,
/// at most `capacity` windows, none longer than `window_size`, no window
/// index twice.
pub open spec fn cache_wf(c: CacheView) -> bool {
    &&& c.window_size >= 1
    &&& c.capacity >= 1
    &&& c.window_size * c.capacity <= usize::MAX
    &&& c.windows.len() <= c.capacity
    &&& forall|i: int| #![trigger c.windows[i]]
        0 <= i < c.windows.len() ==> c.windows[i].1.len() <= c.window_size
    &&& forall|i: int, j: int| #![trigger c.windows[i], c.windows[j]]
        0 <= i < j < c.windows.len() ==> c.windows[i].0 != c.windows[j].0
}

/// Where window `k` sits in `w`, if it is resident.
pub open spec fn find_window(w: Seq<(u64, Seq<u8>)>, k: u64) -> Option<int> {
    if exists|i: int| 0 <= i < w.len() && #[trigger] w[i].0 == k {
        Some(choose|i: int| 0 <= i < w.len() && #[trigger] w[i].0 == k)
    } else {
        None
    }
}

/// Entry `i` moved to the front (it was just used).
pub open spec fn to_front(w: Seq<(u64, Seq<u8>)>, i: int) -> Seq<(u64, Seq<u8>)> {
    seq![w[i]] + w.remove(i)
}

/// A freshly loaded window put in front, replacing any older copy, and the
/// least recently used windows beyond `capacity` dropped.
pub open spec fn install(w: Seq<(u64, Seq<u8>)>, k: u64, data: Seq<u8>, capacity: nat) -> Seq<
    (u64, Seq<u8>),
> {
    let rest = match find_window(w, k) {
        Some(i) => w.remove(i),
        None => w,
    };
    let grown = seq![(k, data)] + rest;
    if grown.len() > capacity {
        grown.take(capacity as int)
    } else {
        grown
    }
}

/// The model of a [`RangeRead`]: the request, how far it got, the bytes
/// gathered, the window it waits for, and whether it is over.
pub struct ReadView {
    pub offset: u64,
    pub wanted: nat,
    pub end: u64,
    pub position: u64,
    pub out: Seq<u8>,
    pub waiting: Option<u64>,
    pub finished: bool,
}

/// A read's invariant: it spans `[offset, offset + wanted)` (the end
/// saturating), and `out` holds exactly the bytes before `position`.
pub open spec fn read_wf(r: ReadView) -> bool {
    &&& r.wanted <= usize::MAX
    &&& r.end == bump(r.offset, r.wanted as int)
    &&& r.offset <= r.position <= r.end
    &&& r.out.len() == r.position - r.offset
    &&& r.finished ==> r.waiting is None
    &&& r.waiting is Some ==> r.position < r.end
}

/// A read waits, if at all, for the window holding its position.
pub open spec fn read_fits(r: ReadView, window_size: nat) -> bool {
    r.waiting matches Some(k) ==> window_size >= 1 && k == r.position as int / window_size as int
}

/// The read is over: the bytes served are counted, and a read that got
/// fewer bytes than it asked for counts as short.
pub open spec fn finish(c: CacheView, r: ReadView) -> (CacheView, ReadView) {
    (
        CacheView {
            counters: ImageStats {
                bytes_served: bump(c.counters.bytes_served, r.out.len() as int),
                short_reads: if r.out.len() < r.wanted {
                    bump(c.counters.short_reads, 1)
                } else {
                    c.counters.short_reads
                },
                ..c.counters
            },
            ..c
        },
        ReadView { finished: true, waiting: None, ..r },
    )
}

/// The read goes on from its position: finished at the end, else the window
/// holding the position is used from the cache or asked for.
pub open spec fn run(c: CacheView, r: ReadView) -> (CacheView, ReadView)
    decreases r.end - r.position, 1int,
{
    if r.position >= r.end || c.window_size == 0 {
        finish(c, r)
    } else {
        let k = (r.position as int / c.window_size as int) as u64;
        match find_window(c.windows, k) {
            None => (
                CacheView {
                    counters: ImageStats { misses: bump(c.counters.misses, 1), ..c.counters },
                    ..c
                },
                ReadView { waiting: Some(k), ..r },
            ),
            Some(i) => consume(
                CacheView {
                    windows: to_front(c.windows, i),
                    counters: ImageStats { hits: bump(c.counters.hits, 1), ..c.counters },
                    ..c
                },
                r,
                c.windows[i].1,
            ),
        }
    }
}

/// The read takes what `data`, the window holding its position, has from
/// there on, up to its end; a window that ends at or before the position
/// means the image ended: the read is over, counted short.
pub open spec fn consume(c: CacheView, r: ReadView, data: Seq<u8>) -> (CacheView, ReadView)
    decreases r.end - r.position, 0int,
{
    if r.position >= r.end || c.window_size == 0 {
        finish(c, r)
    } else {
        let within = r.position as int % c.window_size as int;
        if within >= data.len() {
            finish(
                CacheView {
                    counters: ImageStats {
                        short_reads: bump(c.counters.short_reads, 1),
                        ..c.counters
                    },
                    ..c
                },
                r,
            )
        } else {
            let take = if data.len() - within < r.end - r.position {
                data.len() - within
            } else {
                r.end - r.position
            };
            run(
                c,
                ReadView {
                    out: r.out + data.subrange(within, within + take),
                    position: (r.position + take) as u64,
                    ..r
                },
            )
        }
    }
}

/// One step of a read: a finished read stays so; a read waiting for a
/// window goes on with it once given (the window is installed and counted
/// as one positional read), and keeps waiting otherwise; any other read
/// goes on from its position.
pub open spec fn advance_spec(c: CacheView, r: ReadView, loaded: Option<Seq<u8>>) -> (
    CacheView,
    ReadView,
) {
    if r.finished {
        (c, r)
    } else {
        match r.waiting {
            Some(k) => match loaded {
                Some(data) => consume(
                    CacheView {
                        windows: install(c.windows, k, data, c.capacity),
                        counters: ImageStats {
                            syscalls: bump(c.counters.syscalls, 1),
                            bytes_read: bump(c.counters.bytes_read, data.len() as int),
                            ..c.counters
                        },
                        ..c
                    },
                    ReadView { waiting: None, ..r },
                    data,
                ),
                None => (c, r),
            },
            None => run(c, r),
        }
    }
}

/// The view of an optional buffer.
pub open spec fn loaded_view(loaded: Option<Vec<u8>>) -> Option<Seq<u8>> {
    match loaded {
        Some(d) => Some(d@),
        None => None,
    }
}

/// The windows' model: index and bytes.
pub open spec fn view_windows(w: Seq<(u64, Vec<u8>)>) -> Seq<(u64, Seq<u8>)> {
    w.map_values(|e: (u64, Vec<u8>)| (e.0, e.1@))
}

/// What a read asks of its caller next.
#[derive(Debug, Clone, Copy, PartialEq, Eq)]
pub enum RangeStep {
    /// Read `wanted` bytes at `file_offset` (fewer if the image ends) and
    /// hand them back: they are window `window_index`.
    Load { window_index: u64, file_offset: u64, wanted: usize },
    /// The read is over; its bytes are in the [`RangeRead`].
    Done,
}

/// A bounded cache of image windows, most recently used first.
pub struct WindowCache {
    window_size: usize,
    capacity: usize,
    windows: Vec<(u64, Vec<u8>)>,
    counters: ImageStats,
}

impl View for WindowCache {
    type V = CacheView;

    closed spec fn view(&self) -> CacheView {
        CacheView {
            window_size: self.window_size as nat,
            capacity: self.capacity as nat,
            windows: view_windows(self.windows@),
            counters: self.counters,
        }
    }
}

/// One `read_range` in progress.
pub struct RangeRead {
    offset: u64,
    wanted: usize,
    end: u64,
    position: u64,
    out: Vec<u8>,
    waiting: Option<u64>,
    finished: bool,
}

impl View for RangeRead {
    type V = ReadView;

    closed spec fn view(&self) -> ReadView {
        ReadView {
            offset: self.offset,
            wanted: self.wanted as nat,
            end: self.end,
            position: self.position,
            out: self.out@,
            waiting: self.waiting,
            finished: self.finished,
        }
    }
}

impl RangeRead {
    /// The read's invariant.
    pub closed spec fn wf(&self) -> bool {
        read_wf(self@)
    }

    /// A read of `len` bytes at `offset`, nothing gathered yet.
    pub fn new(offset: u64, len: usize) -> (r: Self)
        ensures
            r.wf(),
            r@ == (ReadView {
                offset,
                wanted: len as nat,
                end: bump(offset, len as int),
                position: offset,
                out: Seq::empty(),
                waiting: None,
                finished: false,
            }),
    {
        RangeRead {
            offset,
            wanted: len,
            end: offset.saturating_add(len as u64),
            position: offset,
            out: Vec::new(),
            waiting: None,
            finished: false,
        }
    }

    /// Is the read over?
    pub fn is_finished(&self) -> (b: bool)
        ensures
            b == self@.finished,
    {
        self.finished
    }

    /// The bytes gathered.
    pub fn into_bytes(self) -> (b: Vec<u8>)
        ensures
            b@ == self@.out,
    {
        self.out
    }
}

impl WindowCache {
    /// The cache's invariant.
    pub closed spec fn wf(&self) -> bool {
        cache_wf(self@)
    }

    /// An empty cache with the given geometry, each clamped to at least 1.
    pub fn new(options: HexWindowOptions) -> (c: Self)
        requires
            at_least_one(options.window_size) * at_least_one(options.capacity) <= usize::MAX,
        ensures
            c.wf(),
            c@.window_size == at_least_one(options.window_size),
            c@.capacity == at_least_one(options.capacity),
            c@.windows == Seq::<(u64, Seq<u8>)>::empty(),
            c@.counters == zero_stats(),
    {
        let window_size = if options.window_size == 0 {
            1
        } else {
            options.window_size
        };
        let capacity = if options.capacity == 0 {
            1
        } else {
            options.capacity
        };
        let c = WindowCache {
            window_size,
            capacity,
            windows: Vec::new(),
            counters: ImageStats {
                syscalls: 0,
                hits: 0,
                misses: 0,
                resident_windows: 0,
                resident_bytes: 0,
                bytes_served: 0,
                bytes_read: 0,
                short_reads: 0,
            },
        };
        assert(c@.windows =~= Seq::<(u64, Seq<u8>)>::empty());
        c
    }

    /// Bytes per window.
    pub fn window_size(&self) -> (n: usize)
        ensures
            n == self@.window_size,
    {
        self.window_size
    }

    /// Most windows held.
    pub fn capacity(&self) -> (n: usize)
        ensures
            n == self@.capacity,
    {
        self.capacity
    }

    /// The hard memory bound in bytes: `window_size × capacity`.
    pub fn byte_bound(&self) -> (n: usize)
        requires
            self.wf(),
        ensures
            n == self@.window_size * self@.capacity,
    {
        self.window_size * self.capacity
    }

    /// Current statistics; the resident figures are `windows` and
    /// `windows × window_size`.
    pub fn stats(&self) -> (s: ImageStats)
        requires
            self.wf(),
        ensures
            s == (ImageStats {
                resident_windows: self@.windows.len() as usize,
                resident_bytes: (self@.windows.len() * self@.window_size) as usize,
                ..self@.counters
            }),
    {
        let n = self.windows.len();
        proof {
            vstd::arithmetic::mul::lemma_mul_inequality(
                n as int,
                self.capacity as int,
                self.window_size as int,
            );
            vstd::arithmetic::mul::lemma_mul_is_commutative(
                self.window_size as int,
                self.capacity as int,
            );
        }
        ImageStats {
            resident_windows: n,
            resident_bytes: n * self.window_size,
            ..self.counters
        }
    }

    /// Drops every window; the counters stay.
    pub fn clear(&mut self)
        requires
            old(self).wf(),
        ensures
            final(self).wf(),
            final(self)@ == (CacheView { windows: Seq::empty(), ..old(self)@ }),
    {
        self.windows = Vec::new();
        assert(self@.windows =~= Seq::<(u64, Seq<u8>)>::empty());
    }

    /// Where window `k` sits, if resident.
    fn find(&self, k: u64) -> (r: Option<usize>)
        requires
            self.wf(),
        ensures
            r == (match find_window(self@.windows, k) {
                Some(i) => Some(i as usize),
                None => None::<usize>,
            }),
            r matches Some(i) ==> i < self@.windows.len(),
    {
        let mut i: usize = 0;
        while i < self.windows.len()
            invariant
                self.wf(),
                i <= self.windows@.len(),
                forall|j: int| 0 <= j < i ==> self@.windows[j].0 != k,
            decreases self.windows.len() - i,
        {
            if self.windows[i].0 == k {
                proof {
                    assert(self@.windows[i as int].0 == k);
                    let j = choose|j: int| 0 <= j < self@.windows.len() && #[trigger] self@.windows[j].0 == k;
                    assert(self@.windows[j].0 == k);
                    if j != i as int {
                        if j < i {
                        } else {
                            assert(self@.windows[i as int].0 != self@.windows[j].0);
                        }
                    }
                }
                return Some(i);
            }
            assert(self@.windows[i as int].0 != k);
            i = i + 1;
        }
        assert(forall|j: int| 0 <= j < self@.windows.len() ==> #[trigger] self@.windows[j].0 != k);
        None
    }
    /// Moves entry `i` to the front.
    fn move_to_front(&mut self, i: usize)
        requires
            old(self).wf(),
            i < old(self)@.windows.len(),
        ensures
            final(self).wf(),
            final(self)@ == (CacheView { windows: to_front(old(self)@.windows, i as int), ..old(self)@ }),
    {
        let ghost w = self@.windows;
        let entry = self.windows.remove(i);
        self.windows.insert(0, entry);
        assert(self@.windows =~= to_front(w, i as int));
        proof {
            lemma_to_front_wf(self@, old(self)@, i as int);
        }
    }

    /// Puts a freshly read window in front (see [`install`]), counting the
    /// positional read and its bytes.
    fn install_window(&mut self, k: u64, data: Vec<u8>)
        requires
            old(self).wf(),
            data@.len() <= old(self)@.window_size,
        ensures
            final(self).wf(),
            final(self)@ == (CacheView {
                windows: install(old(self)@.windows, k, data@, old(self)@.capacity),
                counters: ImageStats {
                    syscalls: bump(old(self)@.counters.syscalls, 1),
                    bytes_read: bump(old(self)@.counters.bytes_read, data@.len() as int),
                    ..old(self)@.counters
                },
                ..old(self)@
            }),
    {
        let ghost w = self@.windows;
        let ghost d = data@;
        let n = data.len();
        match self.find(k) {
            Some(i) => {
                self.windows.remove(i);
                assert(self@.windows =~= w.remove(i as int));
            },
            None => {},
        }
        let ghost rest = self@.windows;
        self.windows.insert(0, (k, data));
        assert(self@.windows =~= seq![(k, d)] + rest);
        if self.windows.len() > self.capacity {
            self.windows.pop();
            assert(self@.windows =~= (seq![(k, d)] + rest).take(self.capacity as int));
        }
        self.counters.syscalls = self.counters.syscalls.saturating_add(1);
        self.counters.bytes_read = self.counters.bytes_read.saturating_add(n as u64);
        proof {
            lemma_install_wf(old(self)@, k, d);
        }
    }

    /// Ends `read` (see [`finish`]).
    fn finish_read(&mut self, read: &mut RangeRead)
        requires
            old(self).wf(),
            old(read).wf(),
        ensures
            final(self).wf(),
            final(read).wf(),
            (final(self)@, final(read)@) == finish(old(self)@, old(read)@),
    {
        let served = read.out.len();
        self.counters.bytes_served = self.counters.bytes_served.saturating_add(served as u64);
        if served < read.wanted {
            self.counters.short_reads = self.counters.short_reads.saturating_add(1);
        }
        read.finished = true;
        read.waiting = None;
        assert(self@.windows == old(self)@.windows);
    }

    /// Serves `read` from the front window (see [`consume`]); `true` when
    /// the read ended.
    fn consume_front(&mut self, read: &mut RangeRead) -> (done: bool)
        requires
            old(self).wf(),
            old(read).wf(),
            old(self)@.windows.len() > 0,
            old(read)@.position < old(read)@.end,
            !old(read)@.finished,
            old(read)@.waiting is None,
        ensures
            final(self).wf(),
            final(read).wf(),
            final(self)@.window_size == old(self)@.window_size,
            final(self)@.capacity == old(self)@.capacity,
            done == final(read)@.finished,
            done ==> (final(self)@, final(read)@) == consume(
                old(self)@,
                old(read)@,
                old(self)@.windows[0].1,
            ),
            !done ==> final(self)@ == old(self)@ && final(read)@.waiting is None
                && final(read)@.position > old(read)@.position
                && final(read)@.end == old(read)@.end
                && run(final(self)@, final(read)@) == consume(
                old(self)@,
                old(read)@,
                old(self)@.windows[0].1,
            ),
    {
        let ghost data = self@.windows[0].1;
        let ws64 = self.window_size as u64;
        let within64 = read.position % ws64;
        let within = within64 as usize;
        let len = self.windows[0].1.len();
        assert(self.windows@[0].1@ == data);
        if within >= len {
            self.counters.short_reads = self.counters.short_reads.saturating_add(1);
            self.finish_read(read);
            return true;
        }
        let avail = len - within;
        let remaining = read.end - read.position;
        let take: usize = if (avail as u64) < remaining {
            avail
        } else {
            remaining as usize
        };
        let ghost out0 = read.out@;
        let ghost r0 = read@;
        let mut j: usize = within;
        while j < within + take
            invariant
                read@ == (ReadView { out: read@.out, ..r0 }),
                within <= j <= within + take,
                within + take <= len,
                len == data.len(),
                self.windows@.len() > 0,
                self.windows@[0].1@ == data,
                read.out@ == out0 + data.subrange(within as int, j as int),
            decreases within + take - j,
        {
            read.out.push(self.windows[0].1[j]);
            j = j + 1;
            assert(read.out@ =~= out0 + data.subrange(within as int, j as int));
        }
        assert(read@.position + take <= read@.end);
        read.position = read.position + take as u64;
        assert(read@ == (ReadView {
            out: r0.out + data.subrange(within as int, within + take),
            position: (r0.position + take) as u64,
            ..r0
        }));
        false
    }

    /// Goes on with a read that waits for nothing (see [`run`]).
    fn run_read(&mut self, read: &mut RangeRead) -> (step: RangeStep)
        requires
            old(self).wf(),
            old(read).wf(),
            !old(read)@.finished,
            old(read)@.waiting is None,
        ensures
            final(self).wf(),
            final(read).wf(),
            read_fits(final(read)@, final(self)@.window_size),
            final(self)@.window_size == old(self)@.window_size,
            final(self)@.capacity == old(self)@.capacity,
            (final(self)@, final(read)@) == run(old(self)@, old(read)@),
            step is Done <==> final(read)@.finished,
            step matches RangeStep::Load { window_index, file_offset, wanted }
                ==> final(read)@.waiting == Some(window_index)
                && file_offset == window_index * old(self)@.window_size
                && wanted == old(self)@.window_size,
    {
        let ghost target = run(self@, read@);
        let ghost ws = self@.window_size;
        let mut step = RangeStep::Done;
        loop
            invariant_except_break
                !read@.finished,
                read@.waiting is None,
                run(self@, read@) == target,
            invariant
                self.wf(),
                read.wf(),
                self@.window_size == ws,
                self@.capacity == old(self)@.capacity,
            ensures
                (self@, read@) == target,
                step is Done <==> read@.finished,
                read_fits(read@, ws),
                step matches RangeStep::Load { window_index, file_offset, wanted }
                    ==> read@.waiting == Some(window_index)
                    && file_offset == window_index * ws
                    && wanted == ws,
            decreases read.end - read.position,
        {
            let ghost c0 = self@;
            let ghost r0 = read@;
            if read.position >= read.end {
                self.finish_read(read);
                assert((self@, read@) == run(c0, r0));
                step = RangeStep::Done;
                break;
            }
            let ws64 = self.window_size as u64;
            let k = read.position / ws64;
            match self.find(k) {
                None => {
                    let within = read.position % ws64;
                    proof {
                        vstd::arithmetic::div_mod::lemma_fundamental_div_mod(
                            read.position as int,
                            ws64 as int,
                        );
                        vstd::arithmetic::mul::lemma_mul_is_commutative(k as int, ws64 as int);
                        vstd::arithmetic::mul::lemma_mul_nonnegative(k as int, ws64 as int);
                    }
                    let file_offset = read.position - within;
                    self.counters.misses = self.counters.misses.saturating_add(1);
                    read.waiting = Some(k);
                    assert(self@.windows == c0.windows);
                    assert((self@, read@) == run(c0, r0));
                    step = RangeStep::Load { window_index: k, file_offset, wanted: self.window_size };
                    break;
                },
                Some(i) => {
                    self.counters.hits = self.counters.hits.saturating_add(1);
                    self.move_to_front(i);
                    if self.consume_front(read) {
                        step = RangeStep::Done;
                        break;
                    }
                },
            }
        }
        step
    }

    /// One step of `read` against this cache: `loaded` is the answer to the
    /// read's last [`RangeStep::Load`], if it was asked for one (see
    /// [`advance_spec`]).  What comes back says what the caller does next.
    pub fn advance(&mut self, read: &mut RangeRead, loaded: Option<Vec<u8>>) -> (step: RangeStep)
        requires
            old(self).wf(),
            old(read).wf(),
            read_fits(old(read)@, old(self)@.window_size),
            loaded matches Some(d) ==> d@.len() <= old(self)@.window_size,
        ensures
            final(self).wf(),
            final(read).wf(),
            read_fits(final(read)@, final(self)@.window_size),
            final(self)@.window_size == old(self)@.window_size,
            final(self)@.capacity == old(self)@.capacity,
            (final(self)@, final(read)@) == advance_spec(
                old(self)@,
                old(read)@,
                loaded_view(loaded),
            ),
            step is Done <==> final(read)@.finished,
            step matches RangeStep::Load { window_index, file_offset, wanted }
                ==> final(read)@.waiting == Some(window_index)
                && file_offset == window_index * old(self)@.window_size
                && wanted == old(self)@.window_size,
    {
        if read.finished {
            return RangeStep::Done;
        }
        match read.waiting {
            Some(k) => {
                match loaded {
                    None => {
                        let ws64 = self.window_size as u64;
                        let within = read.position % ws64;
                        proof {
                            vstd::arithmetic::div_mod::lemma_fundamental_div_mod(
                                read.position as int,
                                ws64 as int,
                            );
                            vstd::arithmetic::mul::lemma_mul_is_commutative(k as int, ws64 as int);
                            vstd::arithmetic::mul::lemma_mul_nonnegative(k as int, ws64 as int);
                        }
                        return RangeStep::Load {
                            window_index: k,
                            file_offset: read.position - within,
                            wanted: self.window_size,
                        };
                    },
                    Some(data) => {
                        self.install_window(k, data);
                        read.waiting = None;
                        let done = self.consume_front(read);
                        if done {
                            return RangeStep::Done;
                        }
                    },
                }
            },
            None => {},
        }
        self.run_read(read)
    }
}

/// Moving an entry to the front keeps the cache's invariant.
proof fn lemma_to_front_wf(after: CacheView, before: CacheView, i: int)
    requires
        cache_wf(before),
        0 <= i < before.windows.len(),
        after == (CacheView { windows: to_front(before.windows, i), ..before }),
    ensures
        cache_wf(after),
{
    let w = before.windows;
    let v = after.windows;
    assert forall|a: int| 0 <= a < v.len() implies #[trigger] v[a] == w[if a == 0 {
        i
    } else if a - 1 < i {
        a - 1
    } else {
        a
    }] by {}
    assert forall|a: int, b: int| 0 <= a < b < v.len() implies #[trigger] v[a].0 != #[trigger] v[b].0 by {
        let ia = if a == 0 { i } else if a - 1 < i { a - 1 } else { a };
        let ib = if b == 0 { i } else if b - 1 < i { b - 1 } else { b };
        assert(v[a] == w[ia]);
        assert(v[b] == w[ib]);
        assert(ia != ib);
        if ia < ib {
            assert(w[ia].0 != w[ib].0);
        } else {
            assert(w[ib].0 != w[ia].0);
        }
    }
}

/// Installing a window keeps the cache's invariant.
proof fn lemma_install_wf(before: CacheView, k: u64, data: Seq<u8>)
    requires
        cache_wf(before),
        data.len() <= before.window_size,
    ensures
        cache_wf(CacheView { windows: install(before.windows, k, data, before.capacity), ..before }),
{
    let w = before.windows;
    let rest = match find_window(w, k) {
        Some(i) => w.remove(i),
        None => w,
    };
    // `rest` holds no window `k`, and no index twice.
    assert forall|a: int| 0 <= a < rest.len() implies #[trigger] rest[a].0 != k by {
        match find_window(w, k) {
            Some(i) => {
                let ia = if a < i { a } else { a + 1 };
                assert(rest[a] == w[ia]);
                assert(w[i].0 == k);
                if ia < i {
                    assert(w[ia].0 != w[i].0);
                } else {
                    assert(w[i].0 != w[ia].0);
                }
            },
            None => {
                assert(w[a].0 != k);
            },
        }
    }
    assert forall|a: int, b: int| 0 <= a < b < rest.len() implies #[trigger] rest[a].0
        != #[trigger] rest[b].0 by {
        match find_window(w, k) {
            Some(i) => {
                let ia = if a < i { a } else { a + 1 };
                let ib = if b < i { b } else { b + 1 };
                assert(rest[a] == w[ia]);
                assert(rest[b] == w[ib]);
                assert(w[ia].0 != w[ib].0);
            },
            None => {
                assert(w[a].0 != w[b].0);
            },
        }
    }
    assert forall|a: int| 0 <= a < rest.len() implies #[trigger] rest[a].1.len() <= before.window_size by {
        match find_window(w, k) {
            Some(i) => {
                let ia = if a < i { a } else { a + 1 };
                assert(rest[a] == w[ia]);
            },
            None => {},
        }
    }
    let grown = seq![(k, data)] + rest;
    assert forall|a: int| 0 <= a < grown.len() implies #[trigger] grown[a] == if a == 0 {
        (k, data)
    } else {
        rest[a - 1]
    } by {}
    assert forall|a: int, b: int| 0 <= a < b < grown.len() implies #[trigger] grown[a].0
        != #[trigger] grown[b].0 by {
        if a == 0 {
            assert(grown[b] == rest[b - 1]);
        } else {
            assert(grown[a] == rest[a - 1]);
            assert(grown[b] == rest[b - 1]);
        }
    }
    let result = install(w, k, data, before.capacity);
    assert(rest.len() <= w.len());
    assert forall|a: int| 0 <= a < result.len() implies #[trigger] result[a] == grown[a] by {}
}

// -------------------------------------------------------------- laws ---

/// Bytes held by the windows.
pub open spec fn resident_total(w: Seq<(u64, Seq<u8>)>) -> nat
    decreases w.len(),
{
    if w.len() == 0 {
        0
    } else {
        resident_total(w.drop_last()) + w.last().1.len()
    }
}

proof fn lemma_resident_total_bound(w: Seq<(u64, Seq<u8>)>, ws: nat)
    requires
        forall|i: int| #![trigger w[i]] 0 <= i < w.len() ==> w[i].1.len() <= ws,
    ensures
        resident_total(w) <= w.len() * ws,
    decreases w.len(),
{
    if w.len() > 0 {
        let rest = w.drop_last();
        assert forall|i: int| #![trigger rest[i]] 0 <= i < rest.len() implies rest[i].1.len() <= ws by {
            assert(rest[i] == w[i]);
        }
        lemma_resident_total_bound(rest, ws);
        assert(w[w.len() - 1].1.len() <= ws);
        assert((rest.len() + 1) * ws == rest.len() * ws + ws) by (nonlinear_arith);
    }
}

/// The memory bound: whatever was read, a cache holds at most
/// `window_size × capacity` bytes, and the resident figure its statistics
/// report is within the same bound.
pub proof fn law_resident_bytes_within_bound(c: CacheView)
    requires
        cache_wf(c),
    ensures
        resident_total(c.windows) <= c.window_size * c.capacity,
        c.windows.len() * c.window_size <= c.window_size * c.capacity,
{
    lemma_resident_total_bound(c.windows, c.window_size);
    assert(c.windows.len() * c.window_size <= c.capacity * c.window_size) by (nonlinear_arith)
        requires
            c.windows.len() <= c.capacity,
    ;
    assert(c.capacity * c.window_size == c.window_size * c.capacity) by (nonlinear_arith);
}

/// Window `k` of `img` as a positional read returns it: the bytes from
/// `k × ws`, at most `ws` of them, fewer (or none) where the image ends.
pub open spec fn image_window(img: Seq<u8>, k: int, ws: nat) -> Seq<u8> {
    let start = k * ws;
    if start >= img.len() {
        Seq::empty()
    } else if start + ws >= img.len() {
        img.subrange(start, img.len() as int)
    } else {
        img.subrange(start, start + ws)
    }
}

/// The bytes of `img` in `[from, to)`, cut at the image's end.
pub open spec fn image_bytes(img: Seq<u8>, from: int, to: int) -> Seq<u8> {
    if from >= img.len() {
        Seq::empty()
    } else if to >= img.len() {
        img.subrange(from, img.len() as int)
    } else {
        img.subrange(from, to)
    }
}

/// Every resident window holds what a positional read of `img` returns.
pub open spec fn agrees_with(c: CacheView, img: Seq<u8>) -> bool {
    forall|i: int| #![trigger c.windows[i]]
        0 <= i < c.windows.len() ==> c.windows[i].1 == image_window(
            img,
            c.windows[i].0 as int,
            c.window_size,
        )
}

/// A read holds the image's bytes up to its position, and stopped, if it
/// did, at its end or at the image's.
pub open spec fn read_agrees(r: ReadView, img: Seq<u8>) -> bool {
    &&& r.out == image_bytes(img, r.offset as int, r.position as int)
    &&& r.position > r.offset ==> r.position <= img.len()
    &&& r.finished ==> r.position == r.end || r.position >= img.len()
}

proof fn lemma_split_position(p: int, ws: int)
    requires
        p >= 0,
        ws >= 1,
    ensures
        p == (p / ws) * ws + p % ws,
        0 <= p % ws < ws,
        0 <= p / ws <= p,
{
    vstd::arithmetic::div_mod::lemma_fundamental_div_mod(p, ws);
    vstd::arithmetic::div_mod::lemma_mod_bound(p, ws);
    vstd::arithmetic::mul::lemma_mul_is_commutative(ws, p / ws);
    vstd::arithmetic::div_mod::lemma_div_pos_is_pos(p, ws);
    let k = p / ws;
    let w = p % ws;
    assert(k <= p) by (nonlinear_arith)
        requires
            p == k * ws + w,
            ws >= 1,
            k >= 0,
            w >= 0,
    ;
}

proof fn lemma_to_front_agrees(c: CacheView, i: int, img: Seq<u8>)
    requires
        agrees_with(c, img),
        0 <= i < c.windows.len(),
    ensures
        agrees_with(CacheView { windows: to_front(c.windows, i), ..c }, img),
{
    let v = to_front(c.windows, i);
    assert forall|a: int| #![trigger v[a]] 0 <= a < v.len() implies v[a].1 == image_window(
        img,
        v[a].0 as int,
        c.window_size,
    ) by {
        let j = if a == 0 { i } else if a - 1 < i { a - 1 } else { a };
        assert(v[a] == c.windows[j]);
    }
}

proof fn lemma_install_agrees(c: CacheView, k: u64, data: Seq<u8>, img: Seq<u8>)
    requires
        agrees_with(c, img),
        data == image_window(img, k as int, c.window_size),
    ensures
        agrees_with(CacheView { windows: install(c.windows, k, data, c.capacity), ..c }, img),
{
    let w = c.windows;
    let rest = match find_window(w, k) {
        Some(i) => w.remove(i),
        None => w,
    };
    assert forall|a: int| #![trigger rest[a]] 0 <= a < rest.len() implies rest[a].1 == image_window(
        img,
        rest[a].0 as int,
        c.window_size,
    ) by {
        match find_window(w, k) {
            Some(i) => {
                let j = if a < i { a } else { a + 1 };
                assert(rest[a] == w[j]);
            },
            None => {
                assert(rest[a] == w[a]);
            },
        }
    }
    let grown = seq![(k, data)] + rest;
    assert forall|a: int| #![trigger grown[a]] 0 <= a < grown.len() implies grown[a].1 == image_window(
        img,
        grown[a].0 as int,
        c.window_size,
    ) by {
        if a > 0 {
            assert(grown[a] == rest[a - 1]);
        }
    }
    let v = install(w, k, data, c.capacity);
    assert forall|a: int| #![trigger v[a]] 0 <= a < v.len() implies v[a].1 == image_window(
        img,
        v[a].0 as int,
        c.window_size,
    ) by {
        assert(v[a] == grown[a]);
    }
}

proof fn lemma_run_agrees(c: CacheView, r: ReadView, img: Seq<u8>)
    requires
        c.window_size >= 1,
        agrees_with(c, img),
        read_wf(r),
        read_agrees(r, img),
        !r.finished,
        r.waiting is None,
    ensures
        agrees_with(run(c, r).0, img),
        read_agrees(run(c, r).1, img),
        run(c, r).1.offset == r.offset,
        run(c, r).1.end == r.end,
        run(c, r).1.position <= r.end,
    decreases r.end - r.position, 1int,
{
    if r.position >= r.end {
    } else {
        let ws = c.window_size;
        lemma_split_position(r.position as int, ws as int);
        let k = (r.position as int / ws as int) as u64;
        match find_window(c.windows, k) {
            None => {},
            Some(i) => {
                let c2 = CacheView {
                    windows: to_front(c.windows, i),
                    counters: ImageStats { hits: bump(c.counters.hits, 1), ..c.counters },
                    ..c
                };
                lemma_to_front_agrees(c, i, img);
                assert(agrees_with(c2, img));
                assert(c.windows[i].0 == k);
                lemma_consume_agrees(c2, r, c.windows[i].1, img);
            },
        }
    }
}

proof fn lemma_consume_agrees(c: CacheView, r: ReadView, data: Seq<u8>, img: Seq<u8>)
    requires
        c.window_size >= 1,
        agrees_with(c, img),
        read_wf(r),
        read_agrees(r, img),
        !r.finished,
        r.waiting is None,
        r.position < r.end,
        data == image_window(img, r.position as int / c.window_size as int, c.window_size),
    ensures
        agrees_with(consume(c, r, data).0, img),
        read_agrees(consume(c, r, data).1, img),
        consume(c, r, data).1.offset == r.offset,
        consume(c, r, data).1.end == r.end,
        consume(c, r, data).1.position <= r.end,
    decreases r.end - r.position, 0int,
{
    let ws = c.window_size as int;
    let p = r.position as int;
    lemma_split_position(p, ws);
    let k = p / ws;
    let within = p % ws;
    let start = k * ws;
    assert(start + within == p);
    if within >= data.len() {
        // The window ends at or before the position: so does the image.
        assert(p >= img.len());
    } else {
        assert(start < img.len());
        let take = if data.len() - within < r.end - r.position {
            data.len() - within
        } else {
            r.end - r.position
        };
        let piece = data.subrange(within, within + take);
        assert(piece =~= img.subrange(p, p + take));
        assert(p + take <= img.len());
        let r2 = ReadView {
            out: r.out + piece,
            position: (r.position + take) as u64,
            ..r
        };
        assert(r.out =~= img.subrange(r.offset as int, p));
        assert(r2.out =~= img.subrange(r.offset as int, p + take));
        assert(read_agrees(r2, img));
        lemma_run_agrees(c, r2, img);
    }
}

/// Reads reconstruct the image: whenever the resident windows and the
/// window handed in hold what positional reads of an image return, a step
/// keeps every window and the read's bytes faithful to that image, and a
/// read that ends holds exactly the image's bytes in its range (fewer
/// only where the image ended: a short read, never an error).
pub proof fn law_reads_reconstruct_the_image(
    c: CacheView,
    r: ReadView,
    loaded: Option<Seq<u8>>,
    img: Seq<u8>,
)
    requires
        cache_wf(c),
        read_wf(r),
        read_fits(r, c.window_size),
        agrees_with(c, img),
        read_agrees(r, img),
        r.waiting matches Some(k) ==> (loaded matches Some(d) ==> d == image_window(
            img,
            k as int,
            c.window_size,
        )),
    ensures
        agrees_with(advance_spec(c, r, loaded).0, img),
        read_agrees(advance_spec(c, r, loaded).1, img),
        advance_spec(c, r, loaded).1.finished ==> advance_spec(c, r, loaded).1.out == image_bytes(
            img,
            r.offset as int,
            r.end as int,
        ),
{
    if !r.finished {
        match r.waiting {
            Some(k) => match loaded {
                Some(data) => {
                    let c2 = CacheView {
                        windows: install(c.windows, k, data, c.capacity),
                        counters: ImageStats {
                            syscalls: bump(c.counters.syscalls, 1),
                            bytes_read: bump(c.counters.bytes_read, data.len() as int),
                            ..c.counters
                        },
                        ..c
                    };
                    lemma_install_agrees(c, k, data, img);
                    assert(agrees_with(c2, img));
                    lemma_consume_agrees(c2, ReadView { waiting: None, ..r }, data, img);
                },
                None => {},
            },
            None => {
                lemma_run_agrees(c, r, img);
            },
        }
    }
    let r2 = advance_spec(c, r, loaded).1;
    if r2.finished {
        assert(r2.offset == r.offset && r2.end == r.end);
    }
}

// ------------------------------------------------------ rows and reads ---

/// `row × 16`, sticking at `u64::MAX`.
pub open spec fn row_offset(row: int) -> u64 {
    if row * 16 > u64::MAX {
        u64::MAX
    } else {
        (row * 16) as u64
    }
}

/// The reads behind `row_count` rows from `first_row` of an image of `len`
/// bytes: for each row its offset and how many bytes it has (16, fewer on
/// the last), stopping at the first row that starts at or past the end.
pub open spec fn row_plan(len: u64, first_row: u64, row_count: u64, i: int) -> Seq<(u64, usize)>
    decreases row_count - i,
{
    if i >= row_count {
        Seq::empty()
    } else {
        let offset = row_offset(bump(first_row, i) as int);
        if offset >= len {
            Seq::empty()
        } else {
            seq![
                (offset, (if len - offset < 16 {
                    len - offset
                } else {
                    16
                }) as usize),
            ] + row_plan(len, first_row, row_count, i + 1)
        }
    }
}

/// The reads that [`render_row`]s of rows `first_row..first_row + row_count`
/// need, over an image of `len` bytes (see [`row_plan`]).
pub fn plan_rows(len: u64, first_row: u64, row_count: u64) -> (plan: Vec<(u64, usize)>)
    ensures
        plan@ == row_plan(len, first_row, row_count, 0),
{
    let mut plan: Vec<(u64, usize)> = Vec::new();
    let mut i: u64 = 0;
    while i < row_count
        invariant
            i <= row_count,
            plan@ + row_plan(len, first_row, row_count, i as int) == row_plan(
                len,
                first_row,
                row_count,
                0,
            ),
        decreases row_count - i,
    {
        let row = first_row.saturating_add(i);
        let offset = if row > u64::MAX / BYTES_PER_ROW {
            u64::MAX
        } else {
            row * BYTES_PER_ROW
        };
        if offset >= len {
            assert(plan@ =~= row_plan(len, first_row, row_count, 0));
            return plan;
        }
        let rest = len - offset;
        let wanted: usize = if rest < 16 {
            rest as usize
        } else {
            16
        };
        let ghost before = plan@;
        plan.push((offset, wanted));
        assert(plan@ + row_plan(len, first_row, row_count, i + 1) =~= before + row_plan(
            len,
            first_row,
            row_count,
            i as int,
        ));
        i = i + 1;
    }
    assert(plan@ =~= row_plan(len, first_row, row_count, 0));
    plan
}

/// A row rendered from what its read returned: short means the image ended.
pub fn render_row(offset: u64, bytes: Vec<u8>) -> (line: HexLine)
    ensures
        line.offset == offset,
        line.bytes@ == bytes@,
        line.hex@ == spec_hex_text(bytes@),
        line.ascii@ == gutter(bytes@, 0),
        line.at_eof == (bytes@.len() < 16),
{
    let at_eof = bytes.len() < 16;
    render_line(offset, bytes, at_eof)
}

/// `{path}: wanted {wanted} bytes at offset {offset:#x}, only {got} were
/// available`.
pub open spec fn short_read_message(path: Seq<char>, wanted: nat, offset: nat, got: nat) -> Seq<char> {
    path + ": wanted "@ + spec_decimal(wanted) + " bytes at offset "@ + spec_prefixed_hex(offset)
        + ", only "@ + spec_decimal(got) + " were available"@
}

/// `the image is {len} bytes long; this is a short read, not corrupt data`.
pub open spec fn short_read_detail(image_len: nat) -> Seq<char> {
    "the image is "@ + spec_decimal(image_len) + " bytes long; this is a short read, not corrupt data"@
}

/// The strict read: what `read_range` returned for `wanted` bytes at
/// `offset`, or, when it came back short, `E_NOT_FOUND` naming what was
/// wanted and what was there.
pub fn exact_read(path: &str, offset: u64, wanted: usize, image_len: u64, bytes: Vec<u8>) -> (r:
    Result<Vec<u8>, PrincessError>)
    ensures
        bytes@.len() == wanted ==> r == Ok::<Vec<u8>, PrincessError>(bytes),
        bytes@.len() != wanted ==> (r matches Err(e) && e.code == ErrorCode::NotFound
            && e.message@ == short_read_message(path@, wanted as nat, offset as nat, bytes@.len())
            && (e.detail matches Some(d) && d@ == short_read_detail(image_len as nat))),
{
    if bytes.len() == wanted {
        return Ok(bytes);
    }
    let mut message = String::new();
    push_str(&mut message, path);
    push_str(&mut message, ": wanted ");
    push_decimal(&mut message, wanted as u64);
    push_str(&mut message, " bytes at offset ");
    push_prefixed_hex(&mut message, offset);
    push_str(&mut message, ", only ");
    push_decimal(&mut message, bytes.len() as u64);
    push_str(&mut message, " were available");
    let mut detail = String::new();
    push_str(&mut detail, "the image is ");
    push_decimal(&mut detail, image_len);
    push_str(&mut detail, " bytes long; this is a short read, not corrupt data");
    assert(message@ =~= short_read_message(path@, wanted as nat, offset as nat, bytes@.len()));
    assert(detail@ =~= short_read_detail(image_len as nat));
    Err(PrincessError::not_found(message).with_detail(detail))
}

} // verus!
