//! The engine-to-UI event stream: the session-monotonic sequence numbers,
//! the bounded ring of recent envelopes that `princess:op:replay` serves,
//! and the calendar arithmetic behind the envelopes' timestamps (days since
//! the Unix epoch to a proleptic Gregorian date, and the
//! `2026-05-05T12:00:00.123Z` rendering).  Reading the clock and building
//! the JSON envelopes is left to the caller.

use vstd::prelude::*;
use crate::text::{push_str, push_decimal_padded, spec_decimal_padded};

verus! {

/// Days from 0000-03-01 to 1970-01-01 in the proleptic Gregorian calendar.
pub const EPOCH_SHIFT: i64 = 719468;

/// The date `z` days after 1970-01-01 (Hinnant's `civil_from_days`):
/// 400-year eras of 146097 days starting on March 1st, the year split
/// into months of the March-based calendar.
pub open spec fn spec_civil_from_days(z: int) -> (int, int, int) {
    let zz = z + 719468;
    let era = zz / 146097;
    let doe = zz - era * 146097;
    let yoe = (doe - doe / 1460 + doe / 36524 - doe / 146096) / 365;
    let y = yoe + era * 400;
    let doy = doe - (365 * yoe + yoe / 4 - yoe / 100);
    let mp = (5 * doy + 2) / 153;
    let d = doy - (153 * mp + 2) / 5 + 1;
    let m = if mp < 10 {
        mp + 3
    } else {
        mp - 9
    };
    (if m <= 2 {
        y + 1
    } else {
        y
    }, m, d)
}

/// Year, month and day of the date `z` days after 1970-01-01.
pub fn civil_from_days(z: i64) -> (r: (i64, u32, u32))
    requires
        z <= i64::MAX - EPOCH_SHIFT,
    ensures
        r.0 == spec_civil_from_days(z as int).0,
        r.1 == spec_civil_from_days(z as int).1,
        r.2 == spec_civil_from_days(z as int).2,
        1 <= r.1 <= 12,
        1 <= r.2 <= 31,
        z >= -719468 ==> r.0 >= 0,
{
    let zz = z + EPOCH_SHIFT;
    let era: i64 = if zz >= 0 {
        zz / 146097
    } else {
        let q = ((146096i128 - zz as i128) / 146097) as i64;
        -q
    };
    assert(era == zz as int / 146097) by (nonlinear_arith)
        requires
            era == (if zz >= 0 {
                zz / 146097
            } else {
                -((146096 - zz) / 146097)
            }),
    ;
    assert(0 <= zz - era * 146097 < 146097) by (nonlinear_arith)
        requires
            era == zz as int / 146097,
    ;
    let doe = (zz - era * 146097) as u64;
    let yoe = (doe - doe / 1460 + doe / 36524 - doe / 146096) / 365;
    assert(yoe <= 399) by (nonlinear_arith)
        requires
            doe < 146097,
            yoe == (doe - doe / 1460 + doe / 36524 - doe / 146096) / 365,
    ;
    let y = yoe as i64 + era * 400;
    assert(365 * yoe + yoe / 4 - yoe / 100 <= doe) by (nonlinear_arith)
        requires
            doe < 146097,
            yoe == (doe - doe / 1460 + doe / 36524 - doe / 146096) / 365,
    ;
    let doy = doe - (365 * yoe + yoe / 4 - yoe / 100);
    assert(doy <= 365) by (nonlinear_arith)
        requires
            doe < 146097,
            yoe == (doe - doe / 1460 + doe / 36524 - doe / 146096) / 365,
            doy == doe - (365 * yoe + yoe / 4 - yoe / 100),
    ;
    let mp = (5 * doy + 2) / 153;
    assert(mp <= 11) by (nonlinear_arith)
        requires
            doy <= 365,
            mp == (5 * doy + 2) / 153,
    ;
    assert((153 * mp + 2) / 5 <= doy && doy - (153 * mp + 2) / 5 <= 30) by (nonlinear_arith)
        requires
            doy <= 365,
            mp == (5 * doy + 2) / 153,
    ;
    let d = (doy - (153 * mp + 2) / 5 + 1) as u32;
    let m = if mp < 10 {
        mp + 3
    } else {
        mp - 9
    } as u32;
    (if m <= 2 {
        y + 1
    } else {
        y
    }, m, d)
}

/// The contract's timestamp for `secs` seconds and `millis` milliseconds
/// after the epoch: `YYYY-MM-DDTHH:MM:SS.mmmZ` (fields zero-padded).
pub open spec fn spec_iso8601(secs: nat, millis: nat) -> Seq<char> {
    let days = secs / 86400;
    let sod = secs % 86400;
    let (y, m, d) = spec_civil_from_days(days as int);
    spec_decimal_padded(y as nat, 4) + "-"@ + spec_decimal_padded(m as nat, 2) + "-"@
        + spec_decimal_padded(d as nat, 2) + "T"@ + spec_decimal_padded(sod / 3600, 2) + ":"@
        + spec_decimal_padded((sod % 3600) / 60, 2) + ":"@ + spec_decimal_padded(sod % 60, 2) + "."@
        + spec_decimal_padded(millis, 3) + "Z"@
}

/// Renders a moment after the epoch as the contract's UTC timestamp (what
/// `Date.prototype.toISOString()` produces for it).
pub fn format_iso8601(secs: u64, millis: u32) -> (s: String)
    ensures
        s@ == spec_iso8601(secs as nat, millis as nat),
{
    let days = (secs / 86400) as i64;
    let sod = secs % 86400;
    let (year, month, day) = civil_from_days(days);
    let mut out = String::new();
    push_decimal_padded(&mut out, year as u64, 4);
    push_str(&mut out, "-");
    push_decimal_padded(&mut out, month as u64, 2);
    push_str(&mut out, "-");
    push_decimal_padded(&mut out, day as u64, 2);
    push_str(&mut out, "T");
    push_decimal_padded(&mut out, sod / 3600, 2);
    push_str(&mut out, ":");
    push_decimal_padded(&mut out, (sod % 3600) / 60, 2);
    push_str(&mut out, ":");
    push_decimal_padded(&mut out, sod % 60, 2);
    push_str(&mut out, ".");
    push_decimal_padded(&mut out, millis as u64, 3);
    push_str(&mut out, "Z");
    out
}

/// The system clock: whole seconds since the Unix epoch and the
/// milliseconds past them (`SystemTime::now().duration_since(UNIX_EPOCH)`,
/// zero for a clock set before the epoch).  What it reads depends on the
/// moment; the one thing promised is `subsec_millis`'s range.
#[verifier::external_body]
pub(crate) fn clock_since_epoch() -> (r: (u64, u32))
    ensures
        r.1 < 1000,
{
    let now = std::time::SystemTime::now().duration_since(std::time::UNIX_EPOCH).unwrap_or_default();
    (now.as_secs(), now.subsec_millis())
}

/// The current moment as the contract's UTC timestamp.
pub fn now_iso8601() -> (s: String)
    ensures
        exists|secs: nat, millis: nat|
            secs <= u64::MAX && millis < 1000 && s@ == #[trigger] spec_iso8601(secs, millis),
{
    let (secs, millis) = clock_since_epoch();
    let s = format_iso8601(secs, millis);
    assert(s@ == spec_iso8601(secs as nat, millis as nat));
    s
}

// ---------------------------------------------------------------- ring ---

/// Event-model version carried in every envelope.
pub const EVENT_MODEL_VERSION: u64 = 1;

/// How many recent envelopes stay replayable.
pub const RING_CAPACITY: usize = 5000;

/// The recorded envelopes, oldest first, each with its sequence number; the
/// number of the last one recorded; and how many the ring keeps.
pub struct RingView<T> {
    pub entries: Seq<(u64, T)>,
    pub last_seq: u64,
    pub capacity: nat,
}

/// The ring holds at most `capacity` entries, and they are the most recent
/// ones: consecutive sequence numbers ending at `last_seq`.
pub open spec fn ring_wf<T>(r: RingView<T>) -> bool {
    &&& r.capacity > 0
    &&& r.entries.len() <= r.capacity
    &&& r.entries.len() <= r.last_seq
    &&& forall|i: int|
        0 <= i < r.entries.len() ==> #[trigger] r.entries[i].0 == r.last_seq - r.entries.len() + 1
            + i
}

/// The entries with a sequence number of at least `from_seq`, in order.
pub open spec fn entries_since<T>(entries: Seq<(u64, T)>, from_seq: u64) -> Seq<(u64, T)> {
    entries.filter(|e: (u64, T)| e.0 >= from_seq)
}

/// A bounded ring of envelopes with session-monotonic sequence numbers.
pub struct EventRing<T> {
    entries: Vec<(u64, T)>,
    last_seq: u64,
    capacity: usize,
}

impl<T> View for EventRing<T> {
    type V = RingView<T>;

    closed spec fn view(&self) -> RingView<T> {
        RingView { entries: self.entries@, last_seq: self.last_seq, capacity: self.capacity as nat }
    }
}

impl<T> EventRing<T> {
    /// An empty ring that keeps the last `capacity` envelopes (at least one).
    pub fn new(capacity: usize) -> (r: Self)
        ensures
            r@.entries.len() == 0,
            r@.last_seq == 0,
            r@.capacity == if capacity == 0 {
                1
            } else {
                capacity
            },
            ring_wf(r@),
    {
        EventRing { entries: Vec::new(), last_seq: 0, capacity: if capacity == 0 {
            1
        } else {
            capacity
        } }
    }

    /// An empty ring of the contract's size.
    pub fn with_default_capacity() -> (r: Self)
        ensures
            r@.entries.len() == 0,
            r@.last_seq == 0,
            r@.capacity == RING_CAPACITY,
            ring_wf(r@),
    {
        Self::new(RING_CAPACITY)
    }

    /// The sequence number of the last envelope recorded (0 before any).
    pub fn last_seq(&self) -> (r: u64)
        ensures
            r == self@.last_seq,
    {
        self.last_seq
    }

    /// How many envelopes are kept.
    pub fn len(&self) -> (r: usize)
        ensures
            r == self@.entries.len(),
    {
        self.entries.len()
    }

    /// The number the next envelope will carry.
    pub fn next_seq(&self) -> (r: u64)
        requires
            self@.last_seq < u64::MAX,
        ensures
            r == self@.last_seq + 1,
    {
        self.last_seq + 1
    }

    /// Records `envelope` as number `last_seq + 1` (returned), dropping the
    /// oldest entry when the ring is full.
    pub fn record(&mut self, envelope: T) -> (seq: u64)
        requires
            ring_wf(old(self)@),
            old(self)@.last_seq < u64::MAX,
        ensures
            seq == old(self)@.last_seq + 1,
            final(self)@.last_seq == seq,
            final(self)@.capacity == old(self)@.capacity,
            final(self)@.entries == if old(self)@.entries.len() == old(self)@.capacity {
                old(self)@.entries.drop_first().push((seq, envelope))
            } else {
                old(self)@.entries.push((seq, envelope))
            },
            ring_wf(final(self)@),
    {
        let seq = self.last_seq + 1;
        let ghost old_entries = self.entries@;
        if self.entries.len() == self.capacity {
            self.entries.remove(0);
            assert(self.entries@ =~= old_entries.drop_first());
        }
        self.entries.push((seq, envelope));
        self.last_seq = seq;
        seq
    }

    /// The kept envelopes with a sequence number of at least `from_seq`,
    /// oldest first.
    pub fn since(&self, from_seq: u64) -> (r: Vec<&T>)
        requires
            ring_wf(self@),
        ensures
            r@.len() == entries_since(self@.entries, from_seq).len(),
            forall|i: int|
                0 <= i < r@.len() ==> *#[trigger] r@[i] == entries_since(self@.entries, from_seq)[i].1,
    {
        let ghost keep = |e: (u64, T)| e.0 >= from_seq;
        let mut out: Vec<&T> = Vec::new();
        let mut i: usize = 0;
        let ghost mut taken: Seq<(u64, T)> = Seq::empty();
        proof {
            reveal(Seq::filter);
            assert(self@.entries.take(0).filter(keep) =~= Seq::<(u64, T)>::empty());
        }
        while i < self.entries.len()
            invariant
                i <= self.entries.len(),
                keep == (|e: (u64, T)| e.0 >= from_seq),
                taken == self@.entries.take(i as int).filter(keep),
                out@.len() == taken.len(),
                forall|k: int| 0 <= k < out@.len() ==> *#[trigger] out@[k] == taken[k].1,
            decreases self.entries.len() - i,
        {
            proof {
                reveal(Seq::filter);
                assert(self@.entries.take(i + 1).drop_last() =~= self@.entries.take(i as int));
            }
            if self.entries[i].0 >= from_seq {
                out.push(&self.entries[i].1);
                proof {
                    taken = taken.push(self@.entries[i as int]);
                }
            }
            i = i + 1;
        }
        assert(self@.entries.take(i as int) =~= self@.entries);
        out
    }
}

/// Sequence numbers only grow: each envelope recorded carries the number
/// after the previous one, and (in a ring that keeps at least two) the two
/// last envelopes are the two last recorded, in order.
pub proof fn law_seq_is_monotonic<T>(r: RingView<T>, first: T, second: T)
    requires
        ring_wf(r),
        r.last_seq + 2 <= u64::MAX,
    ensures
        ({
            let a = record_view(r, first);
            let b = record_view(a, second);
            &&& a.last_seq == r.last_seq + 1
            &&& b.last_seq == r.last_seq + 2
            &&& ring_wf(a) && ring_wf(b)
            &&& b.entries.last() == ((r.last_seq + 2) as u64, second)
            &&& r.capacity >= 2 ==> b.entries.len() >= 2 && b.entries[b.entries.len() - 2] == (
                (r.last_seq + 1) as u64,
                first,
            )
        }),
{
    let a = record_view(r, first);
    lemma_record_wf(r, first);
    lemma_record_wf(a, second);
    let b = record_view(a, second);
    assert(a.entries.last() == ((r.last_seq + 1) as u64, first));
    if r.capacity >= 2 {
        if a.entries.len() == a.capacity {
            assert(b.entries[b.entries.len() - 2] == a.entries[a.entries.len() - 1]);
        } else {
            assert(b.entries[b.entries.len() - 2] == a.entries.last());
        }
    }
}

/// What recording does to a ring (see [`EventRing::record`]).
pub open spec fn record_view<T>(r: RingView<T>, envelope: T) -> RingView<T> {
    let seq = (r.last_seq + 1) as u64;
    RingView {
        entries: if r.entries.len() == r.capacity {
            r.entries.drop_first().push((seq, envelope))
        } else {
            r.entries.push((seq, envelope))
        },
        last_seq: seq,
        capacity: r.capacity,
    }
}

pub proof fn lemma_record_wf<T>(r: RingView<T>, envelope: T)
    requires
        ring_wf(r),
        r.last_seq < u64::MAX,
    ensures
        ring_wf(record_view(r, envelope)),
        record_view(r, envelope).entries.len() >= 1,
{
}

/// The ring is bounded and replay is exact: whatever has been recorded, the
/// ring keeps at most `capacity` envelopes, they are the most recent ones,
/// and a replay from `s` returns exactly the kept envelopes numbered `s` or
/// later, in order.
pub proof fn law_replay_is_exact<T>(r: RingView<T>, from_seq: u64)
    requires
        ring_wf(r),
    ensures
        r.entries.len() <= r.capacity,
        ({
            let first = r.last_seq - r.entries.len() + 1;
            let start = if from_seq <= first {
                0
            } else if from_seq > r.last_seq {
                r.entries.len() as int
            } else {
                from_seq - first
            };
            entries_since(r.entries, from_seq) == r.entries.skip(start)
        }),
{
    let first = r.last_seq - r.entries.len() + 1;
    let start = if from_seq <= first {
        0
    } else if from_seq > r.last_seq {
        r.entries.len() as int
    } else {
        from_seq - first
    };
    let keep = |e: (u64, T)| e.0 >= from_seq;
    lemma_filter_suffix(r.entries, keep, start);
}

proof fn lemma_filter_suffix<T>(s: Seq<(u64, T)>, keep: spec_fn((u64, T)) -> bool, start: int)
    requires
        0 <= start <= s.len(),
        forall|i: int| 0 <= i < start ==> !keep(#[trigger] s[i]),
        forall|i: int| start <= i < s.len() ==> keep(#[trigger] s[i]),
    ensures
        s.filter(keep) == s.skip(start),
    decreases s.len(),
{
    reveal(Seq::filter);
    if s.len() == 0 {
        assert(s.skip(start) =~= Seq::<(u64, T)>::empty());
    } else if start == s.len() {
        lemma_filter_suffix(s.drop_last(), keep, start - 1);
        assert(s.skip(start) =~= Seq::<(u64, T)>::empty());
    } else {
        lemma_filter_suffix(s.drop_last(), keep, start);
        assert(s.skip(start) =~= s.drop_last().skip(start).push(s.last()));
    }
}

} // verus!
