use princess::contract::ErrorCode;
use princess::hex::{
    exact_read, plan_rows, render_line, render_row, HexLine, HexWindowOptions, RangeRead,
    RangeStep, WindowCache, DEFAULT_WINDOW_CAPACITY, DEFAULT_WINDOW_SIZE,
};

/// An image the driver can answer positional reads from.
trait Image {
    fn len(&self) -> u64;
    fn pread(&self, offset: u64, wanted: usize) -> Vec<u8>;
}

impl Image for Vec<u8> {
    fn len(&self) -> u64 {
        self.as_slice().len() as u64
    }
    fn pread(&self, offset: u64, wanted: usize) -> Vec<u8> {
        let len = self.as_slice().len();
        let start = (offset as usize).min(len);
        let stop = start.saturating_add(wanted).min(len);
        self[start..stop].to_vec()
    }
}

/// A sparse image of zeroes that is never materialised.
struct Sparse(u64);

impl Image for Sparse {
    fn len(&self) -> u64 {
        self.0
    }
    fn pread(&self, offset: u64, wanted: usize) -> Vec<u8> {
        if offset >= self.0 {
            return Vec::new();
        }
        let n = (self.0 - offset).min(wanted as u64) as usize;
        vec![0u8; n]
    }
}

/// A reader over an image: the cache decides, this loop performs the reads.
struct Reader<'a, I: Image> {
    image: &'a I,
    cache: WindowCache,
}

impl<'a, I: Image> Reader<'a, I> {
    fn with_options(image: &'a I, options: HexWindowOptions) -> Self {
        Reader { image, cache: WindowCache::new(options) }
    }

    fn open(image: &'a I) -> Self {
        Self::with_options(image, HexWindowOptions::default())
    }

    fn read_range(&mut self, offset: u64, len: usize) -> Vec<u8> {
        let mut read = RangeRead::new(offset, len);
        let mut loaded = None;
        loop {
            match self.cache.advance(&mut read, loaded.take()) {
                RangeStep::Load { file_offset, wanted, .. } => {
                    loaded = Some(self.image.pread(file_offset, wanted));
                }
                RangeStep::Done => break,
            }
        }
        read.into_bytes()
    }

    fn read_lines(&mut self, first_row: u64, row_count: u64) -> Vec<HexLine> {
        plan_rows(self.image.len(), first_row, row_count)
            .into_iter()
            .map(|(offset, wanted)| {
                let bytes = self.read_range(offset, wanted);
                render_row(offset, bytes)
            })
            .collect()
    }
}

fn xorshift(state: &mut u64) -> u64 {
    *state ^= *state << 13;
    *state ^= *state >> 7;
    *state ^= *state << 17;
    *state
}

#[test]
fn reads_within_one_window() {
    let data: Vec<u8> = (0..=255u8).collect();
    let mut reader = Reader::open(&data);
    assert_eq!(reader.image.len(), 256);
    assert_eq!(reader.read_range(10, 20), data[10..30]);
    assert_eq!(reader.read_range(0, 256), data);
}

#[test]
fn reads_across_a_window_boundary_in_one_call() {
    let data: Vec<u8> = (0..14_336u32).map(|value| (value % 251) as u8).collect();
    let mut reader =
        Reader::with_options(&data, HexWindowOptions { window_size: 4096, capacity: 4 });
    assert_eq!(
        reader.read_range(4090, 12),
        &data[4090..4102],
        "a read spanning two windows must be byte-exact"
    );
    assert_eq!(reader.read_range(4090, 8200), &data[4090..4090 + 8200]);
    assert_eq!(reader.read_range(8192, 4096), &data[8192..12288]);
}

#[test]
fn reads_at_a_boundary_do_not_double_count_or_skip() {
    let data: Vec<u8> = (0..8192u32).map(|value| (value % 256) as u8).collect();
    let mut reader =
        Reader::with_options(&data, HexWindowOptions { window_size: 4096, capacity: 2 });
    let mut collected = Vec::new();
    for offset in 0..data.len() as u64 {
        collected.extend_from_slice(&reader.read_range(offset, 1));
    }
    assert_eq!(collected, data);
}

#[test]
fn past_the_end_is_a_short_read_not_an_error() {
    let data = vec![0xabu8; 100];
    let mut reader = Reader::open(&data);
    assert_eq!(reader.read_range(1000, 16), Vec::<u8>::new());
    assert_eq!(reader.read_range(90, 32), vec![0xabu8; 10]);
    assert!(reader.cache.stats().short_reads > 0);
    let bytes = reader.read_range(90, 32);
    let err = exact_read("short.bin", 90, 32, 100, bytes).unwrap_err();
    assert_eq!(err.code, ErrorCode::NotFound);
}

#[test]
fn an_empty_file_reads_nothing_without_error() {
    let data: Vec<u8> = Vec::new();
    let mut reader = Reader::open(&data);
    assert_eq!(reader.image.len(), 0);
    assert_eq!(reader.read_range(0, 4096), Vec::<u8>::new());
    assert_eq!(reader.read_lines(0, 4), Vec::<HexLine>::new());
}

#[test]
fn the_cache_is_bounded_by_capacity_not_by_file_size() {
    let image = Sparse(2 * 1024 * 1024 * 1024);
    let options = HexWindowOptions::default();
    let mut reader = Reader::with_options(&image, options);
    assert_eq!(reader.image.len(), 2 * 1024 * 1024 * 1024);
    let mut state: u64 = 0x2545_f491_4f6c_dd1d;
    for _ in 0..20_000 {
        let offset = xorshift(&mut state) % (image.len() - 4096);
        let bytes = reader.read_range(offset, 4096);
        assert_eq!(bytes.len(), 4096);
    }
    let stats = reader.cache.stats();
    assert!(stats.resident_bytes <= options.byte_bound());
    assert!(stats.resident_windows <= options.capacity);
    assert!(stats.syscalls > 0);
}

#[test]
fn random_access_reconstructs_the_file_exactly() {
    let mut data = vec![0u8; 20_000];
    let mut state: u64 = 0x9e37_79b9_7f4a_7c15;
    for byte in &mut data {
        *byte = (xorshift(&mut state) & 0xff) as u8;
    }
    let mut reader =
        Reader::with_options(&data, HexWindowOptions { window_size: 512, capacity: 4 });
    let mut state: u64 = 12345;
    for _ in 0..2000 {
        xorshift(&mut state);
        let offset = state % (data.len() as u64);
        let len = (state >> 20) as usize % 700;
        let len = len.min(data.len() - offset as usize);
        assert_eq!(
            reader.read_range(offset, len),
            &data[offset as usize..offset as usize + len],
            "offset {offset} len {len}"
        );
    }
    assert!(reader.cache.stats().resident_bytes <= 512 * 4);
}

#[test]
fn a_window_larger_than_a_whole_small_file_is_still_safe() {
    let data = vec![1u8, 2, 3];
    let mut reader =
        Reader::with_options(&data, HexWindowOptions { window_size: 1 << 20, capacity: 8 });
    assert_eq!(reader.read_range(0, 3), data);
    assert_eq!(reader.cache.stats().bytes_read, 3);
}

#[test]
fn hex_lines_render_16_bytes_with_an_ascii_gutter() {
    let mut data = vec![0u8; 20];
    data[..3].copy_from_slice(b"AB\x00");
    let mut reader = Reader::open(&data);
    let lines = reader.read_lines(0, 8);
    assert_eq!(lines.len(), 2, "20 bytes is two rows");
    assert_eq!(lines[0].offset, 0);
    assert_eq!(lines[0].hex, "41 42 00 00 00 00 00 00 00 00 00 00 00 00 00 00");
    assert_eq!(lines[0].ascii, "AB..............");
    assert_eq!(lines[0].ascii.len(), 16, "the gutter is always 16 columns");
    assert!(!lines[0].at_eof);
    assert_eq!(lines[1].offset, 16);
    assert!(lines[1].at_eof);
    assert_eq!(lines[1].bytes.len(), 4);
    assert!(lines[1].hex.ends_with("?? ?? ?? ?? ?? ?? ?? ?? ?? ?? ?? ??"));
    assert_eq!(lines[1].ascii.trim_end().len(), 4);
}

#[test]
fn hex_line_offsets_follow_the_row_index() {
    let data = vec![0u8; 16 * 100];
    let mut reader = Reader::open(&data);
    let lines = reader.read_lines(50, 3);
    assert_eq!(lines.iter().map(|line| line.offset).collect::<Vec<_>>(), vec![800, 816, 832]);
}

#[test]
fn clearing_the_cache_returns_the_memory() {
    let data = vec![0u8; 40_000];
    let mut reader = Reader::open(&data);
    reader.read_range(0, 40_000);
    assert!(reader.cache.stats().resident_windows > 0);
    reader.cache.clear();
    assert_eq!(reader.cache.stats().resident_windows, 0);
    assert_eq!(reader.read_range(0, 16).len(), 16);
}

// ---------------------------------------------------------------------------

#[test]
fn default_geometry_bounds_the_cache_at_one_mebibyte() {
    let options = HexWindowOptions::default();
    assert_eq!(options.window_size, DEFAULT_WINDOW_SIZE);
    assert_eq!(options.capacity, DEFAULT_WINDOW_CAPACITY);
    assert_eq!(options.byte_bound(), 1024 * 1024);
    assert_eq!(HexWindowOptions { window_size: 0, capacity: 0 }.byte_bound(), 1);
    let cache = WindowCache::new(HexWindowOptions { window_size: 0, capacity: 3 });
    assert_eq!(cache.window_size(), 1);
    assert_eq!(cache.capacity(), 3);
    assert_eq!(cache.byte_bound(), 3);
}

#[test]
fn a_miss_loads_once_and_a_repeat_is_a_hit() {
    let data: Vec<u8> = (0..64u8).collect();
    let mut cache = WindowCache::new(HexWindowOptions { window_size: 16, capacity: 2 });
    let mut read = RangeRead::new(20, 4);
    let step = cache.advance(&mut read, None);
    assert_eq!(step, RangeStep::Load { window_index: 1, file_offset: 16, wanted: 16 });
    // Asking again without the bytes repeats the request and counts nothing.
    assert_eq!(cache.advance(&mut read, None), step);
    assert_eq!(cache.stats().misses, 1);
    assert_eq!(cache.advance(&mut read, Some(data[16..32].to_vec())), RangeStep::Done);
    assert!(read.is_finished());
    assert_eq!(read.into_bytes(), vec![20, 21, 22, 23]);
    let stats = cache.stats();
    assert_eq!((stats.syscalls, stats.misses, stats.hits), (1, 1, 0));
    assert_eq!((stats.bytes_read, stats.bytes_served, stats.short_reads), (16, 4, 0));
    assert_eq!((stats.resident_windows, stats.resident_bytes), (1, 16));

    let mut again = RangeRead::new(30, 2);
    assert_eq!(cache.advance(&mut again, None), RangeStep::Done);
    assert_eq!(again.into_bytes(), vec![30, 31]);
    assert_eq!(cache.stats().hits, 1);
    assert_eq!(cache.stats().syscalls, 1);
}

#[test]
fn the_least_recently_used_window_is_evicted() {
    let data: Vec<u8> = (0..64u8).collect();
    let mut reader =
        Reader::with_options(&data, HexWindowOptions { window_size: 16, capacity: 2 });
    reader.read_range(0, 1);
    reader.read_range(16, 1);
    reader.read_range(0, 1); // window 0 is now the most recent
    reader.read_range(32, 1); // evicts window 1
    let before = reader.cache.stats().syscalls;
    reader.read_range(0, 1);
    assert_eq!(reader.cache.stats().syscalls, before, "window 0 stayed resident");
    reader.read_range(16, 1);
    assert_eq!(reader.cache.stats().syscalls, before + 1, "window 1 was evicted");
    assert_eq!(reader.cache.stats().resident_windows, 2);
}

#[test]
fn a_read_ending_on_a_window_boundary_of_the_image_counts_short_twice() {
    let data: Vec<u8> = vec![7u8; 32];
    let mut reader =
        Reader::with_options(&data, HexWindowOptions { window_size: 16, capacity: 4 });
    assert_eq!(reader.read_range(16, 40), vec![7u8; 16]);
    assert_eq!(reader.cache.stats().short_reads, 2);
    assert_eq!(reader.cache.stats().bytes_served, 16);
}

#[test]
fn the_strict_read_names_what_was_wanted_and_what_was_there() {
    let err = exact_read("disk.img", 90, 32, 100, vec![0xab; 10]).unwrap_err();
    assert_eq!(err.code, ErrorCode::NotFound);
    assert_eq!(err.message, "disk.img: wanted 32 bytes at offset 0x5a, only 10 were available");
    assert_eq!(
        err.detail.as_deref(),
        Some("the image is 100 bytes long; this is a short read, not corrupt data")
    );
    assert_eq!(exact_read("disk.img", 0, 2, 100, vec![1, 2]).unwrap(), vec![1, 2]);
}

#[test]
fn a_row_renders_hex_and_gutter_columns() {
    let line = render_line(0x40, b"Hi~\x7f \x1b".to_vec(), true);
    assert_eq!(line.hex, "48 69 7e 7f 20 1b ?? ?? ?? ?? ?? ?? ?? ?? ?? ??");
    assert_eq!(line.ascii, "Hi~. .          ");
    assert!(line.at_eof);
    let full = render_row(0, vec![0xffu8; 16]);
    assert_eq!(full.hex, "ff ff ff ff ff ff ff ff ff ff ff ff ff ff ff ff");
    assert!(!full.at_eof);
}

#[test]
fn row_plans_stop_at_the_end_of_the_image() {
    assert_eq!(plan_rows(40, 0, 8), vec![(0, 16), (16, 16), (32, 8)]);
    assert_eq!(plan_rows(40, 3, 8), Vec::<(u64, usize)>::new());
    assert_eq!(plan_rows(u64::MAX, u64::MAX, 2), Vec::<(u64, usize)>::new());
}
