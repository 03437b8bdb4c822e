use princess::guestmem::{GuestMemory, GuestRam, MemoryError};

#[test]
fn unwritten_ram_reads_as_zero() {
    let ram = GuestRam::new(0x1000);
    assert_eq!(ram.read_u64(0x800).unwrap(), 0);
    assert_eq!(ram.read_bytes(0, 16).unwrap(), vec![0u8; 16]);
}

#[test]
fn written_values_round_trip_little_endian() {
    let mut ram = GuestRam::new(0x1000);
    ram.write_u64(0x1000 - 8, 0x0123_4567_89ab_cdef).unwrap();
    assert_eq!(
        ram.read_bytes(0x1000 - 8, 8).unwrap(),
        vec![0xef, 0xcd, 0xab, 0x89, 0x67, 0x45, 0x23, 0x01]
    );
    assert_eq!(ram.read_u64(0x1000 - 8).unwrap(), 0x0123_4567_89ab_cdef);
}

#[test]
fn a_fully_outside_address_is_not_in_ram_not_a_zero() {
    let ram = GuestRam::new(0x1000);
    let err = ram.read_u64(0x4000_0000).unwrap_err();
    assert_eq!(err, MemoryError::NotInRam { address: 0x4000_0000 });
    let text = err.message();
    assert!(text.contains("outside guest RAM"), "got {text:?}");
    assert!(text.contains("0x40000000"), "got {text:?}");
}

#[test]
fn a_read_straddling_the_ram_end_is_a_short_not_a_zero() {
    let ram = GuestRam::new(0x1000);
    let err = ram.read_u64(0x1000 - 4).unwrap_err();
    assert!(matches!(err, MemoryError::Short { wanted: 8, got: 4, .. }));
}

#[test]
fn writing_outside_ram_is_refused() {
    let mut ram = GuestRam::new(0x1000);
    assert!(ram.write_byte(0x1000, 1).is_err());
    assert!(ram.write_u64(0x1000 - 4, 1).is_err());
}

#[test]
fn is_ram_follows_the_declared_size() {
    let ram = GuestRam::new(0x1000);
    assert!(ram.is_ram(0xfff));
    assert!(!ram.is_ram(0x1000));
    assert_eq!(ram.ram_size(), Some(0x1000));
}

#[test]
fn a_write_running_off_the_end_stops_at_the_first_outside_byte() {
    let mut ram = GuestRam::new(0x10);
    ram.write_bytes(0, &[1, 2, 3, 4]).unwrap();
    assert_eq!(ram.write_bytes(0xe, &[9, 9, 9, 9]), Err(MemoryError::NotInRam { address: 0x10 }));
    assert_eq!(ram.read_bytes(0, 4).unwrap(), vec![1, 2, 3, 4]);
    assert_eq!(ram.read_bytes(0xc, 4).unwrap(), vec![0, 0, 9, 9]);
}
