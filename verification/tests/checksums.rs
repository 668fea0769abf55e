use planet::crc::Crc32;

#[test]
fn test_crc() {
    assert_eq!(
        Crc32::new().crc(b"IEND"),
        u32::from_be_bytes([0xae, 0x42, 0x60, 0x82])
    );
    assert_eq!(
        Crc32::new().crc(&[
            0x49, 0x48, 0x44, 0x52, 0x00, 0x00, 0x06, 0x6a, 0x00, 0x00, 0x04, 0x47, 0x08, 0x02,
            0x00, 0x00, 0x00
        ]),
        u32::from_be_bytes([0x7c, 0x8b, 0xab, 0x78])
    );
}

#[test]
fn crc_of_nothing() {
    assert_eq!(Crc32::new().crc(b""), 0);
}

#[test]
fn crc_update_in_pieces_matches_one_pass() {
    let mut one = Crc32::new();
    let whole = one.crc(b"planet terrain");

    let mut two = Crc32::new();
    two.start();
    two.update(b"planet ");
    two.update(b"terrain");
    assert_eq!(two.finalize(), whole);
}
