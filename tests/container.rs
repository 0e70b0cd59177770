use sevenz_store::archive::{next_header_block, seal_start_header, start_header, write_archive, write_preamble};
use sevenz_store::header::write_header;
use sevenz_store::varnum::write_varnum;

fn varnum_of(v: u64) -> Vec<u8> {
    let mut out = Vec::new();
    write_varnum(&mut out, v);
    out
}

fn header_of(name: &str, len: u64) -> Vec<u8> {
    let mut out = Vec::new();
    write_header(name, &mut out, len);
    out
}

fn archive_of(name: &str, payload: &[u8]) -> Vec<u8> {
    let mut out = Vec::new();
    write_archive(name, payload, &mut out);
    out
}

fn le32(b: &[u8]) -> u32 {
    u32::from_le_bytes([b[0], b[1], b[2], b[3]])
}

fn le64(b: &[u8]) -> u64 {
    let mut a = [0u8; 8];
    a.copy_from_slice(&b[..8]);
    u64::from_le_bytes(a)
}

#[test]
fn varnum_small_values() {
    assert_eq!(varnum_of(0), vec![0x00]);
    assert_eq!(varnum_of(127), vec![0x7F]);
    assert_eq!(varnum_of(128), vec![0x80, 0x80]);
    assert_eq!(varnum_of(300), vec![0x81, 0x2C]);
    assert_eq!(varnum_of(0x4000), vec![0xC0, 0x00, 0x40]);
}

#[test]
fn varnum_widest_short_form() {
    let v = (1u64 << 56) - 1;
    assert_eq!(varnum_of(v), vec![0xFE, 0xFF, 0xFF, 0xFF, 0xFF, 0xFF, 0xFF, 0xFF]);
}

#[test]
fn varnum_full_width() {
    assert_eq!(varnum_of(1u64 << 56), vec![0xFF, 0, 0, 0, 0, 0, 0, 0, 1]);
    assert_eq!(varnum_of(u64::MAX), vec![0xFF; 9]);
    let v: u64 = 0x0123_4567_89AB_CDEF;
    let enc = varnum_of(v);
    assert_eq!(enc[0], 0xFF);
    assert_eq!(le64(&enc[1..]), v);
}

#[test]
fn varnum_appends() {
    let mut out = vec![0xAA];
    write_varnum(&mut out, 300);
    assert_eq!(out, vec![0xAA, 0x81, 0x2C]);
}

#[test]
fn header_for_one_letter_name() {
    let h = header_of("a", 0);
    assert_eq!(
        h,
        vec![
            0x01, 0x04, 0x06, 0x00, 0x01, 0x09, 0x00, 0x00, 0x07, 0x0B, 0x01, 0x00, 0x01, 0x01,
            0x00, 0x0C, 0x00, 0x00, 0x00, 0x05, 0x01, 0x11, 0x05, 0x00, 0x61, 0x00, 0x00, 0x00,
            0x00, 0x00,
        ]
    );
    // The name property: size 5, then flag, 'a' in UTF-16LE, null unit.
    assert_eq!(&h[22..28], &[0x05, 0x00, 0x61, 0x00, 0x00, 0x00]);
}

#[test]
fn header_with_two_byte_lengths() {
    let h = header_of("a", 300);
    assert_eq!(&h[5..9], &[0x09, 0x81, 0x2C, 0x00]);
    assert_eq!(&h[16..20], &[0x0C, 0x81, 0x2C, 0x00]);
}

#[test]
fn header_name_outside_basic_plane() {
    let h = header_of("\u{1F600}\u{E9}", 5);
    assert_eq!(
        &h[21..],
        &[0x11, 0x09, 0x00, 0x3D, 0xD8, 0x00, 0xDE, 0xE9, 0x00, 0x00, 0x00, 0x00, 0x00]
    );
}

#[test]
fn header_is_deterministic() {
    assert_eq!(header_of("report.txt", 12345), header_of("report.txt", 12345));
    assert_ne!(header_of("report.txt", 12345), header_of("report.txt", 12346));
}

#[test]
fn preamble_bytes() {
    let mut out = Vec::new();
    write_preamble(&mut out);
    assert_eq!(out, vec![b'7', b'z', 0xBC, 0xAF, 0x27, 0x1C, 0x00, 0x04]);
}

#[test]
fn next_header_block_layout() {
    let b = next_header_block(5, 30, 0xB19E_9819);
    assert_eq!(b, vec![5, 0, 0, 0, 0, 0, 0, 0, 30, 0, 0, 0, 0, 0, 0, 0, 0x19, 0x98, 0x9E, 0xB1]);
}

#[test]
fn seal_start_header_prepends_checksum() {
    let fields = vec![1u8, 2, 3];
    assert_eq!(seal_start_header(&fields, 0x0403_0201), vec![1, 2, 3, 4, 1, 2, 3]);
}

#[test]
fn start_header_for_hello() {
    let h = header_of("a", 5);
    let r = start_header(5, &h);
    assert_eq!(
        r,
        vec![
            0xA3, 0xA0, 0xC3, 0x4C, 5, 0, 0, 0, 0, 0, 0, 0, 30, 0, 0, 0, 0, 0, 0, 0, 0x19, 0x98,
            0x9E, 0xB1,
        ]
    );
}

#[test]
fn archive_for_hello() {
    let a = archive_of("a", b"hello");
    let mut expected = vec![
        0x37, 0x7A, 0xBC, 0xAF, 0x27, 0x1C, 0x00, 0x04, 0xA3, 0xA0, 0xC3, 0x4C, 0x05, 0x00, 0x00,
        0x00, 0x00, 0x00, 0x00, 0x00, 0x1E, 0x00, 0x00, 0x00, 0x00, 0x00, 0x00, 0x00, 0x19, 0x98,
        0x9E, 0xB1,
    ];
    expected.extend_from_slice(b"hello");
    expected.extend_from_slice(&header_of("a", 5));
    assert_eq!(a, expected);
}

#[test]
fn archive_payload_verbatim() {
    let payload: Vec<u8> = (0..1000u32).map(|i| (i * 7 % 256) as u8).collect();
    let a = archive_of("data.bin", &payload);
    assert_eq!(&a[32..32 + payload.len()], payload.as_slice());
}

#[test]
fn archive_next_header_offset_is_length() {
    for len in [0usize, 1, 127, 128, 300, 70000] {
        let payload = vec![0x5Au8; len];
        let a = archive_of("f", &payload);
        assert_eq!(le64(&a[12..20]), len as u64);
    }
}

#[test]
fn archive_checksums() {
    let payload = b"some bytes to store".to_vec();
    let a = archive_of("notes.txt", &payload);
    let header = &a[32 + payload.len()..];
    assert_eq!(le64(&a[20..28]), header.len() as u64);
    assert_eq!(le32(&a[28..32]), crc::crc32::checksum_ieee(header));
    assert_eq!(le32(&a[8..12]), crc::crc32::checksum_ieee(&a[12..32]));
    assert_eq!(header, header_of("notes.txt", payload.len() as u64).as_slice());
}

#[test]
fn archive_empty_input() {
    let a = archive_of("a", b"");
    assert_eq!(
        a,
        vec![
            0x37, 0x7A, 0xBC, 0xAF, 0x27, 0x1C, 0x00, 0x04, 0x32, 0x18, 0xD1, 0x84, 0, 0, 0, 0, 0,
            0, 0, 0, 0x1E, 0, 0, 0, 0, 0, 0, 0, 0x0C, 0x0D, 0x1E, 0xDD, 0x01, 0x04, 0x06, 0x00,
            0x01, 0x09, 0x00, 0x00, 0x07, 0x0B, 0x01, 0x00, 0x01, 0x01, 0x00, 0x0C, 0x00, 0x00,
            0x00, 0x05, 0x01, 0x11, 0x05, 0x00, 0x61, 0x00, 0x00, 0x00, 0x00, 0x00,
        ]
    );
    assert_eq!(le64(&a[12..20]), 0);
}

#[test]
fn archive_appends_after_existing_bytes() {
    let mut out = vec![9u8, 9, 9];
    write_archive("a", b"hello", &mut out);
    assert_eq!(&out[..3], &[9, 9, 9]);
    assert_eq!(&out[3..], archive_of("a", b"hello").as_slice());
}
