use sampan::trailer::is_readable;
use sampan::trailer::process_file;
use sampan::trailer::read_entries_count;
use sampan::trailer::read_entry_offset;
use sampan::trailer::resolve_min_offset;
use sampan::trailer::SefError;

fn put_u16(d: &mut Vec<u8>, pos: usize, v: u16) {
    d[pos] = (v & 0xff) as u8;
    d[pos + 1] = (v >> 8) as u8;
}

fn put_u32(d: &mut Vec<u8>, pos: usize, v: u32) {
    d[pos] = (v & 0xff) as u8;
    d[pos + 1] = ((v >> 8) & 0xff) as u8;
    d[pos + 2] = ((v >> 16) & 0xff) as u8;
    d[pos + 3] = ((v >> 24) & 0xff) as u8;
}

/// Builds a `len`-byte file with a trailer of the given version and entries.
/// Each entry is `(declared_type, recorded_type, data_offset)`: the declared
/// type goes in the descriptor, the recorded one at the entry's target.
fn build_panorama(len: usize, version: u32, entries: &[(u16, u16, u32)]) -> Vec<u8> {
    let count = entries.len();
    let tl = (12 + 12 * count) as u32;
    let frl = 20 + 12 * count;
    let mut d = vec![0u8; len];
    put_u32(&mut d, len - 8, tl);
    d[len - 4..].copy_from_slice(b"SEFT");
    let hp = len - 8 - tl as usize;
    d[hp..hp + 4].copy_from_slice(b"SEFH");
    put_u32(&mut d, hp + 4, version);
    put_u32(&mut d, hp + 8, count as u32);
    for (n, (declared, recorded, doff)) in entries.iter().enumerate() {
        let dpos = len - frl + 12 + n * 12;
        put_u16(&mut d, dpos + 2, *declared);
        put_u32(&mut d, dpos + 4, *doff);
        let tpos = len - (frl + *doff as usize);
        put_u16(&mut d, tpos + 2, *recorded);
    }
    d
}

#[test]
fn not_panorama_without_footer_magic() {
    let d = vec![0u8; 100];
    assert_eq!(read_entries_count(&d, false), Err(SefError::NotPanorama));
    assert_eq!(process_file(&d, false), Err(SefError::NotPanorama));
}

#[test]
fn not_panorama_without_header_magic() {
    let mut d = build_panorama(200, 101, &[]);
    let hp = 200 - 8 - 12;
    d[hp..hp + 4].copy_from_slice(b"XXXX");
    assert_eq!(read_entries_count(&d, false), Err(SefError::NotPanorama));
}

#[test]
fn not_panorama_even_when_forced() {
    let d = vec![7u8; 64];
    assert_eq!(process_file(&d, true), Err(SefError::NotPanorama));
    let mut bad_header = build_panorama(200, 101, &[]);
    let hp = 200 - 8 - 12;
    bad_header[hp..hp + 4].copy_from_slice(b"ABCD");
    assert_eq!(process_file(&bad_header, true), Err(SefError::NotPanorama));
}

#[test]
fn zero_entries_keeps_full_length() {
    let d = build_panorama(500, 101, &[]);
    assert_eq!(process_file(&d, false), Ok((0, 500)));
    assert_eq!(resolve_min_offset(&d, 0, false), Ok(500));
}

#[test]
fn entry_count_returned() {
    let d = build_panorama(1000, 106, &[(1, 1, 100), (2, 2, 200)]);
    assert_eq!(read_entries_count(&d, false), Ok(2));
}

#[test]
fn min_offset_of_consistent_entries() {
    let d = build_panorama(1000, 103, &[(5, 5, 100), (6, 6, 300), (7, 7, 200)]);
    // footer region is 20 + 3 * 12 = 56 bytes; the least offset comes from
    // the entry farthest from the end: 1000 - (56 + 300) = 644
    assert_eq!(process_file(&d, false), Ok((3, 644)));
}

#[test]
fn unsupported_version_rejected() {
    let d = build_panorama(300, 99, &[]);
    assert_eq!(read_entries_count(&d, false), Err(SefError::UnsupportedVersion(99)));
    assert_eq!(process_file(&d, false), Err(SefError::UnsupportedVersion(99)));
}

#[test]
fn force_overrides_unsupported_version() {
    let d = build_panorama(300, 999, &[(4, 4, 50)]);
    assert_eq!(process_file(&d, true), Ok((1, 300 - 32 - 50)));
}

#[test]
fn supported_versions_accepted() {
    for v in [101u32, 103, 105, 106] {
        let d = build_panorama(400, v, &[]);
        assert_eq!(process_file(&d, false), Ok((0, 400)));
    }
}

#[test]
fn type_mismatch_rejected() {
    let d = build_panorama(1000, 101, &[(5, 7, 100)]);
    assert_eq!(process_file(&d, false), Err(SefError::TypeMismatch(7, 5)));
}

#[test]
fn force_overrides_type_mismatch() {
    let d = build_panorama(1000, 101, &[(5, 7, 100)]);
    // the mismatched entry's own offset is still used
    assert_eq!(process_file(&d, true), Ok((1, 1000 - 32 - 100)));
}

#[test]
fn first_mismatch_reported() {
    let d = build_panorama(1000, 105, &[(1, 1, 100), (2, 9, 200), (3, 8, 300)]);
    assert_eq!(process_file(&d, false), Err(SefError::TypeMismatch(9, 2)));
}

#[test]
fn resolver_exact_offset() {
    // 1000-byte file, footer trailer_length = 24, version 101, one entry:
    // descriptor type 5, data offset 0, so the entry's data starts at
    // 1000 - (20 + 12) = 968, where bytes 2..4 record type 5
    let len = 1000;
    let mut d = vec![0u8; len];
    put_u32(&mut d, len - 8, 24);
    d[len - 4..].copy_from_slice(b"SEFT");
    put_u16(&mut d, 968 + 2, 5);
    put_u32(&mut d, 972, 101);
    put_u32(&mut d, 976, 1);
    let dpos = len - 32 + 12;
    put_u16(&mut d, dpos + 2, 5);
    put_u32(&mut d, dpos + 4, 0);
    assert_eq!(read_entry_offset(&d, 0, 1, false), Ok(968));
}

#[test]
fn resolver_type_mismatch() {
    // same file, but the target bytes record type 7 instead of 5
    let len = 1000;
    let mut d = vec![0u8; len];
    put_u32(&mut d, len - 8, 24);
    d[len - 4..].copy_from_slice(b"SEFT");
    put_u16(&mut d, 968 + 2, 7);
    put_u32(&mut d, 972, 101);
    put_u32(&mut d, 976, 1);
    let dpos = len - 32 + 12;
    put_u16(&mut d, dpos + 2, 5);
    put_u32(&mut d, dpos + 4, 0);
    assert_eq!(read_entry_offset(&d, 0, 1, false), Err(SefError::TypeMismatch(7, 5)));
}

#[test]
fn readable_rejects_short_files() {
    assert!(!is_readable(&vec![0u8; 7], false));
    assert!(is_readable(&vec![0u8; 8], false));
}

#[test]
fn readable_accepts_well_formed() {
    let d = build_panorama(1000, 101, &[(5, 5, 100)]);
    assert!(is_readable(&d, false));
}

#[test]
fn readable_rejects_oversized_trailer_length() {
    let mut d = vec![0u8; 100];
    put_u32(&mut d, 92, 200);
    d[96..].copy_from_slice(b"SEFT");
    assert!(!is_readable(&d, false));
}

#[test]
fn readable_rejects_oversized_entry_offset() {
    let mut d = build_panorama(1000, 101, &[(5, 5, 100)]);
    let dpos = 1000 - 32 + 12;
    put_u32(&mut d, dpos + 4, 5000);
    assert!(!is_readable(&d, false));
}

#[test]
fn readable_accepts_foreign_files() {
    // a file without the footer tag is never read past the footer
    assert!(is_readable(&vec![9u8; 40], false));
}
