use nexa::packager::{frame_nxb, nxb_payload, PackageError, NXB_FORMAT_VERSION};

#[test]
fn framed_payload_reads_back() {
    let payload = vec![7u8, 0, 255, 42];
    let bytes = frame_nxb(&payload);
    assert!(bytes.starts_with(b"NXB\x01"));
    assert_eq!(bytes.len(), 8);
    assert_eq!(nxb_payload(&bytes), Ok(payload));
}

#[test]
fn empty_payload_frames_to_header_only() {
    let bytes = frame_nxb(&[]);
    assert_eq!(bytes, b"NXB\x01".to_vec());
    assert_eq!(nxb_payload(&bytes), Ok(vec![]));
}

#[test]
fn header_with_other_magic_is_refused() {
    assert_eq!(nxb_payload(b"XXXX\x00\x00\x00\x00"), Err(PackageError::BadMagic));
}

#[test]
fn header_shorter_than_four_bytes_is_refused() {
    assert_eq!(nxb_payload(b"NXB"), Err(PackageError::BadMagic));
    assert_eq!(nxb_payload(b""), Err(PackageError::BadMagic));
}

#[test]
fn header_with_other_version_is_refused() {
    let mut bytes = frame_nxb(&[1, 2, 3]);
    bytes[3] = 99;
    assert_eq!(nxb_payload(&bytes), Err(PackageError::FormatVersion { found: 99, supported: 1 }));
    bytes[3] = 0;
    assert!(matches!(nxb_payload(&bytes), Err(PackageError::FormatVersion { found: 0, .. })));
    assert_eq!(NXB_FORMAT_VERSION, 1);
}
