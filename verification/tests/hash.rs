use guploadsync::hash_utils::{
    compute_md5, modified_rfc3339, modified_unix_timestamp, to_hex, ContentHasher, TimestampError,
};

#[test]
fn md5_of_the_empty_content() {
    assert_eq!(compute_md5(b""), "d41d8cd98f00b204e9800998ecf8427e");
}

#[test]
fn md5_of_the_alphabet() {
    assert_eq!(
        compute_md5(b"abcdefghijklmnopqrstuvwxyz"),
        "c3fcd3d76192e4007dfb496cca67e13b"
    );
}

#[test]
fn md5_of_a_message() {
    assert_eq!(compute_md5(b"message digest"), "f96b697d7cb7938d525a2f31aaf161d0");
}

#[test]
fn md5_of_pieces_is_that_of_the_whole() {
    let content: Vec<u8> = (0..20000u32).map(|i| (i * 7 % 251) as u8).collect();
    let mut hasher = ContentHasher::new();
    for piece in content.chunks(8192) {
        hasher.consume(piece);
    }
    assert_eq!(hasher.finish(), compute_md5(&content));
}

#[test]
fn fingerprints_have_one_length() {
    assert_eq!(ContentHasher::new().finish().len(), 32);
    for n in [1usize, 63, 64, 65, 8192] {
        assert_eq!(compute_md5(&vec![0u8; n]).len(), 32);
    }
}

#[test]
fn hexadecimal_has_two_digits_for_each_byte() {
    assert_eq!(to_hex(&[0, 9, 10, 15, 16, 171, 255]), "00090a0f10abff");
    assert_eq!(to_hex(&[]), "");
}

#[test]
fn timestamps_are_unix_seconds() {
    assert_eq!(modified_unix_timestamp(Some(0)), Ok(0));
    assert_eq!(modified_unix_timestamp(Some(1_700_000_000)), Ok(1_700_000_000));
    assert_eq!(modified_unix_timestamp(Some(i64::MAX as u64)), Ok(i64::MAX));
    assert_eq!(modified_unix_timestamp(Some(u64::MAX)), Ok(-1));
    assert_eq!(modified_unix_timestamp(None), Err(TimestampError::BeforeEpoch));
}

#[test]
fn times_are_written_as_rfc3339() {
    assert_eq!(modified_rfc3339(0, 0).unwrap(), "1970-01-01T00:00:00+00:00");
    assert_eq!(
        modified_rfc3339(1_700_000_000, 123_456_789).unwrap(),
        "2023-11-14T22:13:20.123456789+00:00"
    );
    assert_eq!(modified_rfc3339(-1, 0).unwrap(), "1969-12-31T23:59:59+00:00");
}

#[test]
fn times_end_with_the_calendar() {
    assert!(modified_rfc3339(8_210_266_876_799, 999_999_999).is_some());
    assert!(modified_rfc3339(-8_334_601_228_800, 0).is_some());
    assert!(modified_rfc3339(8_210_266_876_800, 0).is_none());
    assert!(modified_rfc3339(-8_334_601_228_801, 0).is_none());
    assert!(modified_rfc3339(0, 2_000_000_000).is_none());
}
