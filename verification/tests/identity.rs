use signaller::identity::parse_identity;
use signaller::SignalError;

#[test]
fn hyphenated_uuid_gives_its_128_bits() {
    assert_eq!(
        parse_identity("a1a2a3a4-b1b2-c1c2-d1d2-d3d4d5d6d7d8"),
        Ok(0xa1a2a3a4b1b2c1c2d1d2d3d4d5d6d7d8)
    );
}

#[test]
fn nil_uuid_is_zero() {
    assert_eq!(parse_identity("00000000-0000-0000-0000-000000000000"), Ok(0));
}

#[test]
fn small_uuid_is_its_number() {
    assert_eq!(parse_identity("00000000-0000-0000-0000-00000000002a"), Ok(42));
}

#[test]
fn all_ones_uuid_is_the_largest_identity() {
    assert_eq!(parse_identity("ffffffff-ffff-ffff-ffff-ffffffffffff"), Ok(u128::MAX));
}

#[test]
fn hex_digits_may_be_upper_case() {
    assert_eq!(
        parse_identity("F9168C5E-CEB2-4FAA-B6BF-329BF39FA1E4"),
        parse_identity("f9168c5e-ceb2-4faa-b6bf-329bf39fa1e4")
    );
    assert_eq!(
        parse_identity("F9168C5E-CEB2-4FAA-B6BF-329BF39FA1E4"),
        Ok(0xf9168c5eceb24faab6bf329bf39fa1e4)
    );
}

#[test]
fn every_text_form_of_one_uuid_gives_one_identity() {
    let expected = Ok(0x67e5504410b1426f9247bb680e5fe0c8);
    assert_eq!(parse_identity("67e55044-10b1-426f-9247-bb680e5fe0c8"), expected);
    assert_eq!(parse_identity("67e5504410b1426f9247bb680e5fe0c8"), expected);
    assert_eq!(parse_identity("urn:uuid:67e55044-10b1-426f-9247-bb680e5fe0c8"), expected);
    assert_eq!(parse_identity("{67e55044-10b1-426f-9247-bb680e5fe0c8}"), expected);
}

#[test]
fn different_uuids_give_different_identities() {
    assert_ne!(
        parse_identity("00000000-0000-0000-0000-000000000001"),
        parse_identity("00000000-0000-0000-0000-000000000002")
    );
}

#[test]
fn empty_text_is_no_identity() {
    assert_eq!(parse_identity(""), Err(SignalError::MalformedIdentity));
}

#[test]
fn a_plain_name_is_no_identity() {
    assert_eq!(parse_identity("A"), Err(SignalError::MalformedIdentity));
    assert_eq!(parse_identity("alice"), Err(SignalError::MalformedIdentity));
}

#[test]
fn a_uuid_with_a_wrong_digit_is_no_identity() {
    assert_eq!(
        parse_identity("F9168C5E-CEB2-4faa-BGBF-329BF39FA1E4"),
        Err(SignalError::MalformedIdentity)
    );
}

#[test]
fn a_uuid_that_is_too_short_or_too_long_is_no_identity() {
    assert_eq!(
        parse_identity("67e5504410b1426f9247bb680e5fe0c"),
        Err(SignalError::MalformedIdentity)
    );
    assert_eq!(
        parse_identity("67e5504410b1426f9247bb680e5fe0c88"),
        Err(SignalError::MalformedIdentity)
    );
    assert_eq!(
        parse_identity("00000000-0000-0000-0000-0000000000010"),
        Err(SignalError::MalformedIdentity)
    );
}

#[test]
fn a_uuid_with_surrounding_blanks_is_no_identity() {
    assert_eq!(
        parse_identity(" 00000000-0000-0000-0000-000000000001"),
        Err(SignalError::MalformedIdentity)
    );
}
