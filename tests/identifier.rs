use enclave_id::hex::push_hex;
use enclave_id::text::strip_white_space;
use enclave_id::{enclave_id_from_asset_tag, get_slot_id, host_fingerprint};

#[test]
fn test_generate_enclave_id() {
    let slot_id: u64 = 7;
    let enc_id = enclave_id_from_asset_tag(None, slot_id);
    assert!(enc_id.eq(&format!("i-0000000000000000-enc{:?}", slot_id)));

    let enc_id = enclave_id_from_asset_tag(Some("ABC123\n"), slot_id);
    assert!(!enc_id
        .split("-")
        .collect::<Vec<&str>>()
        .get(1)
        .unwrap()
        .eq(&"0000000000000000"));
}

#[test]
fn test_get_slot_id_valid() {
    let slot_id: u64 = 8;
    let enc_id = enclave_id_from_asset_tag(None, slot_id);
    let result = get_slot_id(enc_id);
    assert!(result.is_ok());
    assert_eq!(slot_id, result.unwrap());
}

#[test]
fn test_get_slot_id_invalid() {
    let enclave_id = String::from("i-0000_enc1234");
    let result = get_slot_id(enclave_id);

    assert!(result.is_err());
    if let Err(err_str) = result {
        assert!(err_str.eq("Invalid enclave_id."));
    }
}

#[test]
fn absent_tag_uses_sentinel() {
    assert_eq!(enclave_id_from_asset_tag(None, 0), "i-0000000000000000-enc0");
    assert_eq!(enclave_id_from_asset_tag(None, 255), "i-0000000000000000-encff");
    assert_eq!(
        enclave_id_from_asset_tag(None, u64::MAX),
        "i-0000000000000000-encffffffffffffffff"
    );
}

#[test]
fn padded_tag_is_stripped() {
    assert_eq!(enclave_id_from_asset_tag(Some("  ABC123 \n"), 7), "ABC123-enc7");
    assert_eq!(enclave_id_from_asset_tag(Some("  ABC123 \n"), 0x1234), "ABC123-enc1234");
    assert_eq!(enclave_id_from_asset_tag(Some(" A B\tC\r\n1 2 3 "), 16), "ABC123-enc10");
}

#[test]
fn fingerprint_drops_unicode_white_space() {
    assert_eq!(host_fingerprint(Some("\u{3000}tag\u{a0}01\u{2028}")), "tag01");
    assert_eq!(host_fingerprint(None), "i-0000000000000000");
    assert_eq!(host_fingerprint(Some(" \t\n")), "");
    assert_eq!(strip_white_space("a b"), "ab");
}

#[test]
fn hex_is_lowercase_without_padding() {
    let mut s = String::from("x");
    push_hex(&mut s, 0xabc0);
    assert_eq!(s, "xabc0");
    let mut s = String::new();
    push_hex(&mut s, 7);
    assert_eq!(s, "7");
}

#[test]
fn round_trip_absent_and_present() {
    for slot in [0u64, 1, 7, 8, 15, 16, 255, 0xdead_beef, u64::MAX - 1, u64::MAX] {
        assert_eq!(get_slot_id(enclave_id_from_asset_tag(None, slot)), Ok(slot));
        assert_eq!(
            get_slot_id(enclave_id_from_asset_tag(Some("  ABC123 \n"), slot)),
            Ok(slot)
        );
        assert_eq!(
            get_slot_id(enclave_id_from_asset_tag(Some("host-e-en-nc"), slot)),
            Ok(slot)
        );
    }
}

#[test]
fn tag_holding_delimiter_breaks_round_trip() {
    let id = enclave_id_from_asset_tag(Some("x-enc5"), 7);
    assert_eq!(id, "x-enc5-enc7");
    assert_eq!(get_slot_id(id), Ok(5));
}

#[test]
fn underscore_is_no_delimiter() {
    assert_eq!(
        get_slot_id(String::from("i-0000_enc1234")),
        Err(String::from("Invalid enclave_id."))
    );
    assert_eq!(get_slot_id(String::new()), Err(String::from("Invalid enclave_id.")));
    assert_eq!(get_slot_id(String::from("-en")), Err(String::from("Invalid enclave_id.")));
}

#[test]
fn non_hex_slot_is_rejected() {
    assert_eq!(
        get_slot_id(String::from("abc-encXYZ")),
        Err(String::from("Invalid enclave id format"))
    );
    assert_eq!(
        get_slot_id(String::from("abc-enc+ff")),
        Err(String::from("Invalid enclave id format"))
    );
    assert_eq!(
        get_slot_id(String::from("abc-enc1 ")),
        Err(String::from("Invalid enclave id format"))
    );
}

#[test]
fn empty_slot_is_rejected() {
    assert_eq!(
        get_slot_id(String::from("abc-enc")),
        Err(String::from("Invalid enclave id format"))
    );
    assert_eq!(
        get_slot_id(String::from("abc-enc-enc5")),
        Err(String::from("Invalid enclave id format"))
    );
}

#[test]
fn overflowing_slot_is_rejected() {
    assert_eq!(
        get_slot_id(String::from("abc-enc10000000000000000")),
        Err(String::from("Invalid enclave id format"))
    );
    assert_eq!(
        get_slot_id(String::from("abc-encffffffffffffffff")),
        Ok(u64::MAX)
    );
    assert_eq!(get_slot_id(String::from("abc-enc0000000000000000001")), Ok(1));
}

#[test]
fn uppercase_slot_is_accepted() {
    assert_eq!(get_slot_id(String::from("abc-encFF")), Ok(255));
    assert_eq!(get_slot_id(String::from("abc-encAbC")), Ok(0xabc));
}

#[test]
fn first_delimiter_wins() {
    assert_eq!(get_slot_id(String::from("a-enc12-enc34")), Ok(0x12));
    assert_eq!(get_slot_id(String::from("a--enc9")), Ok(9));
}
