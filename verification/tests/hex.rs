use stack_rewrite::ids::ObjectId;

fn id(byte: u8) -> ObjectId {
    ObjectId { bytes: [byte; 20] }
}

#[test]
fn hex_text_of_an_id_is_forty_lower_case_digits() {
    let mut bytes = [0u8; 20];
    bytes[0] = 0xa9;
    bytes[1] = 0x9c;
    bytes[19] = 0x0f;
    let text = ObjectId { bytes }.to_hex();
    assert_eq!(text, "a99c00000000000000000000000000000000000f");
}

#[test]
fn hex_text_is_read_back() {
    let text = "a99c95cca7a60f1a2180c2f86fb18af97333c192";
    let parsed = ObjectId::from_hex(text).unwrap();
    assert_eq!(parsed.bytes[0], 0xa9);
    assert_eq!(parsed.bytes[19], 0x92);
    assert_eq!(parsed.to_hex(), text);
}

#[test]
fn upper_case_digits_are_read() {
    let parsed = ObjectId::from_hex("ABCDEF0000000000000000000000000000000000").unwrap();
    assert_eq!(parsed.bytes[0], 0xab);
    assert_eq!(parsed.bytes[2], 0xef);
    assert_eq!(parsed.to_hex(), "abcdef0000000000000000000000000000000000");
}

#[test]
fn text_that_is_no_id_is_refused() {
    assert_eq!(ObjectId::from_hex(""), None);
    assert_eq!(ObjectId::from_hex("a99c95cca7a60f1a2180c2f86fb18af97333c19"), None);
    assert_eq!(ObjectId::from_hex("a99c95cca7a60f1a2180c2f86fb18af97333c1920"), None);
    assert_eq!(ObjectId::from_hex("g99c95cca7a60f1a2180c2f86fb18af97333c192"), None);
    assert_eq!(ObjectId::from_hex("é99c95cca7a60f1a2180c2f86fb18af97333c19"), None);
}

#[test]
fn ids_compare_by_their_bytes() {
    assert!(id(1).same_as(&id(1)));
    assert!(!id(1).same_as(&id(2)));
    let mut bytes = [1u8; 20];
    bytes[19] = 2;
    assert!(!id(1).same_as(&ObjectId { bytes }));
}
