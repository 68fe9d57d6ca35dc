use gofer::types::ItemType;

#[test]
fn named_tags_and_their_bytes() {
    let table = [
        (b'0', ItemType::File),
        (b'1', ItemType::Directory),
        (b'2', ItemType::CSO),
        (b'3', ItemType::Error),
        (b'4', ItemType::BinHex),
        (b'5', ItemType::DosBinary),
        (b'6', ItemType::Uuencoded),
        (b'7', ItemType::IndexSearch),
        (b'8', ItemType::Telnet),
        (b'9', ItemType::Binary),
        (b'+', ItemType::RedundantServer),
        (b'T', ItemType::Tn3270),
        (b'g', ItemType::Gif),
        (b'I', ItemType::Image),
        (b'd', ItemType::Document),
        (b'h', ItemType::HTML),
        (b'i', ItemType::Info),
        (b's', ItemType::Audio),
    ];
    for (byte, typ) in table {
        assert_eq!(ItemType::from_u8(byte), typ);
        assert_eq!(typ.into_u8(), byte);
    }
}

#[test]
fn every_byte_round_trips() {
    for byte in 0..=255u8 {
        assert_eq!(ItemType::from_u8(byte).into_u8(), byte);
    }
}

#[test]
fn unnamed_bytes_between_zero_and_z_are_reserved() {
    assert_eq!(ItemType::from_u8(b':'), ItemType::Reserved(b':'));
    assert_eq!(ItemType::from_u8(b'A'), ItemType::Reserved(b'A'));
    assert_eq!(ItemType::from_u8(b'Z'), ItemType::Reserved(b'Z'));
    assert_eq!(ItemType::Reserved(b'A').into_u8(), b'A');
}

#[test]
fn bytes_outside_that_range_are_other() {
    assert_eq!(ItemType::from_u8(b'/'), ItemType::Other(b'/'));
    assert_eq!(ItemType::from_u8(b'['), ItemType::Other(b'['));
    assert_eq!(ItemType::from_u8(b'a'), ItemType::Other(b'a'));
    assert_eq!(ItemType::from_u8(0), ItemType::Other(0));
    assert_eq!(ItemType::from_u8(255), ItemType::Other(255));
    assert_eq!(ItemType::Other(b'a').into_u8(), b'a');
}
