use bytes::BytesMut;
use gofer::menu::{MenuItem, MenuItemDecoder, MenuItemEncoder, MenuItemParseError};
use gofer::types::ItemType;

#[test]
fn test_parse_menuitem() {
    let mut buf = BytesMut::from("1text\tselector\thost\tport\r\n");
    let item = MenuItemDecoder::new().decode(&mut buf).unwrap().unwrap();
    assert_eq!(ItemType::Directory, item.typ);
    assert_eq!("text", item.text);
    assert_eq!("selector", item.selector);
    assert_eq!(Some("host"), item.host.as_deref());
    assert_eq!(Some("port"), item.port.as_deref());
    assert_eq!(buf.len(), 0);
}

#[test]
fn test_parse_menuitem_incomplete() {
    let mut buf = BytesMut::from("1text\tselector\r\n");
    let item = MenuItemDecoder::new().decode(&mut buf).unwrap().unwrap();
    assert_eq!(ItemType::Directory, item.typ);
    assert_eq!("text", item.text);
    assert_eq!("selector", item.selector);
    assert_eq!(None, item.host);
    assert_eq!(None, item.port);
    assert_eq!(buf.len(), 0);
}

#[test]
fn test_parse_info_short() {
    let mut buf = BytesMut::from("itext\r\n");
    let item = MenuItemDecoder::new().decode(&mut buf).unwrap().unwrap();
    assert_eq!(ItemType::Info, item.typ);
    assert_eq!("text", item.text);
    assert_eq!("", item.selector);
    assert_eq!(None, item.host);
    assert_eq!(None, item.port);
    assert_eq!(buf.len(), 0);
}

#[test]
fn test_parse_info_only_line() {
    let mut buf = BytesMut::from("i\r\n");
    let item = MenuItemDecoder::new().decode(&mut buf).unwrap().unwrap();
    assert_eq!(ItemType::Info, item.typ);
    assert_eq!("", item.text);
    assert_eq!("", item.selector);
    assert_eq!(None, item.host);
    assert_eq!(None, item.port);
    assert_eq!(buf.len(), 0);
}

#[test]
fn test_parse_only_newline() {
    let mut buf = BytesMut::from("\r\n");
    let item = MenuItemDecoder::new().decode(&mut buf).unwrap().unwrap();
    assert_eq!(ItemType::Info, item.typ);
    assert_eq!("", item.text);
    assert_eq!("", item.selector);
    assert_eq!(None, item.host);
    assert_eq!(None, item.port);
    assert_eq!(buf.len(), 0);
}

#[test]
fn test_parse_bad_type() {
    let mut buf = BytesMut::from("\t\r\n");
    match MenuItemDecoder::new().decode(&mut buf) {
        Err(MenuItemParseError::Message(_)) => (),
        other => panic!("unexpected {:?}", other),
    }
}

#[test]
fn test_parse_extra_garbage() {
    let mut buf = BytesMut::from("itext\tselector\thost\tport\tspaghetti\r\n");
    match MenuItemDecoder::new().decode(&mut buf) {
        Err(MenuItemParseError::Message(_)) => (),
        other => panic!("unexpected {:?}", other),
    }
}

#[test]
fn test_parse_truncated() {
    let mut buf = BytesMut::from("itext\tselector\thost\tport"); // missing CR-LF
    match MenuItemDecoder::new().decode(&mut buf) {
        Ok(None) => (),
        other => panic!("unexpected {:?}", other),
    }
}

#[test]
fn line_arriving_in_fragments() {
    let mut decoder = MenuItemDecoder::new();
    let mut buf = BytesMut::from("1te");
    assert!(decoder.decode(&mut buf).unwrap().is_none());
    assert_eq!(buf.len(), 0);
    assert_eq!(decoder.fields_parsed(), 0);
    assert_eq!(decoder.pending_len(), 3);

    buf.extend_from_slice(b"xt\tsel");
    assert!(decoder.decode(&mut buf).unwrap().is_none());
    assert_eq!(decoder.fields_parsed(), 1);

    buf.extend_from_slice(b"ector\thost\tpo");
    assert!(decoder.decode(&mut buf).unwrap().is_none());
    assert_eq!(decoder.fields_parsed(), 3);

    buf.extend_from_slice(b"rt\r");
    assert!(decoder.decode(&mut buf).unwrap().is_none());

    buf.extend_from_slice(b"\n0next");
    let item = decoder.decode(&mut buf).unwrap().unwrap();
    assert_eq!(ItemType::Directory, item.typ);
    assert_eq!("text", item.text);
    assert_eq!("selector", item.selector);
    assert_eq!(Some("host"), item.host.as_deref());
    assert_eq!(Some("port"), item.port.as_deref());
    assert_eq!(buf, "0next");
    assert_eq!(decoder.fields_parsed(), 0);
    assert_eq!(decoder.pending_len(), 0);
}

#[test]
fn two_lines_in_one_buffer() {
    let mut decoder = MenuItemDecoder::new();
    let mut buf = BytesMut::from("ifirst\r\n0second\t/s\r\n");
    let first = decoder.decode(&mut buf).unwrap().unwrap();
    assert_eq!("first", first.text);
    assert_eq!(buf, "0second\t/s\r\n");
    let second = decoder.decode(&mut buf).unwrap().unwrap();
    assert_eq!(ItemType::File, second.typ);
    assert_eq!("/s", second.selector);
    assert!(decoder.decode(&mut buf).unwrap().is_none());
}

#[test]
fn line_ended_by_lf_alone() {
    let mut buf = BytesMut::from("1text\tsel\n");
    let item = MenuItemDecoder::new().decode(&mut buf).unwrap().unwrap();
    assert_eq!("text", item.text);
    assert_eq!("sel", item.selector);
}

#[test]
fn three_fields_give_a_host_and_no_port() {
    let mut buf = BytesMut::from("1text\tsel\thost\r\n");
    let item = MenuItemDecoder::new().decode(&mut buf).unwrap().unwrap();
    assert_eq!(Some("host"), item.host.as_deref());
    assert_eq!(None, item.port);
}

#[test]
fn tab_at_the_end_leaves_the_next_field_absent() {
    let mut buf = BytesMut::from("1text\tsel\t\r\n");
    let item = MenuItemDecoder::new().decode(&mut buf).unwrap().unwrap();
    assert_eq!("sel", item.selector);
    assert_eq!(None, item.host);

    let mut buf = BytesMut::from("1text\tsel\thost\tport\t\r\n");
    let item = MenuItemDecoder::new().decode(&mut buf).unwrap().unwrap();
    assert_eq!(Some("port"), item.port.as_deref());
}

#[test]
fn empty_field_in_the_middle_is_present() {
    let mut buf = BytesMut::from("1text\t\t\t70\r\n");
    let item = MenuItemDecoder::new().decode(&mut buf).unwrap().unwrap();
    assert_eq!("", item.selector);
    assert_eq!(Some(""), item.host.as_deref());
    assert_eq!(Some("70"), item.port.as_deref());
}

#[test]
fn bad_type_message_shows_the_byte() {
    let mut buf = BytesMut::from("\t\r\n");
    match MenuItemDecoder::new().decode(&mut buf) {
        Err(MenuItemParseError::Message(reason)) => assert_eq!(reason, "invalid item type '\\t'"),
        other => panic!("unexpected {:?}", other),
    }
    assert_eq!(buf.len(), 0);
}

#[test]
fn nul_and_cr_are_no_item_types() {
    let mut buf = BytesMut::from("\0text\r\n");
    match MenuItemDecoder::new().decode(&mut buf) {
        Err(MenuItemParseError::Message(_)) => (),
        other => panic!("unexpected {:?}", other),
    }
    let mut buf = BytesMut::from("\rtext\r\n");
    match MenuItemDecoder::new().decode(&mut buf) {
        Err(MenuItemParseError::Message(_)) => (),
        other => panic!("unexpected {:?}", other),
    }
}

#[test]
fn garbage_message_shows_what_follows_the_port() {
    let mut buf = BytesMut::from("itext\tselector\thost\tport\tspaghetti\r\n");
    match MenuItemDecoder::new().decode(&mut buf) {
        Err(MenuItemParseError::Message(reason)) => {
            assert_eq!(reason, "extra garbage at end of line: Ok(\"spaghetti\")");
        }
        other => panic!("unexpected {:?}", other),
    }
}

#[test]
fn field_that_is_not_utf8_is_rejected() {
    let mut decoder = MenuItemDecoder::new();
    let mut buf = BytesMut::from(&b"1te\xffxt\tsel\r\niok\r\n"[..]);
    match decoder.decode(&mut buf) {
        Err(MenuItemParseError::Utf8(_)) => (),
        other => panic!("unexpected {:?}", other),
    }
    // The bad line is gone, the next one is read as usual.
    let item = decoder.decode(&mut buf).unwrap().unwrap();
    assert_eq!("ok", item.text);
}

#[test]
fn unnamed_type_bytes_are_kept() {
    let mut buf = BytesMut::from(":text\r\n");
    let item = MenuItemDecoder::new().decode(&mut buf).unwrap().unwrap();
    assert_eq!(ItemType::Reserved(b':'), item.typ);
    let mut buf = BytesMut::from("~text\r\n");
    let item = MenuItemDecoder::new().decode(&mut buf).unwrap().unwrap();
    assert_eq!(ItemType::Other(b'~'), item.typ);
}

#[test]
fn encode_writes_all_four_fields() {
    let item = MenuItem::new(
        ItemType::File,
        "About".to_string(),
        "/about.txt".to_string(),
        "host.example".to_string(),
        "70".to_string(),
    );
    let mut dst = BytesMut::from("x");
    MenuItemEncoder.encode(item, &mut dst).unwrap();
    assert_eq!(dst, "x0About\t/about.txt\thost.example\t70\r\n");
}

#[test]
fn encode_fills_in_for_absent_host_and_port() {
    let mut dst = BytesMut::new();
    MenuItemEncoder.encode(MenuItem::info("Welcome".to_string()), &mut dst).unwrap();
    assert_eq!(dst, "iWelcome\t\terror.host\t1\r\n");
}

#[test]
fn encode_then_decode_gives_the_item_back() {
    let mut buf = BytesMut::new();
    let item = MenuItem::new(
        ItemType::Gif,
        "A picture".to_string(),
        "/pics/a.gif".to_string(),
        "host.example".to_string(),
        "7070".to_string(),
    );
    MenuItemEncoder.encode(item, &mut buf).unwrap();
    let back = MenuItemDecoder::new().decode(&mut buf).unwrap().unwrap();
    assert_eq!(ItemType::Gif, back.typ);
    assert_eq!("A picture", back.text);
    assert_eq!("/pics/a.gif", back.selector);
    assert_eq!(Some("host.example"), back.host.as_deref());
    assert_eq!(Some("7070"), back.port.as_deref());
    assert_eq!(buf.len(), 0);
}

#[test]
fn decode_then_encode_gives_the_line_back() {
    let line = "hHome page\tURL:http://x.example\tx.example\t80\r\n";
    let mut buf = BytesMut::from(line);
    let item = MenuItemDecoder::new().decode(&mut buf).unwrap().unwrap();
    let mut dst = BytesMut::new();
    MenuItemEncoder.encode(item, &mut dst).unwrap();
    assert_eq!(dst, line);
}

#[test]
fn item_with_empty_port_does_not_come_back_whole() {
    let mut buf = BytesMut::new();
    let item = MenuItem::new(
        ItemType::File,
        "t".to_string(),
        "s".to_string(),
        "h".to_string(),
        String::new(),
    );
    MenuItemEncoder.encode(item, &mut buf).unwrap();
    let back = MenuItemDecoder::new().decode(&mut buf).unwrap().unwrap();
    assert_eq!(Some("h"), back.host.as_deref());
    assert_eq!(None, back.port);
}

#[test]
fn a_line_fits_in_a_buffer_of_any_real_size() {
    let item = MenuItem::info("Welcome".to_string());
    let dst = BytesMut::from("some bytes");
    assert!(MenuItemEncoder.fits(&item, &dst));
}

#[test]
fn source_that_ends_in_the_middle_of_a_line() {
    let mut decoder = MenuItemDecoder::new();
    let mut buf = BytesMut::from("ifirst\r\nisecond");
    let first = decoder.decode_eof(&mut buf).unwrap().unwrap();
    assert_eq!("first", first.text);
    match decoder.decode_eof(&mut buf) {
        Err(MenuItemParseError::Io(e)) => assert_eq!(e.to_string(), "bytes remaining on stream"),
        other => panic!("unexpected {:?}", other),
    }
    assert_eq!(decoder.pending_len(), 0);
    assert!(decoder.decode_eof(&mut buf).unwrap().is_none());
}

#[test]
fn source_that_ends_after_a_line() {
    let mut decoder = MenuItemDecoder::new();
    let mut buf = BytesMut::from("ionly\r\n");
    assert_eq!("only", decoder.decode_eof(&mut buf).unwrap().unwrap().text);
    assert!(decoder.decode_eof(&mut buf).unwrap().is_none());
}
