use bytes::BytesMut;
use gofer::menu::{Menu, MenuItem};
use gofer::response::Response;
use gofer::types::ItemType;

#[test]
fn menu_is_its_lines_and_the_end_mark() {
    let menu = Menu::new(vec![
        MenuItem::info("Hello".to_string()),
        MenuItem::new(
            ItemType::Directory,
            "Docs".to_string(),
            "/docs".to_string(),
            "host.example".to_string(),
            "70".to_string(),
        ),
    ]);
    let mut w = BytesMut::new();
    Response::Menu(menu).write(&mut w).unwrap();
    assert_eq!(w, "iHello\t\terror.host\t1\r\n1Docs\t/docs\thost.example\t70\r\n.\r\n");
}

#[test]
fn empty_menu_is_the_end_mark_alone() {
    let mut w = BytesMut::new();
    Response::Menu(Menu::new(Vec::new())).write(&mut w).unwrap();
    assert_eq!(w, ".\r\n");
}

#[test]
fn file_and_raw_bytes_are_sent_as_they_are() {
    let mut w = BytesMut::from("x");
    Response::File(vec![0, 1, 2, 255]).write(&mut w).unwrap();
    assert_eq!(&w[..], &[b'x', 0, 1, 2, 255][..]);

    let mut w = BytesMut::new();
    Response::Raw(b"<html>\r\n.\r\n".to_vec()).write(&mut w).unwrap();
    assert_eq!(w, "<html>\r\n.\r\n");
}

#[test]
fn error_is_one_error_item_and_the_end_mark() {
    let mut w = BytesMut::new();
    Response::Error("not found".to_string()).write(&mut w).unwrap();
    assert_eq!(w, "3not found\terror\terror.host\t1\r\n.\r\n");
}

#[test]
fn io_error_shows_nothing_of_itself() {
    let error = std::io::Error::new(
        std::io::ErrorKind::PermissionDenied,
        "/srv/gopher/secret/passwords.txt: permission denied",
    );
    let response = Response::from_io_error(error);
    match &response {
        Response::Error(message) => assert_eq!(message, "I/O error"),
        _ => panic!("an I/O error is answered with an error message"),
    }
    let mut w = BytesMut::new();
    response.write(&mut w).unwrap();
    assert_eq!(w, "3I/O error\terror\terror.host\t1\r\n.\r\n");
    let sent = String::from_utf8(w.to_vec()).unwrap();
    assert!(!sent.contains("secret"));
    assert!(!sent.contains("permission denied"));
}

#[test]
fn responses_fit_in_a_buffer_of_any_real_size() {
    let w = BytesMut::from("held");
    assert!(Response::Error("not found".to_string()).fits(&w));
    assert!(Response::Raw(vec![1, 2, 3]).fits(&w));
    assert!(Response::File(Vec::new()).fits(&w));
    let menu = Menu::new(vec![MenuItem::info("a".to_string()), MenuItem::info("b".to_string())]);
    assert!(Response::Menu(menu).fits(&w));
}
