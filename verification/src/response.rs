//! What the server sends back, and its bytes on the wire.

use crate::buffer::contents;
use crate::menu::{line_len, put_byte, wire_line, write_item, Menu, MenuItem, MenuItemView};
use crate::request::{CR, LF};
use crate::types::ItemType;
use bytes::BytesMut;
use vstd::prelude::*;
use vstd::utf8::{encode_utf8, is_ascii_chars, is_ascii_chars_encode_utf8};

verus! {

pub enum Response {
    /// A listing: one line per item, then the end mark.
    Menu(Menu),
    /// The bytes of a file, sent as they are.
    File(Vec<u8>),
    /// Bytes that the caller made up, sent as they are.
    Raw(Vec<u8>),
    /// A message for the client, sent as a menu of one error item.
    Error(String),
}

/// A response as plain values.
pub enum ResponseView {
    Menu(Seq<MenuItemView>),
    File(Seq<u8>),
    Raw(Seq<u8>),
    Error(Seq<char>),
}

/// The items as plain values.
pub open spec fn views_of(items: Seq<MenuItem>) -> Seq<MenuItemView> {
    items.map_values(|item: MenuItem| item@)
}

impl View for Response {
    type V = ResponseView;

    open spec fn view(&self) -> ResponseView {
        match self {
            Response::Menu(menu) => ResponseView::Menu(views_of(menu.items@)),
            Response::File(bytes) => ResponseView::File(bytes@),
            Response::Raw(bytes) => ResponseView::Raw(bytes@),
            Response::Error(message) => ResponseView::Error(message@),
        }
    }
}

/// The line `.` that ends a menu.
pub open spec fn menu_end() -> Seq<u8> {
    seq![0x2eu8, CR, LF]
}

/// The lines of the items, one after the other.
pub open spec fn lines_of(items: Seq<MenuItem>) -> Seq<u8>
    decreases items.len(),
{
    if items.len() == 0 {
        Seq::empty()
    } else {
        lines_of(items.drop_last()) + wire_line(items.last()@)
    }
}

/// The item that carries an error message. It points nowhere: its selector
/// is a fixed word, and it has no host and no port of its own.
pub open spec fn error_item(message: Seq<char>) -> MenuItemView {
    MenuItemView {
        typ: ItemType::Error,
        text: message,
        selector: "error"@,
        host: None,
        port: None,
    }
}

impl Response {
    /// The bytes that go on the wire for this response.
    pub open spec fn wire(&self) -> Seq<u8> {
        match self {
            Response::Menu(menu) => lines_of(menu.items@) + menu_end(),
            Response::File(bytes) => bytes@,
            Response::Raw(bytes) => bytes@,
            Response::Error(message) => wire_line(error_item(message@)) + menu_end(),
        }
    }

    /// The response to a request that failed on an I/O error of the server's
    /// own. It says that much and no more: nothing of the error reaches the
    /// client.
    pub fn from_io_error(error: std::io::Error) -> (response: Response)
        ensures
            response matches Response::Error(message) && message@ == "I/O error"@,
    {
        let _ = error;
        Response::Error("I/O error".to_owned())
    }

    /// Whether `w` has room for the bytes of the response.
    pub fn fits(&self, w: &BytesMut) -> (fits: bool)
        ensures
            fits == (contents(*w).len() + self.wire().len() <= isize::MAX),
    {
        let limit = isize::MAX as u128;
        let held = w.len() as u128;
        match self {
            Response::Menu(menu) => {
                let n = menu.items.len();
                let mut total: u128 = held + 3;
                let mut i: usize = 0;
                assert(self.wire().len() == lines_of(menu.items@).len() + 3);
                if total > limit {
                    return false;
                }
                assert(lines_of(menu.items@.take(0)).len() == 0);
                while i < n
                    invariant
                        i <= n,
                        n == menu.items@.len(),
                        limit == isize::MAX,
                        held == contents(*w).len(),
                        self.wire().len() == lines_of(menu.items@).len() + 3,
                        total == held + 3 + lines_of(menu.items@.take(i as int)).len(),
                        total <= limit,
                    decreases n - i,
                {
                    proof {
                        lemma_lines_grow(menu.items@, i as int);
                    }
                    total = total + line_len(&menu.items[i]);
                    if total > limit {
                        return false;
                    }
                    i += 1;
                    assert(i <= n);
                }
                assert(menu.items@.take(n as int) =~= menu.items@);
                true
            },
            Response::File(bytes) => held + bytes.len() as u128 <= limit,
            Response::Raw(bytes) => held + bytes.len() as u128 <= limit,
            Response::Error(message) => {
                proof {
                    reveal_strlit("error");
                    reveal_strlit("error.host");
                    reveal_strlit("1");
                    lemma_ascii_bytes("error"@, seq![0x65u8, 0x72, 0x72, 0x6f, 0x72]);
                    lemma_ascii_bytes(
                        "error.host"@,
                        seq![0x65u8, 0x72, 0x72, 0x6f, 0x72, 0x2e, 0x68, 0x6f, 0x73, 0x74],
                    );
                    lemma_ascii_bytes("1"@, seq![0x31u8]);
                }
                proof {
                    crate::menu::lemma_wire_len(error_item(message@));
                }
                held + message.as_str().as_bytes().len() as u128 + 25 <= limit
            },
        }
    }

    /// Appends the bytes of the response to `w`. The buffer has to have room
    /// for them.
    pub fn write(&self, w: &mut BytesMut) -> (result: Result<(), std::io::Error>)
        requires
            contents(*old(w)).len() + self.wire().len() <= isize::MAX,
        ensures
            result is Ok,
            contents(*final(w)) == contents(*old(w)) + self.wire(),
    {
        let ghost before = contents(*w);
        match self {
            Response::Menu(menu) => {
                let n = menu.items.len();
                let mut i: usize = 0;
                while i < n
                    invariant
                        i <= n,
                        n == menu.items@.len(),
                        before.len() + lines_of(menu.items@).len() + 3 <= isize::MAX,
                        contents(*w) == before + lines_of(menu.items@.take(i as int)),
                    decreases n - i,
                {
                    proof {
                        lemma_lines_grow(menu.items@, i as int);
                    }
                    write_item(&menu.items[i], w);
                    i += 1;
                    assert(contents(*w) =~= before + lines_of(menu.items@.take(i as int)));
                }
                assert(menu.items@.take(n as int) =~= menu.items@);
                write_end(w);
                assert(contents(*w) =~= before + self.wire());
            },
            Response::File(bytes) => {
                w.extend_from_slice(bytes.as_slice());
            },
            Response::Raw(bytes) => {
                w.extend_from_slice(bytes.as_slice());
            },
            Response::Error(message) => {
                let item = MenuItem {
                    typ: ItemType::Error,
                    text: message.clone(),
                    selector: "error".to_owned(),
                    host: None,
                    port: None,
                };
                assert(item@ == error_item(message@));
                write_item(&item, w);
                write_end(w);
                assert(contents(*w) =~= before + self.wire());
            },
        }
        Ok(())
    }
}

fn write_end(w: &mut BytesMut)
    requires
        contents(*old(w)).len() + 3 <= isize::MAX,
    ensures
        contents(*final(w)) == contents(*old(w)) + menu_end(),
{
    put_byte(w, 0x2e);
    put_byte(w, CR);
    put_byte(w, LF);
    assert(contents(*w) =~= contents(*old(w)) + menu_end());
}

/// The lines of the first `i + 1` items are those of the first `i` and the
/// line of the next, and no longer than the lines of all.
proof fn lemma_lines_grow(items: Seq<MenuItem>, i: int)
    requires
        0 <= i < items.len(),
    ensures
        lines_of(items.take(i + 1)) == lines_of(items.take(i)) + wire_line(items[i]@),
        lines_of(items.take(i + 1)).len() <= lines_of(items).len(),
    decreases items.len() - i,
{
    assert(items.take(i + 1).drop_last() =~= items.take(i));
    assert(items.take(i + 1).last() == items[i]);
    if i + 1 < items.len() {
        lemma_lines_grow(items, i + 1);
        assert(lines_of(items.take(i + 2)).len() <= lines_of(items).len());
    } else {
        assert(items.take(i + 1) =~= items);
    }
}


/// The bytes of an ASCII text are its characters.
proof fn lemma_ascii_bytes(text: Seq<char>, bytes: Seq<u8>)
    requires
        text.len() == bytes.len(),
        is_ascii_chars(text),
        forall|i: int| 0 <= i < text.len() ==> (#[trigger] text[i]) as u8 == bytes[i],
    ensures
        encode_utf8(text) == bytes,
{
    is_ascii_chars_encode_utf8(text);
    assert forall|i: int| 0 <= i < text.len() implies (#[trigger] encode_utf8(text)[i])
        == bytes[i] by {
        assert(text[i] as u8 == encode_utf8(text)[i]);
    }
    assert(encode_utf8(text) =~= bytes);
}

/// What goes on the wire for an I/O error of the server's own is one fixed
/// sequence of bytes: an error item that reads `I/O error`, and the end mark.
/// The error itself has no part in it.
pub proof fn lemma_io_error_on_wire(response: Response)
    requires
        response matches Response::Error(message) && message@ == "I/O error"@,
    ensures
        response.wire() == seq![
            0x33u8, 0x49, 0x2f, 0x4f, 0x20, 0x65, 0x72, 0x72, 0x6f, 0x72, 0x09,
            0x65, 0x72, 0x72, 0x6f, 0x72, 0x09,
            0x65, 0x72, 0x72, 0x6f, 0x72, 0x2e, 0x68, 0x6f, 0x73, 0x74, 0x09,
            0x31, 0x0d, 0x0a,
            0x2e, 0x0d, 0x0a,
        ],
{
    reveal_strlit("I/O error");
    reveal_strlit("error");
    reveal_strlit("error.host");
    reveal_strlit("1");
    lemma_ascii_bytes("I/O error"@, seq![0x49u8, 0x2f, 0x4f, 0x20, 0x65, 0x72, 0x72, 0x6f, 0x72]);
    lemma_ascii_bytes("error"@, seq![0x65u8, 0x72, 0x72, 0x6f, 0x72]);
    lemma_ascii_bytes(
        "error.host"@,
        seq![0x65u8, 0x72, 0x72, 0x6f, 0x72, 0x2e, 0x68, 0x6f, 0x73, 0x74],
    );
    lemma_ascii_bytes("1"@, seq![0x31u8]);
    assert(response.wire() =~= seq![
        0x33u8, 0x49, 0x2f, 0x4f, 0x20, 0x65, 0x72, 0x72, 0x6f, 0x72, 0x09,
        0x65, 0x72, 0x72, 0x6f, 0x72, 0x09,
        0x65, 0x72, 0x72, 0x6f, 0x72, 0x2e, 0x68, 0x6f, 0x73, 0x74, 0x09,
        0x31, 0x0d, 0x0a,
        0x2e, 0x0d, 0x0a,
    ]);
}

} // verus!
