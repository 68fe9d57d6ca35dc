//! Menu items and their wire form: one line per item, the fields parted by
//! TAB, the line ended by CR LF.

use crate::buffer::{as_slice, bytes_remaining, contents};
use crate::request::{is_forbidden, CR, LF, TAB};
use crate::types::ItemType;
use bytes::BytesMut;
use std::str::Utf8Error;
use vstd::prelude::*;
use vstd::slice::slice_subrange;
use vstd::utf8::{decode_utf8, encode_utf8, valid_utf8};

verus! {

/// An ordered list of items.
#[derive(Debug)]
pub struct Menu {
    pub items: Vec<MenuItem>,
}

impl Menu {
    pub fn new(items: Vec<MenuItem>) -> (menu: Menu)
        ensures
            menu.items == items,
    {
        Menu { items }
    }
}

#[derive(Debug)]
pub struct MenuItem {
    pub typ: ItemType,
    pub text: String,
    pub selector: String,
    pub host: Option<String>,
    pub port: Option<String>,
}

/// A menu item as plain values.
pub struct MenuItemView {
    pub typ: ItemType,
    pub text: Seq<char>,
    pub selector: Seq<char>,
    pub host: Option<Seq<char>>,
    pub port: Option<Seq<char>>,
}

pub open spec fn text_of(s: Option<String>) -> Option<Seq<char>> {
    match s {
        Some(s) => Some(s@),
        None => None,
    }
}

impl View for MenuItem {
    type V = MenuItemView;

    open spec fn view(&self) -> MenuItemView {
        MenuItemView {
            typ: self.typ,
            text: self.text@,
            selector: self.selector@,
            host: text_of(self.host),
            port: text_of(self.port),
        }
    }
}

impl MenuItem {
    /// A line of text that points nowhere.
    pub fn info(text: String) -> (item: MenuItem)
        ensures
            item@ == (MenuItemView {
                typ: ItemType::Info,
                text: text@,
                selector: Seq::empty(),
                host: None,
                port: None,
            }),
    {
        MenuItem { typ: ItemType::Info, text, selector: String::new(), host: None, port: None }
    }

    pub fn new(typ: ItemType, text: String, selector: String, host: String, port: String) -> (item:
        MenuItem)
        ensures
            item@ == (MenuItemView {
                typ,
                text: text@,
                selector: selector@,
                host: Some(host@),
                port: Some(port@),
            }),
    {
        MenuItem { typ, text, selector, host: Some(host), port: Some(port) }
    }
}

/// The host written for an item that has none.
pub open spec fn host_on_wire(host: Option<Seq<char>>) -> Seq<char> {
    match host {
        Some(h) => h,
        None => "error.host"@,
    }
}

/// The port written for an item that has none.
pub open spec fn port_on_wire(port: Option<Seq<char>>) -> Seq<char> {
    match port {
        Some(p) => p,
        None => "1"@,
    }
}

/// The line that stands for an item: all four fields, always.
pub open spec fn wire_line(item: MenuItemView) -> Seq<u8> {
    seq![item.typ.byte()] + encode_utf8(item.text) + seq![TAB] + encode_utf8(item.selector)
        + seq![TAB] + encode_utf8(host_on_wire(item.host)) + seq![TAB] + encode_utf8(
        port_on_wire(item.port),
    ) + seq![CR, LF]
}

pub(crate) fn put_byte(dst: &mut BytesMut, b: u8)
    requires
        contents(*old(dst)).len() + 1 <= isize::MAX,
    ensures
        contents(*final(dst)) == contents(*old(dst)).push(b),
{
    let one: [u8; 1] = [b];
    dst.extend_from_slice(one.as_slice());
    assert(one@ =~= seq![b]);
    assert(contents(*dst) =~= contents(*old(dst)).push(b));
}

pub(crate) fn put_text(dst: &mut BytesMut, text: &str)
    requires
        contents(*old(dst)).len() + encode_utf8(text@).len() <= isize::MAX,
    ensures
        contents(*final(dst)) == contents(*old(dst)) + encode_utf8(text@),
{
    dst.extend_from_slice(text.as_bytes());
}

/// A line is as long as its four fields, and six bytes more: the type, three
/// TABs and the line end.
pub proof fn lemma_wire_len(item: MenuItemView)
    ensures
        wire_line(item).len() == encode_utf8(item.text).len() + encode_utf8(item.selector).len()
            + encode_utf8(host_on_wire(item.host)).len() + encode_utf8(
            port_on_wire(item.port),
        ).len() + 6,
{
}

/// The length of the item's line.
pub(crate) fn line_len(item: &MenuItem) -> (n: u128)
    ensures
        n == wire_line(item@).len(),
        n <= 4 * usize::MAX + 6,
{
    let host = match &item.host {
        Some(host) => host.as_str().as_bytes().len(),
        None => "error.host".as_bytes().len(),
    };
    let port = match &item.port {
        Some(port) => port.as_str().as_bytes().len(),
        None => "1".as_bytes().len(),
    };
    proof {
        lemma_wire_len(item@);
    }
    item.text.as_str().as_bytes().len() as u128 + item.selector.as_str().as_bytes().len() as u128
        + host as u128 + port as u128 + 6
}

pub struct MenuItemEncoder;

impl MenuItemEncoder {
    /// Whether `dst` has room for the item's line.
    pub fn fits(&self, item: &MenuItem, dst: &BytesMut) -> (fits: bool)
        ensures
            fits == (contents(*dst).len() + wire_line(item@).len() <= isize::MAX),
    {
        dst.len() as u128 + line_len(item) <= isize::MAX as u128
    }

    /// Appends the item's line to `dst`. The buffer has to have room for it.
    pub fn encode(&mut self, item: MenuItem, dst: &mut BytesMut) -> (result: Result<
        (),
        std::io::Error,
    >)
        requires
            contents(*old(dst)).len() + wire_line(item@).len() <= isize::MAX,
        ensures
            result is Ok,
            contents(*final(dst)) == contents(*old(dst)) + wire_line(item@),
    {
        write_item(&item, dst);
        Ok(())
    }
}

/// Appends the item's line to `dst`.
pub(crate) fn write_item(item: &MenuItem, dst: &mut BytesMut)
    requires
        contents(*old(dst)).len() + wire_line(item@).len() <= isize::MAX,
    ensures
        contents(*final(dst)) == contents(*old(dst)) + wire_line(item@),
{
    proof {
        lemma_wire_len(item@);
    }
    let ghost before = contents(*dst);
    let ghost text = encode_utf8(item@.text);
    let ghost selector = encode_utf8(item@.selector);
    let ghost host = encode_utf8(host_on_wire(item@.host));
    let ghost port = encode_utf8(port_on_wire(item@.port));
    put_byte(dst, item.typ.into_u8());
    put_text(dst, item.text.as_str());
    put_byte(dst, TAB);
    put_text(dst, item.selector.as_str());
    put_byte(dst, TAB);
    assert(contents(*dst) =~= before + seq![item@.typ.byte()] + text + seq![TAB] + selector
        + seq![TAB]);
    match &item.host {
        Some(host) => put_text(dst, host.as_str()),
        None => put_text(dst, "error.host"),
    }
    put_byte(dst, TAB);
    assert(contents(*dst) =~= before + seq![item@.typ.byte()] + text + seq![TAB] + selector
        + seq![TAB] + host + seq![TAB]);
    match &item.port {
        Some(port) => put_text(dst, port.as_str()),
        None => put_text(dst, "1"),
    }
    put_byte(dst, CR);
    put_byte(dst, LF);
    assert(contents(*dst) =~= before + wire_line(item@));
}

#[derive(Debug)]
pub enum MenuItemParseError {
    /// The source of the lines failed. The decoder itself never reports this.
    Io(std::io::Error),
    /// A field is not UTF-8.
    Utf8(Utf8Error),
    /// The line is no menu item; the text says why.
    Message(String),
}

/// The index of the first `b` in `s` at or after `from`, or `s.len()` where
/// there is none.
pub open spec fn first_byte(s: Seq<u8>, b: u8, from: int) -> int
    decreases s.len() - from,
{
    if from >= s.len() {
        s.len() as int
    } else if s[from] == b {
        from
    } else {
        first_byte(s, b, from + 1)
    }
}

/// A line without its LF, and without the CR before it if there is one.
pub open spec fn line_content(raw: Seq<u8>) -> Seq<u8> {
    if raw.len() > 0 && raw.last() == CR {
        raw.drop_last()
    } else {
        raw
    }
}

/// The bytes of the field that starts at `from`: up to the next TAB, or to
/// the end of the line.
pub open spec fn field(line: Seq<u8>, from: int) -> Seq<u8> {
    line.subrange(from, first_byte(line, TAB, from))
}

/// Where the field after the one at `from` starts.
pub open spec fn next_field(line: Seq<u8>, from: int) -> int {
    first_byte(line, TAB, from) + 1
}

/// Whether anything follows the field at `from` and its TAB. Where nothing
/// does, the fields after it are absent.
pub open spec fn has_more(line: Seq<u8>, from: int) -> bool {
    next_field(line, from) < line.len()
}

/// What a line, taken without its line end, says.
pub enum Parsed {
    Item(MenuItemView),
    /// The type byte is CR, TAB or NUL.
    BadType(u8),
    /// The first field that is not UTF-8 comes before anything else that is
    /// wrong with the line.
    BadUtf8,
    /// Something follows the port and its TAB.
    Garbage(Seq<u8>),
}

pub open spec fn parse_line(line: Seq<u8>) -> Parsed {
    if line.len() == 0 {
        Parsed::Item(
            MenuItemView {
                typ: ItemType::Info,
                text: Seq::empty(),
                selector: Seq::empty(),
                host: None,
                port: None,
            },
        )
    } else if is_forbidden(line[0]) {
        Parsed::BadType(line[0])
    } else {
        let typ = ItemType::of_byte(line[0]);
        let text = field(line, 1);
        let at_selector = next_field(line, 1);
        let selector = field(line, at_selector);
        let at_host = next_field(line, at_selector);
        let host = field(line, at_host);
        let at_port = next_field(line, at_host);
        let port = field(line, at_port);
        if !valid_utf8(text) {
            Parsed::BadUtf8
        } else if !has_more(line, 1) {
            Parsed::Item(
                MenuItemView {
                    typ,
                    text: decode_utf8(text),
                    selector: Seq::empty(),
                    host: None,
                    port: None,
                },
            )
        } else if !valid_utf8(selector) {
            Parsed::BadUtf8
        } else if !has_more(line, at_selector) {
            Parsed::Item(
                MenuItemView {
                    typ,
                    text: decode_utf8(text),
                    selector: decode_utf8(selector),
                    host: None,
                    port: None,
                },
            )
        } else if !valid_utf8(host) {
            Parsed::BadUtf8
        } else if !has_more(line, at_host) {
            Parsed::Item(
                MenuItemView {
                    typ,
                    text: decode_utf8(text),
                    selector: decode_utf8(selector),
                    host: Some(decode_utf8(host)),
                    port: None,
                },
            )
        } else if !valid_utf8(port) {
            Parsed::BadUtf8
        } else if !has_more(line, at_port) {
            Parsed::Item(
                MenuItemView {
                    typ,
                    text: decode_utf8(text),
                    selector: decode_utf8(selector),
                    host: Some(decode_utf8(host)),
                    port: Some(decode_utf8(port)),
                },
            )
        } else {
            Parsed::Garbage(line.skip(next_field(line, at_port)))
        }
    }
}

/// The text of the error for a type byte that is not allowed, as `format!`
/// renders `"invalid item type {:?}"` from the byte taken as a `char`.
pub uninterp spec fn invalid_type_message(typ: u8) -> Seq<char>;

/// `format!` builds the message from the byte, and from nothing else.
#[verifier::external_body]
fn describe_invalid_type(typ: u8) -> (msg: String)
    ensures
        msg@ == invalid_type_message(typ),
{
    format!("invalid item type {:?}", char::from(typ))
}

/// The text of the error for what follows the port, as `format!` renders
/// `"extra garbage at end of line: {:?}"` from the result of reading those
/// bytes as UTF-8.
pub uninterp spec fn garbage_message(garbage: Seq<u8>) -> Seq<char>;

/// `core::str::from_utf8` and `format!` build the message from the bytes, and
/// from nothing else.
#[verifier::external_body]
fn describe_garbage(garbage: &[u8]) -> (msg: String)
    ensures
        msg@ == garbage_message(garbage@),
{
    format!("extra garbage at end of line: {:?}", core::str::from_utf8(garbage))
}

/// Whether `result` is what the decoder returns for a line that says `parsed`.
pub open spec fn line_result(
    parsed: Parsed,
    result: Result<Option<MenuItem>, MenuItemParseError>,
) -> bool {
    match parsed {
        Parsed::Item(v) => result matches Ok(Some(item)) && item@ == v,
        Parsed::BadType(typ) => result matches Err(MenuItemParseError::Message(msg)) && msg@
            == invalid_type_message(typ),
        Parsed::BadUtf8 => result matches Err(MenuItemParseError::Utf8(_)),
        Parsed::Garbage(garbage) => result matches Err(MenuItemParseError::Message(msg)) && msg@
            == garbage_message(garbage),
    }
}

/// The most TABs of a line that the decoder keeps the places of: those that
/// end the four fields.
pub const MAX_FIELDS: usize = 4;

/// Where the stretch before mark `k` starts: after the mark before it.
pub open spec fn gap_start(marks: Seq<usize>, k: int) -> int {
    if k == 0 {
        0
    } else {
        marks[k - 1] + 1
    }
}

/// Whether `marks` holds, in order, the places of the first TABs of `s`: all
/// of them, or the first four.
pub open spec fn marks_tabs(marks: Seq<usize>, s: Seq<u8>) -> bool {
    &&& marks.len() <= MAX_FIELDS
    &&& forall|k: int|
        0 <= k < marks.len() ==> gap_start(marks, k) <= (#[trigger] marks[k]) < s.len()
            && s[marks[k] as int] == TAB
    &&& forall|k: int, i: int|
        0 <= k < marks.len() && gap_start(marks, k) <= i < (#[trigger] marks[k]) ==> (
        #[trigger] s[i]) != TAB
    &&& marks.len() < MAX_FIELDS ==> forall|i: int|
        gap_start(marks, marks.len() as int) <= i < s.len() ==> (#[trigger] s[i]) != TAB
}

pub proof fn lemma_first_byte(s: Seq<u8>, b: u8, from: int)
    requires
        0 <= from <= s.len(),
    ensures
        from <= first_byte(s, b, from) <= s.len(),
        first_byte(s, b, from) < s.len() ==> s[first_byte(s, b, from)] == b,
        forall|i: int| from <= i < first_byte(s, b, from) ==> (#[trigger] s[i]) != b,
    decreases s.len() - from,
{
    if from < s.len() && s[from] != b {
        lemma_first_byte(s, b, from + 1);
    }
}

pub proof fn lemma_first_byte_at(s: Seq<u8>, b: u8, from: int, at: int)
    requires
        0 <= from <= at <= s.len(),
        forall|i: int| from <= i < at ==> (#[trigger] s[i]) != b,
        at < s.len() ==> s[at] == b,
    ensures
        first_byte(s, b, from) == at,
    decreases at - from,
{
    if from < at {
        assert(s[from] != b);
        lemma_first_byte_at(s, b, from + 1, at);
    }
}

/// Taking one more byte into a marked line keeps the marks right.
proof fn lemma_marks_push(marks: Seq<usize>, s: Seq<u8>, b: u8)
    requires
        marks_tabs(marks, s),
        s.len() <= usize::MAX,
    ensures
        b == TAB && marks.len() < MAX_FIELDS ==> marks_tabs(
            marks.push(s.len() as usize),
            s.push(b),
        ),
        !(b == TAB && marks.len() < MAX_FIELDS) ==> marks_tabs(marks, s.push(b)),
{
    let t = s.push(b);
    if b == TAB && marks.len() < MAX_FIELDS {
        let m = marks.push(s.len() as usize);
        assert forall|k: int| 0 <= k < m.len() implies gap_start(m, k) <= (#[trigger] m[k])
            < t.len() && t[m[k] as int] == TAB by {
            if k < marks.len() {
                assert(m[k] == marks[k]);
                assert(gap_start(m, k) == gap_start(marks, k));
            } else if k > 0 {
                assert(m[k - 1] == marks[k - 1]);
            }
        }
        assert forall|k: int, i: int|
            0 <= k < m.len() && gap_start(m, k) <= i < (#[trigger] m[k]) implies (#[trigger] t[i])
            != TAB by {
            if k < marks.len() {
                assert(m[k] == marks[k]);
                assert(gap_start(m, k) == gap_start(marks, k));
                assert(s[i] != TAB);
            } else {
                assert(gap_start(m, k) == gap_start(marks, marks.len() as int));
                assert(s[i] != TAB);
            }
        }
        if m.len() < MAX_FIELDS {
            assert forall|i: int| gap_start(m, m.len() as int) <= i < t.len() implies (
            #[trigger] t[i]) != TAB by {
                assert(m[m.len() - 1] == s.len());
            }
        }
    } else {
        assert forall|k: int| 0 <= k < marks.len() implies gap_start(marks, k) <= (
        #[trigger] marks[k]) < t.len() && t[marks[k] as int] == TAB by {
            assert(t[marks[k] as int] == s[marks[k] as int]);
        }
        assert forall|k: int, i: int|
            0 <= k < marks.len() && gap_start(marks, k) <= i < (#[trigger] marks[k]) implies (
        #[trigger] t[i]) != TAB by {
            assert(s[i] != TAB);
        }
        if marks.len() < MAX_FIELDS {
            assert forall|i: int| gap_start(marks, marks.len() as int) <= i < t.len() implies (
            #[trigger] t[i]) != TAB by {
                if i < s.len() {
                    assert(s[i] != TAB);
                }
            }
        }
    }
}

/// In a marked line, the field that starts after mark `k - 1` ends at mark
/// `k`, or at the end of the line where there is no such mark. This holds of
/// the line's content too, which may lack a CR at the end.
proof fn lemma_field_end(marks: Seq<usize>, s: Seq<u8>, c: Seq<u8>, k: int)
    requires
        marks_tabs(marks, s),
        c == line_content(s),
        0 <= k <= marks.len(),
        k < MAX_FIELDS,
    ensures
        0 <= gap_start(marks, k) <= c.len(),
        k < marks.len() ==> marks[k] < c.len(),
        first_byte(c, TAB, gap_start(marks, k)) == (if k < marks.len() {
            marks[k] as int
        } else {
            c.len() as int
        }),
{
    assert forall|j: int| 0 <= j < marks.len() implies (#[trigger] marks[j]) < c.len() by {
        assert(s[marks[j] as int] == TAB);
    }
    if k > 0 {
        assert(marks[k - 1] < c.len());
    }
    let from = gap_start(marks, k);
    if k < marks.len() {
        let at = marks[k] as int;
        assert(s[at] == TAB);
        assert forall|i: int| from <= i < at implies (#[trigger] c[i]) != TAB by {
            assert(s[i] != TAB);
        }
        lemma_first_byte_at(c, TAB, from, at);
    } else {
        assert forall|i: int| from <= i < c.len() implies (#[trigger] c[i]) != TAB by {
            assert(s[i] != TAB);
        }
        lemma_first_byte_at(c, TAB, from, c.len() as int);
    }
}


/// Reads one field of a line as text.
fn field_text(line: &[u8], from: usize, to: usize) -> (text: Result<String, MenuItemParseError>)
    requires
        from <= to <= line@.len(),
    ensures
        valid_utf8(line@.subrange(from as int, to as int)) ==> (text matches Ok(t) && t@
            == decode_utf8(line@.subrange(from as int, to as int))),
        !valid_utf8(line@.subrange(from as int, to as int)) ==> (text matches Err(
            MenuItemParseError::Utf8(_),
        )),
{
    broadcast use vstd::utf8::encode_utf8_decode_utf8;

    match core::str::from_utf8(slice_subrange(line, from, to)) {
        Ok(t) => Ok(t.to_owned()),
        Err(e) => Err(MenuItemParseError::Utf8(e)),
    }
}

/// Reads menu items from a buffer that is filled piece by piece. Between
/// calls the decoder keeps what it has taken of the line that is still
/// incomplete, and the places of the TABs that end its fields.
pub struct MenuItemDecoder {
    line: Vec<u8>,
    tabs: Vec<usize>,
}

impl MenuItemDecoder {
    /// The bytes taken so far of a line whose end has not arrived.
    pub closed spec fn pending(&self) -> Seq<u8> {
        self.line@
    }

    /// The places in `pending` of the TABs that end a field.
    pub closed spec fn marks(&self) -> Seq<usize> {
        self.tabs@
    }

    /// The pending bytes hold no LF, and the marks are the places of their
    /// first TABs.
    pub open spec fn wf(&self) -> bool {
        &&& forall|i: int| 0 <= i < self.pending().len() ==> (#[trigger] self.pending()[i]) != LF
        &&& marks_tabs(self.marks(), self.pending())
    }

    pub fn new() -> (decoder: MenuItemDecoder)
        ensures
            decoder.wf(),
            decoder.pending() == Seq::<u8>::empty(),
    {
        MenuItemDecoder { line: Vec::new(), tabs: Vec::new() }
    }

    /// How many fields of the pending line are complete, four at most.
    pub fn fields_parsed(&self) -> (n: usize)
        ensures
            n == self.marks().len(),
    {
        self.tabs.len()
    }

    /// How many bytes of a pending line the decoder holds.
    pub fn pending_len(&self) -> (n: usize)
        ensures
            n == self.pending().len(),
    {
        self.line.len()
    }

    /// Takes bytes from `buf` up to the first LF. Where there is one, the
    /// line that it ends (what was pending and what `buf` added) is parsed, and
    /// the decoder starts afresh on what follows. Where there is none, all of
    /// `buf` joins the pending bytes and the caller is asked for more.
    pub fn decode(&mut self, buf: &mut BytesMut) -> (result: Result<
        Option<MenuItem>,
        MenuItemParseError,
    >)
        requires
            old(self).wf(),
        ensures
            final(self).wf(),
            ({
                let all = old(self).pending() + contents(*old(buf));
                let end = first_byte(all, LF, 0);
                if end < all.len() {
                    &&& line_result(parse_line(line_content(all.take(end))), result)
                    &&& final(self).pending() == Seq::<u8>::empty()
                    &&& contents(*final(buf)) == all.skip(end + 1)
                } else {
                    &&& result matches Ok(None)
                    &&& final(self).pending() == all
                    &&& contents(*final(buf)) == Seq::<u8>::empty()
                }
            }),
    {
        let ghost before = self.line@;
        let ghost s = contents(*buf);
        let ghost all = before + s;
        let n = buf.len();
        let bytes = as_slice(buf);
        let mut i: usize = 0;
        while i < n && bytes[i] != LF
            invariant
                i <= n,
                n == s.len(),
                bytes@ == s,
                self.line@ == before + s.subrange(0, i as int),
                forall|j: int| 0 <= j < self.line@.len() ==> (#[trigger] self.line@[j]) != LF,
                marks_tabs(self.tabs@, self.line@),
            decreases n - i,
        {
            let b = bytes[i];
            let held = self.line.len();
            proof {
                lemma_marks_push(self.tabs@, self.line@, b);
            }
            if b == TAB && self.tabs.len() < MAX_FIELDS {
                self.tabs.push(held);
            }
            self.line.push(b);
            i += 1;
            assert(self.line@ =~= before + s.subrange(0, i as int));
        }
        if i < n {
            let _ = buf.split_to(i + 1);
            proof {
                let end = before.len() + i;
                assert(all[end] == LF);
                assert forall|j: int| 0 <= j < end implies (#[trigger] all[j]) != LF by {
                    assert(all[j] == self.line@[j]);
                }
                lemma_first_byte_at(all, LF, 0, end);
                assert(self.line@ =~= all.take(end));
                assert(contents(*buf) =~= all.skip(end + 1));
            }
            let result = parse(&self.line, &self.tabs);
            self.line = Vec::new();
            self.tabs = Vec::new();
            result
        } else {
            let _ = buf.split_to(n);
            proof {
                assert(self.line@ =~= all);
                lemma_first_byte_at(all, LF, 0, all.len() as int);
                assert(contents(*buf) =~= Seq::<u8>::empty());
            }
            Ok(None)
        }
    }

    /// As `decode`, for a source that has ended. Bytes of a line whose end
    /// never came are no item: they are dropped, and the call fails.
    pub fn decode_eof(&mut self, buf: &mut BytesMut) -> (result: Result<
        Option<MenuItem>,
        MenuItemParseError,
    >)
        requires
            old(self).wf(),
        ensures
            final(self).wf(),
            final(self).pending() == Seq::<u8>::empty(),
            ({
                let all = old(self).pending() + contents(*old(buf));
                let end = first_byte(all, LF, 0);
                if end < all.len() {
                    &&& line_result(parse_line(line_content(all.take(end))), result)
                    &&& contents(*final(buf)) == all.skip(end + 1)
                } else {
                    &&& contents(*final(buf)) == Seq::<u8>::empty()
                    &&& all.len() == 0 ==> (result matches Ok(None))
                    &&& all.len() > 0 ==> (result matches Err(MenuItemParseError::Io(_)))
                }
            }),
    {
        proof {
            lemma_first_byte(old(self).pending() + contents(*old(buf)), LF, 0);
        }
        match self.decode(buf) {
            Ok(None) => {
                if self.line.len() == 0 {
                    Ok(None)
                } else {
                    self.line = Vec::new();
                    self.tabs = Vec::new();
                    Err(MenuItemParseError::Io(bytes_remaining()))
                }
            },
            other => other,
        }
    }
}

/// Parses a line that has arrived whole, LF left out, from the places of its
/// TABs.
fn parse(line: &Vec<u8>, tabs: &Vec<usize>) -> (result: Result<
    Option<MenuItem>,
    MenuItemParseError,
>)
    requires
        marks_tabs(tabs@, line@),
    ensures
        line_result(parse_line(line_content(line@)), result),
{
    let ghost c = line_content(line@);
    let mut end = line.len();
    if end > 0 && line[end - 1] == CR {
        end -= 1;
    }
    assert(c =~= line@.subrange(0, end as int));
    if end == 0 {
        return Ok(Some(MenuItem::info(String::new())));
    }
    let first = line[0];
    if first == CR || first == LF || first == TAB || first == 0 {
        return Err(MenuItemParseError::Message(describe_invalid_type(first)));
    }
    let marked = tabs.len();
    proof {
        lemma_field_end(tabs@, line@, c, 0);
        if marked > 0 {
            assert(tabs@[0] != 0);
            lemma_field_end(tabs@, line@, c, 1);
        }
        if marked > 1 {
            lemma_field_end(tabs@, line@, c, 2);
        }
        if marked > 2 {
            lemma_field_end(tabs@, line@, c, 3);
        }
        assert(first_byte(c, TAB, 1) == first_byte(c, TAB, 0));
    }
    let text_end = if marked > 0 {
        tabs[0]
    } else {
        end
    };
    let selector_end = if marked > 1 {
        tabs[1]
    } else {
        end
    };
    let host_end = if marked > 2 {
        tabs[2]
    } else {
        end
    };
    let port_end = if marked > 3 {
        tabs[3]
    } else {
        end
    };
    build(slice_subrange(line.as_slice(), 0, end), text_end, selector_end, host_end, port_end)
}

/// Builds the item of a line from the places where its four fields end.
fn build(line: &[u8], text_end: usize, selector_end: usize, host_end: usize, port_end: usize) -> (result:
    Result<Option<MenuItem>, MenuItemParseError>)
    requires
        line@.len() > 0,
        !is_forbidden(line@[0]),
        text_end == first_byte(line@, TAB, 1),
        has_more(line@, 1) ==> selector_end == first_byte(line@, TAB, text_end + 1),
        has_more(line@, 1) && has_more(line@, text_end + 1) ==> host_end == first_byte(
            line@,
            TAB,
            selector_end + 1,
        ),
        has_more(line@, 1) && has_more(line@, text_end + 1) && has_more(line@, selector_end + 1)
            ==> port_end == first_byte(line@, TAB, host_end + 1),
    ensures
        line_result(parse_line(line@), result),
{
    let end = line.len();
    let typ = ItemType::from_u8(line[0]);
    proof {
        lemma_first_byte(line@, TAB, 1);
    }
    let text = match field_text(line, 1, text_end) {
        Ok(t) => t,
        Err(e) => {
            return Err(e);
        },
    };
    if end - text_end <= 1 {
        let mut item = MenuItem::info(text);
        item.typ = typ;
        return Ok(Some(item));
    }
    proof {
        lemma_first_byte(line@, TAB, text_end + 1);
    }
    let selector = match field_text(line, text_end + 1, selector_end) {
        Ok(t) => t,
        Err(e) => {
            return Err(e);
        },
    };
    if end - selector_end <= 1 {
        return Ok(Some(MenuItem { typ, text, selector, host: None, port: None }));
    }
    proof {
        lemma_first_byte(line@, TAB, selector_end + 1);
    }
    let host = match field_text(line, selector_end + 1, host_end) {
        Ok(t) => t,
        Err(e) => {
            return Err(e);
        },
    };
    if end - host_end <= 1 {
        return Ok(Some(MenuItem { typ, text, selector, host: Some(host), port: None }));
    }
    proof {
        lemma_first_byte(line@, TAB, host_end + 1);
    }
    let port = match field_text(line, host_end + 1, port_end) {
        Ok(t) => t,
        Err(e) => {
            return Err(e);
        },
    };
    if end - port_end <= 1 {
        return Ok(Some(MenuItem::new(typ, text, selector, host, port)));
    }
    let garbage = slice_subrange(line, port_end + 1, end);
    assert(garbage@ =~= line@.skip(port_end + 1));
    Err(MenuItemParseError::Message(describe_garbage(garbage)))
}


/// Whether a text can stand in a field of a line: its bytes hold no TAB, which
/// would end the field, and no LF, which would end the line.
pub open spec fn fits_in_field(text: Seq<char>) -> bool {
    forall|i: int|
        0 <= i < encode_utf8(text).len() ==> (#[trigger] encode_utf8(text)[i]) != TAB
            && encode_utf8(text)[i] != LF
}

/// Decoding undoes encoding. An item with all four fields, whose type is the
/// tag of an allowed byte, whose fields hold neither TAB nor LF and whose port
/// is not empty, comes back from its own line as it was: the line ends at its
/// last byte, and what stands before that end parses to the item. What follows
/// the line in the buffer plays no part.
pub proof fn lemma_encode_then_decode(item: MenuItemView, rest: Seq<u8>)
    requires
        item.typ.is_canonical(),
        !is_forbidden(item.typ.byte()),
        item.host is Some,
        item.port is Some,
        fits_in_field(item.text),
        fits_in_field(item.selector),
        fits_in_field(item.host->0),
        fits_in_field(item.port->0),
        item.port->0.len() > 0,
    ensures
        first_byte(wire_line(item) + rest, LF, 0) == wire_line(item).len() - 1,
        parse_line(line_content((wire_line(item) + rest).take(wire_line(item).len() - 1)))
            == Parsed::Item(item),
{
    broadcast use vstd::utf8::encode_utf8_decode_utf8, vstd::utf8::encode_utf8_valid_utf8;

    let text = encode_utf8(item.text);
    let selector = encode_utf8(item.selector);
    let host = encode_utf8(item.host->0);
    let port = encode_utf8(item.port->0);
    let w = wire_line(item);
    let all = w + rest;
    let c = seq![item.typ.byte()] + text + seq![TAB] + selector + seq![TAB] + host + seq![TAB]
        + port;
    let at_selector: int = text.len() as int + 2;
    let at_host: int = at_selector + selector.len() + 1;
    let at_port: int = at_host + host.len() + 1;
    assert(port.len() > 0) by {
        if port.len() == 0 {
            assert(decode_utf8(port) =~= Seq::<char>::empty());
        }
    }
    assert(w =~= c + seq![CR, LF]);
    assert(w.len() == c.len() + 2);
    assert forall|i: int| 0 <= i < w.len() - 1 implies (#[trigger] all[i]) != LF by {
        if 1 <= i < at_selector - 1 {
            assert(all[i] == text[i - 1]);
        } else if at_selector <= i < at_host - 1 {
            assert(all[i] == selector[i - at_selector]);
        } else if at_host <= i < at_port - 1 {
            assert(all[i] == host[i - at_host]);
        } else if at_port <= i < c.len() {
            assert(all[i] == port[i - at_port]);
        }
    }
    lemma_first_byte_at(all, LF, 0, w.len() - 1);
    assert(all.take(w.len() - 1) =~= c + seq![CR]);
    assert(line_content(c + seq![CR]) =~= c);

    assert forall|i: int| 1 <= i < at_selector - 1 implies (#[trigger] c[i]) != TAB by {
        assert(c[i] == text[i - 1]);
    }
    lemma_first_byte_at(c, TAB, 1, at_selector - 1);
    assert(field(c, 1) =~= text);
    assert forall|i: int| at_selector <= i < at_host - 1 implies (#[trigger] c[i]) != TAB by {
        assert(c[i] == selector[i - at_selector]);
    }
    lemma_first_byte_at(c, TAB, at_selector, at_host - 1);
    assert(field(c, at_selector) =~= selector);
    assert forall|i: int| at_host <= i < at_port - 1 implies (#[trigger] c[i]) != TAB by {
        assert(c[i] == host[i - at_host]);
    }
    lemma_first_byte_at(c, TAB, at_host, at_port - 1);
    assert(field(c, at_host) =~= host);
    assert forall|i: int| at_port <= i < c.len() implies (#[trigger] c[i]) != TAB by {
        assert(c[i] == port[i - at_port]);
    }
    lemma_first_byte_at(c, TAB, at_port, c.len() as int);
    assert(field(c, at_port) =~= port);
}

/// Encoding undoes decoding. A line whose content parses to an item with all
/// four fields, and does not end in a TAB, is the line that the encoder writes
/// for that item.
pub proof fn lemma_decode_then_encode(content: Seq<u8>)
    requires
        parse_line(content) matches Parsed::Item(item) && item.port is Some,
        content.last() != TAB,
    ensures
        parse_line(content) matches Parsed::Item(item) && wire_line(item) == content + seq![
            CR,
            LF,
        ],
{
    broadcast use vstd::utf8::decode_utf8_encode_utf8;

    let item = parse_line(content)->Item_0;
    let c = content;
    let at_selector = next_field(c, 1);
    lemma_first_byte(c, TAB, 1);
    let at_host = next_field(c, at_selector);
    lemma_first_byte(c, TAB, at_selector);
    let at_port = next_field(c, at_host);
    lemma_first_byte(c, TAB, at_host);
    lemma_first_byte(c, TAB, at_port);
    crate::types::lemma_byte_round_trip(c[0]);
    assert(first_byte(c, TAB, at_port) == c.len());
    assert(wire_line(item) =~= content + seq![CR, LF]);
}

} // verus!
