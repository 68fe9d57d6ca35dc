//! What the library assumes of `bytes::BytesMut`, the byte buffer that the
//! codecs read from and write to, and of the UTF-8 check of the standard
//! library; and the error types of the standard library that the codecs carry
//! through. Nothing in this file is proved: each contract restates what the
//! named function does.

use bytes::BytesMut;
use std::str::Utf8Error;
use vstd::prelude::*;
use vstd::utf8::{encode_utf8, valid_utf8};

verus! {

/// `bytes::BytesMut`, taken as it is. What a buffer holds is told by
/// `contents`.
#[verifier::external_type_specification]
#[verifier::external_body]
pub struct ExBytesMut(BytesMut);

/// `core::str::Utf8Error`, carried through to the caller and never looked
/// into.
#[verifier::external_type_specification]
#[verifier::external_body]
pub struct ExUtf8Error(Utf8Error);

/// `std::io::Error`, carried through to the caller and never looked into.
#[verifier::external_type_specification]
#[verifier::external_body]
pub struct ExIoError(std::io::Error);

/// The bytes that a buffer holds, first to last.
pub uninterp spec fn contents(buf: BytesMut) -> Seq<u8>;

/// `BytesMut::len` is the number of bytes held.
pub assume_specification[ BytesMut::len ](buf: &BytesMut) -> (n: usize)
    ensures
        n == contents(*buf).len(),
;

/// `BytesMut::split_to` hands out the first `at` bytes and keeps the rest.
/// It panics when `at` is beyond the length, which the precondition rules out.
pub assume_specification[ BytesMut::split_to ](buf: &mut BytesMut, at: usize) -> (head: BytesMut)
    requires
        at <= contents(*old(buf)).len(),
    ensures
        contents(head) == contents(*old(buf)).subrange(0, at as int),
        contents(*final(buf)) == contents(*old(buf)).subrange(
            at as int,
            contents(*old(buf)).len() as int,
        ),
;

/// `BytesMut::extend_from_slice` appends the given bytes. It panics when the
/// capacity it has to reserve overflows; the precondition keeps the new
/// length within what one allocation can hold.
pub assume_specification[ BytesMut::extend_from_slice ](buf: &mut BytesMut, extend: &[u8])
    requires
        contents(*old(buf)).len() + extend@.len() <= isize::MAX,
    ensures
        contents(*final(buf)) == contents(*old(buf)) + extend@,
;

/// The bytes of a buffer as a slice, through `AsRef<[u8]>`.
#[verifier::external_body]
pub(crate) fn as_slice(buf: &BytesMut) -> (bytes: &[u8])
    ensures
        bytes@ == contents(*buf),
{
    buf.as_ref()
}

/// `BytesMut::from` copies the given bytes into a new buffer.
#[verifier::external_body]
pub(crate) fn buffer_of(bytes: &[u8]) -> (buf: BytesMut)
    ensures
        contents(buf) == bytes@,
{
    BytesMut::from(bytes)
}

/// `std::io::Error::new` makes the error that stands for a source which
/// ended in the middle of a line.
#[verifier::external_body]
pub(crate) fn bytes_remaining() -> std::io::Error {
    std::io::Error::new(std::io::ErrorKind::Other, "bytes remaining on stream")
}

/// `core::str::from_utf8` accepts exactly the valid UTF-8 byte strings, and
/// the text it returns has the given bytes as its encoding.
pub assume_specification[ core::str::from_utf8 ](bytes: &[u8]) -> (text: Result<&str, Utf8Error>)
    ensures
        text is Ok <==> valid_utf8(bytes@),
        text matches Ok(s) ==> encode_utf8(s@) == bytes@,
;

} // verus!
