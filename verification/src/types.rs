//! Item type tags and their one-byte wire form.

use vstd::prelude::*;

verus! {

/// The kind of resource a menu item points to.
#[derive(Debug, Copy, Clone, PartialEq, Eq, Structural)]
pub enum ItemType {
    // RFC 1436:
    File,
    Directory,
    CSO,
    Error,
    BinHex,
    DosBinary,
    Uuencoded,
    IndexSearch,
    Telnet,
    Binary,
    RedundantServer,
    Tn3270,
    Gif,
    Image,
    // Unofficial types:
    Document,
    HTML,
    Info,
    Audio,
    /// A byte between `'0'` and `'Z'` that has no name of its own.
    Reserved(u8),
    /// Any other byte.
    Other(u8),
}

impl ItemType {
    /// The tag that a wire byte stands for.
    pub open spec fn of_byte(c: u8) -> ItemType {
        if c == 0x30 {
            ItemType::File
        } else if c == 0x31 {
            ItemType::Directory
        } else if c == 0x32 {
            ItemType::CSO
        } else if c == 0x33 {
            ItemType::Error
        } else if c == 0x34 {
            ItemType::BinHex
        } else if c == 0x35 {
            ItemType::DosBinary
        } else if c == 0x36 {
            ItemType::Uuencoded
        } else if c == 0x37 {
            ItemType::IndexSearch
        } else if c == 0x38 {
            ItemType::Telnet
        } else if c == 0x39 {
            ItemType::Binary
        } else if c == 0x2b {
            ItemType::RedundantServer
        } else if c == 0x54 {
            ItemType::Tn3270
        } else if c == 0x67 {
            ItemType::Gif
        } else if c == 0x49 {
            ItemType::Image
        } else if c == 0x64 {
            ItemType::Document
        } else if c == 0x68 {
            ItemType::HTML
        } else if c == 0x69 {
            ItemType::Info
        } else if c == 0x73 {
            ItemType::Audio
        } else if 0x30 <= c <= 0x5a {
            ItemType::Reserved(c)
        } else {
            ItemType::Other(c)
        }
    }

    /// The wire byte of a tag.
    pub open spec fn byte(self) -> u8 {
        match self {
            ItemType::File => 0x30,
            ItemType::Directory => 0x31,
            ItemType::CSO => 0x32,
            ItemType::Error => 0x33,
            ItemType::BinHex => 0x34,
            ItemType::DosBinary => 0x35,
            ItemType::Uuencoded => 0x36,
            ItemType::IndexSearch => 0x37,
            ItemType::Telnet => 0x38,
            ItemType::Binary => 0x39,
            ItemType::RedundantServer => 0x2b,
            ItemType::Tn3270 => 0x54,
            ItemType::Gif => 0x67,
            ItemType::Image => 0x49,
            ItemType::Document => 0x64,
            ItemType::HTML => 0x68,
            ItemType::Info => 0x69,
            ItemType::Audio => 0x73,
            ItemType::Reserved(c) => c,
            ItemType::Other(c) => c,
        }
    }

    /// Whether the tag is one of the eighteen named ones.
    pub open spec fn is_named(self) -> bool {
        !(self is Reserved) && !(self is Other)
    }

    /// Whether the tag is the one that decoding its own byte gives: a named
    /// tag, `Reserved` of an unnamed byte from `'0'` to `'Z'`, or `Other` of
    /// an unnamed byte outside that range.
    pub open spec fn is_canonical(self) -> bool {
        ItemType::of_byte(self.byte()) == self
    }

    pub fn from_u8(c: u8) -> (typ: ItemType)
        ensures
            typ == ItemType::of_byte(c),
    {
        match c {
            // RFC 1436:
            0x30 => ItemType::File,
            0x31 => ItemType::Directory,
            0x32 => ItemType::CSO,
            0x33 => ItemType::Error,
            0x34 => ItemType::BinHex,
            0x35 => ItemType::DosBinary,
            0x36 => ItemType::Uuencoded,
            0x37 => ItemType::IndexSearch,
            0x38 => ItemType::Telnet,
            0x39 => ItemType::Binary,
            0x2b => ItemType::RedundantServer,
            0x54 => ItemType::Tn3270,
            0x67 => ItemType::Gif,
            0x49 => ItemType::Image,
            // Unofficial:
            0x64 => ItemType::Document,
            0x68 => ItemType::HTML,
            0x69 => ItemType::Info,
            0x73 => ItemType::Audio,
            _ => if 0x30 <= c && c <= 0x5a {
                ItemType::Reserved(c)
            } else {
                ItemType::Other(c)
            },
        }
    }

    pub fn into_u8(self) -> (c: u8)
        ensures
            c == self.byte(),
    {
        match self {
            // RFC 1436:
            ItemType::File => 0x30,
            ItemType::Directory => 0x31,
            ItemType::CSO => 0x32,
            ItemType::Error => 0x33,
            ItemType::BinHex => 0x34,
            ItemType::DosBinary => 0x35,
            ItemType::Uuencoded => 0x36,
            ItemType::IndexSearch => 0x37,
            ItemType::Telnet => 0x38,
            ItemType::Binary => 0x39,
            ItemType::RedundantServer => 0x2b,
            ItemType::Tn3270 => 0x54,
            ItemType::Gif => 0x67,
            ItemType::Image => 0x49,
            // Unofficial:
            ItemType::Document => 0x64,
            ItemType::HTML => 0x68,
            ItemType::Info => 0x69,
            ItemType::Audio => 0x73,
            ItemType::Reserved(c) | ItemType::Other(c) => c,
        }
    }
}

/// Every byte survives the trip to a tag and back.
pub proof fn lemma_byte_round_trip(c: u8)
    ensures
        ItemType::of_byte(c).byte() == c,
        ItemType::of_byte(c).is_canonical(),
{
}

/// Every named tag survives the trip to its byte and back, so between the
/// named tags and their bytes the mapping is one to one.
pub proof fn lemma_named_round_trip(a: ItemType, b: ItemType)
    requires
        a.is_named(),
        b.is_named(),
    ensures
        ItemType::of_byte(a.byte()) == a,
        ItemType::of_byte(a.byte()).is_named(),
        a.byte() == b.byte() ==> a == b,
{
}

/// A byte that no named tag owns decodes to `Reserved` of that byte when it
/// lies between `'0'` and `'Z'`, and to `Other` of that byte when it does not.
pub proof fn lemma_unnamed_bytes(c: u8)
    requires
        !ItemType::of_byte(c).is_named(),
    ensures
        0x30 <= c <= 0x5a ==> ItemType::of_byte(c) == ItemType::Reserved(c),
        !(0x30 <= c <= 0x5a) ==> ItemType::of_byte(c) == ItemType::Other(c),
{
}

} // verus!
