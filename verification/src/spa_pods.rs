//! Fixed-layout pods: small structs whose fields mirror the wire words of
//! the simplest pod encodings (an 8-byte header, a body word, padding).

use vstd::prelude::*;

verus! {

/// The leading `(size, type)` words of every pod.
#[derive(Debug, Copy, Clone, PartialEq, Eq, Structural)]
pub struct Header {
    pub size: u32,
    pub spa_type: u32,
}

/// The empty pod.
#[derive(Debug, Copy, Clone, PartialEq, Eq, Structural)]
pub struct NonePod {
    pub header: Header,
}

impl NonePod {
    /// A pod with no body.
    pub fn new() -> (r: NonePod)
        ensures
            r.header.size == 0,
            r.header.spa_type == crate::codec::TYPE_NONE,
    {
        NonePod { header: Header { size: 0, spa_type: crate::codec::TYPE_NONE } }
    }
}

/// A boolean pod: a 4-byte body and 4 bytes of padding.
#[derive(Debug, Copy, Clone, PartialEq, Eq, Structural)]
pub struct Bool {
    pub header: Header,
    pub value: i32,
    pub pad: u32,
}

impl Bool {
    /// A boolean pod carrying 1 for true and 0 for false.
    pub fn new(value: bool) -> (r: Bool)
        ensures
            r.header.size == 4,
            r.header.spa_type == crate::codec::TYPE_BOOL,
            r.value == (if value { 1i32 } else { 0i32 }),
            r.pad == 0,
    {
        Bool {
            header: Header { size: 4, spa_type: crate::codec::TYPE_BOOL },
            value: if value { 1 } else { 0 },
            pad: 0,
        }
    }
}

/// An id pod: a 4-byte body and 4 bytes of padding.
#[derive(Debug, Copy, Clone, PartialEq, Eq, Structural)]
pub struct Id {
    pub header: Header,
    pub id: u32,
    pub pad: u32,
}

impl Id {
    /// An id pod carrying an enumerated value.
    pub fn new(id: u32) -> (r: Id)
        ensures
            r.header.size == 4,
            r.header.spa_type == crate::codec::TYPE_ID,
            r.id == id,
            r.pad == 0,
    {
        Id { header: Header { size: 4, spa_type: crate::codec::TYPE_ID }, id, pad: 0 }
    }
}

/// An integer pod: a 4-byte body and 4 bytes of padding.
#[derive(Debug, Copy, Clone, PartialEq, Eq, Structural)]
pub struct Int {
    pub header: Header,
    pub value: i32,
    pub pad: u32,
}

impl Int {
    /// An integer pod.
    pub fn new(value: i32) -> (r: Int)
        ensures
            r.header.size == 4,
            r.header.spa_type == crate::codec::TYPE_INT,
            r.value == value,
            r.pad == 0,
    {
        Int { header: Header { size: 4, spa_type: crate::codec::TYPE_INT }, value, pad: 0 }
    }
}

/// A struct pod's header, sized to its declared body length.
#[derive(Debug, Copy, Clone, PartialEq, Eq, Structural)]
pub struct Struct {
    pub header: Header,
}

impl Struct {
    /// A struct pod header declaring a body of `size` bytes.
    pub fn new(size: u32) -> (r: Struct)
        ensures
            r.header.size == size,
            r.header.spa_type == crate::codec::TYPE_STRUCT,
    {
        Struct { header: Header { size, spa_type: crate::codec::TYPE_STRUCT } }
    }
}

} // verus!
