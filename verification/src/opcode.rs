//! Opcode plumbing: every method and event payload names the small
//! integer that distinguishes it within its interface, and inbound
//! event enums decode from an opcode and a raw body.

use vstd::prelude::*;

use crate::error::PodError;

verus! {

/// Implemented by messages to name their method or event opcode within
/// their interface's opcode space.
pub trait MessageOpCode {
    /// The opcode this message travels under.
    spec fn spec_op_code() -> u32;

    /// Returns the message's opcode.
    fn op_code() -> (r: u32)
        ensures
            r == Self::spec_op_code(),
    ;
}

/// Implemented by per-interface event enums: decode the event that an
/// opcode and a serialized body carry. On success the buffer's leading
/// pod is a struct whose fields fit the opcode's entry in the
/// interface's event table, the event is the one those fields carry,
/// and the returned length is the pod's extent; decoding fails exactly
/// when no such reading exists.
pub trait DeserializeFromOpCode where Self: core::marker::Sized {
    /// The interface's event table as a shape test: the opcode is known
    /// and the body fields fit its event.
    spec fn spec_event_shape(opcode: u32, fs: Seq<crate::value::PodView>) -> bool;

    /// Whether `e` is exactly the event this opcode and body fields
    /// carry.
    spec fn spec_event_parses(opcode: u32, fs: Seq<crate::value::PodView>, e: Self) -> bool;

    fn deserialize_from_opcode(opcode: u32, buffer: &Vec<u8>) -> (r: Result<(Self, usize), PodError>)
        ensures
            match r {
                Ok((e, np)) => ({
                    &&& crate::codec::parse_pod(buffer@, 0, buffer@.len() as int) matches Ok(pr)
                    &&& np as int == pr.1
                    &&& pr.0 matches crate::value::PodView::Struct(fs)
                    &&& Self::spec_event_parses(opcode, fs, e)
                }),
                Err(_) => !({
                    &&& crate::codec::parse_pod(buffer@, 0, buffer@.len() as int) matches Ok(pr)
                    &&& pr.0 matches crate::value::PodView::Struct(fs)
                    &&& Self::spec_event_shape(opcode, fs)
                }),
            },
    ;
}

} // verus!
