//! A packet-schema model and its byte-level codec.
//!
//! A packet is an ordered list of typed fields. Each field carries a wire
//! representation (fixed-width integers, a nul-terminated string, or a raw
//! byte blob whose length is resolved at run time), a textual value buffer,
//! and — for blob fields — a sizing method. The library encodes a whole
//! packet to bytes, decodes an incoming byte stream back into the fields,
//! keeps the field-index invariant that cross-field size references depend
//! on, and maps a packet to and from a JSON document tree for persistence.

use vstd::prelude::*;

pub mod codec;
pub mod document;
pub mod numeric;
pub mod packet;
pub mod state;

verus! {

/// Everything that can go wrong while editing, encoding, decoding or
/// persisting a packet schema.
#[derive(Clone, Copy, Debug, PartialEq, Eq, Structural)]
pub enum PacketError {
    /// A textual value could not be parsed as the field's integer type.
    InvalidNumericLiteral,
    /// A nul-terminated string value contains a zero byte.
    EmbeddedNul,
    /// A blob field's source file could not be found.
    FileNotFound,
    /// A file or socket operation failed.
    IoError,
    /// A field was asked to encode or decode without a chosen data type.
    MissingDataType,
    /// The incoming stream ended before a field's bytes were complete.
    TruncatedStream,
    /// A field or packet index does not refer to an existing entry.
    IndexOutOfRange,
    /// A persisted document is missing a key or has one of the wrong shape.
    MalformedDocument,
    /// The width of a variable-length data type was requested.
    NotFixedWidth,
    /// Decoded text was not valid UTF-8.
    InvalidUtf8,
}

/// Applies one session step to `state` and reports what remains to be
/// done outside it: the top-level entry point a driver loops on.
pub fn update(state: &mut state::State, msg: state::Message) -> (a: state::StateAction)
    requires
        state::state_msg_in_range(old(state)@, msg),
    ensures
        state::state_update_rel(old(state)@, msg, final(state)@, final(state).wf(), a),
{
    state.update(msg)
}

} // verus!
