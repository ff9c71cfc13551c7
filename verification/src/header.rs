//! Header resolution: how many leading bytes of an incoming buffer are
//! framing, and whether what follows is compressed.

use crate::convert::BinaryConverter;
use crate::cursor::Cursor;
use crate::error::{DecodeError, ErrorKind};
use crate::schema::{PacketSchema, SchemaView};
use flate2::read::DeflateDecoder;
use std::io::Read;
use vstd::prelude::*;
use vstd::slice::{slice_subrange, slice_to_vec};

verus! {

/// The length of the header of an outgoing frame.
pub const OUTCOMING_HEADER_LENGTH: usize = 6;

/// The length of the opcode in an outgoing frame.
pub const OUTCOMING_OPCODE_LENGTH: usize = 4;

/// The length of the header of an incoming frame.
pub const INCOMING_HEADER_LENGTH: usize = 4;

/// The length of the opcode in an incoming frame.
pub const INCOMING_OPCODE_LENGTH: usize = 2;

/// The bytes that stand between the header and a compressed payload.
pub const COMPRESSION_OVERHEAD: usize = 6;

/// The header of an incoming buffer, resolved.
#[derive(Clone, Copy, Debug, PartialEq, Eq, Structural)]
pub struct Frame {
    /// The opcode found in the buffer.
    pub opcode: u16,
    /// How many leading bytes are framing.
    pub skip: usize,
    /// Whether the bytes after the framing are a deflate stream.
    pub compressed: bool,
}

/// The length of a login header: the bytes that the login opcode takes once
/// it is cut down to its low eight bits.
pub open spec fn login_skip(opcode: u32) -> nat {
    <u8 as BinaryConverter>::wire((opcode % 256) as u8).len()
}

/// The framing length before any compression overhead.
pub open spec fn base_skip(schema: SchemaView) -> nat {
    match schema.login_opcode {
        Some(opcode) => login_skip(opcode),
        None => INCOMING_HEADER_LENGTH as nat,
    }
}

/// The resolved header of `buffer` under `schema`. The opcode is the
/// little-endian number at bytes 2 and 3, whatever the schema says; a buffer
/// that ends before the opcode or before the end of the framing fails with
/// `UnexpectedEof`.
pub open spec fn frame_of(schema: SchemaView, buffer: Seq<u8>) -> Result<Frame, DecodeError> {
    let opcode_at = (INCOMING_HEADER_LENGTH - INCOMING_OPCODE_LENGTH) as int;
    if buffer.len() < INCOMING_HEADER_LENGTH {
        Err(DecodeError { kind: ErrorKind::UnexpectedEof, field: None, offset: opcode_at as usize })
    } else {
        let opcode = <u16 as BinaryConverter>::parse(buffer.skip(opcode_at)).unwrap().0;
        let compressed = schema.compressed_opcode == Some(opcode);
        let skip = base_skip(schema) + if compressed {
            COMPRESSION_OVERHEAD as nat
        } else {
            0
        };
        if buffer.len() < skip {
            Err(
                DecodeError {
                    kind: ErrorKind::UnexpectedEof,
                    field: None,
                    offset: base_skip(schema) as usize,
                },
            )
        } else {
            Ok(Frame { opcode, skip: skip as usize, compressed })
        }
    }
}

/// What a raw deflate stream inflates to; `None` for a stream that is
/// malformed or ends early.
pub uninterp spec fn inflated(stream: Seq<u8>) -> Option<Seq<u8>>;

/// `flate2::read::DeflateDecoder` read to its end over `stream`: what the
/// stream inflates to, or `None` where the decoder reports an error. The
/// contract gives the outcome its name and says nothing else of it.
#[verifier::external_body]
pub(crate) fn inflate(stream: &[u8]) -> (r: Option<Vec<u8>>)
    ensures
        match r {
            Some(out) => inflated(stream@) == Some(out@),
            None => inflated(stream@) is None,
        },
{
    let mut out = Vec::new();
    match DeflateDecoder::new(stream).read_to_end(&mut out) {
        Ok(_) => Some(out),
        Err(_) => None,
    }
}

/// The payload of `buffer` under `schema`: what follows the framing, inflated
/// where the frame is compressed. A stream that does not inflate fails with
/// `CorruptPayload` at the offset where it begins.
pub open spec fn payload_of(schema: SchemaView, buffer: Seq<u8>) -> Result<Seq<u8>, DecodeError> {
    match frame_of(schema, buffer) {
        Err(error) => Err(error),
        Ok(frame) => {
            let rest = buffer.skip(frame.skip as int);
            if frame.compressed {
                match inflated(rest) {
                    Some(plain) => Ok(plain),
                    None => Err(
                        DecodeError {
                            kind: ErrorKind::CorruptPayload,
                            field: None,
                            offset: frame.skip,
                        },
                    ),
                }
            } else {
                Ok(rest)
            }
        },
    }
}

/// The length of a login header for `opcode`: always one byte, since the
/// opcode is cut down to eight bits before it is measured.
pub fn login_header_length(opcode: u32) -> (r: usize)
    ensures
        r == login_skip(opcode),
        r == 1,
{
    let narrow: u8 = (opcode % 256) as u8;
    let mut bytes: Vec<u8> = Vec::new();
    let _ = narrow.write_into(&mut bytes);
    bytes.len()
}

/// Resolves the header of an incoming buffer.
pub fn resolve_frame(schema: &PacketSchema, buffer: &[u8]) -> (r: Result<Frame, DecodeError>)
    ensures
        r == frame_of(schema@, buffer@),
{
    let opcode_at: usize = INCOMING_HEADER_LENGTH - INCOMING_OPCODE_LENGTH;
    let short = DecodeError { kind: ErrorKind::UnexpectedEof, field: None, offset: opcode_at };
    let mut cursor = Cursor::new(buffer);
    if cursor.take(opcode_at).is_err() {
        return Err(short);
    }
    let opcode = match u16::read_from(&mut cursor) {
        Ok(opcode) => opcode,
        Err(_) => {
            return Err(short);
        },
    };
    let base: usize = match schema.login_opcode {
        Some(login) => login_header_length(login),
        None => INCOMING_HEADER_LENGTH,
    };
    let compressed = match schema.compressed_opcode {
        Some(marked) => marked == opcode,
        None => false,
    };
    let skip: usize = if compressed {
        base + COMPRESSION_OVERHEAD
    } else {
        base
    };
    if buffer.len() < skip {
        return Err(DecodeError { kind: ErrorKind::UnexpectedEof, field: None, offset: base });
    }
    Ok(Frame { opcode, skip, compressed })
}

/// Strips the framing from an incoming buffer and inflates what follows
/// where the frame is compressed.
pub fn payload(schema: &PacketSchema, buffer: &[u8]) -> (r: Result<Vec<u8>, DecodeError>)
    ensures
        match payload_of(schema@, buffer@) {
            Ok(plain) => r is Ok && r.unwrap()@ == plain,
            Err(error) => r is Err && r->Err_0 == error,
        },
{
    let frame = match resolve_frame(schema, buffer) {
        Ok(frame) => frame,
        Err(error) => {
            return Err(error);
        },
    };
    let rest = slice_subrange(buffer, frame.skip, buffer.len());
    if frame.compressed {
        match inflate(rest) {
            Some(plain) => Ok(plain),
            None => Err(
                DecodeError { kind: ErrorKind::CorruptPayload, field: None, offset: frame.skip },
            ),
        }
    } else {
        Ok(slice_to_vec(rest))
    }
}

} // verus!
