//! The codec: a raw incoming buffer to a record, a record to an outgoing frame.

use crate::convert::{append, BinaryConverter};
use crate::error::DecodeError;
use crate::fields::{admits, decode_fields, fits, payload_parse};
use crate::header::{payload, payload_of, OUTCOMING_OPCODE_LENGTH};
use crate::schema::{PacketSchema, SchemaView};
use crate::value::{encode_fields, record_wire, values_view, Value, ValueView};
use vstd::prelude::*;

verus! {

/// An outgoing frame: the opcode it carries and its bytes.
pub type PacketOutcome = (u32, Vec<u8>);

/// The record that an incoming buffer spells under the schema: the header is
/// resolved, the payload inflated where the frame is compressed, and the
/// fields are read from the payload in declared order.
pub open spec fn decode_spec(schema: SchemaView, buffer: Seq<u8>) -> Result<
    Seq<ValueView>,
    DecodeError,
> {
    match payload_of(schema, buffer) {
        Err(error) => Err(error),
        Ok(plain) => payload_parse(schema.fields, plain),
    }
}

/// The header of an outgoing frame and the opcode in it.
///
/// A login packet is headed by the low eight bits of its login opcode alone.
/// Any other packet is headed by a 16-bit length, which counts the opcode and
/// the payload, and the world opcode in 32 bits, both little-endian. There is
/// no header where the schema declares neither opcode or the length does not
/// fit its 16 bits.
pub open spec fn outgoing_header(schema: SchemaView, payload_len: nat) -> Option<(u32, Seq<u8>)> {
    match schema.login_opcode {
        Some(opcode) => Some((opcode, <u8 as BinaryConverter>::wire((opcode % 256) as u8))),
        None => match schema.world_opcode {
            None => None,
            Some(opcode) => if payload_len + OUTCOMING_OPCODE_LENGTH > 0xffff {
                None
            } else {
                Some(
                    (
                        opcode,
                        <u16 as BinaryConverter>::wire((payload_len + OUTCOMING_OPCODE_LENGTH) as u16)
                            + <u32 as BinaryConverter>::wire(opcode),
                    ),
                )
            },
        },
    }
}

/// The outgoing frame of a record: its header and the wire form of its
/// values. There is none for a record that is not one of the schema, nor
/// where there is no header.
pub open spec fn encode_spec(schema: SchemaView, values: Seq<ValueView>) -> Option<(u32, Seq<u8>)> {
    if !fits(schema.fields, values) {
        None
    } else {
        match outgoing_header(schema, record_wire(values).len()) {
            None => None,
            Some((opcode, header)) => Some((opcode, header + record_wire(values))),
        }
    }
}

/// Decodes one incoming buffer into the values of a record.
///
/// Fails with `UnexpectedEof` where the buffer ends before the header or a
/// field does, with `CorruptPayload` where a compressed payload does not
/// inflate, with `InvalidEncoding` where a text is not UTF-8, and with
/// `UnresolvedDependency` where the schema names a dependency that is not
/// there. No partial record is returned.
pub fn decode(schema: &PacketSchema, buffer: &[u8]) -> (r: Result<Vec<Value>, DecodeError>)
    ensures
        match decode_spec(schema@, buffer@) {
            Ok(values) => r is Ok && values_view(r.unwrap()@) == values,
            Err(error) => r is Err && r->Err_0 == error,
        },
{
    match payload(schema, buffer) {
        Err(error) => Err(error),
        Ok(plain) => decode_fields(schema, plain.as_slice()),
    }
}

/// Encodes a record into an outgoing frame, or `None` where `encode_spec`
/// has none.
pub fn encode(schema: &PacketSchema, values: &Vec<Value>) -> (r: Option<PacketOutcome>)
    ensures
        match encode_spec(schema@, values_view(values@)) {
            Some((opcode, bytes)) => r is Some && r.unwrap().0 == opcode && r.unwrap().1@ == bytes,
            None => r is None,
        },
{
    if !admits(schema, values) {
        return None;
    }
    let mut body: Vec<u8> = Vec::new();
    encode_fields(values, &mut body);
    let mut frame: Vec<u8> = Vec::new();
    let opcode = match schema.login_opcode {
        Some(opcode) => {
            let narrow: u8 = (opcode % 256) as u8;
            let _ = narrow.write_into(&mut frame);
            opcode
        },
        None => match schema.world_opcode {
            None => {
                return None;
            },
            Some(opcode) => {
                if body.len() > 0xffff - OUTCOMING_OPCODE_LENGTH {
                    return None;
                }
                let length: u16 = (body.len() + OUTCOMING_OPCODE_LENGTH) as u16;
                let _ = length.write_into(&mut frame);
                let _ = opcode.write_into(&mut frame);
                opcode
            },
        },
    };
    append(&mut frame, body.as_slice());
    Some((opcode, frame))
}

} // verus!
