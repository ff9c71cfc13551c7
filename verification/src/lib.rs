//! A schema-driven binary codec for length-prefixed, opcode-addressed packets.
//!
//! A [`PacketSchema`] describes one packet type: its header attributes and its
//! fields in wire order, where a dynamic field is shaped by fields before it.
//! [`decode`] turns a raw incoming buffer into the field values of one record,
//! [`encode`] turns the values into an outgoing frame. Every executable
//! function carries a contract over the byte-level model that the modules
//! define, and [`laws`] proves what holds of the codec as a whole.

pub mod codec;
pub mod convert;
pub mod cursor;
pub mod declare;
pub mod error;
pub mod fields;
pub mod header;
pub mod income;
pub mod laws;
pub mod schema;
pub mod value;
pub mod wire;

pub use crate::codec::{decode, encode, PacketOutcome};
pub use crate::convert::BinaryConverter;
pub use crate::cursor::Cursor;
pub use crate::error::{DecodeError, ErrorKind};
pub use crate::header::{
    INCOMING_HEADER_LENGTH, INCOMING_OPCODE_LENGTH, OUTCOMING_HEADER_LENGTH,
    OUTCOMING_OPCODE_LENGTH,
};
pub use crate::schema::{FieldSpec, FieldType, PacketSchema};
pub use crate::value::Value;
