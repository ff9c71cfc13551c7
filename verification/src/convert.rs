//! The primitive conversion layer: how each primitive type is written to a
//! buffer and read from a cursor.

use crate::cursor::Cursor;
use crate::error::ErrorKind;
use crate::wire::{
    le_bytes, le_value, lemma_le_value_bound, lemma_spans, u16_from_le, u16_to_le, u32_from_le,
    u32_to_le, u64_from_le, u64_to_le,
};
use vstd::prelude::*;
use vstd::slice::slice_to_vec;
use vstd::utf8::{
    char_is_scalar, char_u32_cast, decode_utf8, encode_scalar, encode_utf8,
    encode_utf8_decode_utf8, valid_utf8,
};

verus! {

/// A type with a fixed wire form.
///
/// `wire` and `parse` are the model of the form; `write_into` and `read_from`
/// are held to them.
pub trait BinaryConverter: Sized + View {
    /// The bytes that stand for `value`.
    spec fn wire(value: Self::V) -> Seq<u8>;

    /// What the front of `bytes` holds: a value and the number of bytes that
    /// spell it, or the reason why there is none.
    spec fn parse(bytes: Seq<u8>) -> Result<(Self::V, nat), ErrorKind>;

    /// Appends the wire form of `self` to `buffer`. Never fails.
    fn write_into(&self, buffer: &mut Vec<u8>) -> (r: Result<(), ErrorKind>)
        ensures
            r is Ok,
            final(buffer)@ == old(buffer)@ + Self::wire(self@),
    ;

    /// Reads one value from the cursor and moves past it. On failure the
    /// cursor stays where it was.
    fn read_from(cursor: &mut Cursor) -> (r: Result<Self, ErrorKind>)
        requires
            old(cursor).wf(),
        ensures
            final(cursor).wf(),
            final(cursor).input() == old(cursor).input(),
            match Self::parse(old(cursor).ahead()) {
                Ok((value, count)) => r is Ok && r.unwrap()@ == value && final(cursor).consumed()
                    == old(cursor).consumed() + count,
                Err(kind) => r is Err && r->Err_0 == kind && final(cursor).consumed() == old(
                    cursor,
                ).consumed(),
            },
    ;
}

/// Appends `bytes` to `buffer`.
pub fn append(buffer: &mut Vec<u8>, bytes: &[u8])
    ensures
        final(buffer)@ == old(buffer)@ + bytes@,
{
    let mut i: usize = 0;
    while i < bytes.len()
        invariant
            i <= bytes@.len(),
            buffer@ == old(buffer)@ + bytes@.subrange(0, i as int),
        decreases bytes@.len() - i,
    {
        buffer.push(bytes[i]);
        i = i + 1;
    }
}

/// The index of the first zero byte, or the length where there is none.
pub open spec fn first_zero(bytes: Seq<u8>) -> nat
    decreases bytes.len(),
{
    if bytes.len() == 0 || bytes[0] == 0 {
        0
    } else {
        1 + first_zero(bytes.drop_first())
    }
}

/// `first_zero` is the one index with a zero byte and none before it.
pub proof fn lemma_first_zero(bytes: Seq<u8>, k: nat)
    requires
        k <= bytes.len(),
        forall|i: int| 0 <= i < k ==> bytes[i] != 0,
        k < bytes.len() ==> bytes[k as int] == 0,
    ensures
        first_zero(bytes) == k,
    decreases bytes.len(),
{
    if bytes.len() > 0 && bytes[0] != 0 {
        let tail = bytes.drop_first();
        assert forall|i: int| 0 <= i < k - 1 implies tail[i] != 0 by {}
        lemma_first_zero(tail, (k - 1) as nat);
    }
}

/// What `first_zero` finds: a zero byte there if it is inside, none before it.
pub proof fn lemma_first_zero_found(bytes: Seq<u8>)
    ensures
        first_zero(bytes) <= bytes.len(),
        forall|i: int| 0 <= i < first_zero(bytes) ==> bytes[i] != 0,
        first_zero(bytes) < bytes.len() ==> bytes[first_zero(bytes) as int] == 0,
    decreases bytes.len(),
{
    if bytes.len() > 0 && bytes[0] != 0 {
        let tail = bytes.drop_first();
        lemma_first_zero_found(tail);
        assert forall|i: int| 0 <= i < first_zero(bytes) implies bytes[i] != 0 by {
            if i > 0 {
                assert(bytes[i] == tail[i - 1]);
            }
        }
    }
}

/// The UTF-8 form of one character holds a zero byte only for the character
/// zero.
proof fn lemma_scalar_zero(scalar: u32)
    ensures
        encode_scalar(scalar).contains(0u8) <==> scalar == 0,
{
    let bytes = encode_scalar(scalar);
    assert(scalar <= 0x7f ==> (((scalar & 0x7f) as u8 == 0u8) <==> scalar == 0)) by (bit_vector);
    assert(0xc0u8 | ((scalar >> 6) & 0x1f) as u8 != 0u8) by (bit_vector);
    assert(0xe0u8 | ((scalar >> 12) & 0x0f) as u8 != 0u8) by (bit_vector);
    assert(0xf0u8 | ((scalar >> 18) & 0x7) as u8 != 0u8) by (bit_vector);
    assert(0x80u8 | (scalar & 0x3f) as u8 != 0u8) by (bit_vector);
    assert(0x80u8 | ((scalar >> 6) & 0x3f) as u8 != 0u8) by (bit_vector);
    assert(0x80u8 | ((scalar >> 12) & 0x3f) as u8 != 0u8) by (bit_vector);
    if scalar == 0 {
        assert(bytes[0] == 0u8);
    } else {
        assert forall|i: int| 0 <= i < bytes.len() implies bytes[i] != 0u8 by {}
    }
}

/// A text holds a zero byte in its UTF-8 form exactly where it holds the
/// character zero.
pub proof fn lemma_zero_byte_is_zero_char(text: Seq<char>)
    ensures
        encode_utf8(text).contains(0u8) <==> text.contains('\0'),
    decreases text.len(),
{
    if text.len() > 0 {
        let first = text[0] as u32;
        let head = encode_scalar(first);
        let tail = text.drop_first();
        let rest = encode_utf8(tail);
        char_is_scalar(text[0]);
        char_u32_cast(text[0], first);
        char_u32_cast('\0', 0u32);
        lemma_scalar_zero(first);
        lemma_zero_byte_is_zero_char(tail);
        if head.contains(0u8) {
            let i = choose|i: int| 0 <= i < head.len() && head[i] == 0u8;
            assert((head + rest)[i] == 0u8);
        }
        if rest.contains(0u8) {
            let i = choose|i: int| 0 <= i < rest.len() && rest[i] == 0u8;
            assert((head + rest)[head.len() + i] == 0u8);
            let j = choose|j: int| 0 <= j < tail.len() && tail[j] == '\0';
        }
        if text.contains('\0') {
            let j = choose|j: int| 0 <= j < text.len() && text[j] == '\0';
            if j == 0 {
            } else {
                assert(tail[j - 1] == '\0');
            }
        }
    }
}

/// `String::from_utf8` of std: the string whose UTF-8 bytes are `bytes`, and
/// `None` exactly where `bytes` are not valid UTF-8.
#[verifier::external_body]
pub(crate) fn text_from_utf8(bytes: Vec<u8>) -> (r: Option<String>)
    ensures
        r is Some <==> valid_utf8(bytes@),
        r matches Some(text) ==> encode_utf8(text@) == bytes@,
{
    match String::from_utf8(bytes) {
        Ok(text) => Some(text),
        Err(_) => None,
    }
}

impl BinaryConverter for u8 {
    open spec fn wire(value: u8) -> Seq<u8> {
        seq![value]
    }

    open spec fn parse(bytes: Seq<u8>) -> Result<(u8, nat), ErrorKind> {
        if bytes.len() >= 1 {
            Ok((bytes[0], 1))
        } else {
            Err(ErrorKind::UnexpectedEof)
        }
    }

    fn write_into(&self, buffer: &mut Vec<u8>) -> (r: Result<(), ErrorKind>) {
        buffer.push(*self);
        Ok(())
    }

    fn read_from(cursor: &mut Cursor) -> (r: Result<Self, ErrorKind>) {
        match cursor.take(1) {
            Ok(bytes) => Ok(bytes[0]),
            Err(kind) => Err(kind),
        }
    }
}

impl BinaryConverter for u16 {
    open spec fn wire(value: u16) -> Seq<u8> {
        le_bytes(value as nat, 2)
    }

    open spec fn parse(bytes: Seq<u8>) -> Result<(u16, nat), ErrorKind> {
        if bytes.len() >= 2 {
            Ok((le_value(bytes.subrange(0, 2)) as u16, 2))
        } else {
            Err(ErrorKind::UnexpectedEof)
        }
    }

    fn write_into(&self, buffer: &mut Vec<u8>) -> (r: Result<(), ErrorKind>) {
        let bytes = u16_to_le(*self);
        append(buffer, bytes.as_slice());
        Ok(())
    }

    fn read_from(cursor: &mut Cursor) -> (r: Result<Self, ErrorKind>) {
        match cursor.take(2) {
            Ok(bytes) => {
                let value = u16_from_le(bytes);
                proof {
                    assert(bytes@.subrange(0, 2) =~= old(cursor).ahead().subrange(0, 2));
                    lemma_le_value_bound(bytes@.subrange(0, 2));
                    lemma_spans();
                }
                Ok(value)
            },
            Err(kind) => Err(kind),
        }
    }
}

impl BinaryConverter for u32 {
    open spec fn wire(value: u32) -> Seq<u8> {
        le_bytes(value as nat, 4)
    }

    open spec fn parse(bytes: Seq<u8>) -> Result<(u32, nat), ErrorKind> {
        if bytes.len() >= 4 {
            Ok((le_value(bytes.subrange(0, 4)) as u32, 4))
        } else {
            Err(ErrorKind::UnexpectedEof)
        }
    }

    fn write_into(&self, buffer: &mut Vec<u8>) -> (r: Result<(), ErrorKind>) {
        let bytes = u32_to_le(*self);
        append(buffer, bytes.as_slice());
        Ok(())
    }

    fn read_from(cursor: &mut Cursor) -> (r: Result<Self, ErrorKind>) {
        match cursor.take(4) {
            Ok(bytes) => {
                let value = u32_from_le(bytes);
                proof {
                    assert(bytes@.subrange(0, 4) =~= old(cursor).ahead().subrange(0, 4));
                    lemma_le_value_bound(bytes@.subrange(0, 4));
                    lemma_spans();
                }
                Ok(value)
            },
            Err(kind) => Err(kind),
        }
    }
}

impl BinaryConverter for u64 {
    open spec fn wire(value: u64) -> Seq<u8> {
        le_bytes(value as nat, 8)
    }

    open spec fn parse(bytes: Seq<u8>) -> Result<(u64, nat), ErrorKind> {
        if bytes.len() >= 8 {
            Ok((le_value(bytes.subrange(0, 8)) as u64, 8))
        } else {
            Err(ErrorKind::UnexpectedEof)
        }
    }

    fn write_into(&self, buffer: &mut Vec<u8>) -> (r: Result<(), ErrorKind>) {
        let bytes = u64_to_le(*self);
        append(buffer, bytes.as_slice());
        Ok(())
    }

    fn read_from(cursor: &mut Cursor) -> (r: Result<Self, ErrorKind>) {
        match cursor.take(8) {
            Ok(bytes) => {
                let value = u64_from_le(bytes);
                proof {
                    assert(bytes@.subrange(0, 8) =~= old(cursor).ahead().subrange(0, 8));
                    lemma_le_value_bound(bytes@.subrange(0, 8));
                    lemma_spans();
                }
                Ok(value)
            },
            Err(kind) => Err(kind),
        }
    }
}

impl BinaryConverter for String {
    open spec fn wire(value: Seq<char>) -> Seq<u8> {
        encode_utf8(value) + seq![0u8]
    }

    open spec fn parse(bytes: Seq<u8>) -> Result<(Seq<char>, nat), ErrorKind> {
        let end = first_zero(bytes);
        if end >= bytes.len() {
            Err(ErrorKind::UnexpectedEof)
        } else if !valid_utf8(bytes.subrange(0, end as int)) {
            Err(ErrorKind::InvalidEncoding)
        } else {
            Ok((decode_utf8(bytes.subrange(0, end as int)), end + 1))
        }
    }

    fn write_into(&self, buffer: &mut Vec<u8>) -> (r: Result<(), ErrorKind>) {
        append(buffer, self.as_str().as_bytes());
        buffer.push(0u8);
        Ok(())
    }

    fn read_from(cursor: &mut Cursor) -> (r: Result<Self, ErrorKind>) {
        let ahead = cursor.peek();
        let mut end: usize = 0;
        while end < ahead.len() && ahead[end] != 0
            invariant
                end <= ahead@.len(),
                forall|i: int| 0 <= i < end ==> ahead@[i] != 0,
            decreases ahead@.len() - end,
        {
            end = end + 1;
        }
        proof {
            lemma_first_zero(ahead@, end as nat);
        }
        if end >= ahead.len() {
            return Err(ErrorKind::UnexpectedEof);
        }
        let body = slice_to_vec(vstd::slice::slice_subrange(ahead, 0, end));
        match text_from_utf8(body) {
            None => Err(ErrorKind::InvalidEncoding),
            Some(text) => {
                proof {
                    encode_utf8_decode_utf8(text@);
                }
                let _ = cursor.take(end + 1);
                Ok(text)
            },
        }
    }
}

impl<const N: usize> BinaryConverter for [u8; N] {
    open spec fn wire(value: Seq<u8>) -> Seq<u8> {
        value
    }

    open spec fn parse(bytes: Seq<u8>) -> Result<(Seq<u8>, nat), ErrorKind> {
        if bytes.len() >= N {
            Ok((bytes.subrange(0, N as int), N as nat))
        } else {
            Err(ErrorKind::UnexpectedEof)
        }
    }

    fn write_into(&self, buffer: &mut Vec<u8>) -> (r: Result<(), ErrorKind>) {
        append(buffer, self.as_slice());
        Ok(())
    }

    fn read_from(cursor: &mut Cursor) -> (r: Result<Self, ErrorKind>) {
        match cursor.take(N) {
            Ok(bytes) => {
                let mut out = [0u8; N];
                let mut i: usize = 0;
                while i < N
                    invariant
                        i <= N,
                        bytes@.len() == N,
                        forall|j: int| 0 <= j < i ==> out@[j] == bytes@[j],
                    decreases N - i,
                {
                    out[i] = bytes[i];
                    i = i + 1;
                }
                assert(out@ =~= bytes@);
                Ok(out)
            },
            Err(kind) => Err(kind),
        }
    }
}

} // verus!
