//! What holds of the codec as a whole: encoding and decoding undo each other,
//! a truncated payload is always noticed, decoded records are records of the
//! schema, and a well-formed schema never meets a dependency it cannot
//! resolve.

use crate::codec::{decode_spec, encode_spec, outgoing_header};
use crate::convert::{
    first_zero, lemma_first_zero, lemma_first_zero_found, lemma_zero_byte_is_zero_char,
    BinaryConverter,
};
use crate::error::{DecodeError, ErrorKind};
use crate::fields::{
    all_present, dep_value, field_parse, fields_parse, fits, lemma_all_present, lemma_fields_parse,
    lemma_fits, payload_parse, plan, step_parse, typed, value_fits, value_present, Plan,
};
use crate::header::{
    frame_of, inflated, payload_of, INCOMING_HEADER_LENGTH, OUTCOMING_HEADER_LENGTH,
    OUTCOMING_OPCODE_LENGTH,
};
use crate::schema::{fields_wf, lemma_fields_wf, type_wf, FieldView, SchemaView, TypeView};
use crate::value::{lemma_record_wire_push, record_wire, wire_upto, ValueView};
use crate::wire::{
    le_bytes, le_value, lemma_le_bytes_len, lemma_le_bytes_of_value, lemma_le_value_bound,
    lemma_le_value_of_bytes, lemma_spans, span,
};
use vstd::prelude::*;
use vstd::utf8::{
    decode_utf8_encode_utf8, encode_utf8, encode_utf8_decode_utf8, encode_utf8_valid_utf8,
};

verus! {

/// The wire form of the first `n` values begins with that of the first `i`.
pub proof fn lemma_wire_upto_grows(values: Seq<ValueView>, i: nat, n: nat)
    requires
        i <= n <= values.len(),
    ensures
        wire_upto(values, i).len() <= wire_upto(values, n).len(),
        wire_upto(values, n).take(wire_upto(values, i).len() as int) == wire_upto(values, i),
    decreases n - i,
{
    if i < n {
        lemma_wire_upto_grows(values, i, (n - 1) as nat);
        let shorter = wire_upto(values, (n - 1) as nat);
        assert(wire_upto(values, n).take(wire_upto(values, i).len() as int) =~= shorter.take(
            wire_upto(values, i).len() as int,
        ));
    }
}

/// Where field `i` of a record stands in the bytes: after the wire form of
/// the values before it, and before whatever follows its own.
proof fn lemma_locate(values: Seq<ValueView>, bytes: Seq<u8>, i: nat)
    requires
        i < values.len(),
        wire_upto(values, i + 1).len() <= bytes.len(),
        bytes.take(wire_upto(values, i + 1).len() as int) == wire_upto(values, i + 1),
    ensures
        wire_upto(values, i + 1) == wire_upto(values, i) + values[i as int].wire(),
        bytes.skip(wire_upto(values, i).len() as int) == values[i as int].wire() + bytes.skip(
            wire_upto(values, i + 1).len() as int,
        ),
{
    let before = wire_upto(values, i);
    let own = values[i as int].wire();
    let upto = wire_upto(values, i + 1);
    assert forall|k: int| 0 <= k < own.len() implies bytes[before.len() + k] == own[k] by {
        assert(bytes.take(upto.len() as int)[before.len() + k] == upto[before.len() + k]);
    }
}

/// An integer of `width` bytes is read back from its wire form, whatever follows.
proof fn lemma_integer_round_trip(value: nat, width: nat, rest: Seq<u8>)
    requires
        value < span(width),
    ensures
        (le_bytes(value, width) + rest).len() >= width,
        le_bytes(value, width).len() == width,
        le_value((le_bytes(value, width) + rest).subrange(0, width as int)) == value,
{
    lemma_le_bytes_len(value, width);
    lemma_le_value_of_bytes(value, width);
    assert((le_bytes(value, width) + rest).subrange(0, width as int) =~= le_bytes(value, width));
}

/// A text without a zero byte is read back from its wire form, whatever follows.
proof fn lemma_text_round_trip(text: Seq<char>, rest: Seq<u8>)
    requires
        !encode_utf8(text).contains(0u8),
    ensures
        <String as BinaryConverter>::parse(<String as BinaryConverter>::wire(text) + rest) == Ok::<
            (Seq<char>, nat),
            ErrorKind,
        >((text, <String as BinaryConverter>::wire(text).len())),
{
    let body = encode_utf8(text);
    let bytes = <String as BinaryConverter>::wire(text) + rest;
    assert forall|i: int| 0 <= i < body.len() implies bytes[i] != 0 by {}
    lemma_first_zero(bytes, body.len());
    assert(bytes.subrange(0, body.len() as int) =~= body);
    encode_utf8_valid_utf8(text);
    encode_utf8_decode_utf8(text);
}

/// A value of the type, with nothing absent inside, is read back from its
/// wire form, whatever follows.
pub proof fn lemma_field_round_trip(ty: TypeView, value: ValueView, rest: Seq<u8>)
    requires
        typed(value, ty),
        value_present(value, ty),
    ensures
        field_parse(ty, value.wire() + rest) == Ok::<(ValueView, nat), DecodeError>(
            (value, value.wire().len()),
        ),
    decreases ty, 0nat, 0nat,
{
    lemma_spans();
    match value {
        ValueView::U8(v) => {},
        ValueView::U16(v) => {
            lemma_integer_round_trip(v as nat, 2, rest);
        },
        ValueView::U32(v) => {
            lemma_integer_round_trip(v as nat, 4, rest);
        },
        ValueView::U64(v) => {
            lemma_integer_round_trip(v as nat, 8, rest);
        },
        ValueView::Bytes(run) => {
            assert((run + rest).subrange(0, run.len() as int) =~= run);
        },
        ValueView::Text(text) => {
            lemma_text_round_trip(text, rest);
        },
        ValueView::Record(values) => {
            let fields = ty->Record_0;
            assert(values.take(0) =~= Seq::<ValueView>::empty());
            lemma_round_trip_from(fields, values, rest, 0);
        },
    }
}

/// From field `i` on, the wire form of a fitting record reads as the record.
pub proof fn lemma_round_trip_from(
    fields: Seq<FieldView>,
    values: Seq<ValueView>,
    rest: Seq<u8>,
    i: nat,
)
    requires
        fits(fields, values),
        all_present(fields, values),
        i <= values.len(),
    ensures
        fields_parse(
            fields,
            record_wire(values) + rest,
            values.take(i as int),
            wire_upto(values, i).len(),
        ) == Ok::<(Seq<ValueView>, nat), DecodeError>((values, record_wire(values).len())),
    decreases fields, 1nat, values.len() - i,
{
    let whole = record_wire(values);
    let bytes = whole + rest;
    let prior = values.take(i as int);
    let offset = wire_upto(values, i).len();
    lemma_fits(fields, values);
    lemma_all_present(fields, values);
    lemma_fields_parse(fields, bytes, prior, offset);
    if i == values.len() {
        assert(prior =~= values);
    } else {
        let at = i as int;
        lemma_wire_upto_grows(values, i + 1, values.len());
        assert(bytes.take(wire_upto(values, i + 1).len() as int) =~= whole.take(
            wire_upto(values, i + 1).len() as int,
        ));
        lemma_locate(values, bytes, i);
        let tail = bytes.skip(wire_upto(values, i + 1).len() as int);
        match plan(fields[at], prior) {
            Ok(Plan::Read) => {
                lemma_field_round_trip(fields[at].ty, values[at], tail);
            },
            Ok(Plan::Run(count)) => {
                let run = values[at]->Bytes_0;
                assert((run + tail).subrange(0, run.len() as int) =~= run);
            },
            _ => {},
        }
        assert(prior.push(values[at]) =~= values.take(at + 1));
        lemma_round_trip_from(fields, values, rest, i + 1);
    }
}

/// Round trip of the fields: the wire form of a record of the schema in which
/// no dynamic field is absent decodes to the record, whatever follows it.
pub proof fn law_fields_round_trip(fields: Seq<FieldView>, values: Seq<ValueView>, rest: Seq<u8>)
    requires
        fits(fields, values),
        all_present(fields, values),
    ensures
        payload_parse(fields, record_wire(values) + rest) == Ok::<Seq<ValueView>, DecodeError>(
            values,
        ),
{
    assert(values.take(0) =~= Seq::<ValueView>::empty());
    lemma_round_trip_from(fields, values, rest, 0);
}

/// Cut short, the wire form of a value of the type, with nothing absent
/// inside, reads as `UnexpectedEof`.
pub proof fn lemma_field_truncated(ty: TypeView, value: ValueView, k: int)
    requires
        typed(value, ty),
        value_present(value, ty),
        0 <= k < value.wire().len(),
    ensures
        field_parse(ty, value.wire().take(k)) matches Err(error) && error.kind
            == ErrorKind::UnexpectedEof,
    decreases ty, 0nat, 0nat,
{
    match value {
        ValueView::U8(v) => {},
        ValueView::U16(v) => {
            lemma_le_bytes_len(v as nat, 2);
        },
        ValueView::U32(v) => {
            lemma_le_bytes_len(v as nat, 4);
        },
        ValueView::U64(v) => {
            lemma_le_bytes_len(v as nat, 8);
        },
        ValueView::Bytes(run) => {},
        ValueView::Text(text) => {
            let cut = value.wire().take(k);
            assert forall|i: int| 0 <= i < k implies cut[i] != 0 by {}
            lemma_first_zero(cut, k as nat);
        },
        ValueView::Record(values) => {
            let fields = ty->Record_0;
            assert(values.take(0) =~= Seq::<ValueView>::empty());
            lemma_truncated_from(fields, values, k, 0);
        },
    }
}

/// From field `i` on, the wire form cut at `k` fails with `UnexpectedEof`.
pub proof fn lemma_truncated_from(fields: Seq<FieldView>, values: Seq<ValueView>, k: int, i: nat)
    requires
        fits(fields, values),
        all_present(fields, values),
        i <= values.len(),
        wire_upto(values, i).len() <= k < record_wire(values).len(),
    ensures
        fields_parse(fields, record_wire(values).take(k), values.take(i as int), wire_upto(values, i).len())
            matches Err(error) && error.kind == ErrorKind::UnexpectedEof,
    decreases fields, 1nat, values.len() - i,
{
    let whole = record_wire(values);
    let bytes = whole.take(k);
    let prior = values.take(i as int);
    let offset = wire_upto(values, i).len();
    lemma_fits(fields, values);
    lemma_all_present(fields, values);
    lemma_fields_parse(fields, bytes, prior, offset);
    if i < values.len() {
        let at = i as int;
        lemma_wire_upto_grows(values, i + 1, values.len());
        lemma_locate(values, whole, i);
        let own = values[at].wire();
        let next = wire_upto(values, i + 1).len();
        if next <= k {
            assert(bytes.take(next as int) =~= whole.take(next as int));
            lemma_locate(values, bytes, i);
            let tail = bytes.skip(next as int);
            match plan(fields[at], prior) {
                Ok(Plan::Read) => {
                    lemma_field_round_trip(fields[at].ty, values[at], tail);
                },
                Ok(Plan::Run(count)) => {
                    let run = values[at]->Bytes_0;
                    assert((run + tail).subrange(0, run.len() as int) =~= run);
                },
                _ => {},
            }
            assert(prior.push(values[at]) =~= values.take(at + 1));
            lemma_truncated_from(fields, values, k, i + 1);
        } else {
            assert(bytes.skip(offset as int) =~= own.take(k - offset));
            match plan(fields[at], prior) {
                Ok(Plan::Read) => {
                    lemma_field_truncated(fields[at].ty, values[at], k - offset);
                },
                _ => {},
            }
        }
    }
}

/// Truncation of the fields: the wire form of a record of the schema in which
/// no dynamic field is absent, cut anywhere before its end, fails to decode
/// with `UnexpectedEof`.
pub proof fn law_fields_truncated(fields: Seq<FieldView>, values: Seq<ValueView>, k: int)
    requires
        fits(fields, values),
        all_present(fields, values),
        0 <= k < record_wire(values).len(),
    ensures
        payload_parse(fields, record_wire(values).take(k)) matches Err(error) && error.kind
            == ErrorKind::UnexpectedEof,
{
    assert(values.take(0) =~= Seq::<ValueView>::empty());
    lemma_truncated_from(fields, values, k, 0);
}

/// A text can be carried as a field exactly where it holds no character zero.
pub proof fn law_text_without_zero(text: Seq<char>)
    ensures
        typed(ValueView::Text(text), TypeView::Text) <==> !text.contains('\0'),
{
    lemma_zero_byte_is_zero_char(text);
}

/// Decoding inverts the wire form: a buffer whose payload begins with the
/// wire form of a record of the schema, none of whose dynamic fields is
/// absent, decodes to that record.
pub proof fn law_decode_of_wire(
    schema: SchemaView,
    values: Seq<ValueView>,
    buffer: Seq<u8>,
    rest: Seq<u8>,
)
    requires
        fits(schema.fields, values),
        all_present(schema.fields, values),
        payload_of(schema, buffer) == Ok::<Seq<u8>, DecodeError>(record_wire(values) + rest),
    ensures
        decode_spec(schema, buffer) == Ok::<Seq<ValueView>, DecodeError>(values),
{
    law_fields_round_trip(schema.fields, values, rest);
}

/// Round trip: where a record has a frame, no dynamic field of it is absent,
/// and decoding takes the frame as uncompressed and skips exactly the header
/// that encoding wrote, decoding the frame gives the record back.
pub proof fn law_round_trip(schema: SchemaView, values: Seq<ValueView>)
    requires
        all_present(schema.fields, values),
        encode_spec(schema, values) is Some,
        frame_of(schema, encode_spec(schema, values).unwrap().1) matches Ok(frame)
            && !frame.compressed && frame.skip == outgoing_header(
            schema,
            record_wire(values).len(),
        ).unwrap().1.len(),
    ensures
        decode_spec(schema, encode_spec(schema, values).unwrap().1) == Ok::<
            Seq<ValueView>,
            DecodeError,
        >(values),
{
    let bytes = encode_spec(schema, values).unwrap().1;
    let frame = frame_of(schema, bytes).unwrap();
    let body = record_wire(values);
    assert(bytes.skip(frame.skip as int) =~= body + Seq::<u8>::empty());
    law_decode_of_wire(schema, values, bytes, Seq::empty());
}

/// The header of a buffer that was cut at or after its fourth byte is the
/// header of the whole buffer, as long as the frame is not compressed.
proof fn lemma_frame_of_cut(schema: SchemaView, buffer: Seq<u8>, k: int)
    requires
        frame_of(schema, buffer) matches Ok(frame) && !frame.compressed,
        INCOMING_HEADER_LENGTH <= k <= buffer.len(),
    ensures
        frame_of(schema, buffer.take(k)) == frame_of(schema, buffer),
        frame_of(schema, buffer).unwrap().skip <= k,
{
    assert(buffer.take(k).skip(2).subrange(0, 2) =~= buffer.skip(2).subrange(0, 2));
}

/// Truncation: a buffer that is framed without compression and whose payload
/// is exactly the wire form of a record of the schema, none of whose dynamic
/// fields is absent, fails to decode with `UnexpectedEof` when it is cut
/// anywhere before its end.
pub proof fn law_truncated(schema: SchemaView, values: Seq<ValueView>, buffer: Seq<u8>, k: int)
    requires
        fits(schema.fields, values),
        all_present(schema.fields, values),
        frame_of(schema, buffer) matches Ok(frame) && !frame.compressed && buffer.skip(
            frame.skip as int,
        ) == record_wire(values),
        0 <= k < buffer.len(),
    ensures
        decode_spec(schema, buffer.take(k)) matches Err(error) && error.kind
            == ErrorKind::UnexpectedEof,
{
    if k >= INCOMING_HEADER_LENGTH {
        lemma_frame_of_cut(schema, buffer, k);
        let skip = frame_of(schema, buffer).unwrap().skip as int;
        assert(buffer.take(k).skip(skip) =~= record_wire(values).take(k - skip));
        law_fields_truncated(schema.fields, values, k - skip);
    }
}

/// Outgoing header: where a frame has a header, it is the one byte of a
/// login header, or six bytes: two of length and four of opcode.
pub proof fn law_outgoing_header_length(schema: SchemaView, payload_len: nat)
    ensures
        outgoing_header(schema, payload_len) matches Some((opcode, header)) ==> header.len() == (
        if schema.login_opcode is Some {
            1int
        } else {
            OUTCOMING_HEADER_LENGTH as int
        }),
{
    if schema.login_opcode is None && schema.world_opcode is Some {
        lemma_le_bytes_len((payload_len + OUTCOMING_OPCODE_LENGTH) as u16 as nat, 2);
        lemma_le_bytes_len(schema.world_opcode.unwrap() as nat, 4);
    }
}

/// Header skip: the framing of a buffer is four bytes, or one byte under a
/// login opcode, and six bytes more where the frame is compressed.
pub proof fn law_skip_length(schema: SchemaView, buffer: Seq<u8>)
    requires
        frame_of(schema, buffer) is Ok,
    ensures
        frame_of(schema, buffer).unwrap().skip == (if schema.login_opcode is Some {
            1int
        } else {
            4int
        }) + (if frame_of(schema, buffer).unwrap().compressed {
            6int
        } else {
            0int
        }),
{
}

/// Compression trigger: the payload is inflated exactly where the opcode at
/// bytes 2 and 3 of the buffer is the compressed opcode of the schema; with
/// any other opcode, and under a schema without one, the payload is the bytes
/// after the framing as they are.
pub proof fn law_compression_trigger(schema: SchemaView, buffer: Seq<u8>)
    requires
        frame_of(schema, buffer) is Ok,
    ensures
        ({
            let frame = frame_of(schema, buffer).unwrap();
            let rest = buffer.skip(frame.skip as int);
            &&& frame.opcode == le_value(buffer.subrange(2, 4))
            &&& frame.compressed <==> schema.compressed_opcode == Some(frame.opcode)
            &&& !frame.compressed ==> payload_of(schema, buffer) == Ok::<Seq<u8>, DecodeError>(rest)
            &&& frame.compressed ==> (match inflated(rest) {
                Some(plain) => payload_of(schema, buffer) == Ok::<Seq<u8>, DecodeError>(plain),
                None => payload_of(schema, buffer) matches Err(error) && error.kind
                    == ErrorKind::CorruptPayload,
            })
        }),
{
    assert(buffer.skip(2).subrange(0, 2) =~= buffer.subrange(2, 4));
    lemma_le_value_bound(buffer.subrange(2, 4));
    lemma_spans();
}

/// Absence: a dynamic field whose plan is to be absent takes the default of
/// its type and no byte of the payload; decoding goes on at the same offset.
pub proof fn law_absent_takes_nothing(
    fields: Seq<FieldView>,
    payload: Seq<u8>,
    prior: Seq<ValueView>,
    offset: nat,
)
    requires
        prior.len() < fields.len(),
        plan(fields[prior.len() as int], prior) == Ok::<Plan, ErrorKind>(Plan::Absent),
    ensures
        fields_parse(fields, payload, prior, offset) == fields_parse(
            fields,
            payload,
            prior.push(ValueView::default_of(fields[prior.len() as int].ty)),
            offset,
        ),
{
    lemma_fields_parse(fields, payload, prior, offset);
}

/// What is decoded from field `prior.len()` on begins with the values before it.
proof fn lemma_parse_keeps_prior(
    fields: Seq<FieldView>,
    payload: Seq<u8>,
    prior: Seq<ValueView>,
    offset: nat,
)
    ensures
        fields_parse(fields, payload, prior, offset) matches Ok((values, used)) ==> prior.len()
            <= values.len() && values.take(prior.len() as int) == prior && (prior.len()
            >= fields.len() ==> values == prior),
    decreases fields.len() - prior.len(),
{
    let i = prior.len() as int;
    lemma_fields_parse(fields, payload, prior, offset);
    if i < fields.len() {
        if let Ok(step) = plan(fields[i], prior) {
            if let Ok((value, count)) = step_parse(step, fields[i].ty, payload.skip(offset as int)) {
                let next = prior.push(value);
                lemma_parse_keeps_prior(fields, payload, next, offset + count);
            }
        }
    }
}

/// What is read as a value of a type is one of that type, and took no more
/// bytes than there were.
pub proof fn lemma_field_parse_typed(ty: TypeView, bytes: Seq<u8>)
    ensures
        field_parse(ty, bytes) matches Ok((value, count)) ==> typed(value, ty) && count
            <= bytes.len(),
    decreases ty, 0nat, 0nat,
{
    match ty {
        TypeView::Text => {
            if let Ok((value, count)) = field_parse(ty, bytes) {
                let end = first_zero(bytes);
                let body = bytes.subrange(0, end as int);
                lemma_first_zero_found(bytes);
                decode_utf8_encode_utf8(body);
            }
        },
        TypeView::Record(fields) => {
            lemma_decoded_fits_from(fields, bytes, Seq::empty(), 0);
        },
        _ => {},
    }
}

/// What is decoded from field `prior.len()` on keeps the values before it and
/// adds only fitting ones.
pub proof fn lemma_decoded_fits_from(
    fields: Seq<FieldView>,
    payload: Seq<u8>,
    prior: Seq<ValueView>,
    offset: nat,
)
    requires
        prior.len() <= fields.len(),
        offset <= payload.len(),
        forall|j: int| 0 <= j < prior.len() ==> #[trigger] value_fits(fields, prior, j),
    ensures
        fields_parse(fields, payload, prior, offset) matches Ok((values, used)) ==> fits(
            fields,
            values,
        ) && used <= payload.len(),
    decreases fields, 1nat, fields.len() - prior.len(),
{
    let i = prior.len() as int;
    lemma_fields_parse(fields, payload, prior, offset);
    if i < fields.len() {
        let ahead = payload.skip(offset as int);
        if let Ok(step) = plan(fields[i], prior) {
            if let Ok((value, count)) = step_parse(step, fields[i].ty, ahead) {
                let next = prior.push(value);
                if step is Read {
                    lemma_field_parse_typed(fields[i].ty, ahead);
                }
                assert forall|j: int| 0 <= j < next.len() implies #[trigger] value_fits(
                    fields,
                    next,
                    j,
                ) by {
                    if j < i {
                        assert(value_fits(fields, prior, j));
                    }
                }
                lemma_decoded_fits_from(fields, payload, next, offset + count);
            }
        }
    } else {
        lemma_fits(fields, prior);
    }
}

/// Every record that decoding returns is a record of the schema.
pub proof fn law_decoded_fits(schema: SchemaView, buffer: Seq<u8>)
    ensures
        decode_spec(schema, buffer) matches Ok(values) ==> fits(schema.fields, values),
{
    if let Ok(plain) = payload_of(schema, buffer) {
        lemma_decoded_fits_from(schema.fields, plain, Seq::empty(), 0);
    }
}

/// Each known value of an integer field holds a number.
pub open spec fn integers_known(fields: Seq<FieldView>, prior: Seq<ValueView>) -> bool {
    forall|j: int|
        0 <= j < prior.len() && j < fields.len() && (#[trigger] fields[j]).ty.is_integer()
            ==> prior[j].magnitude() is Some
}

/// A well-formed type never fails with `UnresolvedDependency`, and what is
/// read as an integer holds a number.
pub proof fn lemma_field_resolves(ty: TypeView, bytes: Seq<u8>)
    requires
        type_wf(ty),
    ensures
        field_parse(ty, bytes) matches Err(error) ==> error.kind
            != ErrorKind::UnresolvedDependency,
        field_parse(ty, bytes) matches Ok((value, count)) ==> (ty.is_integer()
            ==> value.magnitude() is Some),
    decreases ty, 0nat, 0nat,
{
    match ty {
        TypeView::Record(fields) => {
            lemma_resolves_from(fields, bytes, Seq::empty(), 0);
        },
        _ => {},
    }
}

/// Under well-formed fields no field from `prior.len()` on meets a
/// dependency that it cannot resolve.
pub proof fn lemma_resolves_from(
    fields: Seq<FieldView>,
    payload: Seq<u8>,
    prior: Seq<ValueView>,
    offset: nat,
)
    requires
        fields_wf(fields),
        integers_known(fields, prior),
    ensures
        fields_parse(fields, payload, prior, offset) matches Err(error) ==> error.kind
            != ErrorKind::UnresolvedDependency,
    decreases fields, 1nat, fields.len() - prior.len(),
{
    let i = prior.len() as int;
    lemma_fields_parse(fields, payload, prior, offset);
    lemma_fields_wf(fields);
    if i < fields.len() {
        if let Some(d) = fields[i].dynamic {
            assert forall|j: int| 0 <= j < d.deps.len() implies dep_value(
                prior,
                #[trigger] d.deps[j],
            ) is Some by {}
        }
        let ahead = payload.skip(offset as int);
        lemma_field_resolves(fields[i].ty, ahead);
        if let Ok(step) = plan(fields[i], prior) {
            if let Ok((value, count)) = step_parse(step, fields[i].ty, ahead) {
                let next = prior.push(value);
                assert forall|j: int|
                    0 <= j < next.len() && j < fields.len() && (
                    #[trigger] fields[j]).ty.is_integer() implies next[j].magnitude() is Some by {}
                lemma_resolves_from(fields, payload, next, offset + count);
            }
        }
    }
}

/// A well-formed schema never fails with `UnresolvedDependency`, whatever the
/// buffer holds.
pub proof fn law_wf_schema_resolves(schema: SchemaView, buffer: Seq<u8>)
    requires
        schema.wf(),
    ensures
        decode_spec(schema, buffer) matches Err(error) ==> error.kind
            != ErrorKind::UnresolvedDependency,
{
    if let Ok(plain) = payload_of(schema, buffer) {
        lemma_resolves_from(schema.fields, plain, Seq::empty(), 0);
    }
}

/// The bytes that a value was read from are its wire form, where nothing
/// inside it is absent.
pub proof fn lemma_field_reencode(ty: TypeView, bytes: Seq<u8>)
    ensures
        field_parse(ty, bytes) matches Ok((value, count)) ==> (value_present(value, ty) ==> count
            <= bytes.len() && value.wire() == bytes.take(count as int)),
    decreases ty, 0nat, 0nat,
{
    if let Ok((value, count)) = field_parse(ty, bytes) {
        lemma_spans();
        match ty {
            TypeView::U8 => {},
            TypeView::U16 => {
                lemma_le_bytes_of_value(bytes.take(2));
                lemma_le_value_bound(bytes.take(2));
            },
            TypeView::U32 => {
                lemma_le_bytes_of_value(bytes.take(4));
                lemma_le_value_bound(bytes.take(4));
            },
            TypeView::U64 => {
                lemma_le_bytes_of_value(bytes.take(8));
                lemma_le_value_bound(bytes.take(8));
            },
            TypeView::Bytes(n) => {},
            TypeView::Text => {
                let end = first_zero(bytes);
                lemma_first_zero_found(bytes);
                decode_utf8_encode_utf8(bytes.subrange(0, end as int));
            },
            TypeView::Record(fields) => {
                assert(record_wire(Seq::<ValueView>::empty()) =~= bytes.take(0));
                lemma_reencode_from(fields, bytes, Seq::empty(), 0);
                let values = value->Record_0;
            },
        }
    }
}

/// From field `prior.len()` on, a record decoded without an absent field has
/// the bytes it was read from as its wire form.
pub proof fn lemma_reencode_from(
    fields: Seq<FieldView>,
    payload: Seq<u8>,
    prior: Seq<ValueView>,
    offset: nat,
)
    requires
        offset <= payload.len(),
        record_wire(prior) == payload.take(offset as int),
    ensures
        fields_parse(fields, payload, prior, offset) matches Ok((values, used)) ==> (all_present(
            fields,
            values,
        ) ==> used <= payload.len() && record_wire(values) == payload.take(used as int)),
    decreases fields, 1nat, fields.len() - prior.len(),
{
    let i = prior.len() as int;
    lemma_fields_parse(fields, payload, prior, offset);
    if i < fields.len() {
        if let Ok(step) = plan(fields[i], prior) {
            let ahead = payload.skip(offset as int);
            if let Ok((value, count)) = step_parse(step, fields[i].ty, ahead) {
                let next = prior.push(value);
                lemma_parse_keeps_prior(fields, payload, next, offset + count);
                if let Ok((values, used)) = fields_parse(fields, payload, next, offset + count) {
                    if all_present(fields, values) {
                        lemma_all_present(fields, values);
                        if step is Read {
                            lemma_field_reencode(fields[i].ty, ahead);
                        }
                        lemma_record_wire_push(prior, value);
                        assert(record_wire(next) =~= payload.take((offset + count) as int));
                        lemma_reencode_from(fields, payload, next, offset + count);
                    }
                }
            }
        }
    }
}

/// Encoding inverts decoding: where a payload decodes to a record none of
/// whose dynamic fields is absent, the wire form of the record is the front
/// of the payload, byte for byte.
pub proof fn law_wire_of_decoded(fields: Seq<FieldView>, payload: Seq<u8>, values: Seq<ValueView>)
    requires
        payload_parse(fields, payload) == Ok::<Seq<ValueView>, DecodeError>(values),
        all_present(fields, values),
    ensures
        record_wire(values).len() <= payload.len(),
        record_wire(values) == payload.take(record_wire(values).len() as int),
{
    assert(record_wire(Seq::<ValueView>::empty()) =~= payload.take(0));
    lemma_reencode_from(fields, payload, Seq::empty(), 0);
}

} // verus!
