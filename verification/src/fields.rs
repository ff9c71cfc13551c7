//! Field coding: the payload of a packet is its fields in declared order,
//! where what a dynamic field looks like depends on the fields before it.

use crate::convert::BinaryConverter;
use crate::cursor::Cursor;
use crate::error::{DecodeError, ErrorKind};
use crate::schema::{
    field_views, DynamicRule, DynamicView, FieldSpec, FieldType, FieldView, PacketSchema, TypeView,
};
use crate::value::{values_view, Value, ValueView};
use vstd::prelude::*;
use vstd::slice::slice_to_vec;
use vstd::utf8::encode_utf8;

verus! {

/// What to do for one field, once the fields before it are known.
#[derive(Clone, Copy, Debug, PartialEq, Eq, Structural)]
pub enum Plan {
    /// The field is not on the wire and takes its default.
    Absent,
    /// The field is on the wire in the form of its type.
    Read,
    /// The field is a run of this many raw bytes.
    Run(u64),
}

/// The number in the earlier field `dep`, if that field is known and an integer.
pub open spec fn dep_value(prior: Seq<ValueView>, dep: usize) -> Option<u64> {
    if dep < prior.len() {
        prior[dep as int].magnitude()
    } else {
        None
    }
}

/// The rule of a dynamic field can be evaluated on the fields before it.
pub open spec fn resolvable(d: DynamicView, ty: TypeView, prior: Seq<ValueView>) -> bool {
    &&& d.deps.len() > 0
    &&& forall|j: int| 0 <= j < d.deps.len() ==> dep_value(prior, #[trigger] d.deps[j]) is Some
    &&& d.rule is Length ==> ty is Bytes
}

/// Every dependency holds a number other than zero.
pub open spec fn all_nonzero(deps: Seq<usize>, prior: Seq<ValueView>) -> bool {
    forall|j: int| 0 <= j < deps.len() ==> dep_value(prior, #[trigger] deps[j]) != Some(0u64)
}

/// The plan for `field` after the values `prior`: a static field is read as
/// its type; a dynamic one by its rule, or not at all where the rule cannot be
/// evaluated.
pub open spec fn plan(field: FieldView, prior: Seq<ValueView>) -> Result<Plan, ErrorKind> {
    match field.dynamic {
        None => Ok(Plan::Read),
        Some(d) => {
            if !resolvable(d, field.ty, prior) {
                Err(ErrorKind::UnresolvedDependency)
            } else if d.rule is Length {
                Ok(Plan::Run(dep_value(prior, d.deps[0]).unwrap()))
            } else if all_nonzero(d.deps, prior) {
                Ok(Plan::Read)
            } else {
                Ok(Plan::Absent)
            }
        },
    }
}

/// The failure of a read that began at the front of the bytes it was given.
pub open spec fn read_failure(kind: ErrorKind) -> DecodeError {
    DecodeError { kind, field: None, offset: 0 }
}

/// The failure of field `index`, met at `offset`.
pub open spec fn field_failure(kind: ErrorKind, index: int, offset: int) -> DecodeError {
    DecodeError { kind, field: Some(index as usize), offset: offset as usize }
}

/// What the primitive layer read, as a value.
pub open spec fn lifted<T>(
    read: Result<(T, nat), ErrorKind>,
    wrap: spec_fn(T) -> ValueView,
) -> Result<(ValueView, nat), DecodeError> {
    match read {
        Ok((v, n)) => Ok((wrap(v), n)),
        Err(kind) => Err(read_failure(kind)),
    }
}

/// A run of `count` raw bytes at the front of `bytes`.
pub open spec fn run_parse(count: nat, bytes: Seq<u8>) -> Result<(ValueView, nat), DecodeError> {
    if bytes.len() >= count {
        Ok((ValueView::Bytes(bytes.subrange(0, count as int)), count))
    } else {
        Err(read_failure(ErrorKind::UnexpectedEof))
    }
}

/// A value of type `ty` at the front of `bytes`: a primitive as the primitive
/// layer reads it, a nested record as its fields one after another. The
/// failure of a nested record is that of its first failing field, counted
/// from the front of `bytes`.
pub open spec fn field_parse(ty: TypeView, bytes: Seq<u8>) -> Result<(ValueView, nat), DecodeError>
    decreases ty, 0nat, 0nat,
{
    match ty {
        TypeView::U8 => lifted(<u8 as BinaryConverter>::parse(bytes), |v: u8| ValueView::U8(v)),
        TypeView::U16 => lifted(<u16 as BinaryConverter>::parse(bytes), |v: u16| ValueView::U16(v)),
        TypeView::U32 => lifted(<u32 as BinaryConverter>::parse(bytes), |v: u32| ValueView::U32(v)),
        TypeView::U64 => lifted(<u64 as BinaryConverter>::parse(bytes), |v: u64| ValueView::U64(v)),
        TypeView::Bytes(n) => run_parse(n as nat, bytes),
        TypeView::Text => lifted(
            <String as BinaryConverter>::parse(bytes),
            |v: Seq<char>| ValueView::Text(v),
        ),
        TypeView::Record(inner) => match fields_parse(inner, bytes, Seq::empty(), 0) {
            Ok((values, used)) => Ok((ValueView::Record(values), used)),
            Err(error) => Err(error),
        },
    }
}

/// The values of all fields from `prior.len()` on, read from `payload` at
/// `offset`, and the offset after the last; the fields before are `prior`.
/// The first field that fails ends the decoding with its kind, its index and
/// the offset at which the read that failed began.
pub open spec fn fields_parse(
    fields: Seq<FieldView>,
    payload: Seq<u8>,
    prior: Seq<ValueView>,
    offset: nat,
) -> Result<(Seq<ValueView>, nat), DecodeError>
    decreases fields, 1nat, fields.len() - prior.len(),
{
    let i = prior.len() as int;
    if i >= fields.len() {
        Ok((prior, offset))
    } else {
        match plan(fields[i], prior) {
            Err(kind) => Err(field_failure(kind, i, offset as int)),
            Ok(step) => match (match step {
                Plan::Absent => Ok((ValueView::default_of(fields[i].ty), 0)),
                Plan::Read => field_parse(fields[i].ty, payload.skip(offset as int)),
                Plan::Run(count) => run_parse(count as nat, payload.skip(offset as int)),
            }) {
                Err(error) => Err(field_failure(error.kind, i, offset + error.offset)),
                Ok((value, count)) => fields_parse(fields, payload, prior.push(value), offset + count),
            },
        }
    }
}

/// One step of a plan on the bytes ahead: the value and the bytes it took.
pub open spec fn step_parse(step: Plan, ty: TypeView, bytes: Seq<u8>) -> Result<
    (ValueView, nat),
    DecodeError,
> {
    match step {
        Plan::Absent => Ok((ValueView::default_of(ty), 0)),
        Plan::Read => field_parse(ty, bytes),
        Plan::Run(count) => run_parse(count as nat, bytes),
    }
}

/// `fields_parse` spelled out for one field: its plan, its step, the rest.
pub proof fn lemma_fields_parse(
    fields: Seq<FieldView>,
    payload: Seq<u8>,
    prior: Seq<ValueView>,
    offset: nat,
)
    ensures
        fields_parse(fields, payload, prior, offset) == (if prior.len() >= fields.len() {
            Ok::<(Seq<ValueView>, nat), DecodeError>((prior, offset))
        } else {
            let i = prior.len() as int;
            match plan(fields[i], prior) {
                Err(kind) => Err(field_failure(kind, i, offset as int)),
                Ok(step) => match step_parse(step, fields[i].ty, payload.skip(offset as int)) {
                    Err(error) => Err(field_failure(error.kind, i, offset + error.offset)),
                    Ok((value, count)) => fields_parse(
                        fields,
                        payload,
                        prior.push(value),
                        offset + count,
                    ),
                },
            }
        }),
{
}

/// The record that the payload spells under the fields, or the first failure.
pub open spec fn payload_parse(fields: Seq<FieldView>, payload: Seq<u8>) -> Result<
    Seq<ValueView>,
    DecodeError,
> {
    match fields_parse(fields, payload, Seq::empty(), 0) {
        Ok((values, used)) => Ok(values),
        Err(error) => Err(error),
    }
}

/// Works out the plan for `field` from the first `count` values.
pub fn plan_field(field: &FieldSpec, values: &Vec<Value>, count: usize) -> (r: Result<
    Plan,
    ErrorKind,
>)
    requires
        count <= values@.len(),
    ensures
        r == plan(field@, values_view(values@).take(count as int)),
{
    let ghost prior = values_view(values@).take(count as int);
    match &field.dynamic {
        None => Ok(Plan::Read),
        Some(d) => {
            if d.deps.len() == 0 {
                return Err(ErrorKind::UnresolvedDependency);
            }
            let mut nonzero = true;
            let mut j: usize = 0;
            while j < d.deps.len()
                invariant
                    j <= d.deps@.len(),
                    count <= values@.len(),
                    field@.dynamic == Some(d@),
                    prior == values_view(values@).take(count as int),
                    forall|m: int| 0 <= m < j ==> dep_value(prior, #[trigger] d.deps@[m]) is Some,
                    nonzero <==> forall|m: int|
                        0 <= m < j ==> dep_value(prior, #[trigger] d.deps@[m]) != Some(0u64),
                decreases d.deps@.len() - j,
            {
                let dep = d.deps[j];
                if dep >= count {
                    return Err(ErrorKind::UnresolvedDependency);
                }
                match values[dep].magnitude() {
                    None => {
                        return Err(ErrorKind::UnresolvedDependency);
                    },
                    Some(number) => {
                        if number == 0 {
                            nonzero = false;
                        }
                    },
                }
                j = j + 1;
            }
            match d.rule {
                DynamicRule::Length => {
                    if !field.ty.run_of_bytes() {
                        return Err(ErrorKind::UnresolvedDependency);
                    }
                    let first = d.deps[0];
                    match values[first].magnitude() {
                        Some(number) => Ok(Plan::Run(number)),
                        None => Err(ErrorKind::UnresolvedDependency),
                    }
                },
                DynamicRule::Presence => {
                    if nonzero {
                        Ok(Plan::Read)
                    } else {
                        Ok(Plan::Absent)
                    }
                },
            }
        },
    }
}

/// What a read leaves behind: on success the value and a cursor moved past
/// it, on failure the error, which lies within the bytes that were ahead.
pub open spec fn read_outcome(
    before: Cursor,
    after: Cursor,
    expected: Result<(ValueView, nat), DecodeError>,
    r: Result<Value, DecodeError>,
) -> bool {
    &&& after.wf()
    &&& after.input() == before.input()
    &&& match expected {
        Ok((value, taken)) => r is Ok && r.unwrap()@ == value && after.consumed()
            == before.consumed() + taken,
        Err(error) => r is Err && r->Err_0 == error && error.offset <= before.ahead().len(),
    }
}

/// The failure of a primitive read.
fn failed(kind: ErrorKind) -> (r: DecodeError)
    ensures
        r == read_failure(kind),
{
    DecodeError { kind, field: None, offset: 0 }
}

/// Reads a run of `count` raw bytes.
pub fn read_run(count: u64, cursor: &mut Cursor) -> (r: Result<Value, DecodeError>)
    requires
        old(cursor).wf(),
    ensures
        read_outcome(*old(cursor), *final(cursor), run_parse(count as nat, old(cursor).ahead()), r),
{
    if count > cursor.remaining() as u64 {
        return Err(failed(ErrorKind::UnexpectedEof));
    }
    match cursor.take(count as usize) {
        Ok(bytes) => Ok(Value::Bytes(slice_to_vec(bytes))),
        Err(kind) => Err(failed(kind)),
    }
}

/// Reads one value of type `ty`: a primitive through the primitive layer, a
/// nested record field by field.
pub fn read_field(ty: &FieldType, cursor: &mut Cursor) -> (r: Result<Value, DecodeError>)
    requires
        old(cursor).wf(),
    ensures
        read_outcome(*old(cursor), *final(cursor), field_parse(ty@, old(cursor).ahead()), r),
    decreases ty, 0nat,
{
    match ty {
        FieldType::U8 => match u8::read_from(cursor) {
            Ok(v) => Ok(Value::U8(v)),
            Err(kind) => Err(failed(kind)),
        },
        FieldType::U16 => match u16::read_from(cursor) {
            Ok(v) => Ok(Value::U16(v)),
            Err(kind) => Err(failed(kind)),
        },
        FieldType::U32 => match u32::read_from(cursor) {
            Ok(v) => Ok(Value::U32(v)),
            Err(kind) => Err(failed(kind)),
        },
        FieldType::U64 => match u64::read_from(cursor) {
            Ok(v) => Ok(Value::U64(v)),
            Err(kind) => Err(failed(kind)),
        },
        FieldType::Bytes(n) => read_run(*n as u64, cursor),
        FieldType::Text => match String::read_from(cursor) {
            Ok(v) => Ok(Value::Text(v)),
            Err(kind) => Err(failed(kind)),
        },
        FieldType::Record(inner) => match read_fields(inner, cursor) {
            Ok(values) => Ok(Value::Record(values)),
            Err(error) => Err(error),
        },
    }
}

/// Reads the fields of a record, in declared order.
pub fn read_fields(fields: &Vec<FieldSpec>, cursor: &mut Cursor) -> (r: Result<
    Vec<Value>,
    DecodeError,
>)
    requires
        old(cursor).wf(),
    ensures
        final(cursor).wf(),
        final(cursor).input() == old(cursor).input(),
        match fields_parse(field_views(fields@), old(cursor).ahead(), Seq::empty(), 0) {
            Ok((values, used)) => r is Ok && values_view(r.unwrap()@) == values
                && final(cursor).consumed() == old(cursor).consumed() + used,
            Err(error) => r is Err && r->Err_0 == error && error.offset <= old(cursor).ahead().len(),
        },
    decreases fields, 1nat,
{
    let ghost model = field_views(fields@);
    let ghost ahead = cursor.ahead();
    let start = cursor.position();
    let mut values: Vec<Value> = Vec::new();
    let mut i: usize = 0;
    assert(values_view(values@) =~= Seq::empty());
    while i < fields.len()
        invariant
            i <= fields@.len(),
            values@.len() == i,
            model == field_views(fields@),
            cursor.wf(),
            cursor.input() == old(cursor).input(),
            ahead == old(cursor).ahead(),
            start == old(cursor).consumed(),
            start <= cursor.consumed(),
            fields_parse(model, ahead, values_view(values@), (cursor.consumed() - start) as nat)
                == fields_parse(model, ahead, Seq::empty(), 0),
        decreases fields@.len() - i,
    {
        let ghost prior = values_view(values@);
        let field = &fields[i];
        let at = cursor.position() - start;
        assert(ahead.skip(at as int) =~= cursor.ahead());
        let step = match plan_field(field, &values, i) {
            Ok(step) => step,
            Err(kind) => {
                return Err(DecodeError { kind, field: Some(i), offset: at });
            },
        };
        let read = match step {
            Plan::Absent => Ok(Value::default_of(&field.ty)),
            Plan::Read => read_field(&field.ty, cursor),
            Plan::Run(count) => read_run(count, cursor),
        };
        match read {
            Ok(value) => {
                values.push(value);
                assert(values_view(values@) =~= prior.push(value@));
            },
            Err(error) => {
                return Err(DecodeError { kind: error.kind, field: Some(i), offset: at + error.offset });
            },
        }
        i = i + 1;
    }
    Ok(values)
}

/// Decodes the fields of a schema from a payload, in declared order.
///
/// The result is the record that the payload spells, or the failure of the
/// first field that cannot be read; bytes after the last field are left alone.
pub fn decode_fields(schema: &PacketSchema, payload: &[u8]) -> (r: Result<Vec<Value>, DecodeError>)
    ensures
        match payload_parse(schema@.fields, payload@) {
            Ok(values) => r is Ok && values_view(r.unwrap()@) == values,
            Err(error) => r is Err && r->Err_0 == error,
        },
{
    let mut cursor = Cursor::new(payload);
    assert(cursor.ahead() =~= payload@);
    read_fields(&schema.fields, &mut cursor)
}

/// The value is one of type `ty` that the wire form can carry: a run of bytes
/// has the declared length, a text holds no zero byte, a nested record is one
/// of the nested fields.
pub open spec fn typed(value: ValueView, ty: TypeView) -> bool
    decreases ty, 0nat,
{
    match (value, ty) {
        (ValueView::U8(_), TypeView::U8) => true,
        (ValueView::U16(_), TypeView::U16) => true,
        (ValueView::U32(_), TypeView::U32) => true,
        (ValueView::U64(_), TypeView::U64) => true,
        (ValueView::Bytes(v), TypeView::Bytes(n)) => v.len() == n,
        (ValueView::Text(v), TypeView::Text) => !encode_utf8(v).contains(0u8),
        (ValueView::Record(values), TypeView::Record(fields)) => fits(fields, values),
        _ => false,
    }
}

/// The value is of the kind of `ty`, whatever it holds.
pub open spec fn same_kind(value: ValueView, ty: TypeView) -> bool {
    match (value, ty) {
        (ValueView::U8(_), TypeView::U8) => true,
        (ValueView::U16(_), TypeView::U16) => true,
        (ValueView::U32(_), TypeView::U32) => true,
        (ValueView::U64(_), TypeView::U64) => true,
        (ValueView::Bytes(_), TypeView::Bytes(_)) => true,
        (ValueView::Text(_), TypeView::Text) => true,
        (ValueView::Record(_), TypeView::Record(_)) => true,
        _ => false,
    }
}

/// The record is one of the fields: a value for each field, each what the
/// field asks for given the values before it: of the field's type, a counted
/// run as long as its dependency says, and of the field's kind where the
/// field is absent and the value is not on the wire.
pub open spec fn fits(fields: Seq<FieldView>, values: Seq<ValueView>) -> bool
    decreases fields, 1nat,
{
    &&& values.len() == fields.len()
    &&& forall|i: int|
        #![trigger fields[i]]
        0 <= i < fields.len() ==> match plan(fields[i], values.take(i)) {
            Err(_) => false,
            Ok(Plan::Absent) => same_kind(values[i], fields[i].ty),
            Ok(Plan::Run(count)) => values[i] matches ValueView::Bytes(run) && run.len() == count,
            Ok(Plan::Read) => typed(values[i], fields[i].ty),
        }
}

/// Value `i` of a record is what field `i` asks for, given the values before it.
pub open spec fn value_fits(fields: Seq<FieldView>, values: Seq<ValueView>, i: int) -> bool {
    match plan(fields[i], values.take(i)) {
        Err(_) => false,
        Ok(Plan::Absent) => same_kind(values[i], fields[i].ty),
        Ok(Plan::Run(count)) => values[i] matches ValueView::Bytes(run) && run.len() == count,
        Ok(Plan::Read) => typed(values[i], fields[i].ty),
    }
}

/// `fits` spelled out value by value.
pub proof fn lemma_fits(fields: Seq<FieldView>, values: Seq<ValueView>)
    ensures
        fits(fields, values) <==> values.len() == fields.len() && forall|i: int|
            0 <= i < fields.len() ==> #[trigger] value_fits(fields, values, i),
{
    if fits(fields, values) {
        assert forall|i: int| 0 <= i < fields.len() implies #[trigger] value_fits(
            fields,
            values,
            i,
        ) by {}
    }
    if values.len() == fields.len() && forall|i: int|
        0 <= i < fields.len() ==> #[trigger] value_fits(fields, values, i) {
        assert forall|i: int| #![trigger fields[i]] 0 <= i < fields.len() implies match plan(
            fields[i],
            values.take(i),
        ) {
            Err(_) => false,
            Ok(Plan::Absent) => same_kind(values[i], fields[i].ty),
            Ok(Plan::Run(count)) => values[i] matches ValueView::Bytes(run) && run.len() == count,
            Ok(Plan::Read) => typed(values[i], fields[i].ty),
        } by {
            assert(value_fits(fields, values, i));
        }
    }
}

/// No dynamic field is absent inside the value.
pub open spec fn value_present(value: ValueView, ty: TypeView) -> bool
    decreases ty, 0nat,
{
    match (value, ty) {
        (ValueView::Record(values), TypeView::Record(fields)) => all_present(fields, values),
        _ => true,
    }
}

/// No dynamic field of the record is absent, here or in a nested record.
pub open spec fn all_present(fields: Seq<FieldView>, values: Seq<ValueView>) -> bool
    decreases fields, 1nat,
{
    forall|i: int|
        #![trigger fields[i]]
        0 <= i < fields.len() ==> plan(fields[i], values.take(i)) != Ok::<Plan, ErrorKind>(
            Plan::Absent,
        ) && value_present(values[i], fields[i].ty)
}

/// Field `i` of the record is on the wire, with everything nested in it.
pub open spec fn field_present(fields: Seq<FieldView>, values: Seq<ValueView>, i: int) -> bool {
    plan(fields[i], values.take(i)) != Ok::<Plan, ErrorKind>(Plan::Absent) && value_present(
        values[i],
        fields[i].ty,
    )
}

/// `all_present` spelled out field by field.
pub proof fn lemma_all_present(fields: Seq<FieldView>, values: Seq<ValueView>)
    ensures
        all_present(fields, values) <==> forall|i: int|
            0 <= i < fields.len() ==> #[trigger] field_present(fields, values, i),
{
    if all_present(fields, values) {
        assert forall|i: int| 0 <= i < fields.len() implies #[trigger] field_present(
            fields,
            values,
            i,
        ) by {}
    }
    if forall|i: int| 0 <= i < fields.len() ==> #[trigger] field_present(fields, values, i) {
        assert forall|i: int| #![trigger fields[i]] 0 <= i < fields.len() implies plan(
            fields[i],
            values.take(i),
        ) != Ok::<Plan, ErrorKind>(Plan::Absent) && value_present(values[i], fields[i].ty) by {
            assert(field_present(fields, values, i));
        }
    }
}

/// Whether `value` is of the kind of `ty`.
pub fn has_kind(value: &Value, ty: &FieldType) -> (r: bool)
    ensures
        r == same_kind(value@, ty@),
{
    match (value, ty) {
        (Value::U8(_), FieldType::U8) => true,
        (Value::U16(_), FieldType::U16) => true,
        (Value::U32(_), FieldType::U32) => true,
        (Value::U64(_), FieldType::U64) => true,
        (Value::Bytes(_), FieldType::Bytes(_)) => true,
        (Value::Text(_), FieldType::Text) => true,
        (Value::Record(_), FieldType::Record(_)) => true,
        _ => false,
    }
}

/// Whether `value` is one of type `ty` that the wire form can carry.
pub fn has_type(value: &Value, ty: &FieldType) -> (r: bool)
    ensures
        r == typed(value@, ty@),
    decreases ty, 0nat,
{
    match (value, ty) {
        (Value::U8(_), FieldType::U8) => true,
        (Value::U16(_), FieldType::U16) => true,
        (Value::U32(_), FieldType::U32) => true,
        (Value::U64(_), FieldType::U64) => true,
        (Value::Bytes(run), FieldType::Bytes(n)) => run.len() == *n,
        (Value::Text(text), FieldType::Text) => {
            let bytes = text.as_str().as_bytes();
            let mut i: usize = 0;
            while i < bytes.len()
                invariant
                    i <= bytes@.len(),
                    bytes@ == encode_utf8(text@),
                    value@ == ValueView::Text(text@),
                    ty@ is Text,
                    forall|k: int| 0 <= k < i ==> bytes@[k] != 0u8,
                decreases bytes@.len() - i,
            {
                if bytes[i] == 0 {
                    return false;
                }
                i = i + 1;
            }
            true
        },
        (Value::Record(values), FieldType::Record(fields)) => admits_fields(fields, values),
        _ => false,
    }
}

/// Whether the values are a record of the fields.
pub fn admits_fields(fields: &Vec<FieldSpec>, values: &Vec<Value>) -> (r: bool)
    ensures
        r == fits(field_views(fields@), values_view(values@)),
    decreases fields, 1nat,
{
    let ghost model = field_views(fields@);
    let ghost all = values_view(values@);
    proof {
        lemma_fits(model, all);
    }
    if values.len() != fields.len() {
        return false;
    }
    let mut i: usize = 0;
    while i < values.len()
        invariant
            i <= values@.len(),
            values@.len() == fields@.len(),
            model == field_views(fields@),
            all == values_view(values@),
            forall|k: int| 0 <= k < i ==> #[trigger] value_fits(model, all, k),
        decreases values@.len() - i,
    {
        let field = &fields[i];
        let fitting = match plan_field(field, values, i) {
            Err(_) => false,
            Ok(Plan::Absent) => has_kind(&values[i], &field.ty),
            Ok(Plan::Run(count)) => match &values[i] {
                Value::Bytes(run) => run.len() as u64 == count,
                _ => false,
            },
            Ok(Plan::Read) => has_type(&values[i], &field.ty),
        };
        if !fitting {
            assert(!value_fits(model, all, i as int));
            return false;
        }
        i = i + 1;
    }
    true
}

/// Whether the record is one of the schema.
pub fn admits(schema: &PacketSchema, values: &Vec<Value>) -> (r: bool)
    ensures
        r == fits(schema@.fields, values_view(values@)),
{
    admits_fields(&schema.fields, values)
}

} // verus!
