//! The values of a record and their wire form.

use crate::convert::{append, BinaryConverter};
use crate::schema::{field_views, FieldSpec, FieldType, TypeView};
use vstd::prelude::*;

verus! {

/// The value of one field.
#[derive(Debug, PartialEq, Eq)]
pub enum Value {
    U8(u8),
    U16(u16),
    U32(u32),
    U64(u64),
    Bytes(Vec<u8>),
    Text(String),
    /// The values of a nested record, in field order.
    Record(Vec<Value>),
}

/// The model of [`Value`].
pub enum ValueView {
    U8(u8),
    U16(u16),
    U32(u32),
    U64(u64),
    Bytes(Seq<u8>),
    Text(Seq<char>),
    Record(Seq<ValueView>),
}

impl View for Value {
    type V = ValueView;

    open spec fn view(&self) -> ValueView
        decreases self,
    {
        match self {
            Value::U8(v) => ValueView::U8(*v),
            Value::U16(v) => ValueView::U16(*v),
            Value::U32(v) => ValueView::U32(*v),
            Value::U64(v) => ValueView::U64(*v),
            Value::Bytes(v) => ValueView::Bytes(v@),
            Value::Text(v) => ValueView::Text(v@),
            Value::Record(values) => ValueView::Record(values_view(values@)),
        }
    }
}

/// The models of the values of a record, in field order.
pub open spec fn values_view(values: Seq<Value>) -> Seq<ValueView>
    decreases values,
{
    Seq::new(
        values.len(),
        |i: int|
            if 0 <= i < values.len() {
                values[i].view()
            } else {
                arbitrary()
            },
    )
}

impl ValueView {
    /// The number that an integer value holds; `None` for anything else.
    pub open spec fn magnitude(self) -> Option<u64> {
        match self {
            ValueView::U8(v) => Some(v as u64),
            ValueView::U16(v) => Some(v as u64),
            ValueView::U32(v) => Some(v as u64),
            ValueView::U64(v) => Some(v),
            _ => None,
        }
    }

    /// The bytes that stand for the value on the wire. A nested record is
    /// the wire forms of its values, one after another.
    pub open spec fn wire(self) -> Seq<u8>
        decreases self, 0nat,
    {
        match self {
            ValueView::U8(v) => <u8 as BinaryConverter>::wire(v),
            ValueView::U16(v) => <u16 as BinaryConverter>::wire(v),
            ValueView::U32(v) => <u32 as BinaryConverter>::wire(v),
            ValueView::U64(v) => <u64 as BinaryConverter>::wire(v),
            ValueView::Bytes(v) => v,
            ValueView::Text(v) => <String as BinaryConverter>::wire(v),
            ValueView::Record(values) => wire_upto(values, values.len()),
        }
    }

    /// The value that an absent field of type `ty` takes: zero, a run of zero
    /// bytes, the empty text, a record of such values.
    pub open spec fn default_of(ty: TypeView) -> ValueView
        decreases ty,
    {
        match ty {
            TypeView::U8 => ValueView::U8(0),
            TypeView::U16 => ValueView::U16(0),
            TypeView::U32 => ValueView::U32(0),
            TypeView::U64 => ValueView::U64(0),
            TypeView::Bytes(n) => ValueView::Bytes(Seq::new(n as nat, |i: int| 0u8)),
            TypeView::Text => ValueView::Text(Seq::empty()),
            TypeView::Record(fields) => ValueView::Record(
                Seq::new(
                    fields.len(),
                    |i: int|
                        if 0 <= i < fields.len() {
                            ValueView::default_of(fields[i].ty)
                        } else {
                            arbitrary()
                        },
                ),
            ),
        }
    }
}

/// The wire forms of the first `n` values, one after another.
pub open spec fn wire_upto(values: Seq<ValueView>, n: nat) -> Seq<u8>
    decreases values, n,
{
    if n == 0 || n > values.len() {
        Seq::empty()
    } else {
        wire_upto(values, (n - 1) as nat) + values[n - 1].wire()
    }
}

/// The wire form of a record: the wire forms of its values, one after another.
pub open spec fn record_wire(values: Seq<ValueView>) -> Seq<u8> {
    wire_upto(values, values.len())
}

/// The wire form of the first `n` values depends on those values alone.
pub proof fn lemma_wire_upto_prefix(a: Seq<ValueView>, b: Seq<ValueView>, n: nat)
    requires
        n <= a.len(),
        n <= b.len(),
        forall|i: int| 0 <= i < n ==> a[i] == b[i],
    ensures
        wire_upto(a, n) == wire_upto(b, n),
    decreases n,
{
    if n > 0 {
        lemma_wire_upto_prefix(a, b, (n - 1) as nat);
    }
}

/// The wire form of a record with one more value is the wire form of the
/// record followed by that of the value.
pub proof fn lemma_record_wire_push(values: Seq<ValueView>, value: ValueView)
    ensures
        record_wire(values.push(value)) == record_wire(values) + value.wire(),
{
    lemma_wire_upto_prefix(values.push(value), values, values.len());
}

impl Value {
    /// The number that an integer value holds; `None` for anything else.
    pub fn magnitude(&self) -> (r: Option<u64>)
        ensures
            r == self@.magnitude(),
    {
        match self {
            Value::U8(v) => Some(*v as u64),
            Value::U16(v) => Some(*v as u64),
            Value::U32(v) => Some(*v as u64),
            Value::U64(v) => Some(*v),
            _ => None,
        }
    }

    /// The value that an absent field of type `ty` takes.
    pub fn default_of(ty: &FieldType) -> (r: Value)
        ensures
            r@ == ValueView::default_of(ty@),
        decreases ty, 0nat,
    {
        match ty {
            FieldType::U8 => Value::U8(0),
            FieldType::U16 => Value::U16(0),
            FieldType::U32 => Value::U32(0),
            FieldType::U64 => Value::U64(0),
            FieldType::Bytes(n) => {
                let mut run: Vec<u8> = Vec::new();
                let mut i: usize = 0;
                while i < *n
                    invariant
                        i <= *n,
                        run@.len() == i,
                        forall|k: int| 0 <= k < i ==> run@[k] == 0u8,
                    decreases *n - i,
                {
                    run.push(0u8);
                    i = i + 1;
                }
                assert(run@ =~= Seq::new(*n as nat, |i: int| 0u8));
                Value::Bytes(run)
            },
            FieldType::Text => Value::Text(String::new()),
            FieldType::Record(fields) => Value::Record(default_fields(fields)),
        }
    }

    /// Appends the wire form of the value to `buffer`.
    pub fn write_into(&self, buffer: &mut Vec<u8>)
        ensures
            final(buffer)@ == old(buffer)@ + self@.wire(),
        decreases self, 0nat,
    {
        match self {
            Value::U8(v) => {
                let _ = v.write_into(buffer);
            },
            Value::U16(v) => {
                let _ = v.write_into(buffer);
            },
            Value::U32(v) => {
                let _ = v.write_into(buffer);
            },
            Value::U64(v) => {
                let _ = v.write_into(buffer);
            },
            Value::Bytes(v) => {
                append(buffer, v.as_slice());
            },
            Value::Text(v) => {
                let _ = v.write_into(buffer);
            },
            Value::Record(values) => {
                encode_fields(values, buffer);
            },
        }
    }

    /// A copy of the value, nested records and all.
    pub fn duplicate(&self) -> (r: Value)
        ensures
            r@ == self@,
        decreases self, 0nat,
    {
        match self {
            Value::U8(v) => Value::U8(*v),
            Value::U16(v) => Value::U16(*v),
            Value::U32(v) => Value::U32(*v),
            Value::U64(v) => Value::U64(*v),
            Value::Bytes(v) => Value::Bytes(vstd::slice::slice_to_vec(v.as_slice())),
            Value::Text(v) => Value::Text(v.clone()),
            Value::Record(values) => Value::Record(duplicate_values(values)),
        }
    }
}

/// The values that the fields of an absent record take.
pub fn default_fields(fields: &Vec<FieldSpec>) -> (r: Vec<Value>)
    ensures
        ValueView::Record(values_view(r@)) == ValueView::default_of(
            TypeView::Record(field_views(fields@)),
        ),
    decreases fields, 1nat,
{
    let ghost model = field_views(fields@);
    let mut values: Vec<Value> = Vec::new();
    let mut i: usize = 0;
    while i < fields.len()
        invariant
            i <= fields@.len(),
            values@.len() == i,
            model == field_views(fields@),
            forall|k: int|
                0 <= k < i ==> (#[trigger] values@[k])@ == ValueView::default_of(model[k].ty),
        decreases fields@.len() - i,
    {
        values.push(Value::default_of(&fields[i].ty));
        i = i + 1;
    }
    assert(values_view(values@) =~= ValueView::default_of(TypeView::Record(model))->Record_0) by {
        assert forall|k: int| 0 <= k < values@.len() implies values_view(values@)[k]
            == ValueView::default_of(model[k].ty) by {}
    }
    values
}

/// A copy of the values of a record, nested records and all.
pub fn duplicate_values(values: &Vec<Value>) -> (r: Vec<Value>)
    ensures
        values_view(r@) == values_view(values@),
    decreases values, 1nat,
{
    let mut out: Vec<Value> = Vec::new();
    let mut i: usize = 0;
    while i < values.len()
        invariant
            i <= values@.len(),
            out@.len() == i,
            forall|k: int| 0 <= k < i ==> (#[trigger] out@[k])@ == values@[k]@,
        decreases values@.len() - i,
    {
        out.push(values[i].duplicate());
        i = i + 1;
    }
    assert(values_view(out@) =~= values_view(values@)) by {
        assert forall|k: int| 0 <= k < values@.len() implies values_view(out@)[k] == values_view(
            values@,
        )[k] by {}
    }
    out
}

impl Clone for Value {
    fn clone(&self) -> (r: Self)
        ensures
            r@ == self@,
    {
        self.duplicate()
    }
}

/// Appends the wire form of each value, in order.
pub fn encode_fields(values: &Vec<Value>, buffer: &mut Vec<u8>)
    ensures
        final(buffer)@ == old(buffer)@ + record_wire(values_view(values@)),
    decreases values, 1nat,
{
    let ghost all = values_view(values@);
    let mut i: usize = 0;
    while i < values.len()
        invariant
            i <= values@.len(),
            all == values_view(values@),
            buffer@ == old(buffer)@ + wire_upto(all, i as nat),
        decreases values@.len() - i,
    {
        values[i].write_into(buffer);
        i = i + 1;
    }
}

} // verus!
