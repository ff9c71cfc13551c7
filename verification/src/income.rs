//! A worked packet type: a login packet with an optional nickname.

use crate::codec::{decode, decode_spec, encode, encode_spec, PacketOutcome};
use crate::error::{DecodeError, ErrorKind};
use crate::fields::{all_present, fits, lemma_all_present, lemma_fits, plan, Plan};
use crate::header::frame_of;
use crate::laws::{law_decoded_fits, law_text_without_zero, lemma_wire_upto_grows};
use crate::schema::{
    lemma_fields_wf, Dynamic, DynamicRule, DynamicView, FieldSpec, FieldType, FieldView,
    PacketSchema, SchemaView, TypeView,
};
use crate::value::{record_wire, values_view, wire_upto, Value, ValueView};
use crate::wire::lemma_le_bytes_len;
use vstd::prelude::*;

verus! {

/// The record of the packet.
#[derive(Clone, Debug, PartialEq, Eq)]
pub struct Income {
    pub name: String,
    pub age: u64,
    pub nickname_size: u32,
    /// On the wire only where `nickname_size` is not zero.
    pub nickname: String,
}

/// The model of [`Income`].
pub struct IncomeView {
    pub name: Seq<char>,
    pub age: u64,
    pub nickname_size: u32,
    pub nickname: Seq<char>,
}

impl View for Income {
    type V = IncomeView;

    open spec fn view(&self) -> IncomeView {
        IncomeView {
            name: self.name@,
            age: self.age,
            nickname_size: self.nickname_size,
            nickname: self.nickname@,
        }
    }
}

impl IncomeView {
    /// The values of the record, in field order.
    pub open spec fn values(self) -> Seq<ValueView> {
        seq![
            ValueView::Text(self.name),
            ValueView::U64(self.age),
            ValueView::U32(self.nickname_size),
            ValueView::Text(self.nickname),
        ]
    }
}

impl Income {
    /// The model of the schema of the packet: login opcode 12, world opcode
    /// 100, and four fields, the last of which depends on the third.
    pub open spec fn schema_view() -> SchemaView {
        SchemaView {
            name: "Income"@,
            login_opcode: Some(12u32),
            world_opcode: Some(100u32),
            compressed_opcode: None,
            fields: seq![
                FieldView { name: "name"@, ty: TypeView::Text, dynamic: None },
                FieldView { name: "age"@, ty: TypeView::U64, dynamic: None },
                FieldView { name: "nickname_size"@, ty: TypeView::U32, dynamic: None },
                FieldView {
                    name: "nickname"@,
                    ty: TypeView::Text,
                    dynamic: Some(DynamicView { deps: seq![2usize], rule: DynamicRule::Presence }),
                },
            ],
        }
    }

    /// The schema of the packet.
    pub fn schema() -> (s: PacketSchema)
        ensures
            s@ == Income::schema_view(),
            s@.wf(),
    {
        let mut deps: Vec<usize> = Vec::new();
        deps.push(2);
        let mut fields: Vec<FieldSpec> = Vec::new();
        fields.push(FieldSpec { name: "name".to_owned(), ty: FieldType::Text, dynamic: None });
        fields.push(FieldSpec { name: "age".to_owned(), ty: FieldType::U64, dynamic: None });
        fields.push(
            FieldSpec { name: "nickname_size".to_owned(), ty: FieldType::U32, dynamic: None },
        );
        fields.push(
            FieldSpec {
                name: "nickname".to_owned(),
                ty: FieldType::Text,
                dynamic: Some(Dynamic { deps, rule: DynamicRule::Presence }),
            },
        );
        let s = PacketSchema {
            name: "Income".to_owned(),
            login_opcode: Some(12),
            world_opcode: Some(100),
            compressed_opcode: None,
            fields,
        };
        proof {
            let model = Income::schema_view();
            assert(s@.fields =~= model.fields);
            lemma_fields_wf(model.fields);
            reveal_strlit("name");
            reveal_strlit("age");
            reveal_strlit("nickname_size");
            reveal_strlit("nickname");
            assert("name"@.len() == 4 && "age"@.len() == 3 && "nickname_size"@.len() == 13
                && "nickname"@.len() == 8);
            assert(model.fields[0].name.len() == 4 && model.fields[1].name.len() == 3
                && model.fields[2].name.len() == 13 && model.fields[3].name.len() == 8);
        }
        s
    }

    /// Whether the nickname is on the wire, given the fields it depends on:
    /// it is where `nickname_size` is not zero. This is what the presence
    /// rule of the schema decides for the field, as the second clause says.
    pub fn should_read_nickname(dep_values: Income) -> (r: bool)
        ensures
            r == (dep_values.nickname_size > 0),
            plan(Income::schema_view().fields[3], dep_values@.values().take(3)) == Ok::<
                Plan,
                ErrorKind,
            >(
                if r {
                    Plan::Read
                } else {
                    Plan::Absent
                },
            ),
    {
        dep_values.nickname_size > 0
    }

    /// The values of the record, in field order.
    pub fn to_values(&self) -> (r: Vec<Value>)
        ensures
            values_view(r@) == self@.values(),
    {
        let mut values: Vec<Value> = Vec::new();
        values.push(Value::Text(self.name.clone()));
        values.push(Value::U64(self.age));
        values.push(Value::U32(self.nickname_size));
        values.push(Value::Text(self.nickname.clone()));
        values
    }

    /// The record that holds the values, or `None` where they are not a text,
    /// a 64-bit number, a 32-bit number and a text.
    pub fn from_values(values: &Vec<Value>) -> (r: Option<Income>)
        ensures
            r is Some <==> exists|income: IncomeView| values_view(values@) == income.values(),
            r matches Some(income) ==> values_view(values@) == income@.values(),
    {
        if values.len() != 4 {
            assert forall|income: IncomeView| values_view(values@) != income.values() by {
                assert(income.values().len() == 4);
            }
            return None;
        }
        match (&values[0], &values[1], &values[2], &values[3]) {
            (Value::Text(name), Value::U64(age), Value::U32(nickname_size), Value::Text(nickname)) => {
                let income = Income {
                    name: name.clone(),
                    age: *age,
                    nickname_size: *nickname_size,
                    nickname: nickname.clone(),
                };
                assert(values_view(values@) =~= income@.values());
                Some(income)
            },
            _ => {
                assert forall|income: IncomeView| values_view(values@) != income.values() by {}
                None
            },
        }
    }

    /// Decodes one incoming buffer into a record.
    pub fn from_binary(buffer: &Vec<u8>) -> (r: Result<Income, DecodeError>)
        ensures
            match decode_spec(Income::schema_view(), buffer@) {
                Ok(values) => r is Ok && r.unwrap()@.values() == values,
                Err(error) => r is Err && r->Err_0 == error,
            },
    {
        let schema = Income::schema();
        match decode(&schema, buffer.as_slice()) {
            Err(error) => Err(error),
            Ok(values) => {
                proof {
                    law_decoded_fits(schema@, buffer@);
                    Income::lemma_shape(values_view(values@));
                }
                // A record of the schema always holds the four values of an
                // `Income`, so the second arm is never taken.
                match Income::from_values(&values) {
                    Some(income) => Ok(income),
                    None => Err(
                        DecodeError {
                            kind: ErrorKind::UnresolvedDependency,
                            field: None,
                            offset: 0,
                        },
                    ),
                }
            },
        }
    }

    /// Encodes the record into an outgoing frame.
    pub fn to_binary(&self) -> (r: Option<PacketOutcome>)
        ensures
            match encode_spec(Income::schema_view(), self@.values()) {
                Some((opcode, bytes)) => r is Some && r.unwrap().0 == opcode && r.unwrap().1@
                    == bytes,
                None => r is None,
            },
    {
        let schema = Income::schema();
        let values = self.to_values();
        encode(&schema, &values)
    }

    /// An `Income` whose texts hold no character zero and whose nickname is
    /// on the wire is a record of the schema with nothing absent; its frame
    /// is the low byte of the login opcode and the wire form of its values,
    /// and decoding skips that one byte.
    proof fn lemma_frame(income: IncomeView)
        requires
            !income.name.contains('\0'),
            !income.nickname.contains('\0'),
            income.nickname_size > 0,
        ensures
            fits(Income::schema_view().fields, income.values()),
            all_present(Income::schema_view().fields, income.values()),
            encode_spec(Income::schema_view(), income.values()) == Some(
                (12u32, seq![12u8] + record_wire(income.values())),
            ),
            frame_of(Income::schema_view(), seq![12u8] + record_wire(income.values()))
                matches Ok(frame) && !frame.compressed && frame.skip == 1,
    {
        let schema = Income::schema_view();
        let fields = schema.fields;
        let values = income.values();
        law_text_without_zero(income.name);
        law_text_without_zero(income.nickname);
        lemma_fits(fields, values);
        lemma_all_present(fields, values);
        lemma_wire_upto_grows(values, 2, 4);
        lemma_le_bytes_len(income.age as nat, 8);
        assert(wire_upto(values, 2) == wire_upto(values, 1) + values[1].wire());
    }

    /// Round trip: an `Income` whose texts hold no character zero and whose
    /// nickname is on the wire has a frame, headed by the login opcode, and
    /// the frame decodes to the record.
    pub proof fn law_round_trip(income: IncomeView)
        requires
            !income.name.contains('\0'),
            !income.nickname.contains('\0'),
            income.nickname_size > 0,
        ensures
            encode_spec(Income::schema_view(), income.values()) matches Some((opcode, bytes))
                && opcode == 12 && decode_spec(Income::schema_view(), bytes) == Ok::<
                Seq<ValueView>,
                DecodeError,
            >(income.values()),
    {
        Income::lemma_frame(income);
        crate::laws::law_round_trip(Income::schema_view(), income.values());
    }

    /// Truncation: the frame of such an `Income`, cut anywhere before its
    /// end, fails to decode with `UnexpectedEof`.
    pub proof fn law_truncated(income: IncomeView, k: int)
        requires
            !income.name.contains('\0'),
            !income.nickname.contains('\0'),
            income.nickname_size > 0,
            0 <= k < encode_spec(Income::schema_view(), income.values()).unwrap().1.len(),
        ensures
            decode_spec(
                Income::schema_view(),
                encode_spec(Income::schema_view(), income.values()).unwrap().1.take(k),
            ) matches Err(error) && error.kind == ErrorKind::UnexpectedEof,
    {
        Income::lemma_frame(income);
        let bytes = seq![12u8] + record_wire(income.values());
        assert(bytes.skip(1) =~= record_wire(income.values()));
        crate::laws::law_truncated(Income::schema_view(), income.values(), bytes, k);
    }

    /// The values of a record of the schema are those of an `Income`.
    proof fn lemma_shape(values: Seq<ValueView>)
        requires
            fits(Income::schema_view().fields, values),
        ensures
            exists|income: IncomeView| values == income.values(),
    {
        let fields = Income::schema_view().fields;
        lemma_fits(fields, values);
        let income = IncomeView {
            name: values[0]->Text_0,
            age: values[1]->U64_0,
            nickname_size: values[2]->U32_0,
            nickname: values[3]->Text_0,
        };
        assert(values =~= income.values());
    }
}

} // verus!
