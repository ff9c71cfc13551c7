//! The packet schema: what one packet type looks like on the wire.
//!
//! A schema is declared with names ([`ItemAttr`], [`FieldDecl`]) and checked
//! and resolved once by [`PacketSchema::new`]; the codec works on the resolved
//! form, in which a dependency is the index of an earlier field.

use crate::error::ErrorKind;
use vstd::prelude::*;
use vstd::string::StringSliceAdditionalSpecFns;
use vstd::utf8::encode_utf8_decode_utf8;

verus! {

/// The type of one field.
#[derive(Debug, PartialEq, Eq)]
pub enum FieldType {
    /// One byte.
    U8,
    /// Two bytes, little-endian.
    U16,
    /// Four bytes, little-endian.
    U32,
    /// Eight bytes, little-endian.
    U64,
    /// A run of raw bytes of the given length, without a prefix.
    Bytes(usize),
    /// UTF-8 text closed by one zero byte.
    Text,
    /// A nested record: its own fields, one after another. Their
    /// dependencies are indices into this list, not into the one around it.
    Record(Vec<FieldSpec>),
}

/// How the values of its dependencies shape a dynamic field.
#[derive(Clone, Copy, Debug, PartialEq, Eq, Structural)]
pub enum DynamicRule {
    /// The field is on the wire only if every dependency is nonzero.
    Presence,
    /// The field is a run of bytes whose length is the first dependency.
    Length,
}

/// The dynamic part of a resolved field: the earlier fields it depends on,
/// by index, and the rule that reads them.
#[derive(Clone, Debug, PartialEq, Eq)]
pub struct Dynamic {
    pub deps: Vec<usize>,
    pub rule: DynamicRule,
}

/// One resolved field of a schema.
#[derive(Debug, PartialEq, Eq)]
pub struct FieldSpec {
    pub name: String,
    pub ty: FieldType,
    pub dynamic: Option<Dynamic>,
}

/// One packet type: its header attributes and its fields in wire order.
#[derive(Debug, PartialEq, Eq)]
pub struct PacketSchema {
    pub name: String,
    pub login_opcode: Option<u32>,
    pub world_opcode: Option<u32>,
    pub compressed_opcode: Option<u16>,
    pub fields: Vec<FieldSpec>,
}

/// The model of [`FieldType`].
pub enum TypeView {
    U8,
    U16,
    U32,
    U64,
    Bytes(usize),
    Text,
    Record(Seq<FieldView>),
}

/// The model of [`Dynamic`].
pub struct DynamicView {
    pub deps: Seq<usize>,
    pub rule: DynamicRule,
}

/// The model of [`FieldSpec`].
pub struct FieldView {
    pub name: Seq<char>,
    pub ty: TypeView,
    pub dynamic: Option<DynamicView>,
}

/// The model of [`PacketSchema`].
pub struct SchemaView {
    pub name: Seq<char>,
    pub login_opcode: Option<u32>,
    pub world_opcode: Option<u32>,
    pub compressed_opcode: Option<u16>,
    pub fields: Seq<FieldView>,
}

impl View for Dynamic {
    type V = DynamicView;

    open spec fn view(&self) -> DynamicView {
        DynamicView { deps: self.deps@, rule: self.rule }
    }
}

/// The model of the dynamic part of a field, if it has one.
pub open spec fn dynamic_view(dynamic: Option<Dynamic>) -> Option<DynamicView> {
    match dynamic {
        None => None,
        Some(d) => Some(d@),
    }
}

impl View for FieldType {
    type V = TypeView;

    open spec fn view(&self) -> TypeView
        decreases self,
    {
        match self {
            FieldType::U8 => TypeView::U8,
            FieldType::U16 => TypeView::U16,
            FieldType::U32 => TypeView::U32,
            FieldType::U64 => TypeView::U64,
            FieldType::Bytes(n) => TypeView::Bytes(*n),
            FieldType::Text => TypeView::Text,
            FieldType::Record(fields) => TypeView::Record(field_views(fields@)),
        }
    }
}

/// The models of a run of fields.
pub open spec fn field_views(fields: Seq<FieldSpec>) -> Seq<FieldView>
    decreases fields,
{
    Seq::new(
        fields.len(),
        |i: int|
            if 0 <= i < fields.len() {
                FieldView {
                    name: fields[i].name@,
                    ty: fields[i].ty.view(),
                    dynamic: dynamic_view(fields[i].dynamic),
                }
            } else {
                arbitrary()
            },
    )
}

impl View for FieldSpec {
    type V = FieldView;

    open spec fn view(&self) -> FieldView {
        FieldView { name: self.name@, ty: self.ty@, dynamic: dynamic_view(self.dynamic) }
    }
}

impl View for PacketSchema {
    type V = SchemaView;

    open spec fn view(&self) -> SchemaView {
        SchemaView {
            name: self.name@,
            login_opcode: self.login_opcode,
            world_opcode: self.world_opcode,
            compressed_opcode: self.compressed_opcode,
            fields: field_views(self.fields@),
        }
    }
}

impl TypeView {
    /// True for the four integer types.
    pub open spec fn is_integer(self) -> bool {
        self is U8 || self is U16 || self is U32 || self is U64
    }
}

/// The dynamic part of field `i` keeps the rules of the data model: at least
/// one dependency, each an integer field that stands strictly earlier, and
/// only a run of bytes takes its length from one.
pub open spec fn dynamic_wf(fields: Seq<FieldView>, i: int) -> bool {
    match fields[i].dynamic {
        None => true,
        Some(d) => {
            &&& d.deps.len() > 0
            &&& forall|j: int|
                0 <= j < d.deps.len() ==> (#[trigger] d.deps[j]) < i && fields[d.deps[j] as int].ty.is_integer()
            &&& d.rule is Length ==> fields[i].ty is Bytes
        },
    }
}

/// The type keeps the rules of the data model: a nested record does.
pub open spec fn type_wf(ty: TypeView) -> bool
    decreases ty,
{
    match ty {
        TypeView::Record(inner) => fields_wf(inner),
        _ => true,
    }
}

/// Every field keeps the rules of the data model and no name occurs twice,
/// here and in every nested record.
pub open spec fn fields_wf(fields: Seq<FieldView>) -> bool
    decreases fields,
{
    &&& forall|i: int|
        #![trigger fields[i]]
        0 <= i < fields.len() ==> dynamic_wf(fields, i) && type_wf(fields[i].ty)
    &&& forall|i: int, j: int|
        0 <= i < j < fields.len() ==> (#[trigger] fields[i]).name != (#[trigger] fields[j]).name
}

/// Field `i` keeps the rules of the data model, and so do the fields of the
/// record nested in it, if it is one.
pub open spec fn field_wf(fields: Seq<FieldView>, i: int) -> bool {
    dynamic_wf(fields, i) && type_wf(fields[i].ty)
}

/// `fields_wf` spelled out field by field.
pub proof fn lemma_fields_wf(fields: Seq<FieldView>)
    ensures
        fields_wf(fields) <==> {
            &&& forall|i: int| 0 <= i < fields.len() ==> #[trigger] field_wf(fields, i)
            &&& forall|i: int, j: int|
                0 <= i < j < fields.len() ==> (#[trigger] fields[i]).name != (
                #[trigger] fields[j]).name
        },
{
    if fields_wf(fields) {
        assert forall|i: int| 0 <= i < fields.len() implies #[trigger] field_wf(fields, i) by {}
    }
    if forall|i: int| 0 <= i < fields.len() ==> #[trigger] field_wf(fields, i) {
        assert forall|i: int|
            #![trigger fields[i]]
            0 <= i < fields.len() implies dynamic_wf(fields, i) && type_wf(fields[i].ty) by {
            assert(field_wf(fields, i));
        }
    }
}

impl SchemaView {
    /// The fields keep the rules of the data model.
    pub open spec fn wf(self) -> bool {
        fields_wf(self.fields)
    }
}

impl FieldType {
    /// Tells the integer types from the others.
    pub fn integer(&self) -> (r: bool)
        ensures
            r == self@.is_integer(),
    {
        match self {
            FieldType::U8 | FieldType::U16 | FieldType::U32 | FieldType::U64 => true,
            _ => false,
        }
    }

    /// Tells a run of bytes from the others.
    pub fn run_of_bytes(&self) -> (r: bool)
        ensures
            r == self@ is Bytes,
    {
        match self {
            FieldType::Bytes(_) => true,
            _ => false,
        }
    }

    /// A copy of the type, nested records and all.
    pub fn duplicate(&self) -> (r: FieldType)
        ensures
            r@ == self@,
        decreases self, 0nat,
    {
        match self {
            FieldType::U8 => FieldType::U8,
            FieldType::U16 => FieldType::U16,
            FieldType::U32 => FieldType::U32,
            FieldType::U64 => FieldType::U64,
            FieldType::Bytes(n) => FieldType::Bytes(*n),
            FieldType::Text => FieldType::Text,
            FieldType::Record(fields) => FieldType::Record(duplicate_fields(fields)),
        }
    }
}

/// A copy of a list of dependencies.
pub fn duplicate_deps(deps: &Vec<usize>) -> (r: Vec<usize>)
    ensures
        r@ == deps@,
{
    let mut out: Vec<usize> = Vec::new();
    let mut j: usize = 0;
    while j < deps.len()
        invariant
            j <= deps@.len(),
            out@ == deps@.take(j as int),
        decreases deps@.len() - j,
    {
        out.push(deps[j]);
        j = j + 1;
    }
    out
}

/// A copy of a run of fields, nested records and all.
pub fn duplicate_fields(fields: &Vec<FieldSpec>) -> (r: Vec<FieldSpec>)
    ensures
        field_views(r@) == field_views(fields@),
    decreases fields, 1nat,
{
    let mut out: Vec<FieldSpec> = Vec::new();
    let mut i: usize = 0;
    while i < fields.len()
        invariant
            i <= fields@.len(),
            out@.len() == i,
            forall|k: int| 0 <= k < i ==> (#[trigger] out@[k])@ == fields@[k]@,
        decreases fields@.len() - i,
    {
        let field = &fields[i];
        let dynamic = match &field.dynamic {
            None => None,
            Some(d) => Some(Dynamic { deps: duplicate_deps(&d.deps), rule: d.rule }),
        };
        out.push(FieldSpec { name: field.name.clone(), ty: field.ty.duplicate(), dynamic });
        i = i + 1;
    }
    assert(field_views(out@) =~= field_views(fields@)) by {
        assert forall|k: int| 0 <= k < fields@.len() implies field_views(out@)[k] == field_views(
            fields@,
        )[k] by {}
    }
    out
}

/// Whether the fields keep the rules of the data model, here and in every
/// nested record.
pub fn well_formed(fields: &Vec<FieldSpec>) -> (r: bool)
    ensures
        r == fields_wf(field_views(fields@)),
    decreases fields,
{
    let ghost model = field_views(fields@);
    proof {
        lemma_fields_wf(model);
    }
    let mut i: usize = 0;
    while i < fields.len()
        invariant
            i <= fields@.len(),
            model == field_views(fields@),
            forall|k: int| 0 <= k < i ==> #[trigger] field_wf(model, k),
            forall|a: int, b: int|
                0 <= a < b < i ==> (#[trigger] model[a]).name != (#[trigger] model[b]).name,
        decreases fields@.len() - i,
    {
        let field = &fields[i];
        let mut k: usize = 0;
        while k < i
            invariant
                k <= i < fields@.len(),
                model == field_views(fields@),
                field == fields@[i as int],
                forall|a: int| 0 <= a < k ==> (#[trigger] model[a]).name != model[i as int].name,
            decreases i - k,
        {
            if fields[k].name == field.name {
                assert(model[k as int].name == model[i as int].name);
                return false;
            }
            k = k + 1;
        }
        match &field.dynamic {
            None => {},
            Some(d) => {
                if d.deps.len() == 0 {
                    return false;
                }
                let length_rule = match d.rule {
                    DynamicRule::Length => true,
                    DynamicRule::Presence => false,
                };
                if length_rule && !field.ty.run_of_bytes() {
                    return false;
                }
                let mut j: usize = 0;
                while j < d.deps.len()
                    invariant
                        j <= d.deps@.len(),
                        i < fields@.len(),
                        model == field_views(fields@),
                        model[i as int].dynamic == Some(d@),
                        forall|m: int|
                            0 <= m < j ==> (#[trigger] d.deps@[m]) < i && model[d.deps@[m] as int].ty.is_integer(),
                    decreases d.deps@.len() - j,
                {
                    let dep = d.deps[j];
                    if dep >= i {
                        return false;
                    }
                    if !fields[dep].ty.integer() {
                        return false;
                    }
                    j = j + 1;
                }
            },
        }
        match &field.ty {
            FieldType::Record(inner) => {
                if !well_formed(inner) {
                    return false;
                }
            },
            _ => {},
        }
        i = i + 1;
    }
    true
}

impl Clone for FieldType {
    fn clone(&self) -> (r: Self)
        ensures
            r@ == self@,
    {
        self.duplicate()
    }
}

impl Clone for FieldSpec {
    fn clone(&self) -> (r: Self)
        ensures
            r@ == self@,
    {
        let dynamic = match &self.dynamic {
            None => None,
            Some(d) => Some(Dynamic { deps: duplicate_deps(&d.deps), rule: d.rule }),
        };
        FieldSpec { name: self.name.clone(), ty: self.ty.duplicate(), dynamic }
    }
}

impl Clone for PacketSchema {
    fn clone(&self) -> (r: Self)
        ensures
            r@ == self@,
    {
        PacketSchema {
            name: self.name.clone(),
            login_opcode: self.login_opcode,
            world_opcode: self.world_opcode,
            compressed_opcode: self.compressed_opcode,
            fields: duplicate_fields(&self.fields),
        }
    }
}

impl PacketSchema {
    /// Whether the schema keeps the rules of the data model.
    pub fn well_formed(&self) -> (r: bool)
        ensures
            r == self@.wf(),
    {
        well_formed(&self.fields)
    }
}

/// One header attribute of a declaration.
#[derive(Clone, Copy, Debug, PartialEq, Eq, Structural)]
pub enum ItemAttr {
    /// The packet belongs to the login phase and carries this opcode.
    LoginOpcode(u32),
    /// The opcode that an outgoing frame carries.
    WorldOpcode(u32),
    /// An incoming frame with this opcode has a compressed payload.
    CompressedOpcode(u16),
}

/// One attribute of a declared field.
#[derive(Clone, Debug)]
pub enum FieldAttr {
    /// The field depends on the named fields.
    Dynamic { deps: Vec<String>, rule: DynamicRule },
}

/// One declared field: dependencies are still names.
#[derive(Debug)]
pub struct FieldDecl {
    pub name: String,
    pub ty: FieldType,
    pub attributes: Vec<FieldAttr>,
}

/// Whether two texts are the same, byte by byte.
pub fn same_text(a: &str, b: &str) -> (r: bool)
    ensures
        r == (a@ == b@),
{
    let x = a.as_bytes();
    let y = b.as_bytes();
    if x.len() != y.len() {
        return false;
    }
    let mut i: usize = 0;
    while i < x.len()
        invariant
            i <= x@.len(),
            x@.len() == y@.len(),
            x@ == a.spec_bytes(),
            y@ == b.spec_bytes(),
            forall|k: int| 0 <= k < i ==> x@[k] == y@[k],
        decreases x@.len() - i,
    {
        if x[i] != y[i] {
            return false;
        }
        i = i + 1;
    }
    proof {
        assert(x@ =~= y@);
        encode_utf8_decode_utf8(a@);
        encode_utf8_decode_utf8(b@);
    }
    true
}

impl ItemAttr {
    /// Both attributes set the same thing.
    pub open spec fn same_kind(self, other: ItemAttr) -> bool {
        ||| self is LoginOpcode && other is LoginOpcode
        ||| self is WorldOpcode && other is WorldOpcode
        ||| self is CompressedOpcode && other is CompressedOpcode
    }

    /// The attribute that the key `name` and `value` declare.
    pub open spec fn parsed(name: Seq<char>, value: u32) -> Result<ItemAttr, ErrorKind> {
        if name == "login_opcode"@ {
            Ok(ItemAttr::LoginOpcode(value))
        } else if name == "world_opcode"@ {
            Ok(ItemAttr::WorldOpcode(value))
        } else if name == "compressed_opcode"@ && value <= 0xffff {
            Ok(ItemAttr::CompressedOpcode(value as u16))
        } else {
            Err(ErrorKind::SchemaViolation)
        }
    }

    /// Reads one header attribute from its key and value. An unknown key is a
    /// `SchemaViolation`, and so is a compressed opcode that the 16-bit
    /// opcode of an incoming frame cannot equal.
    pub fn parse_args(name: &str, value: u32) -> (r: Result<ItemAttr, ErrorKind>)
        ensures
            r == ItemAttr::parsed(name@, value),
    {
        if same_text(name, "login_opcode") {
            Ok(ItemAttr::LoginOpcode(value))
        } else if same_text(name, "world_opcode") {
            Ok(ItemAttr::WorldOpcode(value))
        } else if same_text(name, "compressed_opcode") && value <= 0xffff {
            Ok(ItemAttr::CompressedOpcode(value as u16))
        } else {
            Err(ErrorKind::SchemaViolation)
        }
    }
}

impl FieldAttr {
    /// Reads one field attribute from its key and the names it lists: the key
    /// `dynamic` gives the presence rule, the key `sized` the length rule. An
    /// unknown key is a `SchemaViolation`.
    pub fn parse_args(name: &str, deps: Vec<String>) -> (r: Result<FieldAttr, ErrorKind>)
        ensures
            name@ == "dynamic"@ ==> r == Ok::<FieldAttr, ErrorKind>(
                FieldAttr::Dynamic { deps, rule: DynamicRule::Presence },
            ),
            name@ != "dynamic"@ && name@ == "sized"@ ==> r == Ok::<FieldAttr, ErrorKind>(
                FieldAttr::Dynamic { deps, rule: DynamicRule::Length },
            ),
            name@ != "dynamic"@ && name@ != "sized"@ ==> r == Err::<FieldAttr, ErrorKind>(
                ErrorKind::SchemaViolation,
            ),
    {
        if same_text(name, "dynamic") {
            Ok(FieldAttr::Dynamic { deps, rule: DynamicRule::Presence })
        } else if same_text(name, "sized") {
            Ok(FieldAttr::Dynamic { deps, rule: DynamicRule::Length })
        } else {
            Err(ErrorKind::SchemaViolation)
        }
    }
}

} // verus!
