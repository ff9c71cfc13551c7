//! Schema construction: a declaration by names is checked once and resolved
//! into a [`PacketSchema`], or refused as a `SchemaViolation`.

use crate::error::ErrorKind;
use crate::schema::{
    field_views, field_wf, lemma_fields_wf, type_wf, well_formed, Dynamic, DynamicRule, FieldAttr,
    FieldDecl, FieldSpec, FieldType, FieldView, ItemAttr, PacketSchema, SchemaView,
};
use vstd::prelude::*;

verus! {

/// No two header attributes set the same thing.
pub open spec fn attrs_distinct(attrs: Seq<ItemAttr>) -> bool {
    forall|i: int, j: int|
        0 <= i < j < attrs.len() ==> !(#[trigger] attrs[i]).same_kind(#[trigger] attrs[j])
}

/// The login opcode that the attributes declare, if any.
pub open spec fn declared_login(attrs: Seq<ItemAttr>) -> Option<u32> {
    if exists|i: int| 0 <= i < attrs.len() && attrs[i] is LoginOpcode {
        let i = choose|i: int| 0 <= i < attrs.len() && attrs[i] is LoginOpcode;
        Some(attrs[i]->LoginOpcode_0)
    } else {
        None
    }
}

/// The world opcode that the attributes declare, if any.
pub open spec fn declared_world(attrs: Seq<ItemAttr>) -> Option<u32> {
    if exists|i: int| 0 <= i < attrs.len() && attrs[i] is WorldOpcode {
        let i = choose|i: int| 0 <= i < attrs.len() && attrs[i] is WorldOpcode;
        Some(attrs[i]->WorldOpcode_0)
    } else {
        None
    }
}

/// The compressed opcode that the attributes declare, if any.
pub open spec fn declared_compressed(attrs: Seq<ItemAttr>) -> Option<u16> {
    if exists|i: int| 0 <= i < attrs.len() && attrs[i] is CompressedOpcode {
        let i = choose|i: int| 0 <= i < attrs.len() && attrs[i] is CompressedOpcode;
        Some(attrs[i]->CompressedOpcode_0)
    } else {
        None
    }
}

/// The name `name` belongs to an integer field that stands before field `i`.
pub open spec fn names_earlier_integer(decls: Seq<FieldDecl>, i: int, name: Seq<char>) -> bool {
    exists|k: int| 0 <= k < i && (#[trigger] decls[k]).name@ == name && decls[k].ty@.is_integer()
}

/// Declared field `i` can be resolved: its name is new, a record nested in
/// it keeps the rules of the data model, it carries at most one attribute,
/// and a dynamic attribute lists at least one name, each of an earlier integer
/// field; only a run of bytes may take the length rule.
pub open spec fn declarable_field(decls: Seq<FieldDecl>, i: int) -> bool {
    &&& forall|k: int| 0 <= k < i ==> (#[trigger] decls[k]).name@ != decls[i].name@
    &&& type_wf(decls[i].ty@)
    &&& decls[i].attributes@.len() <= 1
    &&& decls[i].attributes@.len() == 1 ==> {
        let attr = decls[i].attributes@[0];
        &&& attr->deps@.len() > 0
        &&& forall|j: int|
            0 <= j < attr->deps@.len() ==> names_earlier_integer(decls, i, (#[trigger] attr->deps@[j])@)
        &&& attr->rule is Length ==> decls[i].ty@ is Bytes
    }
}

/// The declaration can be resolved into a schema.
pub open spec fn declarable(attrs: Seq<ItemAttr>, decls: Seq<FieldDecl>) -> bool {
    &&& attrs_distinct(attrs)
    &&& forall|i: int| 0 <= i < decls.len() ==> #[trigger] declarable_field(decls, i)
}

/// The resolved field `field` is what declared field `i` says: same name and
/// type, and each dependency is the index of the earlier field of that name.
pub open spec fn resolves(decls: Seq<FieldDecl>, i: int, field: FieldView) -> bool {
    &&& field.name == decls[i].name@
    &&& field.ty == decls[i].ty@
    &&& match field.dynamic {
        None => decls[i].attributes@.len() == 0,
        Some(d) => {
            &&& decls[i].attributes@.len() == 1
            &&& d.rule == decls[i].attributes@[0]->rule
            &&& d.deps.len() == decls[i].attributes@[0]->deps@.len()
            &&& forall|j: int|
                0 <= j < d.deps.len() ==> (#[trigger] d.deps[j]) < i && decls[d.deps[j] as int].name@
                    == decls[i].attributes@[0]->deps@[j]@
        },
    }
}

/// The schema is what the declaration says.
pub open spec fn describes(attrs: Seq<ItemAttr>, decls: Seq<FieldDecl>, schema: SchemaView) -> bool {
    &&& schema.login_opcode == declared_login(attrs)
    &&& schema.world_opcode == declared_world(attrs)
    &&& schema.compressed_opcode == declared_compressed(attrs)
    &&& schema.fields.len() == decls.len()
    &&& forall|i: int| 0 <= i < decls.len() ==> resolves(decls, i, #[trigger] schema.fields[i])
}

/// The first field before `limit` that bears `name`.
fn find_earlier(decls: &Vec<FieldDecl>, limit: usize, name: &String) -> (r: Option<usize>)
    requires
        limit <= decls@.len(),
    ensures
        r matches Some(k) ==> k < limit && decls@[k as int].name@ == name@,
        r is None ==> forall|k: int| 0 <= k < limit ==> (#[trigger] decls@[k]).name@ != name@,
{
    let mut k: usize = 0;
    while k < limit
        invariant
            k <= limit <= decls@.len(),
            forall|m: int| 0 <= m < k ==> (#[trigger] decls@[m]).name@ != name@,
        decreases limit - k,
    {
        if decls[k].name == *name {
            return Some(k);
        }
        k = k + 1;
    }
    None
}

/// Resolves the names that a dynamic attribute of field `i` lists.
fn resolve_deps(decls: &Vec<FieldDecl>, i: usize, names: &Vec<String>) -> (r: Option<Vec<usize>>)
    requires
        i < decls@.len(),
        forall|a: int, b: int| 0 <= a < b < i ==> (#[trigger] decls@[a]).name@ != (#[trigger] decls@[b]).name@,
    ensures
        r is Some <==> forall|j: int|
            0 <= j < names@.len() ==> names_earlier_integer(decls@, i as int, (#[trigger] names@[j])@),
        r matches Some(deps) ==> deps@.len() == names@.len() && forall|j: int|
            0 <= j < deps@.len() ==> (#[trigger] deps@[j]) < i && decls@[deps@[j] as int].name@
                == names@[j]@ && decls@[deps@[j] as int].ty@.is_integer(),
{
    let mut deps: Vec<usize> = Vec::new();
    let mut j: usize = 0;
    while j < names.len()
        invariant
            j <= names@.len(),
            i < decls@.len(),
            deps@.len() == j,
            forall|a: int, b: int|
                0 <= a < b < i ==> (#[trigger] decls@[a]).name@ != (#[trigger] decls@[b]).name@,
            forall|m: int|
                0 <= m < j ==> (#[trigger] deps@[m]) < i && decls@[deps@[m] as int].name@
                    == names@[m]@ && decls@[deps@[m] as int].ty@.is_integer(),
        decreases names@.len() - j,
    {
        match find_earlier(decls, i, &names[j]) {
            None => {
                return None;
            },
            Some(k) => {
                if !decls[k].ty.integer() {
                    assert(!names_earlier_integer(decls@, i as int, names@[j as int]@)) by {}
                    return None;
                }
                deps.push(k);
            },
        }
        j = j + 1;
    }
    assert forall|j: int| 0 <= j < names@.len() implies names_earlier_integer(
        decls@,
        i as int,
        (#[trigger] names@[j])@,
    ) by {
        assert(decls@[deps@[j] as int].name@ == names@[j]@);
    }
    Some(deps)
}

/// Collects the header attributes, or `None` where one is set twice.
fn resolve_attrs(attrs: &Vec<ItemAttr>) -> (r: Option<(Option<u32>, Option<u32>, Option<u16>)>)
    ensures
        r is Some <==> attrs_distinct(attrs@),
        r matches Some(found) ==> found.0 == declared_login(attrs@) && found.1 == declared_world(
            attrs@,
        ) && found.2 == declared_compressed(attrs@),
{
    let mut login: Option<u32> = None;
    let mut world: Option<u32> = None;
    let mut compressed: Option<u16> = None;
    let ghost mut login_at: int = 0;
    let ghost mut world_at: int = 0;
    let ghost mut compressed_at: int = 0;
    let mut a: usize = 0;
    while a < attrs.len()
        invariant
            a <= attrs@.len(),
            attrs_distinct(attrs@.take(a as int)),
            login is None ==> forall|i: int| 0 <= i < a ==> !(attrs@[i] is LoginOpcode),
            login matches Some(v) ==> 0 <= login_at < a && attrs@[login_at] == ItemAttr::LoginOpcode(v),
            world is None ==> forall|i: int| 0 <= i < a ==> !(attrs@[i] is WorldOpcode),
            world matches Some(v) ==> 0 <= world_at < a && attrs@[world_at] == ItemAttr::WorldOpcode(v),
            compressed is None ==> forall|i: int| 0 <= i < a ==> !(attrs@[i] is CompressedOpcode),
            compressed matches Some(v) ==> 0 <= compressed_at < a && attrs@[compressed_at]
                == ItemAttr::CompressedOpcode(v),
        decreases attrs@.len() - a,
    {
        let ghost after = attrs@.take(a + 1);
        match attrs[a] {
            ItemAttr::LoginOpcode(v) => {
                if login.is_some() {
                    return None;
                }
                login = Some(v);
                proof {
                    login_at = a as int;
                }
            },
            ItemAttr::WorldOpcode(v) => {
                if world.is_some() {
                    return None;
                }
                world = Some(v);
                proof {
                    world_at = a as int;
                }
            },
            ItemAttr::CompressedOpcode(v) => {
                if compressed.is_some() {
                    return None;
                }
                compressed = Some(v);
                proof {
                    compressed_at = a as int;
                }
            },
        }
        assert forall|i: int, j: int| 0 <= i < j < after.len() implies !(#[trigger] after[i]).same_kind(
            #[trigger] after[j],
        ) by {}
        a = a + 1;
    }
    proof {
        assert(attrs@.take(a as int) =~= attrs@);
    }
    Some((login, world, compressed))
}

/// Resolves declared field `i`, or `None` where it breaks a rule.
fn resolve_field(decls: &Vec<FieldDecl>, i: usize) -> (r: Option<FieldSpec>)
    requires
        i < decls@.len(),
        forall|a: int, b: int| 0 <= a < b < i ==> (#[trigger] decls@[a]).name@ != (#[trigger] decls@[b]).name@,
    ensures
        r is Some <==> declarable_field(decls@, i as int),
        r matches Some(field) ==> resolves(decls@, i as int, field@) && (field@.dynamic matches Some(d)
            ==> forall|j: int|
            0 <= j < d.deps.len() ==> decls@[(#[trigger] d.deps[j]) as int].ty@.is_integer()),
{
    let decl = &decls[i];
    if find_earlier(decls, i, &decl.name).is_some() {
        return None;
    }
    match &decl.ty {
        FieldType::Record(inner) => {
            if !well_formed(inner) {
                return None;
            }
        },
        _ => {},
    }
    if decl.attributes.len() > 1 {
        return None;
    }
    if decl.attributes.len() == 0 {
        return Some(FieldSpec { name: decl.name.clone(), ty: decl.ty.duplicate(), dynamic: None });
    }
    match &decl.attributes[0] {
        FieldAttr::Dynamic { deps, rule } => {
            if deps.len() == 0 {
                return None;
            }
            let length_rule = match rule {
                DynamicRule::Length => true,
                DynamicRule::Presence => false,
            };
            if length_rule && !decl.ty.run_of_bytes() {
                return None;
            }
            match resolve_deps(decls, i, deps) {
                None => None,
                Some(resolved) => Some(
                    FieldSpec {
                        name: decl.name.clone(),
                        ty: decl.ty.duplicate(),
                        dynamic: Some(Dynamic { deps: resolved, rule: *rule }),
                    },
                ),
            }
        },
    }
}

impl PacketSchema {
    /// Checks a declaration and resolves it into a schema.
    ///
    /// Fails with `SchemaViolation` where a header attribute is set twice, a
    /// field name occurs twice, a nested record breaks the rules of the data
    /// model, a field carries more than one attribute, or a dynamic field
    /// lists no dependency, names a field that is not an earlier integer field
    /// (itself and later fields among them), or takes the length rule without
    /// being a run of bytes.
    pub fn new(name: String, attrs: Vec<ItemAttr>, decls: Vec<FieldDecl>) -> (r: Result<
        PacketSchema,
        ErrorKind,
    >)
        ensures
            r is Ok <==> declarable(attrs@, decls@),
            r matches Err(kind) ==> kind == ErrorKind::SchemaViolation,
            r matches Ok(schema) ==> schema@.wf() && schema.name == name && describes(
                attrs@,
                decls@,
                schema@,
            ),
    {
        let (login_opcode, world_opcode, compressed_opcode) = match resolve_attrs(&attrs) {
            None => {
                return Err(ErrorKind::SchemaViolation);
            },
            Some(found) => found,
        };
        let mut fields: Vec<FieldSpec> = Vec::new();
        let mut i: usize = 0;
        while i < decls.len()
            invariant
                i <= decls@.len(),
                fields@.len() == i,
                forall|k: int| 0 <= k < i ==> #[trigger] declarable_field(decls@, k),
                forall|k: int| 0 <= k < i ==> resolves(decls@, k, (#[trigger] fields@[k])@),
                forall|k: int| 0 <= k < i ==> #[trigger] field_wf(field_views(fields@), k),
            decreases decls@.len() - i,
        {
            assert forall|a: int, b: int| 0 <= a < b < i implies (#[trigger] decls@[a]).name@ != (
            #[trigger] decls@[b]).name@ by {
                assert(declarable_field(decls@, b));
            }
            match resolve_field(&decls, i) {
                None => {
                    return Err(ErrorKind::SchemaViolation);
                },
                Some(field) => {
                    let ghost before = field_views(fields@);
                    fields.push(field);
                    proof {
                        let after = field_views(fields@);
                        assert forall|k: int| 0 <= k <= i implies #[trigger] field_wf(after, k) by {
                            if k < i {
                                assert(field_wf(before, k));
                                if let Some(d) = after[k].dynamic {
                                    assert forall|j: int| 0 <= j < d.deps.len() implies (
                                    #[trigger] d.deps[j]) < k && after[d.deps[j] as int].ty.is_integer() by {}
                                }
                            } else {
                                if let Some(d) = after[k].dynamic {
                                    assert forall|j: int| 0 <= j < d.deps.len() implies (
                                    #[trigger] d.deps[j]) < k && after[d.deps[j] as int].ty.is_integer() by {}
                                }
                            }
                        }
                    }
                },
            }
            i = i + 1;
        }
        let schema = PacketSchema { name, login_opcode, world_opcode, compressed_opcode, fields };
        proof {
            let view = schema@;
            lemma_fields_wf(view.fields);
            assert forall|k: int| 0 <= k < view.fields.len() implies view.fields[k] == fields@[k]@ by {}
            assert forall|a: int, b: int| 0 <= a < b < view.fields.len() implies (
            #[trigger] view.fields[a]).name != (#[trigger] view.fields[b]).name by {
                assert(declarable_field(decls@, b));
            }
            assert forall|k: int| 0 <= k < decls@.len() implies resolves(
                decls@,
                k,
                #[trigger] view.fields[k],
            ) by {}
        }
        Ok(schema)
    }
}

/// A dynamic field that names itself or a later field cannot be declared:
/// construction fails on every declaration in which dependency `j` of field
/// `i` is the name of field `k` and `k` does not stand before `i`.
pub proof fn law_forward_reference_refused(
    attrs: Seq<ItemAttr>,
    decls: Seq<FieldDecl>,
    i: int,
    j: int,
    k: int,
)
    requires
        0 <= i <= k < decls.len(),
        decls[i].attributes@.len() >= 1,
        0 <= j < decls[i].attributes@[0]->deps@.len(),
        decls[i].attributes@[0]->deps@[j]@ == decls[k].name@,
    ensures
        !declarable(attrs, decls),
{
    if declarable(attrs, decls) {
        assert(declarable_field(decls, i));
        assert(declarable_field(decls, k));
    }
}

} // verus!
