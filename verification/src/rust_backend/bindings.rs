//! Plans of the generated decoders: each structure that owns bindings is read
//! from the host's raw value map, field by field, and then validated.
use vstd::prelude::*;

use crate::blueprint::{Blueprint, FieldBinding, FieldDefinition, FieldType, StructDefinition, ValueTransform};
use crate::descriptor::{same_descriptor, DescriptorView};
use crate::rust_backend::{
    collect_ok, flat_collect_ok, lemma_collect_err, lemma_collect_step, lemma_flat_collect_err,
    lemma_flat_collect_step, plan_view, type_ident, type_ident_of, value_ident, value_ident_of,
    BackendError, BackendErrorView,
};
use crate::text::{concat2, owned};

verus! {

/// How a raw value is read for a field.
#[derive(Clone, Copy, Debug, PartialEq, Eq, Structural)]
pub enum ReadKind {
    Decimal,
    Integer,
    Boolean,
    Text,
    Json,
}

/// How a field of a given type is read.
pub open spec fn read_kind_of(t: FieldType) -> ReadKind {
    match t {
        FieldType::Decimal => ReadKind::Decimal,
        FieldType::Integer | FieldType::Timestamp => ReadKind::Integer,
        FieldType::Boolean => ReadKind::Boolean,
        FieldType::String | FieldType::Password | FieldType::Email | FieldType::Dictionary => ReadKind::Text,
        FieldType::Json => ReadKind::Json,
    }
}

/// How a field of a given type is read.
pub fn read_kind(t: FieldType) -> (r: ReadKind)
    ensures
        r == read_kind_of(t),
{
    match t {
        FieldType::Decimal => ReadKind::Decimal,
        FieldType::Integer | FieldType::Timestamp => ReadKind::Integer,
        FieldType::Boolean => ReadKind::Boolean,
        FieldType::String | FieldType::Password | FieldType::Email | FieldType::Dictionary => ReadKind::Text,
        FieldType::Json => ReadKind::Json,
    }
}

/// The assignment of one decoded field: the field, how it is read, the raw
/// key it is read from and the divisor applied to it, if any.
#[derive(Clone, Debug, PartialEq, Eq)]
pub struct AssignmentItem {
    pub field_ident: String,
    pub read: ReadKind,
    pub source_code: String,
    pub divisor: Option<String>,
}

/// The text of an assignment plan.
pub open spec fn assignment_view(a: AssignmentItem) -> (Seq<char>, ReadKind, Seq<char>, Option<Seq<char>>) {
    (
        a.field_ident@,
        a.read,
        a.source_code@,
        match a.divisor {
            Some(d) => Some(d@),
            None => None,
        },
    )
}

/// The assignment of a field from its binding; a division is only allowed on a decimal field.
pub open spec fn assignment_of(f: FieldDefinition, b: FieldBinding) -> Result<(Seq<char>, ReadKind, Seq<char>, Option<Seq<char>>), BackendErrorView> {
    match value_ident_of(f.descriptor.code@) {
        Err(e) => Err(e),
        Ok(ident) => match b.transform {
            ValueTransform::Identity => Ok((ident, read_kind_of(f.field_type), b.source.code@, None)),
            ValueTransform::Divide { divisor } => if f.field_type == FieldType::Decimal {
                Ok((ident, read_kind_of(f.field_type), b.source.code@, Some(divisor@)))
            } else {
                Err(BackendErrorView::DivisionOnNonDecimal(f.descriptor.native_name@))
            },
        },
    }
}

/// The index of the first binding of `field` owned by `owner`.
pub open spec fn owned_binding(bs: Seq<FieldBinding>, owner: DescriptorView, field: DescriptorView) -> Option<int>
    decreases bs.len(),
{
    if bs.len() == 0 {
        None
    } else if bs[0].owner@ == owner && bs[0].field@ == field {
        Some(0)
    } else {
        match owned_binding(bs.drop_first(), owner, field) {
            Some(i) => Some(i + 1),
            None => None,
        }
    }
}

/// Some binding is owned by `owner`.
pub open spec fn owns_bindings(bs: Seq<FieldBinding>, owner: DescriptorView) -> bool {
    exists|i: int| 0 <= i < bs.len() && (#[trigger] bs[i]).owner@ == owner
}

/// The assignment of a field of structure `s`, from the first binding that
/// the structure owns for it.
pub open spec fn field_assignment_of(bs: Seq<FieldBinding>, s: StructDefinition, f: FieldDefinition) -> Result<(Seq<char>, ReadKind, Seq<char>, Option<Seq<char>>), BackendErrorView> {
    match owned_binding(bs, s.descriptor@, f.descriptor@) {
        None => Err(BackendErrorView::MissingBinding(f.descriptor.native_name@)),
        Some(i) => assignment_of(f, bs[i]),
    }
}

/// A generated decoder: the structure, the decoder and validator functions and
/// the field assignments.
#[derive(Clone, Debug, PartialEq, Eq)]
pub struct DecoderItem {
    pub type_ident: String,
    pub decoder_ident: String,
    pub validator_ident: String,
    pub assignments: Vec<AssignmentItem>,
}

/// The text of a decoder plan.
pub open spec fn decoder_item_view(d: DecoderItem) -> (Seq<char>, Seq<char>, Seq<char>, Seq<(Seq<char>, ReadKind, Seq<char>, Option<Seq<char>>)>) {
    (
        d.type_ident@,
        d.decoder_ident@,
        d.validator_ident@,
        d.assignments@.map_values(|a: AssignmentItem| assignment_view(a)),
    )
}

/// The decoder of structure `s`: none when it owns no binding; otherwise its
/// type, `decode_` and `validate_` functions, then every field's assignment.
pub open spec fn decoder_items_of(bs: Seq<FieldBinding>, s: StructDefinition) -> Result<
    Seq<(Seq<char>, Seq<char>, Seq<char>, Seq<(Seq<char>, ReadKind, Seq<char>, Option<Seq<char>>)>)>,
    BackendErrorView,
> {
    if !owns_bindings(bs, s.descriptor@) {
        Ok(Seq::empty())
    } else {
        match type_ident_of(s.descriptor.code@) {
            Err(e) => Err(e),
            Ok(ti) => match value_ident_of("decode_"@ + s.descriptor.code@) {
                Err(e) => Err(e),
                Ok(di) => match value_ident_of("validate_"@ + s.descriptor.code@) {
                    Err(e) => Err(e),
                    Ok(vi) => match collect_ok(s.fields@, |f: FieldDefinition| field_assignment_of(bs, s, f)) {
                        Err(e) => Err(e),
                        Ok(assignments) => Ok(seq![(ti, di, vi, assignments)]),
                    },
                },
            },
        }
    }
}

fn find_owned_binding(bs: &Vec<FieldBinding>, s: &StructDefinition, f: &FieldDefinition) -> (r: Option<usize>)
    ensures
        match r {
            Some(k) => owned_binding(bs@, s.descriptor@, f.descriptor@) == Some(k as int) && k < bs@.len(),
            None => owned_binding(bs@, s.descriptor@, f.descriptor@) is None,
        },
{
    let mut i: usize = 0;
    assert(bs@.skip(0) =~= bs@);
    while i < bs.len()
        invariant
            i <= bs@.len(),
            owned_binding(bs@, s.descriptor@, f.descriptor@) == match owned_binding(bs@.skip(i as int), s.descriptor@, f.descriptor@) {
                Some(j) => Some(j + i),
                None => None::<int>,
            },
        decreases bs@.len() - i,
    {
        assert(bs@.skip(i as int)[0] == bs@[i as int]);
        assert(bs@.skip(i as int).drop_first() =~= bs@.skip(i + 1));
        if same_descriptor(&bs[i].owner, &s.descriptor) && same_descriptor(&bs[i].field, &f.descriptor) {
            assert(owned_binding(bs@.skip(i as int), s.descriptor@, f.descriptor@) == Some(0int));
            return Some(i);
        }
        i = i + 1;
    }
    assert(bs@.skip(i as int) =~= Seq::<FieldBinding>::empty());
    None
}

fn has_owned_bindings(bs: &Vec<FieldBinding>, s: &StructDefinition) -> (r: bool)
    ensures
        r == owns_bindings(bs@, s.descriptor@),
{
    let mut i: usize = 0;
    while i < bs.len()
        invariant
            i <= bs@.len(),
            forall|j: int| 0 <= j < i ==> (#[trigger] bs@[j]).owner@ != s.descriptor@,
        decreases bs@.len() - i,
    {
        if same_descriptor(&bs[i].owner, &s.descriptor) {
            return true;
        }
        i = i + 1;
    }
    false
}

/// The assignment of a field from its binding.
fn plan_assignment(f: &FieldDefinition, b: &FieldBinding) -> (r: Result<AssignmentItem, BackendError>)
    ensures
        match r {
            Ok(a) => assignment_of(*f, *b) == Ok::<_, BackendErrorView>(assignment_view(a)),
            Err(e) => assignment_of(*f, *b) == Err::<(Seq<char>, ReadKind, Seq<char>, Option<Seq<char>>), _>(e@),
        },
{
    let field_ident = value_ident(f.descriptor.code.as_str())?;
    let read = read_kind(f.field_type);
    let divisor = match &b.transform {
        ValueTransform::Identity => None,
        ValueTransform::Divide { divisor } => {
            let decimal = match f.field_type {
                FieldType::Decimal => true,
                _ => false,
            };
            if !decimal {
                return Err(BackendError::DivisionOnNonDecimal { field: f.descriptor.native_name.clone() });
            }
            Some(divisor.clone())
        },
    };
    Ok(AssignmentItem { field_ident, read, source_code: b.source.code.clone(), divisor })
}

fn plan_decoder(bs: &Vec<FieldBinding>, s: &StructDefinition, out: &mut Vec<DecoderItem>) -> (r: Result<(), BackendError>)
    ensures
        match decoder_items_of(bs@, *s) {
            Ok(items) => r is Ok && final(out)@.map_values(|d: DecoderItem| decoder_item_view(d)) == old(out)@.map_values(
                |d: DecoderItem| decoder_item_view(d),
            ) + items,
            Err(e) => r matches Err(x) && x@ == e,
        },
{
    if !has_owned_bindings(bs, s) {
        assert(out@.map_values(|d: DecoderItem| decoder_item_view(d)) =~= out@.map_values(|d: DecoderItem| decoder_item_view(d))
            + Seq::<(Seq<char>, Seq<char>, Seq<char>, Seq<(Seq<char>, ReadKind, Seq<char>, Option<Seq<char>>)>)>::empty());
        return Ok(());
    }
    let type_ident = type_ident(s.descriptor.code.as_str())?;
    let decoder_name = concat2("decode_", s.descriptor.code.as_str());
    let decoder_ident = value_ident(decoder_name.as_str())?;
    let validator_name = concat2("validate_", s.descriptor.code.as_str());
    let validator_ident = value_ident(validator_name.as_str())?;
    let fields = &s.fields;
    let ghost g = |f: FieldDefinition| field_assignment_of(bs@, *s, f);
    let mut assignments: Vec<AssignmentItem> = Vec::new();
    let mut i: usize = 0;
    assert(fields@.take(0) =~= Seq::<FieldDefinition>::empty());
    assert(assignments@.map_values(|a: AssignmentItem| assignment_view(a)) =~= Seq::<(Seq<char>, ReadKind, Seq<char>, Option<Seq<char>>)>::empty());
    while i < fields.len()
        invariant
            i <= fields@.len(),
            fields@ == s.fields@,
            g == (|f: FieldDefinition| field_assignment_of(bs@, *s, f)),
            owns_bindings(bs@, s.descriptor@),
            type_ident_of(s.descriptor.code@) == Ok::<_, BackendErrorView>(type_ident@),
            value_ident_of("decode_"@ + s.descriptor.code@) == Ok::<_, BackendErrorView>(decoder_ident@),
            value_ident_of("validate_"@ + s.descriptor.code@) == Ok::<_, BackendErrorView>(validator_ident@),
            collect_ok(fields@.take(i as int), g) == Ok::<_, BackendErrorView>(assignments@.map_values(|a: AssignmentItem| assignment_view(a))),
        decreases fields@.len() - i,
    {
        let field = &fields[i];
        proof {
            lemma_collect_step(fields@, g, i as int);
        }
        let found = find_owned_binding(bs, s, field);
        let item = match found {
            None => {
                proof {
                    lemma_collect_err(fields@, g, i + 1);
                }
                return Err(BackendError::MissingBinding { field: field.descriptor.native_name.clone() });
            },
            Some(k) => match plan_assignment(field, &bs[k]) {
                Ok(item) => item,
                Err(e) => {
                    proof {
                        lemma_collect_err(fields@, g, i + 1);
                    }
                    return Err(e);
                },
            },
        };
        let ghost before = assignments@;
        assignments.push(item);
        assert(assignments@.map_values(|a: AssignmentItem| assignment_view(a)) =~= before.map_values(|a: AssignmentItem| assignment_view(a)).push(
            assignment_view(item),
        ));
        i = i + 1;
    }
    assert(fields@.take(i as int) =~= fields@);
    let ghost before = out@.map_values(|d: DecoderItem| decoder_item_view(d));
    out.push(DecoderItem { type_ident, decoder_ident, validator_ident, assignments });
    assert(out@.map_values(|d: DecoderItem| decoder_item_view(d)) =~= before.push(decoder_item_view(out@.last())));
    Ok(())
}

/// Plans the decoders of the structures that own bindings.
pub fn plan_bindings(blueprint: &Blueprint) -> (r: Result<Vec<DecoderItem>, BackendError>)
    ensures
        plan_view(r, |d: DecoderItem| decoder_item_view(d)) == flat_collect_ok(
            blueprint.structs@,
            |s: StructDefinition| decoder_items_of(blueprint.bindings@, s),
        ),
{
    let structs = &blueprint.structs;
    let ghost g = |s: StructDefinition| decoder_items_of(blueprint.bindings@, s);
    let mut out: Vec<DecoderItem> = Vec::new();
    let mut i: usize = 0;
    assert(structs@.take(0) =~= Seq::<StructDefinition>::empty());
    assert(out@.map_values(|d: DecoderItem| decoder_item_view(d)) =~= Seq::<
        (Seq<char>, Seq<char>, Seq<char>, Seq<(Seq<char>, ReadKind, Seq<char>, Option<Seq<char>>)>),
    >::empty());
    while i < structs.len()
        invariant
            i <= structs@.len(),
            structs@ == blueprint.structs@,
            g == (|s: StructDefinition| decoder_items_of(blueprint.bindings@, s)),
            flat_collect_ok(structs@.take(i as int), g) == Ok::<_, BackendErrorView>(out@.map_values(|d: DecoderItem| decoder_item_view(d))),
        decreases structs@.len() - i,
    {
        proof {
            lemma_flat_collect_step(structs@, g, i as int);
        }
        match plan_decoder(&blueprint.bindings, &structs[i], &mut out) {
            Ok(()) => {},
            Err(e) => {
                proof {
                    lemma_flat_collect_err(structs@, g, i + 1);
                }
                return Err(e);
            },
        }
        i = i + 1;
    }
    assert(structs@.take(i as int) =~= structs@);
    Ok(out)
}

} // verus!
