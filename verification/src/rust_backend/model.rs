//! Plans of the generated model modules: descriptors, structures, enumerations,
//! validators and functions.
use vstd::prelude::*;

use crate::blueprint::{
    is_text_type, Blueprint, EnumDefinition, EnumValueDefinition, FieldDefinition, FieldType,
    FunctionDefinition, StructDefinition, ValidationRule,
};
use crate::inference::outline::opt_text;
use crate::rust_backend::{
    collect_ok, flat_collect_ok, lemma_collect_err, lemma_collect_step, lemma_flat_collect_err,
    lemma_collect_ok_each, lemma_flat_collect_ok_each, lemma_flat_collect_step, plan_view, type_ident, type_ident_of, value_ident, value_ident_of,
    BackendError, BackendErrorView,
};
use crate::text::{concat2, concat3, owned};

verus! {

/// A generated field of a structure: its value identifier and type.
#[derive(Clone, Debug, PartialEq, Eq)]
pub struct StructField {
    pub ident: String,
    pub field_type: FieldType,
}

/// A generated structure: its type identifier, its code and its fields.
#[derive(Clone, Debug, PartialEq, Eq)]
pub struct StructItem {
    pub ident: String,
    pub code: String,
    pub fields: Vec<StructField>,
}

/// The text of a structure field plan.
pub open spec fn struct_field_view(f: StructField) -> (Seq<char>, FieldType) {
    (f.ident@, f.field_type)
}

/// The text of a structure plan.
pub open spec fn struct_item_view(s: StructItem) -> (Seq<char>, Seq<char>, Seq<(Seq<char>, FieldType)>) {
    (s.ident@, s.code@, s.fields@.map_values(|f: StructField| struct_field_view(f)))
}

/// The plan of one field of a structure.
pub open spec fn struct_field_of(f: FieldDefinition) -> Result<(Seq<char>, FieldType), BackendErrorView> {
    match value_ident_of(f.descriptor.code@) {
        Ok(ident) => Ok((ident, f.field_type)),
        Err(e) => Err(e),
    }
}

/// The plan of a structure: its type identifier, then its fields in order.
pub open spec fn struct_item_of(s: StructDefinition) -> Result<(Seq<char>, Seq<char>, Seq<(Seq<char>, FieldType)>), BackendErrorView> {
    match type_ident_of(s.descriptor.code@) {
        Ok(ident) => match collect_ok(s.fields@, |f: FieldDefinition| struct_field_of(f)) {
            Ok(fields) => Ok((ident, s.descriptor.code@, fields)),
            Err(e) => Err(e),
        },
        Err(e) => Err(e),
    }
}

/// Plans the fields of a structure.
fn plan_struct_fields(fields: &Vec<FieldDefinition>) -> (r: Result<Vec<StructField>, BackendError>)
    ensures
        plan_view(r, |f: StructField| struct_field_view(f)) == collect_ok(fields@, |f: FieldDefinition| struct_field_of(f)),
{
    let ghost g = |f: FieldDefinition| struct_field_of(f);
    let mut out: Vec<StructField> = Vec::new();
    let mut i: usize = 0;
    assert(fields@.take(0) =~= Seq::<FieldDefinition>::empty());
    assert(out@.map_values(|f: StructField| struct_field_view(f)) =~= Seq::<(Seq<char>, FieldType)>::empty());
    while i < fields.len()
        invariant
            i <= fields@.len(),
            g == (|f: FieldDefinition| struct_field_of(f)),
            collect_ok(fields@.take(i as int), g) == Ok::<_, BackendErrorView>(out@.map_values(|f: StructField| struct_field_view(f))),
        decreases fields@.len() - i,
    {
        let field = &fields[i];
        proof {
            lemma_collect_step(fields@, g, i as int);
        }
        let ident = match value_ident(field.descriptor.code.as_str()) {
            Ok(ident) => ident,
            Err(e) => {
                proof {
                    lemma_collect_err(fields@, g, i + 1);
                }
                return Err(e);
            },
        };
        let ghost before = out@;
        out.push(StructField { ident, field_type: field.field_type });
        assert(out@.map_values(|f: StructField| struct_field_view(f)) =~= before.map_values(|f: StructField| struct_field_view(f)).push(
            struct_field_view(out@.last()),
        ));
        i = i + 1;
    }
    assert(fields@.take(i as int) =~= fields@);
    Ok(out)
}

/// Plans the structures of a blueprint.
pub fn plan_structs(blueprint: &Blueprint) -> (r: Result<Vec<StructItem>, BackendError>)
    ensures
        plan_view(r, |s: StructItem| struct_item_view(s)) == collect_ok(blueprint.structs@, |s: StructDefinition| struct_item_of(s)),
{
    let structs = &blueprint.structs;
    let ghost g = |s: StructDefinition| struct_item_of(s);
    let mut out: Vec<StructItem> = Vec::new();
    let mut i: usize = 0;
    assert(structs@.take(0) =~= Seq::<StructDefinition>::empty());
    assert(out@.map_values(|s: StructItem| struct_item_view(s)) =~= Seq::<(Seq<char>, Seq<char>, Seq<(Seq<char>, FieldType)>)>::empty());
    while i < structs.len()
        invariant
            i <= structs@.len(),
            structs@ == blueprint.structs@,
            g == (|s: StructDefinition| struct_item_of(s)),
            collect_ok(structs@.take(i as int), g) == Ok::<_, BackendErrorView>(out@.map_values(|s: StructItem| struct_item_view(s))),
        decreases structs@.len() - i,
    {
        let definition = &structs[i];
        proof {
            lemma_collect_step(structs@, g, i as int);
        }
        let ident = match type_ident(definition.descriptor.code.as_str()) {
            Ok(ident) => ident,
            Err(e) => {
                proof {
                    lemma_collect_err(structs@, g, i + 1);
                }
                return Err(e);
            },
        };
        let fields = match plan_struct_fields(&definition.fields) {
            Ok(fields) => fields,
            Err(e) => {
                proof {
                    lemma_collect_err(structs@, g, i + 1);
                }
                return Err(e);
            },
        };
        let ghost before = out@;
        out.push(StructItem { ident, code: definition.descriptor.code.clone(), fields });
        assert(out@.map_values(|s: StructItem| struct_item_view(s)) =~= before.map_values(|s: StructItem| struct_item_view(s)).push(
            struct_item_view(out@.last()),
        ));
        i = i + 1;
    }
    assert(structs@.take(i as int) =~= structs@);
    Ok(out)
}

/// The descriptor type generated for a field of a structure.
#[derive(Clone, Debug, PartialEq, Eq)]
pub struct FieldDescriptorItem {
    pub ident: String,
    pub code: String,
    pub label: String,
    pub unit: Option<String>,
}

/// The text of a field descriptor plan.
pub open spec fn descriptor_item_view(d: FieldDescriptorItem) -> (Seq<char>, Seq<char>, Seq<char>, Option<Seq<char>>) {
    (d.ident@, d.code@, d.label@, opt_text(d.unit))
}

/// The name of the descriptor type of a field.
pub open spec fn descriptor_name(struct_code: Seq<char>, field_code: Seq<char>) -> Seq<char> {
    struct_code + "_"@ + field_code + "_field"@
}

/// The descriptor plan of a field of structure `s`.
pub open spec fn descriptor_item_of(s: StructDefinition, f: FieldDefinition) -> Result<(Seq<char>, Seq<char>, Seq<char>, Option<Seq<char>>), BackendErrorView> {
    match type_ident_of(descriptor_name(s.descriptor.code@, f.descriptor.code@)) {
        Ok(ident) => Ok((ident, f.descriptor.code@, f.descriptor.native_name@, opt_text(f.unit))),
        Err(e) => Err(e),
    }
}

/// The descriptor plans of the fields of a structure.
pub open spec fn struct_descriptor_items(s: StructDefinition) -> Result<Seq<(Seq<char>, Seq<char>, Seq<char>, Option<Seq<char>>)>, BackendErrorView> {
    collect_ok(s.fields@, |f: FieldDefinition| descriptor_item_of(s, f))
}

fn plan_struct_descriptors(s: &StructDefinition, out: &mut Vec<FieldDescriptorItem>) -> (r: Result<(), BackendError>)
    ensures
        match struct_descriptor_items(*s) {
            Ok(items) => r is Ok && final(out)@.map_values(|d: FieldDescriptorItem| descriptor_item_view(d)) == old(out)@.map_values(
                |d: FieldDescriptorItem| descriptor_item_view(d),
            ) + items,
            Err(e) => r matches Err(x) && x@ == e,
        },
{
    let fields = &s.fields;
    let ghost g = |f: FieldDefinition| descriptor_item_of(*s, f);
    let ghost o0 = out@.map_values(|d: FieldDescriptorItem| descriptor_item_view(d));
    let mut i: usize = 0;
    assert(fields@.take(0) =~= Seq::<FieldDefinition>::empty());
    assert(o0 + Seq::<(Seq<char>, Seq<char>, Seq<char>, Option<Seq<char>>)>::empty() =~= o0);
    while i < fields.len()
        invariant
            i <= fields@.len(),
            fields@ == s.fields@,
            g == (|f: FieldDefinition| descriptor_item_of(*s, f)),
            collect_ok(fields@.take(i as int), g) matches Ok(items) && out@.map_values(|d: FieldDescriptorItem| descriptor_item_view(d)) == o0 + items,
        decreases fields@.len() - i,
    {
        let field = &fields[i];
        proof {
            lemma_collect_step(fields@, g, i as int);
        }
        let name = descriptor_type_name(s.descriptor.code.as_str(), field.descriptor.code.as_str());
        let ident = match type_ident(name.as_str()) {
            Ok(ident) => ident,
            Err(e) => {
                proof {
                    lemma_collect_err(fields@, g, i + 1);
                }
                return Err(e);
            },
        };
        let ghost before = out@.map_values(|d: FieldDescriptorItem| descriptor_item_view(d));
        out.push(
            FieldDescriptorItem {
                ident,
                code: field.descriptor.code.clone(),
                label: field.descriptor.native_name.clone(),
                unit: field.unit.clone(),
            },
        );
        assert(out@.map_values(|d: FieldDescriptorItem| descriptor_item_view(d)) =~= before.push(descriptor_item_view(out@.last())));
        i = i + 1;
    }
    assert(fields@.take(i as int) =~= fields@);
    Ok(())
}

/// `struct_code` `_` `field_code` `_field`.
fn descriptor_type_name(struct_code: &str, field_code: &str) -> (r: String)
    ensures
        r@ == descriptor_name(struct_code@, field_code@),
{
    crate::text::concat4(struct_code, "_", field_code, "_field")
}

/// Plans the descriptor types of every field of every structure.
pub fn plan_descriptors(blueprint: &Blueprint) -> (r: Result<Vec<FieldDescriptorItem>, BackendError>)
    ensures
        plan_view(r, |d: FieldDescriptorItem| descriptor_item_view(d)) == flat_collect_ok(
            blueprint.structs@,
            |s: StructDefinition| struct_descriptor_items(s),
        ),
{
    let structs = &blueprint.structs;
    let ghost g = |s: StructDefinition| struct_descriptor_items(s);
    let mut out: Vec<FieldDescriptorItem> = Vec::new();
    let mut i: usize = 0;
    assert(structs@.take(0) =~= Seq::<StructDefinition>::empty());
    assert(out@.map_values(|d: FieldDescriptorItem| descriptor_item_view(d)) =~= Seq::<(Seq<char>, Seq<char>, Seq<char>, Option<Seq<char>>)>::empty());
    while i < structs.len()
        invariant
            i <= structs@.len(),
            structs@ == blueprint.structs@,
            g == (|s: StructDefinition| struct_descriptor_items(s)),
            flat_collect_ok(structs@.take(i as int), g) == Ok::<_, BackendErrorView>(out@.map_values(|d: FieldDescriptorItem| descriptor_item_view(d))),
        decreases structs@.len() - i,
    {
        proof {
            lemma_flat_collect_step(structs@, g, i as int);
        }
        match plan_struct_descriptors(&structs[i], &mut out) {
            Ok(()) => {},
            Err(e) => {
                proof {
                    lemma_flat_collect_err(structs@, g, i + 1);
                }
                return Err(e);
            },
        }
        i = i + 1;
    }
    assert(structs@.take(i as int) =~= structs@);
    Ok(out)
}

/// A generated enumeration: its type identifier and its variants with their codes.
#[derive(Clone, Debug, PartialEq, Eq)]
pub struct EnumItem {
    pub ident: String,
    pub variants: Vec<(String, String)>,
}

/// The text of an enumeration plan.
pub open spec fn enum_item_view(e: EnumItem) -> (Seq<char>, Seq<(Seq<char>, Seq<char>)>) {
    (e.ident@, e.variants@.map_values(|v: (String, String)| (v.0@, v.1@)))
}

/// The plan of an enumeration value: its variant identifier and code.
pub open spec fn variant_of(v: EnumValueDefinition) -> Result<(Seq<char>, Seq<char>), BackendErrorView> {
    match type_ident_of(v.descriptor.code@) {
        Ok(ident) => Ok((ident, v.descriptor.code@)),
        Err(e) => Err(e),
    }
}

/// The plan of an enumeration: its type identifier, then its variants in order.
pub open spec fn enum_item_of(d: EnumDefinition) -> Result<(Seq<char>, Seq<(Seq<char>, Seq<char>)>), BackendErrorView> {
    match type_ident_of(d.descriptor.code@) {
        Ok(ident) => match collect_ok(d.values@, |v: EnumValueDefinition| variant_of(v)) {
            Ok(vs) => Ok((ident, vs)),
            Err(e) => Err(e),
        },
        Err(e) => Err(e),
    }
}

fn plan_variants(values: &Vec<EnumValueDefinition>) -> (r: Result<Vec<(String, String)>, BackendError>)
    ensures
        plan_view(r, |v: (String, String)| (v.0@, v.1@)) == collect_ok(values@, |v: EnumValueDefinition| variant_of(v)),
{
    let ghost g = |v: EnumValueDefinition| variant_of(v);
    let mut out: Vec<(String, String)> = Vec::new();
    let mut i: usize = 0;
    assert(values@.take(0) =~= Seq::<EnumValueDefinition>::empty());
    assert(out@.map_values(|v: (String, String)| (v.0@, v.1@)) =~= Seq::<(Seq<char>, Seq<char>)>::empty());
    while i < values.len()
        invariant
            i <= values@.len(),
            g == (|v: EnumValueDefinition| variant_of(v)),
            collect_ok(values@.take(i as int), g) == Ok::<_, BackendErrorView>(out@.map_values(|v: (String, String)| (v.0@, v.1@))),
        decreases values@.len() - i,
    {
        let value = &values[i];
        proof {
            lemma_collect_step(values@, g, i as int);
        }
        let ident = match type_ident(value.descriptor.code.as_str()) {
            Ok(ident) => ident,
            Err(e) => {
                proof {
                    lemma_collect_err(values@, g, i + 1);
                }
                return Err(e);
            },
        };
        let ghost before = out@;
        out.push((ident, value.descriptor.code.clone()));
        assert(out@.map_values(|v: (String, String)| (v.0@, v.1@)) =~= before.map_values(|v: (String, String)| (v.0@, v.1@)).push(
            (out@.last().0@, out@.last().1@),
        ));
        i = i + 1;
    }
    assert(values@.take(i as int) =~= values@);
    Ok(out)
}

/// Plans the enumerations of a blueprint.
pub fn plan_enums(blueprint: &Blueprint) -> (r: Result<Vec<EnumItem>, BackendError>)
    ensures
        plan_view(r, |e: EnumItem| enum_item_view(e)) == collect_ok(blueprint.enums@, |d: EnumDefinition| enum_item_of(d)),
{
    let enums = &blueprint.enums;
    let ghost g = |d: EnumDefinition| enum_item_of(d);
    let mut out: Vec<EnumItem> = Vec::new();
    let mut i: usize = 0;
    assert(enums@.take(0) =~= Seq::<EnumDefinition>::empty());
    assert(out@.map_values(|e: EnumItem| enum_item_view(e)) =~= Seq::<(Seq<char>, Seq<(Seq<char>, Seq<char>)>)>::empty());
    while i < enums.len()
        invariant
            i <= enums@.len(),
            enums@ == blueprint.enums@,
            g == (|d: EnumDefinition| enum_item_of(d)),
            collect_ok(enums@.take(i as int), g) == Ok::<_, BackendErrorView>(out@.map_values(|e: EnumItem| enum_item_view(e))),
        decreases enums@.len() - i,
    {
        let definition = &enums[i];
        proof {
            lemma_collect_step(enums@, g, i as int);
        }
        let ident = match type_ident(definition.descriptor.code.as_str()) {
            Ok(ident) => ident,
            Err(e) => {
                proof {
                    lemma_collect_err(enums@, g, i + 1);
                }
                return Err(e);
            },
        };
        let variants = match plan_variants(&definition.values) {
            Ok(v) => v,
            Err(e) => {
                proof {
                    lemma_collect_err(enums@, g, i + 1);
                }
                return Err(e);
            },
        };
        let ghost before = out@;
        out.push(EnumItem { ident, variants });
        assert(out@.map_values(|e: EnumItem| enum_item_view(e)) =~= before.map_values(|e: EnumItem| enum_item_view(e)).push(
            enum_item_view(out@.last()),
        ));
        i = i + 1;
    }
    assert(enums@.take(i as int) =~= enums@);
    Ok(out)
}

/// A generated function: its value identifier, descriptor type, output
/// structure, decoder and code.
#[derive(Clone, Debug, PartialEq, Eq)]
pub struct FunctionItem {
    pub function_ident: String,
    pub descriptor_ident: String,
    pub output_ident: String,
    pub decoder_ident: String,
    pub code: String,
}

/// The text of a function plan.
pub open spec fn function_item_view(f: FunctionItem) -> (Seq<char>, Seq<char>, Seq<char>, Seq<char>, Seq<char>) {
    (f.function_ident@, f.descriptor_ident@, f.output_ident@, f.decoder_ident@, f.code@)
}

/// The plan of a function; its identifiers are derived in this order: the
/// function, its descriptor type, the output structure, the decoder.
pub open spec fn function_item_of(d: FunctionDefinition) -> Result<(Seq<char>, Seq<char>, Seq<char>, Seq<char>, Seq<char>), BackendErrorView> {
    match value_ident_of(d.descriptor.code@) {
        Err(e) => Err(e),
        Ok(fi) => match type_ident_of(d.descriptor.code@ + "_function"@) {
            Err(e) => Err(e),
            Ok(di) => match type_ident_of(d.output_model.code@) {
                Err(e) => Err(e),
                Ok(oi) => match value_ident_of("decode_"@ + d.output_model.code@) {
                    Err(e) => Err(e),
                    Ok(deci) => Ok((fi, di, oi, deci, d.descriptor.code@)),
                },
            },
        },
    }
}

fn plan_function(d: &FunctionDefinition) -> (r: Result<FunctionItem, BackendError>)
    ensures
        match r {
            Ok(item) => function_item_of(*d) == Ok::<_, BackendErrorView>(function_item_view(item)),
            Err(e) => function_item_of(*d) == Err::<(Seq<char>, Seq<char>, Seq<char>, Seq<char>, Seq<char>), _>(e@),
        },
{
    let function_ident = value_ident(d.descriptor.code.as_str())?;
    let descriptor_name = concat2(d.descriptor.code.as_str(), "_function");
    let descriptor_ident = type_ident(descriptor_name.as_str())?;
    let output_ident = type_ident(d.output_model.code.as_str())?;
    let decoder_name = concat2("decode_", d.output_model.code.as_str());
    let decoder_ident = value_ident(decoder_name.as_str())?;
    Ok(FunctionItem { function_ident, descriptor_ident, output_ident, decoder_ident, code: d.descriptor.code.clone() })
}

/// Plans the functions of a blueprint.
pub fn plan_functions(blueprint: &Blueprint) -> (r: Result<Vec<FunctionItem>, BackendError>)
    ensures
        plan_view(r, |f: FunctionItem| function_item_view(f)) == collect_ok(blueprint.functions@, |d: FunctionDefinition| function_item_of(d)),
{
    let functions = &blueprint.functions;
    let ghost g = |d: FunctionDefinition| function_item_of(d);
    let mut out: Vec<FunctionItem> = Vec::new();
    let mut i: usize = 0;
    assert(functions@.take(0) =~= Seq::<FunctionDefinition>::empty());
    assert(out@.map_values(|f: FunctionItem| function_item_view(f)) =~= Seq::<(Seq<char>, Seq<char>, Seq<char>, Seq<char>, Seq<char>)>::empty());
    while i < functions.len()
        invariant
            i <= functions@.len(),
            functions@ == blueprint.functions@,
            g == (|d: FunctionDefinition| function_item_of(d)),
            collect_ok(functions@.take(i as int), g) == Ok::<_, BackendErrorView>(out@.map_values(|f: FunctionItem| function_item_view(f))),
        decreases functions@.len() - i,
    {
        proof {
            lemma_collect_step(functions@, g, i as int);
        }
        let item = match plan_function(&functions[i]) {
            Ok(item) => item,
            Err(e) => {
                proof {
                    lemma_collect_err(functions@, g, i + 1);
                }
                return Err(e);
            },
        };
        let ghost before = out@;
        out.push(item);
        assert(out@.map_values(|f: FunctionItem| function_item_view(f)) =~= before.map_values(|f: FunctionItem| function_item_view(f)).push(
            function_item_view(item),
        ));
        i = i + 1;
    }
    assert(functions@.take(i as int) =~= functions@);
    Ok(out)
}

/// A check a generated validator makes on one field.
#[derive(Clone, Debug, PartialEq, Eq)]
pub enum ValidationCheck {
    /// The text must not be blank.
    NonEmpty { field: String, label: String },
    /// The number must lie within the bounds (decimal literals).
    Range { field: String, label: String, minimum: String, maximum: String },
    /// The text must contain `@`.
    Email { field: String, label: String },
}

/// The content of a validation check.
pub ghost enum CheckView {
    NonEmpty(Seq<char>, Seq<char>),
    Range(Seq<char>, Seq<char>, Seq<char>, Seq<char>),
    Email(Seq<char>, Seq<char>),
}

/// The content of a validation check.
pub open spec fn check_view(c: ValidationCheck) -> CheckView {
    match c {
        ValidationCheck::NonEmpty { field, label } => CheckView::NonEmpty(field@, label@),
        ValidationCheck::Range { field, label, minimum, maximum } => CheckView::Range(field@, label@, minimum@, maximum@),
        ValidationCheck::Email { field, label } => CheckView::Email(field@, label@),
    }
}

/// The checks of a field's validation rules, in rule order: a range check per
/// number range and an e-mail check per e-mail rule.
pub open spec fn rule_checks(rules: Seq<ValidationRule>, ident: Seq<char>, label: Seq<char>) -> Seq<CheckView>
    decreases rules.len(),
{
    if rules.len() == 0 {
        Seq::empty()
    } else {
        rule_checks(rules.drop_last(), ident, label) + match rules.last() {
            ValidationRule::NumberRange { minimum, maximum } => seq![CheckView::Range(ident, label, minimum@, maximum@)],
            ValidationRule::Email => seq![CheckView::Email(ident, label)],
            _ => Seq::empty(),
        }
    }
}

/// The checks of a field: non-blank text for a required text field, then its rules.
pub open spec fn field_checks_of(f: FieldDefinition) -> Result<Seq<CheckView>, BackendErrorView> {
    match value_ident_of(f.descriptor.code@) {
        Err(e) => Err(e),
        Ok(ident) => Ok(
            (if f.required && is_text_type(f.field_type) {
                seq![CheckView::NonEmpty(ident, f.descriptor.native_name@)]
            } else {
                Seq::empty()
            }) + rule_checks(f.validations@, ident, f.descriptor.native_name@),
        ),
    }
}

/// A generated validator: the structure it validates, its function and its checks.
#[derive(Clone, Debug, PartialEq, Eq)]
pub struct ValidatorItem {
    pub type_ident: String,
    pub function_ident: String,
    pub checks: Vec<ValidationCheck>,
}

/// The text of a validator plan.
pub open spec fn validator_item_view(v: ValidatorItem) -> (Seq<char>, Seq<char>, Seq<CheckView>) {
    (v.type_ident@, v.function_ident@, v.checks@.map_values(|c: ValidationCheck| check_view(c)))
}

/// The plan of a structure's validator: its type, `validate_` and its code,
/// then the checks of its fields in order.
pub open spec fn validator_item_of(s: StructDefinition) -> Result<(Seq<char>, Seq<char>, Seq<CheckView>), BackendErrorView> {
    match type_ident_of(s.descriptor.code@) {
        Err(e) => Err(e),
        Ok(ti) => match value_ident_of("validate_"@ + s.descriptor.code@) {
            Err(e) => Err(e),
            Ok(fi) => match flat_collect_ok(s.fields@, |f: FieldDefinition| field_checks_of(f)) {
                Err(e) => Err(e),
                Ok(checks) => Ok((ti, fi, checks)),
            },
        },
    }
}

fn push_rule_checks(rules: &Vec<ValidationRule>, ident: &str, label: &str, out: &mut Vec<ValidationCheck>)
    ensures
        final(out)@.map_values(|c: ValidationCheck| check_view(c)) == old(out)@.map_values(|c: ValidationCheck| check_view(c))
            + rule_checks(rules@, ident@, label@),
{
    let ghost o0 = out@.map_values(|c: ValidationCheck| check_view(c));
    let mut i: usize = 0;
    assert(rules@.take(0) =~= Seq::<ValidationRule>::empty());
    assert(o0 + rule_checks(rules@.take(0), ident@, label@) =~= o0);
    while i < rules.len()
        invariant
            i <= rules@.len(),
            out@.map_values(|c: ValidationCheck| check_view(c)) == o0 + rule_checks(rules@.take(i as int), ident@, label@),
        decreases rules@.len() - i,
    {
        assert(rules@.take(i + 1).drop_last() =~= rules@.take(i as int));
        assert(rules@.take(i + 1).last() == rules@[i as int]);
        let ghost before = out@.map_values(|c: ValidationCheck| check_view(c));
        match &rules[i] {
            ValidationRule::NumberRange { minimum, maximum } => {
                out.push(
                    ValidationCheck::Range {
                        field: owned(ident),
                        label: owned(label),
                        minimum: minimum.clone(),
                        maximum: maximum.clone(),
                    },
                );
                assert(out@.map_values(|c: ValidationCheck| check_view(c)) =~= before.push(check_view(out@.last())));
            },
            ValidationRule::Email => {
                out.push(ValidationCheck::Email { field: owned(ident), label: owned(label) });
                assert(out@.map_values(|c: ValidationCheck| check_view(c)) =~= before.push(check_view(out@.last())));
            },
            _ => {},
        }
        i = i + 1;
    }
    assert(rules@.take(i as int) =~= rules@);
}

fn plan_field_checks(f: &FieldDefinition, out: &mut Vec<ValidationCheck>) -> (r: Result<(), BackendError>)
    ensures
        match field_checks_of(*f) {
            Ok(checks) => r is Ok && final(out)@.map_values(|c: ValidationCheck| check_view(c)) == old(out)@.map_values(
                |c: ValidationCheck| check_view(c),
            ) + checks,
            Err(e) => r matches Err(x) && x@ == e,
        },
{
    let ident = value_ident(f.descriptor.code.as_str())?;
    let label = f.descriptor.native_name.as_str();
    let ghost o0 = out@.map_values(|c: ValidationCheck| check_view(c));
    let text = match f.field_type {
        FieldType::String | FieldType::Password | FieldType::Email | FieldType::Dictionary => true,
        _ => false,
    };
    if f.required && text {
        out.push(ValidationCheck::NonEmpty { field: ident.clone(), label: owned(label) });
        assert(out@.map_values(|c: ValidationCheck| check_view(c)) =~= o0.push(check_view(out@.last())));
    }
    let ghost o1 = out@.map_values(|c: ValidationCheck| check_view(c));
    push_rule_checks(&f.validations, ident.as_str(), label, out);
    assert(out@.map_values(|c: ValidationCheck| check_view(c)) =~= o0 + ((if f.required && is_text_type(f.field_type) {
        seq![CheckView::NonEmpty(ident@, f.descriptor.native_name@)]
    } else {
        Seq::empty()
    }) + rule_checks(f.validations@, ident@, f.descriptor.native_name@)));
    Ok(())
}

fn plan_validator(s: &StructDefinition) -> (r: Result<ValidatorItem, BackendError>)
    ensures
        match r {
            Ok(item) => validator_item_of(*s) == Ok::<_, BackendErrorView>(validator_item_view(item)),
            Err(e) => validator_item_of(*s) == Err::<(Seq<char>, Seq<char>, Seq<CheckView>), _>(e@),
        },
{
    let type_ident = type_ident(s.descriptor.code.as_str())?;
    let function_name = concat2("validate_", s.descriptor.code.as_str());
    let function_ident = value_ident(function_name.as_str())?;
    let fields = &s.fields;
    let ghost g = |f: FieldDefinition| field_checks_of(f);
    let mut checks: Vec<ValidationCheck> = Vec::new();
    let mut i: usize = 0;
    assert(fields@.take(0) =~= Seq::<FieldDefinition>::empty());
    assert(checks@.map_values(|c: ValidationCheck| check_view(c)) =~= Seq::<CheckView>::empty());
    while i < fields.len()
        invariant
            i <= fields@.len(),
            fields@ == s.fields@,
            g == (|f: FieldDefinition| field_checks_of(f)),
            type_ident_of(s.descriptor.code@) == Ok::<_, BackendErrorView>(type_ident@),
            value_ident_of("validate_"@ + s.descriptor.code@) == Ok::<_, BackendErrorView>(function_ident@),
            flat_collect_ok(fields@.take(i as int), g) == Ok::<_, BackendErrorView>(checks@.map_values(|c: ValidationCheck| check_view(c))),
        decreases fields@.len() - i,
    {
        proof {
            lemma_flat_collect_step(fields@, g, i as int);
        }
        match plan_field_checks(&fields[i], &mut checks) {
            Ok(()) => {},
            Err(e) => {
                proof {
                    lemma_flat_collect_err(fields@, g, i + 1);
                }
                return Err(e);
            },
        }
        i = i + 1;
    }
    assert(fields@.take(i as int) =~= fields@);
    Ok(ValidatorItem { type_ident, function_ident, checks })
}

/// Plans the validators of the structures of a blueprint.
pub fn plan_validators(blueprint: &Blueprint) -> (r: Result<Vec<ValidatorItem>, BackendError>)
    ensures
        plan_view(r, |v: ValidatorItem| validator_item_view(v)) == collect_ok(blueprint.structs@, |s: StructDefinition| validator_item_of(s)),
        r matches Ok(v) ==> v@.len() == blueprint.structs@.len() && forall|i: int|
            0 <= i < v@.len() ==> validator_item_of(blueprint.structs@[i]) == Ok::<_, BackendErrorView>(
                validator_item_view(#[trigger] v@[i]),
            ),
{
    let structs = &blueprint.structs;
    let ghost g = |s: StructDefinition| validator_item_of(s);
    let mut out: Vec<ValidatorItem> = Vec::new();
    let mut i: usize = 0;
    assert(structs@.take(0) =~= Seq::<StructDefinition>::empty());
    assert(out@.map_values(|v: ValidatorItem| validator_item_view(v)) =~= Seq::<(Seq<char>, Seq<char>, Seq<CheckView>)>::empty());
    while i < structs.len()
        invariant
            i <= structs@.len(),
            structs@ == blueprint.structs@,
            g == (|s: StructDefinition| validator_item_of(s)),
            collect_ok(structs@.take(i as int), g) == Ok::<_, BackendErrorView>(out@.map_values(|v: ValidatorItem| validator_item_view(v))),
        decreases structs@.len() - i,
    {
        proof {
            lemma_collect_step(structs@, g, i as int);
        }
        let item = match plan_validator(&structs[i]) {
            Ok(item) => item,
            Err(e) => {
                proof {
                    lemma_collect_err(structs@, g, i + 1);
                }
                return Err(e);
            },
        };
        let ghost before = out@;
        out.push(item);
        assert(out@.map_values(|v: ValidatorItem| validator_item_view(v)) =~= before.map_values(|v: ValidatorItem| validator_item_view(v)).push(
            validator_item_view(item),
        ));
        i = i + 1;
    }
    assert(structs@.take(i as int) =~= structs@);
    proof {
        lemma_collect_ok_each(structs@, g);
        let views = out@.map_values(|v: ValidatorItem| validator_item_view(v));
        assert forall|k: int| 0 <= k < out@.len() implies validator_item_of(structs@[k]) == Ok::<_, BackendErrorView>(
            validator_item_view(#[trigger] out@[k]),
        ) by {
            assert(views[k] == validator_item_view(out@[k]));
            assert(g(structs@[k]) == Ok::<_, BackendErrorView>(views[k]));
        }
    }
    Ok(out)
}

/// The checks of a field's rules include an e-mail check for each e-mail rule
/// and a range check with the same bounds for each number range.
proof fn lemma_rule_checks_include(rules: Seq<ValidationRule>, ident: Seq<char>, label: Seq<char>, k: int)
    requires
        0 <= k < rules.len(),
    ensures
        rules[k] is Email ==> rule_checks(rules, ident, label).contains(CheckView::Email(ident, label)),
        rules[k] matches ValidationRule::NumberRange { minimum, maximum } ==> rule_checks(rules, ident, label).contains(
            CheckView::Range(ident, label, minimum@, maximum@),
        ),
    decreases rules.len(),
{
    let rest = rules.drop_last();
    let r = rule_checks(rest, ident, label);
    let more = match rules.last() {
        ValidationRule::NumberRange { minimum, maximum } => seq![CheckView::Range(ident, label, minimum@, maximum@)],
        ValidationRule::Email => seq![CheckView::Email(ident, label)],
        _ => Seq::empty(),
    };
    assert(rule_checks(rules, ident, label) == r + more);
    if k < rest.len() {
        assert(rest[k] == rules[k]);
        lemma_rule_checks_include(rest, ident, label, k);
        if rules[k] is Email {
            let i = choose|i: int| 0 <= i < r.len() && r[i] == CheckView::Email(ident, label);
            assert((r + more)[i] == r[i]);
        }
        if let ValidationRule::NumberRange { minimum, maximum } = rules[k] {
            let i = choose|i: int| 0 <= i < r.len() && r[i] == CheckView::Range(ident, label, minimum@, maximum@);
            assert((r + more)[i] == r[i]);
        }
    } else {
        assert(rules.last() == rules[k]);
        if rules[k] is Email || rules[k] is NumberRange {
            assert((r + more)[r.len() as int] == more[0]);
        }
    }
}

/// The validators check every rule of every field: the validator of a
/// structure makes an e-mail check for each e-mail rule of its fields and a
/// range check with the same bounds for each number range, on the field's
/// value identifier and labelled with the field's native name, and a blank
/// check for each required field held as text.
pub proof fn lemma_validators_check_every_rule(b: Blueprint, items: Seq<ValidatorItem>)
    requires
        items.len() == b.structs@.len(),
        forall|i: int|
            0 <= i < items.len() ==> validator_item_of(b.structs@[i]) == Ok::<_, BackendErrorView>(
                validator_item_view(#[trigger] items[i]),
            ),
    ensures
        forall|i: int, j: int, k: int|
            #![trigger b.structs@[i].fields@[j].validations@[k]]
            0 <= i < items.len() && 0 <= j < b.structs@[i].fields@.len() && 0 <= k
                < b.structs@[i].fields@[j].validations@.len() ==> {
                let f = b.structs@[i].fields@[j];
                let checks = items[i].checks@.map_values(|c: ValidationCheck| check_view(c));
                &&& value_ident_of(f.descriptor.code@) is Ok
                &&& f.validations@[k] is Email ==> checks.contains(
                    CheckView::Email(value_ident_of(f.descriptor.code@)->Ok_0, f.descriptor.native_name@),
                )
                &&& f.validations@[k] matches ValidationRule::NumberRange { minimum, maximum } ==> checks.contains(
                    CheckView::Range(value_ident_of(f.descriptor.code@)->Ok_0, f.descriptor.native_name@, minimum@, maximum@),
                )
            },
        forall|i: int, j: int|
            #![trigger b.structs@[i].fields@[j]]
            0 <= i < items.len() && 0 <= j < b.structs@[i].fields@.len() && b.structs@[i].fields@[j].required && (
            b.structs@[i].fields@[j].field_type == FieldType::String || b.structs@[i].fields@[j].field_type
                == FieldType::Password || b.structs@[i].fields@[j].field_type == FieldType::Email
                || b.structs@[i].fields@[j].field_type == FieldType::Dictionary) ==> items[i].checks@.map_values(
                |c: ValidationCheck| check_view(c),
            ).contains(
                CheckView::NonEmpty(
                    value_ident_of(b.structs@[i].fields@[j].descriptor.code@)->Ok_0,
                    b.structs@[i].fields@[j].descriptor.native_name@,
                ),
            ),
{
    assert forall|i: int, j: int|
        #![trigger b.structs@[i].fields@[j]]
        0 <= i < items.len() && 0 <= j < b.structs@[i].fields@.len() implies ({
            let f = b.structs@[i].fields@[j];
            let checks = items[i].checks@.map_values(|c: ValidationCheck| check_view(c));
            &&& field_checks_of(f) is Ok
            &&& forall|x: CheckView| (#[trigger] field_checks_of(f)->Ok_0.contains(x)) ==> checks.contains(x)
        }) by {
        let s = b.structs@[i];
        assert(validator_item_of(s) == Ok::<_, BackendErrorView>(validator_item_view(items[i])));
        let g = |f: FieldDefinition| field_checks_of(f);
        assert(flat_collect_ok(s.fields@, g) is Ok);
        lemma_flat_collect_ok_each(s.fields@, g, j);
    }
    assert forall|i: int, j: int, k: int|
        #![trigger b.structs@[i].fields@[j].validations@[k]]
        0 <= i < items.len() && 0 <= j < b.structs@[i].fields@.len() && 0 <= k
            < b.structs@[i].fields@[j].validations@.len() implies ({
            let f = b.structs@[i].fields@[j];
            let checks = items[i].checks@.map_values(|c: ValidationCheck| check_view(c));
            &&& value_ident_of(f.descriptor.code@) is Ok
            &&& f.validations@[k] is Email ==> checks.contains(
                CheckView::Email(value_ident_of(f.descriptor.code@)->Ok_0, f.descriptor.native_name@),
            )
            &&& f.validations@[k] matches ValidationRule::NumberRange { minimum, maximum } ==> checks.contains(
                CheckView::Range(value_ident_of(f.descriptor.code@)->Ok_0, f.descriptor.native_name@, minimum@, maximum@),
            )
        }) by {
        let f = b.structs@[i].fields@[j];
        let ident = value_ident_of(f.descriptor.code@)->Ok_0;
        let label = f.descriptor.native_name@;
        let prefix = if f.required && is_text_type(f.field_type) {
            seq![CheckView::NonEmpty(ident, label)]
        } else {
            Seq::empty()
        };
        let rc = rule_checks(f.validations@, ident, label);
        assert(field_checks_of(f)->Ok_0 == prefix + rc);
        lemma_rule_checks_include(f.validations@, ident, label, k);
        if f.validations@[k] is Email {
            let x = CheckView::Email(ident, label);
            let p = choose|p: int| 0 <= p < rc.len() && rc[p] == x;
            assert((prefix + rc)[prefix.len() + p] == x);
            assert(field_checks_of(f)->Ok_0.contains(x));
        }
        if let ValidationRule::NumberRange { minimum, maximum } = f.validations@[k] {
            let x = CheckView::Range(ident, label, minimum@, maximum@);
            let p = choose|p: int| 0 <= p < rc.len() && rc[p] == x;
            assert((prefix + rc)[prefix.len() + p] == x);
            assert(field_checks_of(f)->Ok_0.contains(x));
        }
    }
    assert forall|i: int, j: int|
        #![trigger b.structs@[i].fields@[j]]
        0 <= i < items.len() && 0 <= j < b.structs@[i].fields@.len() && b.structs@[i].fields@[j].required && (
        b.structs@[i].fields@[j].field_type == FieldType::String || b.structs@[i].fields@[j].field_type
            == FieldType::Password || b.structs@[i].fields@[j].field_type == FieldType::Email
            || b.structs@[i].fields@[j].field_type == FieldType::Dictionary) implies items[i].checks@.map_values(
            |c: ValidationCheck| check_view(c),
        ).contains(
            CheckView::NonEmpty(
                value_ident_of(b.structs@[i].fields@[j].descriptor.code@)->Ok_0,
                b.structs@[i].fields@[j].descriptor.native_name@,
            ),
        ) by {
        let f = b.structs@[i].fields@[j];
        let x = CheckView::NonEmpty(value_ident_of(f.descriptor.code@)->Ok_0, f.descriptor.native_name@);
        assert(field_checks_of(f)->Ok_0[0] == x);
        assert(field_checks_of(f)->Ok_0.contains(x));
    }
}

} // verus!
