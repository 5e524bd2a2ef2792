//! Plans of the generated tests: a model test when nothing is bound, otherwise
//! fixture tests that decode, reject a missing key, reject a wrong type and,
//! when a field has a range, reject a value beyond it.
use vstd::prelude::*;

use crate::blueprint::{Blueprint, FieldBinding, FieldDefinition, FieldType, StructDefinition, ValidationRule, ValueTransform};
use crate::descriptor::DescriptorView;
use crate::inference::acquisition::transform_view;
use crate::rust_backend::model::descriptor_name;
use crate::rust_backend::{
    collect_ok, flat_collect_ok, lemma_collect_err, lemma_collect_step, lemma_flat_collect_err,
    lemma_flat_collect_step, type_ident, type_ident_of, value_ident, value_ident_of, BackendError,
    BackendErrorView,
};
use crate::text::{concat2, concat4, str_eq};

verus! {

/// The value a model test gives a field of each type.
#[derive(Clone, Copy, Debug, PartialEq, Eq, Structural)]
pub enum TestValue {
    /// `1.0_f64`
    Decimal,
    /// `1_i64`
    Integer,
    /// `true`
    Boolean,
    /// The text `测试值`.
    Text,
    /// The address `test@example.com`.
    Email,
    /// The object `{"value": 1}`.
    Json,
}

/// The model test value of a field type.
pub open spec fn model_test_value_of(t: FieldType) -> TestValue {
    match t {
        FieldType::Decimal => TestValue::Decimal,
        FieldType::Integer | FieldType::Timestamp => TestValue::Integer,
        FieldType::Boolean => TestValue::Boolean,
        FieldType::String | FieldType::Password | FieldType::Dictionary => TestValue::Text,
        FieldType::Email => TestValue::Email,
        FieldType::Json => TestValue::Json,
    }
}

/// The model test value of a field type.
pub fn model_test_value(t: FieldType) -> (r: TestValue)
    ensures
        r == model_test_value_of(t),
{
    match t {
        FieldType::Decimal => TestValue::Decimal,
        FieldType::Integer | FieldType::Timestamp => TestValue::Integer,
        FieldType::Boolean => TestValue::Boolean,
        FieldType::String | FieldType::Password | FieldType::Dictionary => TestValue::Text,
        FieldType::Email => TestValue::Email,
        FieldType::Json => TestValue::Json,
    }
}

/// The decimal a fixture test expects for a field (a decimal literal):
/// `25.3` for temperature, `61.2` for humidity, `1.0` otherwise.
pub open spec fn fixture_base(code: Seq<char>) -> Seq<char> {
    if code == "temperature"@ {
        "25.3"@
    } else if code == "humidity"@ {
        "61.2"@
    } else {
        "1.0"@
    }
}

/// The decimal a fixture test expects for a field.
pub fn fixture_decimal_value(field: &FieldDefinition) -> (r: &'static str)
    ensures
        r@ == fixture_base(field.descriptor.code@),
{
    if str_eq(field.descriptor.code.as_str(), "temperature") {
        "25.3"
    } else if str_eq(field.descriptor.code.as_str(), "humidity") {
        "61.2"
    } else {
        "1.0"
    }
}

/// The raw value a fixture test supplies for a field.
#[derive(Clone, Debug, PartialEq, Eq)]
pub enum FixtureRaw {
    /// The expected decimal, multiplied by the binding's divisor if it has one.
    Decimal { base: String, divisor: Option<String> },
    /// `1_i64`
    Integer,
    /// `true`
    Boolean,
    /// The text `test@example.com`.
    Text,
    /// The object `{"value": 1}`.
    Json,
}

/// The content of a fixture raw value.
pub ghost enum RawView {
    Decimal(Seq<char>, Option<Seq<char>>),
    Integer,
    Boolean,
    Text,
    Json,
}

/// The content of a fixture raw value.
pub open spec fn raw_view(r: FixtureRaw) -> RawView {
    match r {
        FixtureRaw::Decimal { base, divisor } => RawView::Decimal(
            base@,
            match divisor {
                Some(d) => Some(d@),
                None => None,
            },
        ),
        FixtureRaw::Integer => RawView::Integer,
        FixtureRaw::Boolean => RawView::Boolean,
        FixtureRaw::Text => RawView::Text,
        FixtureRaw::Json => RawView::Json,
    }
}

/// The raw value a fixture test supplies for a field read through a binding.
pub open spec fn fixture_raw_of(f: FieldDefinition, b: FieldBinding) -> RawView {
    match f.field_type {
        FieldType::Decimal => RawView::Decimal(fixture_base(f.descriptor.code@), transform_view(b.transform)),
        FieldType::Integer | FieldType::Timestamp => RawView::Integer,
        FieldType::Boolean => RawView::Boolean,
        FieldType::String | FieldType::Password | FieldType::Email | FieldType::Dictionary => RawView::Text,
        FieldType::Json => RawView::Json,
    }
}

/// The raw value a fixture test supplies for a field read through a binding.
pub fn fixture_test_raw(f: &FieldDefinition, b: &FieldBinding) -> (r: FixtureRaw)
    ensures
        raw_view(r) == fixture_raw_of(*f, *b),
{
    match f.field_type {
        FieldType::Decimal => {
            let divisor = match &b.transform {
                ValueTransform::Identity => None,
                ValueTransform::Divide { divisor } => Some(divisor.clone()),
            };
            FixtureRaw::Decimal { base: crate::text::owned(fixture_decimal_value(f)), divisor }
        },
        FieldType::Integer | FieldType::Timestamp => FixtureRaw::Integer,
        FieldType::Boolean => FixtureRaw::Boolean,
        FieldType::String | FieldType::Password | FieldType::Email | FieldType::Dictionary => FixtureRaw::Text,
        FieldType::Json => FixtureRaw::Json,
    }
}

/// What a fixture test asserts of a decoded field.
#[derive(Clone, Debug, PartialEq, Eq)]
pub enum FixtureAssertion {
    /// The decimal equals the expected one within machine precision.
    Decimal { expected: String },
    /// The integer is one.
    Integer,
    /// The boolean holds.
    Boolean,
    /// The text is `test@example.com`.
    Text,
    /// The object's `value` is one.
    Json,
}

/// The content of a fixture assertion.
pub ghost enum AssertionView {
    Decimal(Seq<char>),
    Integer,
    Boolean,
    Text,
    Json,
}

/// The content of a fixture assertion.
pub open spec fn assertion_view(a: FixtureAssertion) -> AssertionView {
    match a {
        FixtureAssertion::Decimal { expected } => AssertionView::Decimal(expected@),
        FixtureAssertion::Integer => AssertionView::Integer,
        FixtureAssertion::Boolean => AssertionView::Boolean,
        FixtureAssertion::Text => AssertionView::Text,
        FixtureAssertion::Json => AssertionView::Json,
    }
}

/// What a fixture test asserts of a decoded field.
pub open spec fn fixture_assertion_of(f: FieldDefinition) -> AssertionView {
    match f.field_type {
        FieldType::Decimal => AssertionView::Decimal(fixture_base(f.descriptor.code@)),
        FieldType::Integer | FieldType::Timestamp => AssertionView::Integer,
        FieldType::Boolean => AssertionView::Boolean,
        FieldType::String | FieldType::Password | FieldType::Email | FieldType::Dictionary => AssertionView::Text,
        FieldType::Json => AssertionView::Json,
    }
}

/// What a fixture test asserts of a decoded field.
pub fn fixture_test_assertion(f: &FieldDefinition) -> (r: FixtureAssertion)
    ensures
        assertion_view(r) == fixture_assertion_of(*f),
{
    match f.field_type {
        FieldType::Decimal => FixtureAssertion::Decimal { expected: crate::text::owned(fixture_decimal_value(f)) },
        FieldType::Integer | FieldType::Timestamp => FixtureAssertion::Integer,
        FieldType::Boolean => FixtureAssertion::Boolean,
        FieldType::String | FieldType::Password | FieldType::Email | FieldType::Dictionary => FixtureAssertion::Text,
        FieldType::Json => FixtureAssertion::Json,
    }
}

/// The index of the first binding of a field, whatever its owner.
pub open spec fn field_binding(bs: Seq<FieldBinding>, field: DescriptorView) -> Option<int>
    decreases bs.len(),
{
    if bs.len() == 0 {
        None
    } else if bs[0].field@ == field {
        Some(0)
    } else {
        match field_binding(bs.drop_first(), field) {
            Some(i) => Some(i + 1),
            None => None,
        }
    }
}

fn find_field_binding(bs: &Vec<FieldBinding>, f: &FieldDefinition) -> (r: Option<usize>)
    ensures
        match r {
            Some(k) => field_binding(bs@, f.descriptor@) == Some(k as int) && k < bs@.len(),
            None => field_binding(bs@, f.descriptor@) is None,
        },
{
    let mut i: usize = 0;
    assert(bs@.skip(0) =~= bs@);
    while i < bs.len()
        invariant
            i <= bs@.len(),
            field_binding(bs@, f.descriptor@) == match field_binding(bs@.skip(i as int), f.descriptor@) {
                Some(j) => Some(j + i),
                None => None::<int>,
            },
        decreases bs@.len() - i,
    {
        assert(bs@.skip(i as int)[0] == bs@[i as int]);
        assert(bs@.skip(i as int).drop_first() =~= bs@.skip(i + 1));
        if crate::descriptor::same_descriptor(&bs[i].field, &f.descriptor) {
            assert(field_binding(bs@.skip(i as int), f.descriptor@) == Some(0int));
            return Some(i);
        }
        i = i + 1;
    }
    assert(bs@.skip(i as int) =~= Seq::<FieldBinding>::empty());
    None
}

/// A raw value a fixture test inserts under a key.
#[derive(Clone, Debug, PartialEq, Eq)]
pub struct FixtureInsert {
    pub source_code: String,
    pub raw: FixtureRaw,
}

/// The content of a fixture insertion.
pub open spec fn insert_view(i: FixtureInsert) -> (Seq<char>, RawView) {
    (i.source_code@, raw_view(i.raw))
}

/// The raw values inserted for the bound fields, in field order.
pub open spec fn fixture_inserts(fields: Seq<FieldDefinition>, bs: Seq<FieldBinding>) -> Seq<(Seq<char>, RawView)>
    decreases fields.len(),
{
    if fields.len() == 0 {
        Seq::empty()
    } else {
        let rest = fixture_inserts(fields.drop_last(), bs);
        let f = fields.last();
        match field_binding(bs, f.descriptor@) {
            Some(i) => rest.push((bs[i].source.code@, fixture_raw_of(f, bs[i]))),
            None => rest,
        }
    }
}

/// An assertion of a fixture test on a decoded field.
#[derive(Clone, Debug, PartialEq, Eq)]
pub struct FixtureCheck {
    pub field_ident: String,
    pub assertion: FixtureAssertion,
}

/// The content of a fixture check.
pub open spec fn check_view(c: FixtureCheck) -> (Seq<char>, AssertionView) {
    (c.field_ident@, assertion_view(c.assertion))
}

/// The assertion on a field, when it is bound.
pub open spec fn fixture_check_of(bs: Seq<FieldBinding>, f: FieldDefinition) -> Result<Seq<(Seq<char>, AssertionView)>, BackendErrorView> {
    match field_binding(bs, f.descriptor@) {
        None => Ok(Seq::empty()),
        Some(_) => match value_ident_of(f.descriptor.code@) {
            Err(e) => Err(e),
            Ok(ident) => Ok(seq![(ident, fixture_assertion_of(f))]),
        },
    }
}

/// The insertions and assertions of the fixture test of a structure's fields.
fn plan_fixture(fields: &Vec<FieldDefinition>, bs: &Vec<FieldBinding>) -> (r: Result<(Vec<FixtureInsert>, Vec<FixtureCheck>), BackendError>)
    ensures
        match flat_collect_ok(fields@, |f: FieldDefinition| fixture_check_of(bs@, f)) {
            Ok(checks) => r matches Ok(p) && p.0@.map_values(|i: FixtureInsert| insert_view(i)) == fixture_inserts(fields@, bs@)
                && p.1@.map_values(|c: FixtureCheck| check_view(c)) == checks,
            Err(e) => r matches Err(x) && x@ == e,
        },
{
    let ghost g = |f: FieldDefinition| fixture_check_of(bs@, f);
    let mut inserts: Vec<FixtureInsert> = Vec::new();
    let mut checks: Vec<FixtureCheck> = Vec::new();
    let mut i: usize = 0;
    assert(fields@.take(0) =~= Seq::<FieldDefinition>::empty());
    assert(inserts@.map_values(|x: FixtureInsert| insert_view(x)) =~= Seq::<(Seq<char>, RawView)>::empty());
    assert(checks@.map_values(|c: FixtureCheck| check_view(c)) =~= Seq::<(Seq<char>, AssertionView)>::empty());
    while i < fields.len()
        invariant
            i <= fields@.len(),
            g == (|f: FieldDefinition| fixture_check_of(bs@, f)),
            inserts@.map_values(|x: FixtureInsert| insert_view(x)) == fixture_inserts(fields@.take(i as int), bs@),
            flat_collect_ok(fields@.take(i as int), g) == Ok::<_, BackendErrorView>(checks@.map_values(|c: FixtureCheck| check_view(c))),
        decreases fields@.len() - i,
    {
        let field = &fields[i];
        proof {
            lemma_flat_collect_step(fields@, g, i as int);
        }
        assert(fields@.take(i + 1).drop_last() =~= fields@.take(i as int));
        assert(fields@.take(i + 1).last() == *field);
        match find_field_binding(bs, field) {
            None => {
                assert(checks@.map_values(|c: FixtureCheck| check_view(c)) + Seq::<(Seq<char>, AssertionView)>::empty() =~= checks@.map_values(
                    |c: FixtureCheck| check_view(c),
                ));
            },
            Some(k) => {
                let binding = &bs[k];
                let field_ident = match value_ident(field.descriptor.code.as_str()) {
                    Ok(ident) => ident,
                    Err(e) => {
                        proof {
                            lemma_flat_collect_err(fields@, g, i + 1);
                        }
                        return Err(e);
                    },
                };
                let ghost ins_before = inserts@.map_values(|x: FixtureInsert| insert_view(x));
                let ghost chk_before = checks@.map_values(|c: FixtureCheck| check_view(c));
                inserts.push(FixtureInsert { source_code: binding.source.code.clone(), raw: fixture_test_raw(field, binding) });
                checks.push(FixtureCheck { field_ident, assertion: fixture_test_assertion(field) });
                assert(inserts@.map_values(|x: FixtureInsert| insert_view(x)) =~= ins_before.push(insert_view(inserts@.last())));
                assert(checks@.map_values(|c: FixtureCheck| check_view(c)) =~= chk_before + seq![check_view(checks@.last())]);
            },
        }
        i = i + 1;
    }
    assert(fields@.take(i as int) =~= fields@);
    Ok((inserts, checks))
}

/// The maximum of the first number range among a field's rules.
pub open spec fn first_range(rules: Seq<ValidationRule>) -> Option<Seq<char>>
    decreases rules.len(),
{
    if rules.len() == 0 {
        None
    } else {
        match rules[0] {
            ValidationRule::NumberRange { maximum, .. } => Some(maximum@),
            _ => first_range(rules.drop_first()),
        }
    }
}

/// The first field with a number range, with that range's maximum.
pub open spec fn ranged_field(fields: Seq<FieldDefinition>) -> Option<(FieldDefinition, Seq<char>)>
    decreases fields.len(),
{
    if fields.len() == 0 {
        None
    } else {
        match first_range(fields[0].validations@) {
            Some(m) => Some((fields[0], m)),
            None => ranged_field(fields.drop_first()),
        }
    }
}

/// The first field of any structure with a number range, with its maximum.
pub open spec fn ranged_field_in(structs: Seq<StructDefinition>) -> Option<(FieldDefinition, Seq<char>)>
    decreases structs.len(),
{
    if structs.len() == 0 {
        None
    } else {
        match ranged_field(structs[0].fields@) {
            Some(x) => Some(x),
            None => ranged_field_in(structs.drop_first()),
        }
    }
}

/// The raw values of every bound field of every structure.
pub open spec fn all_inserts(structs: Seq<StructDefinition>, bs: Seq<FieldBinding>) -> Seq<(Seq<char>, RawView)>
    decreases structs.len(),
{
    if structs.len() == 0 {
        Seq::empty()
    } else {
        all_inserts(structs.drop_last(), bs) + fixture_inserts(structs.last().fields@, bs)
    }
}

/// The test that a value beyond a range is rejected: every bound field's raw
/// value, then the key of the ranged field with its maximum plus one (times
/// the binding's divisor, if any).
#[derive(Clone, Debug, PartialEq, Eq)]
pub struct RangeTest {
    pub inserts: Vec<FixtureInsert>,
    pub source_code: String,
    pub maximum: String,
    pub divisor: Option<String>,
}

/// The content of a range test plan.
pub open spec fn range_test_view(t: RangeTest) -> (Seq<(Seq<char>, RawView)>, Seq<char>, Seq<char>, Option<Seq<char>>) {
    (
        t.inserts@.map_values(|i: FixtureInsert| insert_view(i)),
        t.source_code@,
        t.maximum@,
        match t.divisor {
            Some(d) => Some(d@),
            None => None,
        },
    )
}

/// The range test of a blueprint: none without a ranged field, an error when
/// the ranged field has no binding.
pub open spec fn range_test_of(b: Blueprint) -> Result<Option<(Seq<(Seq<char>, RawView)>, Seq<char>, Seq<char>, Option<Seq<char>>)>, BackendErrorView> {
    match ranged_field_in(b.structs@) {
        None => Ok(None),
        Some((f, maximum)) => match field_binding(b.bindings@, f.descriptor@) {
            None => Err(BackendErrorView::MissingRangeBinding(f.descriptor.native_name@)),
            Some(i) => Ok(
                Some(
                    (
                        all_inserts(b.structs@, b.bindings@),
                        b.bindings@[i].source.code@,
                        maximum,
                        transform_view(b.bindings@[i].transform),
                    ),
                ),
            ),
        },
    }
}

fn find_first_range(rules: &Vec<ValidationRule>) -> (r: Option<String>)
    ensures
        match r {
            Some(m) => first_range(rules@) == Some(m@),
            None => first_range(rules@) is None,
        },
{
    let mut i: usize = 0;
    assert(rules@.skip(0) =~= rules@);
    while i < rules.len()
        invariant
            i <= rules@.len(),
            first_range(rules@) == first_range(rules@.skip(i as int)),
        decreases rules@.len() - i,
    {
        assert(rules@.skip(i as int)[0] == rules@[i as int]);
        assert(rules@.skip(i as int).drop_first() =~= rules@.skip(i + 1));
        match &rules[i] {
            ValidationRule::NumberRange { maximum, .. } => {
                return Some(maximum.clone());
            },
            _ => {},
        }
        i = i + 1;
    }
    assert(rules@.skip(i as int) =~= Seq::<ValidationRule>::empty());
    None
}

/// The position (structure, field) of the first ranged field, with its maximum.
fn find_ranged_field(structs: &Vec<StructDefinition>) -> (r: Option<(usize, usize, String)>)
    ensures
        match r {
            Some((si, fi, m)) => si < structs@.len() && fi < structs@[si as int].fields@.len() && ranged_field_in(structs@)
                == Some((structs@[si as int].fields@[fi as int], m@)),
            None => ranged_field_in(structs@) is None,
        },
{
    let mut i: usize = 0;
    assert(structs@.skip(0) =~= structs@);
    while i < structs.len()
        invariant
            i <= structs@.len(),
            ranged_field_in(structs@) == ranged_field_in(structs@.skip(i as int)),
        decreases structs@.len() - i,
    {
        assert(structs@.skip(i as int)[0] == structs@[i as int]);
        assert(structs@.skip(i as int).drop_first() =~= structs@.skip(i + 1));
        let fields = &structs[i].fields;
        let mut j: usize = 0;
        assert(fields@.skip(0) =~= fields@);
        while j < fields.len()
            invariant
                j <= fields@.len(),
                i < structs@.len(),
                fields@ == structs@[i as int].fields@,
                ranged_field_in(structs@) == ranged_field_in(structs@.skip(i as int)),
                ranged_field(fields@) == ranged_field(fields@.skip(j as int)),
            decreases fields@.len() - j,
        {
            assert(fields@.skip(j as int)[0] == fields@[j as int]);
            assert(fields@.skip(j as int).drop_first() =~= fields@.skip(j + 1));
            match find_first_range(&fields[j].validations) {
                Some(m) => {
                    return Some((i, j, m));
                },
                None => {},
            }
            j = j + 1;
        }
        assert(fields@.skip(j as int) =~= Seq::<FieldDefinition>::empty());
        i = i + 1;
    }
    assert(structs@.skip(i as int) =~= Seq::<StructDefinition>::empty());
    None
}

/// Plans the range rejection test of a blueprint.
fn plan_range_test(b: &Blueprint) -> (r: Result<Option<RangeTest>, BackendError>)
    ensures
        match range_test_of(*b) {
            Ok(t) => r matches Ok(x) && match x {
                Some(p) => t == Some(range_test_view(p)),
                None => t is None,
            },
            Err(e) => r matches Err(x) && x@ == e,
        },
{
    let structs = &b.structs;
    let (si, fi, maximum) = match find_ranged_field(structs) {
        None => {
            return Ok(None);
        },
        Some(found) => found,
    };
    let field = &structs[si].fields[fi];
    let k = match find_field_binding(&b.bindings, field) {
        None => {
            return Err(BackendError::MissingRangeBinding { field: field.descriptor.native_name.clone() });
        },
        Some(k) => k,
    };
    let binding = &b.bindings[k];
    let ghost bs = b.bindings@;
    let mut inserts: Vec<FixtureInsert> = Vec::new();
    let mut i: usize = 0;
    assert(structs@.take(0) =~= Seq::<StructDefinition>::empty());
    assert(inserts@.map_values(|x: FixtureInsert| insert_view(x)) =~= Seq::<(Seq<char>, RawView)>::empty());
    while i < structs.len()
        invariant
            i <= structs@.len(),
            structs@ == b.structs@,
            bs == b.bindings@,
            inserts@.map_values(|x: FixtureInsert| insert_view(x)) == all_inserts(structs@.take(i as int), bs),
        decreases structs@.len() - i,
    {
        assert(structs@.take(i + 1).drop_last() =~= structs@.take(i as int));
        assert(structs@.take(i + 1).last() == structs@[i as int]);
        let fields = &structs[i].fields;
        let ghost start = inserts@.map_values(|x: FixtureInsert| insert_view(x));
        let mut j: usize = 0;
        assert(fields@.take(0) =~= Seq::<FieldDefinition>::empty());
        assert(start + fixture_inserts(fields@.take(0), bs) =~= start);
        while j < fields.len()
            invariant
                j <= fields@.len(),
                bs == b.bindings@,
                inserts@.map_values(|x: FixtureInsert| insert_view(x)) == start + fixture_inserts(fields@.take(j as int), bs),
            decreases fields@.len() - j,
        {
            let current = &fields[j];
            assert(fields@.take(j + 1).drop_last() =~= fields@.take(j as int));
            assert(fields@.take(j + 1).last() == *current);
            match find_field_binding(&b.bindings, current) {
                None => {},
                Some(c) => {
                    let cb = &b.bindings[c];
                    let ghost before = inserts@.map_values(|x: FixtureInsert| insert_view(x));
                    inserts.push(FixtureInsert { source_code: cb.source.code.clone(), raw: fixture_test_raw(current, cb) });
                    assert(inserts@.map_values(|x: FixtureInsert| insert_view(x)) =~= before.push(insert_view(inserts@.last())));
                },
            }
            j = j + 1;
        }
        assert(fields@.take(j as int) =~= fields@);
        i = i + 1;
    }
    assert(structs@.take(i as int) =~= structs@);
    let divisor = match &binding.transform {
        ValueTransform::Identity => None,
        ValueTransform::Divide { divisor } => Some(divisor.clone()),
    };
    Ok(Some(RangeTest { inserts, source_code: binding.source.code.clone(), maximum, divisor }))
}

/// The test that a model value built by hand passes the generated validation.
#[derive(Clone, Debug, PartialEq, Eq)]
pub struct ModelTests {
    pub type_ident: String,
    pub model_code: String,
    pub validator_ident: String,
    pub assignments: Vec<(String, TestValue)>,
}

/// The content of a model test plan.
pub open spec fn model_tests_view(m: ModelTests) -> (Seq<char>, Seq<char>, Seq<char>, Seq<(Seq<char>, TestValue)>) {
    (m.type_ident@, m.model_code@, m.validator_ident@, m.assignments@.map_values(|a: (String, TestValue)| (a.0@, a.1)))
}

/// The value a model test gives a field.
pub open spec fn model_assignment_of(f: FieldDefinition) -> Result<(Seq<char>, TestValue), BackendErrorView> {
    match value_ident_of(f.descriptor.code@) {
        Err(e) => Err(e),
        Ok(ident) => Ok((ident, model_test_value_of(f.field_type))),
    }
}

/// The model test of a structure: its type, its validator, then a value per field.
pub open spec fn model_tests_of(s: StructDefinition) -> Result<(Seq<char>, Seq<char>, Seq<char>, Seq<(Seq<char>, TestValue)>), BackendErrorView> {
    match type_ident_of(s.descriptor.code@) {
        Err(e) => Err(e),
        Ok(ti) => match value_ident_of("validate_"@ + s.descriptor.code@) {
            Err(e) => Err(e),
            Ok(vi) => match collect_ok(s.fields@, |f: FieldDefinition| model_assignment_of(f)) {
                Err(e) => Err(e),
                Ok(assignments) => Ok((ti, s.descriptor.code@, vi, assignments)),
            },
        },
    }
}

fn plan_model_tests(s: &StructDefinition) -> (r: Result<ModelTests, BackendError>)
    ensures
        match r {
            Ok(m) => model_tests_of(*s) == Ok::<_, BackendErrorView>(model_tests_view(m)),
            Err(e) => model_tests_of(*s) == Err::<(Seq<char>, Seq<char>, Seq<char>, Seq<(Seq<char>, TestValue)>), _>(e@),
        },
{
    let type_ident = type_ident(s.descriptor.code.as_str())?;
    let validator_name = concat2("validate_", s.descriptor.code.as_str());
    let validator_ident = value_ident(validator_name.as_str())?;
    let fields = &s.fields;
    let ghost g = |f: FieldDefinition| model_assignment_of(f);
    let mut assignments: Vec<(String, TestValue)> = Vec::new();
    let mut i: usize = 0;
    assert(fields@.take(0) =~= Seq::<FieldDefinition>::empty());
    assert(assignments@.map_values(|a: (String, TestValue)| (a.0@, a.1)) =~= Seq::<(Seq<char>, TestValue)>::empty());
    while i < fields.len()
        invariant
            i <= fields@.len(),
            fields@ == s.fields@,
            g == (|f: FieldDefinition| model_assignment_of(f)),
            type_ident_of(s.descriptor.code@) == Ok::<_, BackendErrorView>(type_ident@),
            value_ident_of("validate_"@ + s.descriptor.code@) == Ok::<_, BackendErrorView>(validator_ident@),
            collect_ok(fields@.take(i as int), g) == Ok::<_, BackendErrorView>(assignments@.map_values(|a: (String, TestValue)| (a.0@, a.1))),
        decreases fields@.len() - i,
    {
        let field = &fields[i];
        proof {
            lemma_collect_step(fields@, g, i as int);
        }
        let ident = match value_ident(field.descriptor.code.as_str()) {
            Ok(ident) => ident,
            Err(e) => {
                proof {
                    lemma_collect_err(fields@, g, i + 1);
                }
                return Err(e);
            },
        };
        let ghost before = assignments@;
        assignments.push((ident, model_test_value(field.field_type)));
        assert(assignments@.map_values(|a: (String, TestValue)| (a.0@, a.1)) =~= before.map_values(|a: (String, TestValue)| (a.0@, a.1)).push(
            (assignments@.last().0@, assignments@.last().1),
        ));
        i = i + 1;
    }
    assert(fields@.take(i as int) =~= fields@);
    Ok(ModelTests { type_ident, model_code: s.descriptor.code.clone(), validator_ident, assignments })
}

/// The fixture tests of the first structure.
#[derive(Clone, Debug, PartialEq, Eq)]
pub struct FixtureTests {
    pub decoder_ident: String,
    pub inserts: Vec<FixtureInsert>,
    pub checks: Vec<FixtureCheck>,
    /// The key whose absence and whose wrong type must be rejected.
    pub first_key: String,
    /// The descriptor type of the first field, and the code it must encode to.
    pub descriptor_check: Option<(String, String)>,
    pub range_test: Option<RangeTest>,
}

/// The generated tests.
#[derive(Clone, Debug, PartialEq, Eq)]
pub enum TestsPlan {
    Model(ModelTests),
    Fixture(FixtureTests),
}

/// The content of a test plan.
pub ghost enum TestsView {
    Model(Seq<char>, Seq<char>, Seq<char>, Seq<(Seq<char>, TestValue)>),
    Fixture(
        Seq<char>,
        Seq<(Seq<char>, RawView)>,
        Seq<(Seq<char>, AssertionView)>,
        Seq<char>,
        Option<(Seq<char>, Seq<char>)>,
        Option<(Seq<(Seq<char>, RawView)>, Seq<char>, Seq<char>, Option<Seq<char>>)>,
    ),
}

/// The content of a test plan.
pub open spec fn tests_view(t: TestsPlan) -> TestsView {
    match t {
        TestsPlan::Model(m) => {
            let (a, b, c, d) = model_tests_view(m);
            TestsView::Model(a, b, c, d)
        },
        TestsPlan::Fixture(f) => TestsView::Fixture(
            f.decoder_ident@,
            f.inserts@.map_values(|i: FixtureInsert| insert_view(i)),
            f.checks@.map_values(|c: FixtureCheck| check_view(c)),
            f.first_key@,
            match f.descriptor_check {
                Some((a, b)) => Some((a@, b@)),
                None => None,
            },
            match f.range_test {
                Some(t) => Some(range_test_view(t)),
                None => None,
            },
        ),
    }
}

/// The descriptor check of a structure's first field, if it has one.
pub open spec fn descriptor_check_of(s: StructDefinition) -> Result<Option<(Seq<char>, Seq<char>)>, BackendErrorView> {
    if s.fields@.len() == 0 {
        Ok(None)
    } else {
        match type_ident_of(descriptor_name(s.descriptor.code@, s.fields@[0].descriptor.code@)) {
            Err(e) => Err(e),
            Ok(ident) => Ok(Some((ident, s.fields@[0].descriptor.code@))),
        }
    }
}

/// The generated tests of a blueprint.  They need a structure; the first one
/// is tested.  Without bindings its model value is validated; with bindings its
/// fixture is decoded, and the range test is added when a field has a range.
pub open spec fn tests_plan_of(b: Blueprint) -> Result<TestsView, BackendErrorView> {
    if b.structs@.len() == 0 {
        Err(BackendErrorView::NoStructure)
    } else {
        let s = b.structs@[0];
        match value_ident_of("decode_"@ + s.descriptor.code@) {
            Err(e) => Err(e),
            Ok(di) => if b.bindings@.len() == 0 {
                match model_tests_of(s) {
                    Err(e) => Err(e),
                    Ok((ti, code, vi, assignments)) => Ok(TestsView::Model(ti, code, vi, assignments)),
                }
            } else {
                match flat_collect_ok(s.fields@, |f: FieldDefinition| fixture_check_of(b.bindings@, f)) {
                    Err(e) => Err(e),
                    Ok(checks) => match descriptor_check_of(s) {
                        Err(e) => Err(e),
                        Ok(dc) => match range_test_of(b) {
                            Err(e) => Err(e),
                            Ok(rt) => Ok(
                                TestsView::Fixture(
                                    di,
                                    fixture_inserts(s.fields@, b.bindings@),
                                    checks,
                                    b.bindings@[0].source.code@,
                                    dc,
                                    rt,
                                ),
                            ),
                        },
                    },
                }
            },
        }
    }
}

/// The result of planning the tests, as text.
pub open spec fn tests_result_view(r: Result<TestsPlan, BackendError>) -> Result<TestsView, BackendErrorView> {
    match r {
        Ok(t) => Ok(tests_view(t)),
        Err(e) => Err(e@),
    }
}

/// Plans the generated tests of a blueprint.
pub fn plan_tests(b: &Blueprint) -> (r: Result<TestsPlan, BackendError>)
    ensures
        tests_result_view(r) == tests_plan_of(*b),
{
    if b.structs.len() == 0 {
        return Err(BackendError::NoStructure);
    }
    let s = &b.structs[0];
    let decoder_name = concat2("decode_", s.descriptor.code.as_str());
    let decoder_ident = value_ident(decoder_name.as_str())?;
    if b.bindings.len() == 0 {
        let m = plan_model_tests(s)?;
        return Ok(TestsPlan::Model(m));
    }
    let (inserts, checks) = plan_fixture(&s.fields, &b.bindings)?;
    let first_key = b.bindings[0].source.code.clone();
    let descriptor_check = if s.fields.len() == 0 {
        None
    } else {
        let first = &s.fields[0];
        let name = concat4(s.descriptor.code.as_str(), "_", first.descriptor.code.as_str(), "_field");
        let ident = type_ident(name.as_str())?;
        Some((ident, first.descriptor.code.clone()))
    };
    let range_test = plan_range_test(b)?;
    Ok(TestsPlan::Fixture(FixtureTests { decoder_ident, inserts, checks, first_key, descriptor_check, range_test }))
}

} // verus!
