//! The deterministic mother-tongue inference engine: from a product source to
//! a complete blueprint with its diagnostics and metrics.
use vstd::prelude::*;

use crate::blueprint::{
    AppliedDefault, Blueprint, CapabilityRequirement, DomainMetadata, FieldBinding, FieldDefinition,
    FieldType, FunctionDefinition, LogicStep, OperationIntent, Requirement, StructDefinition, ValidationRule, ViewLayout,
};
use crate::descriptor::{short_hash, DescriptorView, SemanticDescriptor};
use crate::diagnostic::{diagnostics_view, error_view, Diagnostic, DiagnosticLevel, DiagnosticView};
use crate::inference::acquisition::{
    acquisition_match, acquisition_requests, capability_line, infer_acquisition, unmapped_errors,
};
use crate::inference::application::{
    infer_application, interfaces_match, lemma_views_offer_actions, navigation_match, operation_plan, operations_match,
    permission_actors, permissions_match, plan_names, view_names, view_plan, views_match,
};
use crate::inference::factory::{
    collected_descriptors, describe_all, describe_each, describe_step, keyed, keyed_decisions,
    consistent_names, lemma_describe_all_known, lemma_describe_all_len, lemma_describe_all_names,
    lemma_describe_step_name, lemma_keyed_well_keyed, lemma_latest_keyed_found, DescriptorFactory,
    FactoryView, unstemmed, lemma_describe_all_as_each, lemma_describe_each_append, lemma_describe_each_len,
    agrees_with, first_decision, lemma_describe_all_fresh, translate_name, lemma_describe_each_reused, lemma_first_description, lemma_replay,
};
use crate::inference::acquisition::lemma_acquisition_requests_by_descriptors;
use crate::textmap::lemma_latest_found;
use crate::compiler::{breaking_changes, lemma_reencoded_names_reported, reencoded};
use crate::text::starts_with;
use crate::textmap::latest;
use crate::inference::fields::{parse_field, parsed_field, ParsedField, ParsedFieldView};
use crate::inference::outline::{opt_text, outline_of, scan_source, texts, OutlineView};
use crate::observability::{InferenceMetrics, InferenceMode};
use crate::text::{concat2, contains, owned, str_contains, str_trim, trim};

verus! {

/// Why a product source cannot be inferred.
#[derive(Clone, Copy, Debug, PartialEq, Eq, Structural)]
pub enum InferenceError {
    /// The source holds nothing but white space.
    EmptySource,
    /// No `建模：名称` line names the domain structure.
    MissingModel,
    /// The modelling section declares no field.
    MissingFields,
}

/// The message a product owner reads for an inference error.
pub open spec fn inference_error_message(e: InferenceError) -> Seq<char> {
    match e {
        InferenceError::EmptySource => "母语需求不能为空"@,
        InferenceError::MissingModel => "建模章节必须使用“建模：名称”声明领域结构"@,
        InferenceError::MissingFields => "建模章节至少需要一个母语字段"@,
    }
}

impl InferenceError {
    /// The message of this error, in the product owner's language.
    pub fn message(&self) -> (r: &'static str)
        ensures
            r@ == inference_error_message(*self),
    {
        match self {
            InferenceError::EmptySource => "母语需求不能为空",
            InferenceError::MissingModel => "建模章节必须使用“建模：名称”声明领域结构",
            InferenceError::MissingFields => "建模章节至少需要一个母语字段",
        }
    }
}

/// The content of a validation rule.
pub ghost enum RuleView {
    Required,
    Unique,
    Email,
    NumberRange(Seq<char>, Seq<char>),
}

/// The content of a validation rule.
pub open spec fn rule_view(r: ValidationRule) -> RuleView {
    match r {
        ValidationRule::Required => RuleView::Required,
        ValidationRule::Unique => RuleView::Unique,
        ValidationRule::Email => RuleView::Email,
        ValidationRule::NumberRange { minimum, maximum } => RuleView::NumberRange(minimum@, maximum@),
    }
}

/// The rules of a field: required, unique, e-mail and number range, in that
/// order, each when the field asks for it.
pub open spec fn expected_rules(p: ParsedFieldView, required: bool) -> Seq<RuleView> {
    let a = if required {
        seq![RuleView::Required]
    } else {
        Seq::empty()
    };
    let b = if p.unique {
        a.push(RuleView::Unique)
    } else {
        a
    };
    let c = if p.email {
        b.push(RuleView::Email)
    } else {
        b
    };
    match p.range {
        Some((lo, hi)) => c.push(RuleView::NumberRange(lo, hi)),
        None => c,
    }
}

/// The content of a metadata entry: namespace, name and value.
pub open spec fn metadata_view(m: DomainMetadata) -> (Seq<char>, Seq<char>, Seq<char>) {
    (m.namespace@, m.name@, m.value@)
}

/// The metadata of a field: its unit, then the input semantics of a password or
/// the dictionary of a dictionary field.
pub open spec fn expected_metadata(p: ParsedFieldView) -> Seq<(Seq<char>, Seq<char>, Seq<char>)> {
    let a = match p.unit {
        Some(u) => seq![("measurement"@, "单位"@, u)],
        None => Seq::empty(),
    };
    match p.field_type {
        FieldType::Password => a.push(("security"@, "输入语义"@, "密码"@)),
        FieldType::Dictionary => a.push(("dictionary"@, "母语字典"@, p.native_name)),
        _ => a,
    }
}

/// `f` is the field that `p` declares, described as `d`; `strict` makes every field required.
pub open spec fn field_matches(f: FieldDefinition, p: ParsedFieldView, strict: bool, d: DescriptorView) -> bool {
    &&& f.descriptor@ == d
    &&& f.field_type == p.field_type
    &&& f.required == (p.required || strict)
    &&& opt_text(f.unit) == p.unit
    &&& f.validations@.map_values(|v: ValidationRule| rule_view(v)) == expected_rules(p, p.required || strict)
    &&& f.domain_metadata@.map_values(|m: DomainMetadata| metadata_view(m)) == expected_metadata(p)
}

/// The validation rules of a declared field say what its declaration asks
/// for: a required rule exactly when the field is required (by its line or by
/// a strict requirement), a unique rule exactly when the line asks for
/// uniqueness, an e-mail rule exactly when it names 邮箱, and a number range
/// exactly when it declares one, with the same bounds.
pub proof fn lemma_field_rules_follow_declaration(f: FieldDefinition, p: ParsedFieldView, strict: bool, d: DescriptorView)
    requires
        field_matches(f, p, strict, d),
    ensures
        ({
            let rules = f.validations@.map_values(|v: ValidationRule| rule_view(v));
            &&& f.required == (p.required || strict)
            &&& rules.contains(RuleView::Required) == (p.required || strict)
            &&& rules.contains(RuleView::Unique) == p.unique
            &&& rules.contains(RuleView::Email) == p.email
            &&& forall|lo: Seq<char>, hi: Seq<char>| #[trigger] rules.contains(RuleView::NumberRange(lo, hi)) == (p.range == Some((lo, hi)))
        }),
{
    let rules = f.validations@.map_values(|v: ValidationRule| rule_view(v));
    let req = p.required || strict;
    let a = if req { seq![RuleView::Required] } else { Seq::<RuleView>::empty() };
    let b = if p.unique { a.push(RuleView::Unique) } else { a };
    let c = if p.email { b.push(RuleView::Email) } else { b };
    assert(rules == expected_rules(p, req));
    assert(forall|x: RuleView| #[trigger] a.contains(x) ==> x == RuleView::Required);
    assert(req ==> a[0] == RuleView::Required);
    assert(forall|x: RuleView| #[trigger] b.contains(x) <==> (a.contains(x) || (p.unique && x == RuleView::Unique))) by {
        if p.unique {
            assert forall|x: RuleView| #[trigger] b.contains(x) <==> (a.contains(x) || x == RuleView::Unique) by {
                if a.contains(x) {
                    let i = choose|i: int| 0 <= i < a.len() && a[i] == x;
                    assert(b[i] == x);
                }
                if x == RuleView::Unique {
                    assert(b[a.len() as int] == x);
                }
            }
        }
    }
    assert(forall|x: RuleView| #[trigger] c.contains(x) <==> (b.contains(x) || (p.email && x == RuleView::Email))) by {
        if p.email {
            assert forall|x: RuleView| #[trigger] c.contains(x) <==> (b.contains(x) || x == RuleView::Email) by {
                if b.contains(x) {
                    let i = choose|i: int| 0 <= i < b.len() && b[i] == x;
                    assert(c[i] == x);
                }
                if x == RuleView::Email {
                    assert(c[b.len() as int] == x);
                }
            }
        }
    }
    assert forall|x: RuleView| #[trigger] rules.contains(x) <==> (c.contains(x) || (p.range matches Some((lo, hi)) && x
        == RuleView::NumberRange(lo, hi))) by {
        if let Some((lo, hi)) = p.range {
            assert(rules == c.push(RuleView::NumberRange(lo, hi)));
            if c.contains(x) {
                let i = choose|i: int| 0 <= i < c.len() && c[i] == x;
                assert(rules[i] == x);
            }
            if x == RuleView::NumberRange(lo, hi) {
                assert(rules[c.len() as int] == x);
            }
        } else {
            assert(rules == c);
        }
    }
    assert(req ==> rules.contains(RuleView::Required));
}

/// The content of an applied default: subject, value and reason.
pub open spec fn default_view(d: AppliedDefault) -> (Seq<char>, Seq<char>, Seq<char>) {
    (d.subject@, d.value@, d.reason@)
}

/// The defaults applied to one field: text when no type was recognised, then
/// required when the field is.
pub open spec fn field_defaults(p: ParsedFieldView, strict: bool) -> Seq<(Seq<char>, Seq<char>, Seq<char>)> {
    let a = if p.type_was_defaulted {
        seq![(p.native_name, "文本"@, "母语定义没有提供可识别的字段类型"@)]
    } else {
        Seq::empty()
    };
    if p.required || strict {
        a.push((p.native_name, "必填"@, "母语字段明确声明必填，或需求要求无效数据不得入库"@))
    } else {
        a
    }
}

/// The defaults applied to the fields, field by field.
pub open spec fn all_defaults(ps: Seq<ParsedFieldView>, strict: bool) -> Seq<(Seq<char>, Seq<char>, Seq<char>)>
    decreases ps.len(),
{
    if ps.len() == 0 {
        Seq::empty()
    } else {
        all_defaults(ps.drop_last(), strict) + field_defaults(ps.last(), strict)
    }
}

/// The warning given for a field whose type was not recognised.
pub open spec fn default_type_warning(name: Seq<char>) -> DiagnosticView {
    DiagnosticView {
        level: DiagnosticLevel::Warning,
        subject: name,
        message: "没有识别到明确类型，已按文本处理；发布前应确认该默认值。"@,
    }
}

/// One warning per field whose type was not recognised, in field order.
pub open spec fn field_warnings(ps: Seq<ParsedFieldView>) -> Seq<DiagnosticView>
    decreases ps.len(),
{
    if ps.len() == 0 {
        Seq::empty()
    } else if ps.last().type_was_defaulted {
        field_warnings(ps.drop_last()).push(default_type_warning(ps.last().native_name))
    } else {
        field_warnings(ps.drop_last())
    }
}

/// Some requirement demands that invalid data never be stored.
pub open spec fn strict_requirements(reqs: Seq<Seq<char>>) -> bool {
    exists|i: int| 0 <= i < reqs.len() && contains(#[trigger] reqs[i], "无效数据不能入库"@)
}

fn has_strict_requirement(reqs: &Vec<String>) -> (r: bool)
    ensures
        r == strict_requirements(reqs@.map_values(|s: String| s@)),
{
    let ghost ls = reqs@.map_values(|s: String| s@);
    let mut i: usize = 0;
    while i < reqs.len()
        invariant
            i <= reqs@.len(),
            ls == reqs@.map_values(|s: String| s@),
            forall|j: int| 0 <= j < i ==> !contains(#[trigger] ls[j], "无效数据不能入库"@),
        decreases reqs@.len() - i,
    {
        if str_contains(reqs[i].as_str(), "无效数据不能入库") {
            assert(contains(ls[i as int], "无效数据不能入库"@));
            return true;
        }
        i = i + 1;
    }
    false
}

/// The field a parsed modelling line declares.
fn build_field(parsed: ParsedField, strict: bool, descriptor: SemanticDescriptor) -> (r: FieldDefinition)
    ensures
        field_matches(r, parsed@, strict, descriptor@),
{
    let ghost p = parsed@;
    let required = parsed.required || strict;
    let mut validations: Vec<ValidationRule> = Vec::new();
    if required {
        validations.push(ValidationRule::Required);
    }
    if parsed.unique {
        validations.push(ValidationRule::Unique);
    }
    if parsed.email {
        validations.push(ValidationRule::Email);
    }
    match parsed.range {
        Some((minimum, maximum)) => validations.push(ValidationRule::NumberRange { minimum, maximum }),
        None => {},
    }
    assert(validations@.map_values(|v: ValidationRule| rule_view(v)) =~= expected_rules(p, required));
    let mut domain_metadata: Vec<DomainMetadata> = Vec::new();
    match &parsed.unit {
        Some(unit) => domain_metadata.push(
            DomainMetadata { namespace: owned("measurement"), name: owned("单位"), value: unit.clone() },
        ),
        None => {},
    }
    match parsed.field_type {
        FieldType::Password => domain_metadata.push(
            DomainMetadata { namespace: owned("security"), name: owned("输入语义"), value: owned("密码") },
        ),
        FieldType::Dictionary => domain_metadata.push(
            DomainMetadata {
                namespace: owned("dictionary"),
                name: owned("母语字典"),
                value: parsed.native_name.clone(),
            },
        ),
        _ => {},
    }
    assert(domain_metadata@.map_values(|m: DomainMetadata| metadata_view(m)) =~= expected_metadata(p));
    FieldDefinition {
        descriptor,
        field_type: parsed.field_type,
        required,
        unit: parsed.unit,
        validations,
        domain_metadata,
    }
}

/// Records the defaults applied to a field.
fn push_field_defaults(parsed: &ParsedField, strict: bool, defaults: &mut Vec<AppliedDefault>)
    ensures
        final(defaults)@.map_values(|d: AppliedDefault| default_view(d)) == old(defaults)@.map_values(
            |d: AppliedDefault| default_view(d),
        ) + field_defaults(parsed@, strict),
{
    let ghost before = defaults@.map_values(|d: AppliedDefault| default_view(d));
    if parsed.type_was_defaulted {
        defaults.push(
            AppliedDefault {
                subject: parsed.native_name.clone(),
                value: owned("文本"),
                reason: owned("母语定义没有提供可识别的字段类型"),
            },
        );
    }
    if parsed.required || strict {
        defaults.push(
            AppliedDefault {
                subject: parsed.native_name.clone(),
                value: owned("必填"),
                reason: owned("母语字段明确声明必填，或需求要求无效数据不得入库"),
            },
        );
    }
    assert(defaults@.map_values(|d: AppliedDefault| default_view(d)) =~= before + field_defaults(parsed@, strict));
}

/// The names the fields of `ps` declare.
pub open spec fn field_names(ps: Seq<ParsedFieldView>) -> Seq<Seq<char>> {
    ps.map_values(|p: ParsedFieldView| p.native_name)
}

/// The fields the modelling lines declare.
pub open spec fn parsed_fields(lines: Seq<Seq<char>>) -> Seq<ParsedFieldView> {
    lines.map_values(|l: Seq<char>| parsed_field(l))
}

/// Declares the fields of the modelling lines in turn: each gets a descriptor,
/// its warning when its type was not recognised, and its defaults.
fn infer_fields(
    lines: &Vec<String>,
    strict: bool,
    factory: &mut DescriptorFactory,
    diagnostics: &mut Vec<Diagnostic>,
    defaults: &mut Vec<AppliedDefault>,
) -> (r: Vec<FieldDefinition>)
    ensures
        ({
            let ps = parsed_fields(texts(lines@));
            let (f, descs) = describe_all(old(factory)@, field_names(ps));
            &&& final(factory)@ == f
            &&& r@.len() == ps.len()
            &&& forall|i: int| 0 <= i < r@.len() ==> field_matches(#[trigger] r@[i], ps[i], strict, descs[i])
            &&& diagnostics_view(final(diagnostics)@) == diagnostics_view(old(diagnostics)@) + field_warnings(ps)
            &&& final(defaults)@.map_values(|d: AppliedDefault| default_view(d)) == old(defaults)@.map_values(
                |d: AppliedDefault| default_view(d),
            ) + all_defaults(ps, strict)
        }),
{
    let ghost ps = parsed_fields(texts(lines@));
    let ghost names = field_names(ps);
    let ghost f0 = factory@;
    let ghost d0 = diagnostics_view(diagnostics@);
    let ghost a0 = defaults@.map_values(|d: AppliedDefault| default_view(d));
    let mut fields: Vec<FieldDefinition> = Vec::new();
    let mut i: usize = 0;
    assert(names.take(0) =~= Seq::<Seq<char>>::empty());
    assert(ps.take(0) =~= Seq::<ParsedFieldView>::empty());
    assert(d0 + field_warnings(ps.take(0)) =~= d0);
    assert(a0 + all_defaults(ps.take(0), strict) =~= a0);
    while i < lines.len()
        invariant
            i <= lines@.len(),
            ps == parsed_fields(texts(lines@)),
            names == field_names(ps),
            ({
                let (f, descs) = describe_all(f0, names.take(i as int));
                &&& factory@ == f
                &&& fields@.len() == i
                &&& forall|j: int| 0 <= j < i ==> field_matches(#[trigger] fields@[j], ps[j], strict, descs[j])
                &&& diagnostics_view(diagnostics@) == d0 + field_warnings(ps.take(i as int))
                &&& defaults@.map_values(|d: AppliedDefault| default_view(d)) == a0 + all_defaults(ps.take(i as int), strict)
            }),
        decreases lines@.len() - i,
    {
        let parsed = parse_field(lines[i].as_str());
        assert(parsed@ == ps[i as int]);
        assert(names.take(i + 1).drop_last() =~= names.take(i as int));
        assert(ps.take(i + 1).drop_last() =~= ps.take(i as int));
        assert(ps.take(i + 1).last() == parsed@);
        let ghost (fa, descs) = describe_all(f0, names.take(i as int));
        proof {
            lemma_describe_all_len(f0, names.take(i as int));
        }
        let descriptor = factory.describe(parsed.native_name.as_str(), None);
        let ghost (fb, descs2) = describe_all(f0, names.take(i + 1));
        let ghost dv = diagnostics_view(diagnostics@);
        if parsed.type_was_defaulted {
            diagnostics.push(
                Diagnostic::warning(parsed.native_name.as_str(), "没有识别到明确类型，已按文本处理；发布前应确认该默认值。"),
            );
            assert(diagnostics_view(diagnostics@) =~= dv.push(default_type_warning(parsed@.native_name)));
        } else {
            assert(diagnostics_view(diagnostics@) =~= dv);
        }
        assert(d0 + field_warnings(ps.take(i + 1)) =~= diagnostics_view(diagnostics@));
        let ghost av = defaults@.map_values(|d: AppliedDefault| default_view(d));
        push_field_defaults(&parsed, strict, defaults);
        assert(a0 + all_defaults(ps.take(i + 1), strict) =~= av + field_defaults(parsed@, strict));
        let ghost old_fields = fields@;
        fields.push(build_field(parsed, strict, descriptor));
        assert forall|j: int| 0 <= j < i + 1 implies field_matches(#[trigger] fields@[j], ps[j], strict, descs2[j]) by {
            if j < i {
                assert(fields@[j] == old_fields[j]);
            }
        }
        i = i + 1;
    }
    assert(names.take(i as int) =~= names);
    assert(ps.take(i as int) =~= ps);
    fields
}

/// The requirements, each with its descriptor.
fn infer_requirements(texts_in: &Vec<String>, factory: &mut DescriptorFactory) -> (r: Vec<Requirement>)
    ensures
        ({
            let ls = texts(texts_in@);
            let (f, descs) = describe_all(old(factory)@, ls);
            &&& final(factory)@ == f
            &&& r@.len() == ls.len()
            &&& forall|i: int| 0 <= i < r@.len() ==> (#[trigger] r@[i]).text@ == ls[i] && r@[i].descriptor@ == descs[i]
        }),
{
    let ghost ls = texts(texts_in@);
    let ghost f0 = factory@;
    let mut out: Vec<Requirement> = Vec::new();
    let mut i: usize = 0;
    assert(ls.take(0) =~= Seq::<Seq<char>>::empty());
    while i < texts_in.len()
        invariant
            i <= texts_in@.len(),
            ls == texts(texts_in@),
            ({
                let (f, descs) = describe_all(f0, ls.take(i as int));
                &&& factory@ == f
                &&& out@.len() == i
                &&& forall|j: int| 0 <= j < i ==> (#[trigger] out@[j]).text@ == ls[j] && out@[j].descriptor@ == descs[j]
            }),
        decreases texts_in@.len() - i,
    {
        let text = &texts_in[i];
        assert(ls.take(i + 1).drop_last() =~= ls.take(i as int));
        assert(ls.take(i + 1).last() == text@);
        proof {
            lemma_describe_all_len(f0, ls.take(i as int));
        }
        let descriptor = factory.describe(text.as_str(), None);
        let ghost (fb, descs2) = describe_all(f0, ls.take(i + 1));
        let ghost old_out = out@;
        out.push(Requirement { descriptor, text: text.clone() });
        assert forall|j: int| 0 <= j < i + 1 implies (#[trigger] out@[j]).text@ == ls[j] && out@[j].descriptor@ == descs2[j] by {
            if j < i {
                assert(out@[j] == old_out[j]);
            }
        }
        i = i + 1;
    }
    assert(ls.take(i as int) =~= ls);
    out
}

/// The steps of the generated acquisition function.
pub open spec fn acquisition_steps() -> Seq<LogicStep> {
    seq![LogicStep::ReadSourceMap, LogicStep::DecodeBindings, LogicStep::ValidateFields, LogicStep::ReturnAcceptedValue]
}

/// The function that reads, decodes and validates the model from its raw source.
fn acquisition_function(model_name: &str, model: &SemanticDescriptor, factory: &mut DescriptorFactory) -> (r: FunctionDefinition)
    ensures
        ({
            let (f1, d) = describe_step(old(factory)@, "获取并校验"@ + model_name@, Some("process_telemetry"@));
            let (f2, input) = describe_step(f1, "原始数据"@, Some("source_values"@));
            &&& final(factory)@ == f2
            &&& r.descriptor@ == d
            &&& r.input_model@ == input
            &&& r.output_model == *model
            &&& r.steps@ == acquisition_steps()
        }),
{
    let name = concat2("获取并校验", model_name);
    let descriptor = factory.describe(name.as_str(), Some("process_telemetry"));
    let input_model = factory.describe("原始数据", Some("source_values"));
    let steps = vec![LogicStep::ReadSourceMap, LogicStep::DecodeBindings, LogicStep::ValidateFields, LogicStep::ReturnAcceptedValue];
    FunctionDefinition { descriptor, input_model, output_model: model.clone(), steps }
}

/// The inferred blueprint, the diagnostics for the product owner and the engine's metrics.
#[derive(Clone, Debug, PartialEq)]
pub struct InferenceResult {
    pub blueprint: Blueprint,
    pub diagnostics: Vec<Diagnostic>,
    pub metrics: InferenceMetrics,
}

/// The factory's state before any name was described: it knows the descriptors
/// and decisions of the previous blueprint, if there is one.
pub open spec fn initial_factory(previous: Option<Blueprint>) -> FactoryView {
    FactoryView {
        previous: match previous {
            Some(b) => keyed(collected_descriptors(b)),
            None => Seq::empty(),
        },
        previous_decisions: match previous {
            Some(b) => keyed_decisions(b.inference_decisions@),
            None => Seq::empty(),
        },
        claims: Seq::empty(),
        decisions: Seq::empty(),
        reused: 0,
    }
}

/// The error a source is refused with, if any: an empty source, then a missing
/// model, then a model without fields.
pub open spec fn inference_failure(source: Seq<char>) -> Option<InferenceError> {
    let t = trim(source);
    let o = outline_of(t);
    if t.len() == 0 {
        Some(InferenceError::EmptySource)
    } else if o.model is None {
        Some(InferenceError::MissingModel)
    } else if o.fields.len() == 0 {
        Some(InferenceError::MissingFields)
    } else {
        None
    }
}

/// The name of the domain: the declared one, or the model's name followed by `领域`.
pub open spec fn domain_name(o: OutlineView) -> Seq<char> {
    match o.domain {
        Some(d) => d,
        None => o.model.unwrap() + "领域"@,
    }
}

/// The error reported when no data source capability is found.
pub open spec fn missing_capability_errors(lines: Seq<Seq<char>>) -> Seq<DiagnosticView> {
    if capability_line(lines) is Some {
        Seq::empty()
    } else {
        seq![error_view("数据获取"@, "没有找到可解析的数据源能力；请用母语说明数据来自哪里。"@)]
    }
}

/// `res` is what the inference of `source` gives from factory state `f0`.
/// Names are described in this order: the model, the domain, the fields, the
/// requirements, the acquisition section (when it has lines) with its function,
/// then the operations, views and permissions of the application.
pub open spec fn inferred(res: InferenceResult, source: Seq<char>, f0: FactoryView) -> bool {
    let t = trim(source);
    let o = outline_of(t);
    let model = o.model.unwrap();
    let b = res.blueprint;
    let (f1, md) = describe_step(f0, model, None);
    let (f2, dd) = describe_step(f1, domain_name(o), None);
    let ps = parsed_fields(o.fields);
    let (f3, field_descs) = describe_all(f2, field_names(ps));
    let strict = strict_requirements(o.requirements);
    let (f4, req_descs) = describe_all(f3, o.requirements);
    let model_d = b.structs@[0].descriptor;
    let fields = b.structs@[0].fields@;
    let acquiring = o.acquisition.len() > 0;
    let (f5, acq_descs) = describe_each(f4, acquisition_requests(fields, o.acquisition));
    let (f6, fn_d) = describe_step(f5, "获取并校验"@ + model, Some("process_telemetry"@));
    let (f7, input_d) = describe_step(f6, "原始数据"@, Some("source_values"@));
    let f8 = if acquiring {
        f7
    } else {
        f4
    };
    let app = b.application;
    let domain_d = app.domain.descriptor;
    let op_plan = operation_plan(model, o.operations);
    let (f9, op_descs) = describe_all(f8, plan_names(op_plan));
    let v_plan = view_plan(model, o.views);
    let (f10, view_descs) = describe_all(f9, view_names(v_plan));
    let (f11, perm_descs) = describe_all(f10, permission_actors(o.permissions));
    &&& b.source_text@ == t
    &&& b.requirements@.len() == o.requirements.len()
    &&& forall|i: int|
        0 <= i < b.requirements@.len() ==> (#[trigger] b.requirements@[i]).text@ == o.requirements[i]
            && b.requirements@[i].descriptor@ == req_descs[i]
    &&& b.structs@.len() == 1
    &&& model_d@ == md
    &&& fields.len() == ps.len()
    &&& forall|i: int| 0 <= i < fields.len() ==> field_matches(#[trigger] fields[i], ps[i], strict, field_descs[i])
    &&& b.enums@.len() == 0
    &&& (acquiring ==> {
        &&& acquisition_match(model_d, fields, o.acquisition, b.capabilities@, b.bindings@, acq_descs)
        &&& b.functions@.len() == 1
        &&& b.functions@[0].descriptor@ == fn_d
        &&& b.functions@[0].input_model@ == input_d
        &&& b.functions@[0].output_model == model_d
        &&& b.functions@[0].steps@ == acquisition_steps()
    })
    &&& (!acquiring ==> b.capabilities@.len() == 0 && b.bindings@.len() == 0 && b.functions@.len() == 0)
    &&& domain_d@ == dd
    &&& app.domain.models@ == seq![model_d]
    &&& operations_match(app.operations@, model_d, op_plan, op_descs)
    &&& interfaces_match(app.interfaces@, app.operations@, domain_d, model_d)
    &&& views_match(app.views@, domain_d, model_d, fields, app.operations@, v_plan, view_descs)
    &&& permissions_match(app.permissions@, app.operations@, o.permissions, perm_descs)
    &&& navigation_match(app.navigation, domain_d, app.views@, app.permissions@, o.navigation)
    &&& b.inference_decisions@.map_values(|d: crate::blueprint::InferenceDecision| d@) == f11.decisions
    &&& b.defaults@.map_values(|d: AppliedDefault| default_view(d)) == all_defaults(ps, strict)
    &&& diagnostics_view(res.diagnostics@) == field_warnings(ps) + if acquiring {
        unmapped_errors(fields, o.acquisition) + missing_capability_errors(o.acquisition)
    } else {
        Seq::empty()
    }
    &&& res.metrics.engine@ == "mother_tongue"@
    &&& res.metrics.mode == InferenceMode::Deterministic
    &&& res.metrics.model is None
    &&& res.metrics.input_tokens == 0
    &&& res.metrics.output_tokens == 0
    &&& res.metrics.total_tokens == 0
    &&& res.metrics.cached_input_tokens == 0
    &&& res.metrics.reused_semantics == f11.reused
}

/// The blueprint a caller hands over, as a value.
pub open spec fn previous_value(previous: Option<&Blueprint>) -> Option<Blueprint> {
    match previous {
        Some(b) => Some(*b),
        None => None,
    }
}

/// What inferring `source` from `previous` gives: the error exactly when the
/// source is refused, the inferred result otherwise.
pub open spec fn inference_outcome(
    r: Result<InferenceResult, InferenceError>,
    source: Seq<char>,
    previous: Option<Blueprint>,
) -> bool {
    match r {
        Ok(res) => inference_failure(source) is None && inferred(res, source, initial_factory(previous)),
        Err(e) => inference_failure(source) == Some(e),
    }
}

/// Infers the blueprint of a mother-tongue product source.  Descriptors of
/// names the previous blueprint knows are reused, so that their codes stay
/// stable.
#[verifier::rlimit(60)]
pub fn infer_chinese_blueprint(
    source_text: &str,
    previous_blueprint: Option<&Blueprint>,
) -> (r: Result<InferenceResult, InferenceError>)
    requires
        outline_of(trim(source_text@)).views.len() <= 214748364,
    ensures
        inference_outcome(r, source_text@, previous_value(previous_blueprint)),
{
    let text = str_trim(source_text);
    if text.unicode_len() == 0 {
        return Err(InferenceError::EmptySource);
    }
    let outline = scan_source(text);
    let model_name: &str = match &outline.model_name {
        Some(m) => m.as_str(),
        None => {
            return Err(InferenceError::MissingModel);
        },
    };
    if outline.field_lines.len() == 0 {
        return Err(InferenceError::MissingFields);
    }
    let ghost o = outline@;
    let mut factory = DescriptorFactory::new(previous_blueprint);
    proof {
        match previous_blueprint {
            Some(b) => lemma_keyed_well_keyed(collected_descriptors(*b)),
            None => {},
        }
        lemma_describe_step_name(factory@, model_name@, None);
    }
    let model_descriptor = factory.describe(model_name, None);
    let domain_text = match &outline.domain_name {
        Some(d) => d.clone(),
        None => concat2(model_name, "领域"),
    };
    let domain_descriptor = factory.describe(domain_text.as_str(), None);
    let strict = has_strict_requirement(&outline.requirements);
    let mut diagnostics: Vec<Diagnostic> = Vec::new();
    let mut defaults: Vec<AppliedDefault> = Vec::new();
    assert(diagnostics_view(diagnostics@) =~= Seq::<DiagnosticView>::empty());
    assert(defaults@.map_values(|d: AppliedDefault| default_view(d)) =~= Seq::<(Seq<char>, Seq<char>, Seq<char>)>::empty());
    let fields = infer_fields(&outline.field_lines, strict, &mut factory, &mut diagnostics, &mut defaults);
    let requirements = infer_requirements(&outline.requirements, &mut factory);
    let ghost after_requirements = factory@;
    let acquiring = outline.acquisition_lines.len() > 0;
    let (capabilities, bindings, functions) = if acquiring {
        let (capabilities, bindings) = infer_acquisition(
            &model_descriptor,
            &fields,
            &outline.acquisition_lines,
            &mut factory,
            &mut diagnostics,
        );
        let function = acquisition_function(model_name, &model_descriptor, &mut factory);
        (capabilities, bindings, vec![function])
    } else {
        let capabilities: Vec<CapabilityRequirement> = Vec::new();
        let bindings: Vec<FieldBinding> = Vec::new();
        let functions: Vec<FunctionDefinition> = Vec::new();
        (capabilities, bindings, functions)
    };
    let ghost before_application = factory@;
    let application = infer_application(
        domain_descriptor,
        model_descriptor.clone(),
        &fields,
        &outline.operation_lines,
        &outline.views,
        &outline.navigation_lines,
        &outline.permission_lines,
        &mut factory,
    );
    let (inference_decisions, reused) = factory.finish();
    let blueprint = Blueprint {
        source_text: owned(text),
        requirements,
        structs: vec![StructDefinition { descriptor: model_descriptor, fields }],
        enums: Vec::new(),
        functions,
        application,
        capabilities,
        bindings,
        inference_decisions,
        defaults,
    };
    let mut metrics = InferenceMetrics::deterministic("mother_tongue");
    metrics.reused_semantics = reused;
    let res = InferenceResult { blueprint, diagnostics, metrics };
    proof {
        let f0 = initial_factory(previous_value(previous_blueprint));
        let model = o.model.unwrap();
        let (f1, md) = describe_step(f0, model, None);
        let (f2, dd) = describe_step(f1, domain_name(o), None);
        let ps = parsed_fields(o.fields);
        let (f3, field_descs) = describe_all(f2, field_names(ps));
        let (f4, req_descs) = describe_all(f3, o.requirements);
        assert(f4 == after_requirements);
        let fields_s = res.blueprint.structs@[0].fields@;
        let (f5, acq_descs) = describe_each(f4, acquisition_requests(fields_s, o.acquisition));
        let (f6, fn_d) = describe_step(f5, "获取并校验"@ + model, Some("process_telemetry"@));
        let (f7, input_d) = describe_step(f6, "原始数据"@, Some("source_values"@));
        let f8 = if o.acquisition.len() > 0 { f7 } else { f4 };
        assert(f8 == before_application);
        assert(inference_failure(source_text@) is None);
        let b = res.blueprint;
        let strict = strict_requirements(o.requirements);
        assert(b.structs@[0].descriptor@ == md);
        assert(b.application.domain.descriptor@ == dd);
        assert(forall|i: int| 0 <= i < fields_s.len() ==> field_matches(#[trigger] fields_s[i], ps[i], strict, field_descs[i]));
        assert(b.defaults@.map_values(|d: AppliedDefault| default_view(d)) == all_defaults(ps, strict));
        let model_d = b.structs@[0].descriptor;
        let acquiring_s = o.acquisition.len() > 0;
        assert(acquiring_s ==> acquisition_match(model_d, fields_s, o.acquisition, b.capabilities@, b.bindings@, acq_descs));
        assert(acquiring_s ==> b.functions@[0].descriptor@ == fn_d);
        let app = b.application;
        let domain_d = app.domain.descriptor;
        let op_plan = operation_plan(model, o.operations);
        let (f9, op_descs) = describe_all(f8, plan_names(op_plan));
        let v_plan = view_plan(model, o.views);
        let (f10, view_descs) = describe_all(f9, view_names(v_plan));
        let (f11, perm_descs) = describe_all(f10, permission_actors(o.permissions));
        assert(operations_match(app.operations@, model_d, op_plan, op_descs));
        assert(views_match(app.views@, domain_d, model_d, fields_s, app.operations@, v_plan, view_descs));
        assert(b.inference_decisions@.map_values(|d: crate::blueprint::InferenceDecision| d@) == f11.decisions);
        assert(diagnostics_view(res.diagnostics@) == field_warnings(ps) + if acquiring_s {
            unmapped_errors(fields_s, o.acquisition) + missing_capability_errors(o.acquisition)
        } else {
            Seq::empty()
        });
        assert(inferred(res, source_text@, f0));
    }
    Ok(res)
}

/// Inferring with a previous blueprint keeps the descriptors it knows: the
/// model and every field whose name the previous blueprint records get the
/// descriptor recorded under that name, so their codes stay stable.
pub proof fn lemma_previous_descriptors_kept(res: InferenceResult, source: Seq<char>, previous: Blueprint)
    requires
        inference_outcome(Ok(res), source, Some(previous)),
    ensures
        ({
            let o = outline_of(trim(source));
            let known = keyed(collected_descriptors(previous));
            let ps = parsed_fields(o.fields);
            let fields = res.blueprint.structs@[0].fields@;
            &&& (latest(known, o.model.unwrap()) matches Some(d) ==> res.blueprint.structs@[0].descriptor@ == d@)
            &&& forall|i: int|
                0 <= i < fields.len() && (latest(known, ps[i].native_name) is Some) ==> (#[trigger] fields[i]).descriptor@
                    == latest(known, ps[i].native_name).unwrap()@
        }),
{
    let f0 = initial_factory(Some(previous));
    let o = outline_of(trim(source));
    let model = o.model.unwrap();
    let (f1, md) = describe_step(f0, model, None);
    let (f2, dd) = describe_step(f1, domain_name(o), None);
    let ps = parsed_fields(o.fields);
    let names = field_names(ps);
    let (f3, field_descs) = describe_all(f2, names);
    let fields = res.blueprint.structs@[0].fields@;
    assert forall|i: int|
        0 <= i < fields.len() && (latest(f0.previous, ps[i].native_name) is Some) implies (#[trigger] fields[i]).descriptor@
            == latest(f0.previous, ps[i].native_name).unwrap()@ by {
        assert(names[i] == ps[i].native_name);
        lemma_describe_all_known(f2, names, i);
    }
}

/// Recompiling a source with the blueprint it produced keeps the descriptor
/// of its model and of every field, so their codes do not change, provided
/// that blueprint gives each name one descriptor.
pub proof fn lemma_recompiling_keeps_descriptors(first: InferenceResult, second: InferenceResult, source: Seq<char>)
    requires
        inference_outcome(Ok(first), source, None),
        inference_outcome(Ok(second), source, Some(first.blueprint)),
        consistent_names(collected_descriptors(first.blueprint)),
    ensures
        second.blueprint.structs@[0].descriptor@ == first.blueprint.structs@[0].descriptor@,
        second.blueprint.structs@[0].fields@.len() == first.blueprint.structs@[0].fields@.len(),
        forall|i: int|
            0 <= i < first.blueprint.structs@[0].fields@.len() ==> (#[trigger] second.blueprint.structs@[0].fields@[i]).descriptor@
                == first.blueprint.structs@[0].fields@[i].descriptor@,
{
    let b1 = first.blueprint;
    let f0 = initial_factory(None);
    let o = outline_of(trim(source));
    let model = o.model.unwrap();
    let (f1, md) = describe_step(f0, model, None);
    lemma_describe_step_name(f0, model, None);
    let (f2, dd) = describe_step(f1, domain_name(o), None);
    lemma_describe_step_name(f1, domain_name(o), None);
    let ps = parsed_fields(o.fields);
    let names = field_names(ps);
    lemma_describe_all_names(f2, names);
    let cd = collected_descriptors(b1);
    let known = keyed(cd);
    let n: int = b1.requirements@.len() as int;
    let s1 = b1.structs@[0];
    assert(inferred(first, source, f0));
    assert(b1.structs@.len() == 1);
    assert(b1.structs@.last() == s1);
    assert(b1.structs@.drop_last() =~= Seq::<StructDefinition>::empty());
    assert(crate::inference::factory::struct_descriptors(b1.structs@.drop_last()) == Seq::<SemanticDescriptor>::empty());
    assert(crate::inference::factory::struct_descriptors(b1.structs@) =~= seq![s1.descriptor]
        + crate::inference::factory::descriptors_of(s1.fields@));
    assert(cd[n] == s1.descriptor);
    lemma_latest_keyed_found(cd, n);
    lemma_previous_descriptors_kept(second, source, b1);
    let fields1 = s1.fields@;
    assert forall|i: int| 0 <= i < fields1.len() implies (#[trigger] second.blueprint.structs@[0].fields@[i]).descriptor@
        == fields1[i].descriptor@ by {
        assert(cd[n + 1 + i] == fields1[i].descriptor);
        assert(names[i] == ps[i].native_name);
        lemma_latest_keyed_found(cd, n + 1 + i);
    }
}

/// The descriptor requests an inference of `source` makes, in order, given the
/// fields it declares: the model, the domain, the fields, the requirements, the
/// acquisition section with its function (when it has lines), then the
/// operations, views and permissions.
pub open spec fn inference_requests(source: Seq<char>, fields: Seq<FieldDefinition>) -> Seq<(Seq<char>, Option<Seq<char>>)> {
    let o = outline_of(trim(source));
    let model = o.model.unwrap();
    let acquisition = if o.acquisition.len() > 0 {
        acquisition_requests(fields, o.acquisition) + seq![
            ("获取并校验"@ + model, Some("process_telemetry"@)),
            ("原始数据"@, Some("source_values"@)),
        ]
    } else {
        Seq::empty()
    };
    seq![(model, None::<Seq<char>>), (domain_name(o), None::<Seq<char>>)] + unstemmed(field_names(parsed_fields(o.fields)))
        + unstemmed(o.requirements) + acquisition + unstemmed(plan_names(operation_plan(model, o.operations)))
        + unstemmed(view_names(view_plan(model, o.views))) + unstemmed(permission_actors(o.permissions))
}

/// An inference describes exactly its requests: its decisions and reuse count
/// are those of describing them in turn, and the model and fields carry the
/// descriptors the first requests give.
proof fn lemma_inferred_requests(res: InferenceResult, source: Seq<char>, f0: FactoryView)
    requires
        inferred(res, source, f0),
    ensures
        ({
            let fields = res.blueprint.structs@[0].fields@;
            let (f, ds) = describe_each(f0, inference_requests(source, fields));
            &&& res.blueprint.inference_decisions@.map_values(|d: crate::blueprint::InferenceDecision| d@) == f.decisions
            &&& res.metrics.reused_semantics == f.reused
            &&& ds.len() == inference_requests(source, fields).len()
            &&& res.blueprint.structs@[0].descriptor@ == ds[0]
            &&& forall|i: int| 0 <= i < fields.len() ==> (#[trigger] fields[i]).descriptor@ == ds[2 + i]
        }),
{
    let t = trim(source);
    let o = outline_of(t);
    let model = o.model.unwrap();
    let b = res.blueprint;
    let fields = b.structs@[0].fields@;
    let (f1, md) = describe_step(f0, model, None);
    let (f2, dd) = describe_step(f1, domain_name(o), None);
    let ps = parsed_fields(o.fields);
    let (f3, field_descs) = describe_all(f2, field_names(ps));
    let (f4, req_descs) = describe_all(f3, o.requirements);
    let acquiring = o.acquisition.len() > 0;
    let (f5, acq_descs) = describe_each(f4, acquisition_requests(fields, o.acquisition));
    let (f6, fn_d) = describe_step(f5, "获取并校验"@ + model, Some("process_telemetry"@));
    let (f7, input_d) = describe_step(f6, "原始数据"@, Some("source_values"@));
    let f8 = if acquiring {
        f7
    } else {
        f4
    };
    let op_plan = operation_plan(model, o.operations);
    let (f9, op_descs) = describe_all(f8, plan_names(op_plan));
    let v_plan = view_plan(model, o.views);
    let (f10, view_descs) = describe_all(f9, view_names(v_plan));
    let (f11, perm_descs) = describe_all(f10, permission_actors(o.permissions));

    let a = seq![(model, None::<Seq<char>>), (domain_name(o), None::<Seq<char>>)];
    assert(a.drop_last() =~= seq![(model, None::<Seq<char>>)]);
    assert(a.drop_last().drop_last() =~= Seq::<(Seq<char>, Option<Seq<char>>)>::empty());
    assert(describe_each(f0, a.drop_last().drop_last()) == (f0, Seq::<DescriptorView>::empty()));
    assert(a.drop_last().last() == (model, None::<Seq<char>>));
    assert(describe_each(f0, a.drop_last()).1 =~= seq![md]);
    assert(describe_each(f0, a.drop_last()).0 == f1);
    assert(a.last() == (domain_name(o), None::<Seq<char>>));
    assert(describe_each(f0, a).0 == f2);
    assert(describe_each(f0, a).1 =~= seq![md, dd]);
    let fr = unstemmed(field_names(ps));
    lemma_describe_all_as_each(f2, field_names(ps));
    lemma_describe_each_append(f0, a, fr);
    let rr = unstemmed(o.requirements);
    lemma_describe_all_as_each(f3, o.requirements);
    lemma_describe_each_append(f0, a + fr, rr);
    let acq = if acquiring {
        acquisition_requests(fields, o.acquisition) + seq![
            ("获取并校验"@ + model, Some("process_telemetry"@)),
            ("原始数据"@, Some("source_values"@)),
        ]
    } else {
        Seq::empty()
    };
    if acquiring {
        let tail = seq![
            ("获取并校验"@ + model, Some("process_telemetry"@)),
            ("原始数据"@, Some("source_values"@)),
        ];
        assert(tail.drop_last() =~= seq![("获取并校验"@ + model, Some("process_telemetry"@))]);
        assert(tail.drop_last().drop_last() =~= Seq::<(Seq<char>, Option<Seq<char>>)>::empty());
        assert(describe_each(f5, tail.drop_last().drop_last()) == (f5, Seq::<DescriptorView>::empty()));
        assert(describe_each(f5, tail.drop_last()).0 == f6);
        assert(describe_each(f5, tail).0 == f7);
        lemma_describe_each_append(f4, acquisition_requests(fields, o.acquisition), tail);
        assert(describe_each(f4, acq).0 == f8);
    } else {
        assert(describe_each(f4, acq).0 == f8);
    }
    lemma_describe_each_append(f0, a + fr + rr, acq);
    let opr = unstemmed(plan_names(op_plan));
    lemma_describe_all_as_each(f8, plan_names(op_plan));
    lemma_describe_each_append(f0, a + fr + rr + acq, opr);
    let vr = unstemmed(view_names(v_plan));
    lemma_describe_all_as_each(f9, view_names(v_plan));
    lemma_describe_each_append(f0, a + fr + rr + acq + opr, vr);
    let pr = unstemmed(permission_actors(o.permissions));
    lemma_describe_all_as_each(f10, permission_actors(o.permissions));
    lemma_describe_each_append(f0, a + fr + rr + acq + opr + vr, pr);
    let reqs = a + fr + rr + acq + opr + vr + pr;
    assert(reqs == inference_requests(source, fields));
    assert(describe_each(f0, reqs).0 == f11);
    lemma_describe_each_len(f0, reqs);
    let ds = describe_each(f0, reqs).1;
    lemma_describe_each_len(f0, a);
    lemma_describe_each_len(f0, a + fr);
    lemma_describe_all_len(f2, field_names(ps));
    let d_af = describe_each(f0, a + fr).1;
    assert(d_af == seq![md, dd] + field_descs);
    assert(d_af[0] == md);
    assert forall|i: int| 0 <= i < fields.len() implies (#[trigger] fields[i]).descriptor@ == ds[2 + i] by {
        assert(d_af[2 + i] == field_descs[i]);
    }
    assert(ds[0] == md);
}

/// The first compilation of `source` gives every name one descriptor: all its
/// descriptions of a name agree, and its blueprint records each name it
/// describes with the descriptor that description gave.
pub open spec fn one_descriptor_per_name(first: InferenceResult, source: Seq<char>) -> bool {
    let ds = describe_each(initial_factory(None), inference_requests(source, first.blueprint.structs@[0].fields@)).1;
    let known = keyed(collected_descriptors(first.blueprint));
    &&& forall|j: int, k: int|
        0 <= j < ds.len() && 0 <= k < ds.len() && #[trigger] ds[j].native_name == #[trigger] ds[k].native_name
            ==> ds[j] == ds[k]
    &&& forall|k: int| 0 <= k < ds.len() ==> (latest(known, #[trigger] ds[k].native_name) matches Some(d) ==> d@ == ds[k])
}

/// With one descriptor per name, recompiling keeps the descriptors of the model
/// and of every field.
proof fn lemma_model_and_fields_kept(first: InferenceResult, second: InferenceResult, source: Seq<char>)
    requires
        inference_outcome(Ok(first), source, None),
        inference_outcome(Ok(second), source, Some(first.blueprint)),
        one_descriptor_per_name(first, source),
    ensures
        second.blueprint.structs@[0].descriptor@ == first.blueprint.structs@[0].descriptor@,
        second.blueprint.structs@[0].fields@.len() == first.blueprint.structs@[0].fields@.len(),
        forall|i: int|
            0 <= i < first.blueprint.structs@[0].fields@.len() ==> (#[trigger] second.blueprint.structs@[0].fields@[i]).descriptor@
                == first.blueprint.structs@[0].fields@[i].descriptor@,
        latest(keyed(collected_descriptors(first.blueprint)), outline_of(trim(source)).model.unwrap()) is Some,
{
    let b1 = first.blueprint;
    let f0 = initial_factory(None);
    let o = outline_of(trim(source));
    let model = o.model.unwrap();
    let fields1 = b1.structs@[0].fields@;
    let fields2 = second.blueprint.structs@[0].fields@;
    let reqs = inference_requests(source, fields1);
    lemma_inferred_requests(first, source, f0);
    let ds = describe_each(f0, reqs).1;
    let cd = collected_descriptors(b1);
    let known = keyed(cd);
    let (f1, md) = describe_step(f0, model, None);
    lemma_describe_step_name(f0, model, None);
    let (f2, dd) = describe_step(f1, domain_name(o), None);
    lemma_describe_step_name(f1, domain_name(o), None);
    let ps = parsed_fields(o.fields);
    let names = field_names(ps);
    lemma_describe_all_names(f2, names);
    let n: int = b1.requirements@.len() as int;
    let s1 = b1.structs@[0];
    assert(inferred(first, source, f0));
    assert(b1.structs@.len() == 1);
    assert(b1.structs@.last() == s1);
    assert(b1.structs@.drop_last() =~= Seq::<StructDefinition>::empty());
    assert(crate::inference::factory::struct_descriptors(b1.structs@.drop_last()) == Seq::<SemanticDescriptor>::empty());
    assert(crate::inference::factory::struct_descriptors(b1.structs@) =~= seq![s1.descriptor]
        + crate::inference::factory::descriptors_of(s1.fields@));
    assert(cd[n] == s1.descriptor);
    lemma_latest_keyed_found(cd, n);
    lemma_previous_descriptors_kept(second, source, b1);
    assert(ds[0] == s1.descriptor@);
    assert(latest(known, ds[0].native_name) is Some);
    assert forall|i: int| 0 <= i < fields1.len() implies (#[trigger] fields2[i]).descriptor@ == fields1[i].descriptor@ by {
        assert(cd[n + 1 + i] == fields1[i].descriptor);
        assert(names[i] == ps[i].native_name);
        lemma_latest_keyed_found(cd, n + 1 + i);
        assert(fields1[i].descriptor@ == ds[2 + i]);
        assert(latest(known, ds[2 + i].native_name) is Some);
    }
}

/// With one descriptor per name, the first blueprint remembers, for every
/// request of the inference, the descriptor and decision its first
/// description gave.
proof fn lemma_first_blueprint_agrees(first: InferenceResult, source: Seq<char>)
    requires
        inference_outcome(Ok(first), source, None),
        one_descriptor_per_name(first, source),
    ensures
        ({
            let g0 = initial_factory(Some(first.blueprint));
            let reqs = inference_requests(source, first.blueprint.structs@[0].fields@);
            agrees_with(g0.previous, g0.previous_decisions, reqs, describe_each(initial_factory(None), reqs).1)
        }),
{
    let b1 = first.blueprint;
    let f0 = initial_factory(None);
    let g0 = initial_factory(Some(b1));
    let reqs = inference_requests(source, b1.structs@[0].fields@);
    lemma_inferred_requests(first, source, f0);
    lemma_first_description(f0, reqs);
    let ds = describe_each(f0, reqs).1;
    let views = b1.inference_decisions@.map_values(|d: crate::blueprint::InferenceDecision| d@);
    assert(views =~= ds.map_values(|d: DescriptorView| first_decision(d)));
    assert forall|k: int| #![trigger reqs[k]] 0 <= k < reqs.len() implies (latest(g0.previous, reqs[k].0) matches Some(d)
        ==> d@ == ds[k] && (latest(g0.previous_decisions, reqs[k].0) matches Some(x) ==> x@ == first_decision(ds[k]))) by {
        let name = reqs[k].0;
        assert(ds[k].native_name == name);
        lemma_latest_found(g0.previous_decisions, name);
        if latest(g0.previous_decisions, name) is Some {
            let x = latest(g0.previous_decisions, name).unwrap();
            let entries = keyed_decisions(b1.inference_decisions@);
            let j = choose|j: int| 0 <= j < entries.len() && #[trigger] entries[j] == (name, x);
            assert(entries[j] == (b1.inference_decisions@[j].subject@, b1.inference_decisions@[j]));
            assert(views[j] == x@);
            assert(views[j] == first_decision(ds[j]));
            assert(ds[j].native_name == ds[k].native_name);
        }
    }
}

/// The content of a field: its descriptor, type, whether it is required, its
/// unit, its validation rules and its metadata.
pub open spec fn field_value(f: FieldDefinition) -> (
    DescriptorView,
    FieldType,
    bool,
    Option<Seq<char>>,
    Seq<RuleView>,
    Seq<(Seq<char>, Seq<char>, Seq<char>)>,
) {
    (
        f.descriptor@,
        f.field_type,
        f.required,
        opt_text(f.unit),
        f.validations@.map_values(|v: ValidationRule| rule_view(v)),
        f.domain_metadata@.map_values(|m: DomainMetadata| metadata_view(m)),
    )
}

/// The content of a structure: its descriptor and the content of its fields.
pub open spec fn struct_value(s: StructDefinition) -> (DescriptorView, Seq<(
    DescriptorView,
    FieldType,
    bool,
    Option<Seq<char>>,
    Seq<RuleView>,
    Seq<(Seq<char>, Seq<char>, Seq<char>)>,
)>) {
    (s.descriptor@, s.fields@.map_values(|f: FieldDefinition| field_value(f)))
}

/// Two inferences of the same source whose model and fields carry the same
/// descriptors infer the same structures.
proof fn lemma_same_structs(first: InferenceResult, second: InferenceResult, source: Seq<char>, f0: FactoryView, g0: FactoryView)
    requires
        inferred(first, source, f0),
        inferred(second, source, g0),
        second.blueprint.structs@[0].descriptor@ == first.blueprint.structs@[0].descriptor@,
        second.blueprint.structs@[0].fields@.len() == first.blueprint.structs@[0].fields@.len(),
        forall|i: int|
            0 <= i < first.blueprint.structs@[0].fields@.len() ==> (#[trigger] second.blueprint.structs@[0].fields@[i]).descriptor@
                == first.blueprint.structs@[0].fields@[i].descriptor@,
    ensures
        second.blueprint.structs@.map_values(|s: StructDefinition| struct_value(s)) == first.blueprint.structs@.map_values(
            |s: StructDefinition| struct_value(s),
        ),
{
    let o = outline_of(trim(source));
    let ps = parsed_fields(o.fields);
    let strict = strict_requirements(o.requirements);
    let s1 = first.blueprint.structs@[0];
    let s2 = second.blueprint.structs@[0];
    let fv1 = s1.fields@.map_values(|f: FieldDefinition| field_value(f));
    let fv2 = s2.fields@.map_values(|f: FieldDefinition| field_value(f));
    assert forall|i: int| 0 <= i < fv1.len() implies fv2[i] == fv1[i] by {
        let a = s1.fields@[i];
        let b = s2.fields@[i];
        assert(a.descriptor@ == b.descriptor@);
        assert(a.field_type == ps[i].field_type && b.field_type == ps[i].field_type);
        assert(a.validations@.map_values(|v: ValidationRule| rule_view(v)) == b.validations@.map_values(
            |v: ValidationRule| rule_view(v),
        ));
        assert(a.domain_metadata@.map_values(|m: DomainMetadata| metadata_view(m)) == b.domain_metadata@.map_values(
            |m: DomainMetadata| metadata_view(m),
        ));
    }
    assert(fv1 =~= fv2);
    assert(second.blueprint.structs@.map_values(|s: StructDefinition| struct_value(s)) =~= first.blueprint.structs@.map_values(
        |s: StructDefinition| struct_value(s),
    ));
}

/// Recompiling a source with the blueprint its first compilation produced
/// takes the same inference decisions, keeps the descriptors of the model and
/// of every field, and reuses previous semantics, provided the first
/// compilation gave each name one descriptor.
#[verifier::rlimit(100)]
#[verifier::spinoff_prover]
pub proof fn lemma_recompiling_reuses_inference(first: InferenceResult, second: InferenceResult, source: Seq<char>)
    requires
        inference_outcome(Ok(first), source, None),
        inference_outcome(Ok(second), source, Some(first.blueprint)),
        one_descriptor_per_name(first, source),
    ensures
        second.blueprint.inference_decisions@.map_values(|d: crate::blueprint::InferenceDecision| d@)
            == first.blueprint.inference_decisions@.map_values(|d: crate::blueprint::InferenceDecision| d@),
        second.metrics.reused_semantics > 0,
        second.blueprint.structs@.map_values(|s: StructDefinition| struct_value(s)) == first.blueprint.structs@.map_values(
            |s: StructDefinition| struct_value(s),
        ),
        second.blueprint.structs@[0].descriptor@ == first.blueprint.structs@[0].descriptor@,
        second.blueprint.structs@[0].fields@.len() == first.blueprint.structs@[0].fields@.len(),
        forall|i: int|
            0 <= i < first.blueprint.structs@[0].fields@.len() ==> (#[trigger] second.blueprint.structs@[0].fields@[i]).descriptor@
                == first.blueprint.structs@[0].fields@[i].descriptor@,
{
    let b1 = first.blueprint;
    let f0 = initial_factory(None);
    let g0 = initial_factory(Some(b1));
    let o = outline_of(trim(source));
    let fields1 = b1.structs@[0].fields@;
    let fields2 = second.blueprint.structs@[0].fields@;
    let reqs = inference_requests(source, fields1);
    lemma_model_and_fields_kept(first, second, source);
    lemma_acquisition_requests_by_descriptors(fields1, fields2, o.acquisition);
    assert(inference_requests(source, fields2) == reqs);
    lemma_inferred_requests(first, source, f0);
    lemma_inferred_requests(second, source, g0);
    lemma_first_blueprint_agrees(first, source);
    lemma_replay(f0, g0, reqs);
    lemma_first_description(f0, reqs);
    // The model is reused at the first request, and reuse never goes down.
    let first_request = seq![reqs[0]];
    assert(reqs =~= first_request + reqs.skip(1));
    lemma_describe_each_append(g0, first_request, reqs.skip(1));
    assert(first_request.drop_last() =~= Seq::<(Seq<char>, Option<Seq<char>>)>::empty());
    assert(reqs[0].0 == o.model.unwrap());
    assert(describe_each(g0, first_request.drop_last()).0 == g0);
    assert(first_request.last() == reqs[0]);
    assert(latest(g0.previous, reqs[0].0) is Some);
    assert(g0.reused == 0);
    assert(describe_step(g0, reqs[0].0, reqs[0].1).0.reused == 1);
    assert(describe_each(g0, first_request).0.reused == 1);
    lemma_describe_each_reused(describe_each(g0, first_request).0, reqs.skip(1));
    lemma_same_structs(first, second, source, f0, g0);
}

/// A field renamed to a name the previous blueprint does not know is encoded
/// afresh from the new name's stem.  When the field's previous code is not
/// that stem and does not begin with it and an underscore, the field's code
/// changes and the change is reported as a breaking change.
pub proof fn lemma_renamed_field_reported(second: InferenceResult, source: Seq<char>, previous: Blueprint, i: int)
    requires
        inference_outcome(Ok(second), source, Some(previous)),
        previous.structs@.len() > 0,
        0 <= i < previous.structs@[0].fields@.len(),
        0 <= i < second.blueprint.structs@[0].fields@.len(),
        ({
            let name = parsed_fields(outline_of(trim(source)).fields)[i].native_name;
            let stem = translate_name(name);
            let old_code = previous.structs@[0].fields@[i].descriptor.code@;
            &&& latest(keyed(collected_descriptors(previous)), name) is None
            &&& old_code != stem
            &&& !starts_with(old_code, stem + seq!['_'])
        }),
    ensures
        ({
            let old_field = previous.structs@[0].fields@[i].descriptor;
            let new_field = second.blueprint.structs@[0].fields@[i].descriptor;
            &&& new_field.native_name@ == parsed_fields(outline_of(trim(source)).fields)[i].native_name
            &&& new_field.code@ != old_field.code@
            &&& breaking_changes(previous, second.blueprint).contains(
                reencoded(old_field.native_name@, old_field.code@, new_field.native_name@, new_field.code@),
            )
        }),
{
    let f0 = initial_factory(Some(previous));
    let o = outline_of(trim(source));
    let model = o.model.unwrap();
    let (f1, md) = describe_step(f0, model, None);
    let (f2, dd) = describe_step(f1, domain_name(o), None);
    let ps = parsed_fields(o.fields);
    let names = field_names(ps);
    assert(inferred(second, source, f0));
    assert(f2.previous == f0.previous);
    assert(names[i] == ps[i].native_name);
    lemma_describe_all_fresh(f2, names, i);
    let d = describe_all(f2, names).1[i];
    let stem = translate_name(names[i]);
    let old_code = previous.structs@[0].fields@[i].descriptor.code@;
    let new_field = second.blueprint.structs@[0].fields@[i];
    assert(new_field.descriptor@ == d);
    if d.code != stem {
        assert((stem + seq!['_'] + short_hash(names[i])).take(stem.len() + 1 as int) =~= stem + seq!['_']);
    }
    assert(second.blueprint.structs@.len() == 1);
    lemma_reencoded_names_reported(previous, second.blueprint, 0, i);
}

/// In an inferred application each table view offers every create operation
/// and each form view every update operation as an action, and every action of
/// a view is one of the application's operations.
pub proof fn lemma_inferred_views_offer_actions(res: InferenceResult, source: Seq<char>, previous: Option<Blueprint>)
    requires
        inference_outcome(Ok(res), source, previous),
    ensures
        ({
            let views = res.blueprint.application.views@;
            let ops = res.blueprint.application.operations@;
            &&& forall|i: int, j: int|
                0 <= i < views.len() && 0 <= j < ops.len() && (((#[trigger] views[i]).layout == ViewLayout::Table
                    && (#[trigger] ops[j]).intent == OperationIntent::Create) || (views[i].layout == ViewLayout::Form
                    && ops[j].intent == OperationIntent::Update)) ==> exists|k: int|
                    0 <= k < views[i].actions@.len() && #[trigger] views[i].actions@[k].operation == ops[j].descriptor
            &&& forall|i: int, k: int|
                0 <= i < views.len() && 0 <= k < (#[trigger] views[i]).actions@.len() ==> exists|j: int|
                    0 <= j < ops.len() && #[trigger] views[i].actions@[k].operation == ops[j].descriptor
        }),
{
    let f0 = initial_factory(previous);
    let o = outline_of(trim(source));
    let model = o.model.unwrap();
    let b = res.blueprint;
    let app = b.application;
    assert(inferred(res, source, f0));
    let (f1, md) = describe_step(f0, model, None);
    let (f2, dd) = describe_step(f1, domain_name(o), None);
    let ps = parsed_fields(o.fields);
    let (f3, field_descs) = describe_all(f2, field_names(ps));
    let (f4, req_descs) = describe_all(f3, o.requirements);
    let acquiring = o.acquisition.len() > 0;
    let (f5, acq_descs) = describe_each(f4, acquisition_requests(b.structs@[0].fields@, o.acquisition));
    let (f6, fn_d) = describe_step(f5, "获取并校验"@ + model, Some("process_telemetry"@));
    let (f7, input_d) = describe_step(f6, "原始数据"@, Some("source_values"@));
    let f8 = if acquiring {
        f7
    } else {
        f4
    };
    let op_plan = operation_plan(model, o.operations);
    let (f9, op_descs) = describe_all(f8, plan_names(op_plan));
    let v_plan = view_plan(model, o.views);
    let (f10, view_descs) = describe_all(f9, view_names(v_plan));
    assert(views_match(app.views@, app.domain.descriptor, b.structs@[0].descriptor, b.structs@[0].fields@, app.operations@, v_plan, view_descs));
    lemma_views_offer_actions(app.views@, app.domain.descriptor, b.structs@[0].descriptor, b.structs@[0].fields@, app.operations@, v_plan, view_descs);
}

/// The deterministic inference engine for Chinese product sources; it needs no
/// remote model and serves as the fallback when none is available.
#[derive(Clone, Copy, Debug, Default)]
pub struct MotherTongueInferenceEngine;

impl MotherTongueInferenceEngine {
    /// Infers the blueprint of `source_text`, reusing the descriptors of
    /// `previous_blueprint`.
    pub fn infer(
        &self,
        source_text: &str,
        previous_blueprint: Option<&Blueprint>,
    ) -> (r: Result<InferenceResult, InferenceError>)
        requires
            outline_of(trim(source_text@)).views.len() <= 214748364,
        ensures
            inference_outcome(r, source_text@, previous_value(previous_blueprint)),
    {
        infer_chinese_blueprint(source_text, previous_blueprint)
    }
}

} // verus!
