//! Descriptors for mother-tongue names: reused from a previous blueprint when the
//! name is known there, otherwise derived from an English stem and encoded.
use vstd::prelude::*;

use crate::blueprint::{
    Blueprint, CapabilityRequirement, DecisionView, DomainOperation, FunctionDefinition,
    InferenceDecision, PermissionDefinition, Requirement, StructDefinition, ViewDefinition,
};
use crate::descriptor::{
    encoded_code, inferred_stem, normalize_inferred_stem, short_hash, DescriptorEncoder, DescriptorView,
    SemanticDescriptor,
};
use crate::digest::is_hex_text;
use crate::text::{concat4, owned, str_eq};
use crate::textmap::{latest, TextMap};

verus! {

/// Something that carries a semantic descriptor.
pub trait HasDescriptor {
    spec fn described(&self) -> SemanticDescriptor;

    fn descriptor_ref(&self) -> (r: &SemanticDescriptor)
        ensures
            *r == self.described(),
    ;
}

impl HasDescriptor for Requirement {
    open spec fn described(&self) -> SemanticDescriptor {
        self.descriptor
    }

    fn descriptor_ref(&self) -> (r: &SemanticDescriptor) {
        &self.descriptor
    }
}

impl HasDescriptor for StructDefinition {
    open spec fn described(&self) -> SemanticDescriptor {
        self.descriptor
    }

    fn descriptor_ref(&self) -> (r: &SemanticDescriptor) {
        &self.descriptor
    }
}

impl HasDescriptor for crate::blueprint::FieldDefinition {
    open spec fn described(&self) -> SemanticDescriptor {
        self.descriptor
    }

    fn descriptor_ref(&self) -> (r: &SemanticDescriptor) {
        &self.descriptor
    }
}

impl HasDescriptor for FunctionDefinition {
    open spec fn described(&self) -> SemanticDescriptor {
        self.descriptor
    }

    fn descriptor_ref(&self) -> (r: &SemanticDescriptor) {
        &self.descriptor
    }
}

impl HasDescriptor for DomainOperation {
    open spec fn described(&self) -> SemanticDescriptor {
        self.descriptor
    }

    fn descriptor_ref(&self) -> (r: &SemanticDescriptor) {
        &self.descriptor
    }
}

impl HasDescriptor for ViewDefinition {
    open spec fn described(&self) -> SemanticDescriptor {
        self.descriptor
    }

    fn descriptor_ref(&self) -> (r: &SemanticDescriptor) {
        &self.descriptor
    }
}

impl HasDescriptor for PermissionDefinition {
    open spec fn described(&self) -> SemanticDescriptor {
        self.descriptor
    }

    fn descriptor_ref(&self) -> (r: &SemanticDescriptor) {
        &self.descriptor
    }
}

impl HasDescriptor for CapabilityRequirement {
    open spec fn described(&self) -> SemanticDescriptor {
        self.descriptor
    }

    fn descriptor_ref(&self) -> (r: &SemanticDescriptor) {
        &self.descriptor
    }
}

/// The descriptors of a list of items.
pub open spec fn descriptors_of<T: HasDescriptor>(items: Seq<T>) -> Seq<SemanticDescriptor> {
    items.map_values(|x: T| x.described())
}

/// Descriptors keyed by their native name.
pub open spec fn keyed(ds: Seq<SemanticDescriptor>) -> Seq<(Seq<char>, SemanticDescriptor)> {
    ds.map_values(|d: SemanticDescriptor| (d.native_name@, d))
}

/// The descriptors of structures, each followed by those of its fields.
pub open spec fn struct_descriptors(structs: Seq<StructDefinition>) -> Seq<SemanticDescriptor>
    decreases structs.len(),
{
    if structs.len() == 0 {
        Seq::empty()
    } else {
        struct_descriptors(structs.drop_last()) + seq![structs.last().descriptor]
            + descriptors_of(structs.last().fields@)
    }
}

/// Every descriptor of a blueprint that a later compilation may reuse, in the
/// order they are recorded: requirements, structures and fields, functions, the
/// domain, operations, views, permissions, capabilities and binding sources.
pub open spec fn collected_descriptors(b: Blueprint) -> Seq<SemanticDescriptor> {
    descriptors_of(b.requirements@) + struct_descriptors(b.structs@) + descriptors_of(b.functions@)
        + seq![b.application.domain.descriptor] + descriptors_of(b.application.operations@)
        + descriptors_of(b.application.views@) + descriptors_of(b.application.permissions@)
        + descriptors_of(b.capabilities@) + b.bindings@.map_values(
        |x: crate::blueprint::FieldBinding| x.source,
    )
}

fn insert_descriptors<T: HasDescriptor>(items: &Vec<T>, target: &mut TextMap<SemanticDescriptor>)
    ensures
        final(target)@ == old(target)@ + keyed(descriptors_of(items@)),
{
    let mut i: usize = 0;
    assert(keyed(descriptors_of(items@.take(0))) =~= Seq::<(Seq<char>, SemanticDescriptor)>::empty());
    assert(old(target)@ + keyed(descriptors_of(items@.take(0))) =~= old(target)@);
    while i < items.len()
        invariant
            i <= items@.len(),
            target@ == old(target)@ + keyed(descriptors_of(items@.take(i as int))),
        decreases items@.len() - i,
    {
        let d = items[i].descriptor_ref();
        target.insert(d.native_name.clone(), d.clone());
        assert(keyed(descriptors_of(items@.take(i + 1))) =~= keyed(descriptors_of(items@.take(i as int))).push(
            (d.native_name@, *d),
        ));
        i = i + 1;
    }
    assert(items@.take(i as int) =~= items@);
}

/// Records every reusable descriptor of `blueprint` in `target`, keyed by native name.
pub fn collect_descriptors(blueprint: &Blueprint, target: &mut TextMap<SemanticDescriptor>)
    ensures
        final(target)@ == old(target)@ + keyed(collected_descriptors(*blueprint)),
{
    insert_descriptors(&blueprint.requirements, target);
    let ghost after_requirements = target@;
    let structs = &blueprint.structs;
    let mut i: usize = 0;
    assert(struct_descriptors(structs@.take(0)) =~= Seq::<SemanticDescriptor>::empty());
    assert(keyed(Seq::<SemanticDescriptor>::empty()) =~= Seq::<(Seq<char>, SemanticDescriptor)>::empty());
    assert(after_requirements + keyed(Seq::<SemanticDescriptor>::empty()) =~= after_requirements);
    while i < structs.len()
        invariant
            i <= structs@.len(),
            structs == &blueprint.structs,
            target@ == after_requirements + keyed(struct_descriptors(structs@.take(i as int))),
        decreases structs@.len() - i,
    {
        let definition = &structs[i];
        target.insert(definition.descriptor.native_name.clone(), definition.descriptor.clone());
        insert_descriptors(&definition.fields, target);
        assert(structs@.take(i + 1).drop_last() =~= structs@.take(i as int));
        assert(keyed(struct_descriptors(structs@.take(i + 1))) =~= keyed(struct_descriptors(structs@.take(i as int)))
            + seq![(definition.descriptor.native_name@, definition.descriptor)] + keyed(descriptors_of(definition.fields@)));
        i = i + 1;
    }
    assert(structs@.take(i as int) =~= structs@);
    insert_descriptors(&blueprint.functions, target);
    let domain = &blueprint.application.domain.descriptor;
    target.insert(domain.native_name.clone(), domain.clone());
    insert_descriptors(&blueprint.application.operations, target);
    insert_descriptors(&blueprint.application.views, target);
    insert_descriptors(&blueprint.application.permissions, target);
    insert_descriptors(&blueprint.capabilities, target);
    let ghost before_bindings = target@;
    let bindings = &blueprint.bindings;
    let mut j: usize = 0;
    assert(before_bindings + keyed(bindings@.take(0).map_values(|x: crate::blueprint::FieldBinding| x.source)) =~= before_bindings);
    while j < bindings.len()
        invariant
            j <= bindings@.len(),
            bindings == &blueprint.bindings,
            target@ == before_bindings + keyed(bindings@.take(j as int).map_values(|x: crate::blueprint::FieldBinding| x.source)),
        decreases bindings@.len() - j,
    {
        let source = &bindings[j].source;
        target.insert(source.native_name.clone(), source.clone());
        assert(keyed(bindings@.take(j + 1).map_values(|x: crate::blueprint::FieldBinding| x.source))
            =~= keyed(bindings@.take(j as int).map_values(|x: crate::blueprint::FieldBinding| x.source)).push((source.native_name@, *source)));
        j = j + 1;
    }
    assert(bindings@.take(j as int) =~= bindings@);
    assert(target@ =~= old(target)@ + keyed(collected_descriptors(*blueprint)));
}

/// Transliteration of Unicode text into ASCII, as the `deunicode` crate computes it.
pub uninterp spec fn spec_deunicode(s: Seq<char>) -> Seq<char>;

/// Calls `deunicode::deunicode`: an ASCII transliteration of `s` (characters it
/// cannot transliterate become `[?]`).
#[verifier::external_body]
fn transliterate(s: &str) -> (r: String)
    ensures
        r@ == spec_deunicode(s@),
{
    deunicode::deunicode(s)
}

/// The names whose English stem is fixed rather than inferred.
pub open spec fn known_stems() -> Seq<(Seq<char>, Seq<char>)> {
    seq![
        ("环境遥测"@, "environment_telemetry"@),
        ("环境采集"@, "environment_collection"@),
        ("温度"@, "temperature"@),
        ("湿度"@, "humidity"@),
        ("姓名"@, "name"@),
        ("年龄"@, "age"@),
        ("性别"@, "gender"@),
        ("用户"@, "user"@),
        ("模拟采集"@, "fixture_map"@),
    ]
}

/// The English stem of a mother-tongue name: its fixed stem when it has one,
/// otherwise the stem inferred from its transliteration.
pub open spec fn translate_name(native_name: Seq<char>) -> Seq<char> {
    match latest(known_stems(), native_name) {
        Some(stem) => stem,
        None => inferred_stem(spec_deunicode(native_name), native_name),
    }
}

fn known_stem(i: usize) -> (r: (&'static str, &'static str))
    requires
        i < 9,
    ensures
        r.0@ == known_stems()[i as int].0,
        r.1@ == known_stems()[i as int].1,
{
    match i {
        0 => ("环境遥测", "environment_telemetry"),
        1 => ("环境采集", "environment_collection"),
        2 => ("温度", "temperature"),
        3 => ("湿度", "humidity"),
        4 => ("姓名", "name"),
        5 => ("年龄", "age"),
        6 => ("性别", "gender"),
        7 => ("用户", "user"),
        _ => ("模拟采集", "fixture_map"),
    }
}

/// The English stem of a mother-tongue name.
pub fn translate_semantic_name(native_name: &str) -> (r: String)
    ensures
        r@ == translate_name(native_name@),
{
    let mut i: usize = 9;
    assert(known_stems().len() == 9);
    assert(known_stems().take(9) =~= known_stems());
    while i > 0
        invariant
            i <= 9,
            known_stems().len() == 9,
            latest(known_stems(), native_name@) == latest(known_stems().take(i as int), native_name@),
        decreases i,
    {
        let (name, stem) = known_stem(i - 1);
        assert(known_stems().take(i as int).drop_last() =~= known_stems().take(i - 1));
        if str_eq(name, native_name) {
            return owned(stem);
        }
        i = i - 1;
    }
    assert(known_stems().take(0) =~= Seq::<(Seq<char>, Seq<char>)>::empty());
    let transliterated = transliterate(native_name);
    normalize_inferred_stem(transliterated.as_str(), native_name)
}

/// The decision text recorded for a derived stem and code.
pub open spec fn decision_text(stem: Seq<char>, code: Seq<char>) -> Seq<char> {
    "推导英文语义 "@ + stem + "，编码为 "@ + code
}

/// The state of a descriptor factory.
pub ghost struct FactoryView {
    /// Descriptors of a previous blueprint, keyed by native name.
    pub previous: Seq<(Seq<char>, SemanticDescriptor)>,
    /// Decisions of a previous blueprint, keyed by subject.
    pub previous_decisions: Seq<(Seq<char>, InferenceDecision)>,
    /// The code claims of the encoder.
    pub claims: Seq<(Seq<char>, Seq<char>)>,
    /// The decisions taken so far.
    pub decisions: Seq<DecisionView>,
    /// How many names were reused from the previous blueprint (saturating).
    pub reused: u64,
}

/// One step of saturating counting.
pub open spec fn count_up(n: u64) -> u64 {
    if n < u64::MAX {
        (n + 1) as u64
    } else {
        n
    }
}

/// Describing `name` (with an optional preferred stem) in factory state `f`:
/// the new state and the descriptor.  A name known from the previous blueprint
/// keeps its previous descriptor; any other name is encoded from its stem.
pub open spec fn describe_step(f: FactoryView, name: Seq<char>, preferred: Option<Seq<char>>) -> (FactoryView, DescriptorView) {
    match latest(f.previous, name) {
        Some(prev) => {
            let decision = match latest(f.previous_decisions, name) {
                Some(d) => d@,
                None => DecisionView {
                    subject: name,
                    decision: decision_text(prev.english_stem@, prev.code@),
                    reused: false,
                },
            };
            (
                FactoryView {
                    claims: f.claims.push((prev.code@, prev.native_name@)),
                    decisions: f.decisions.push(decision),
                    reused: count_up(f.reused),
                    ..f
                },
                prev@,
            )
        },
        None => {
            let stem = match preferred {
                Some(s) => s,
                None => translate_name(name),
            };
            let code = encoded_code(latest(f.claims, stem), name, stem);
            (
                FactoryView {
                    claims: f.claims.push((code, name)),
                    decisions: f.decisions.push(DecisionView { subject: name, decision: decision_text(stem, code), reused: false }),
                    ..f
                },
                DescriptorView { native_name: name, english_stem: stem, code },
            )
        },
    }
}

/// Every entry is keyed by the native name of its descriptor.
pub open spec fn well_keyed(entries: Seq<(Seq<char>, SemanticDescriptor)>) -> bool {
    forall|i: int| 0 <= i < entries.len() ==> (#[trigger] entries[i]).0 == entries[i].1.native_name@
}

/// Descriptors keyed by their native name are well keyed.
pub proof fn lemma_keyed_well_keyed(ds: Seq<SemanticDescriptor>)
    ensures
        well_keyed(keyed(ds)),
{
}

/// A descriptor found under a key in well-keyed entries carries that key as its name.
pub proof fn lemma_latest_keyed(entries: Seq<(Seq<char>, SemanticDescriptor)>, key: Seq<char>)
    requires
        well_keyed(entries),
    ensures
        latest(entries, key) matches Some(d) ==> d.native_name@ == key,
    decreases entries.len(),
{
    if entries.len() > 0 {
        assert(entries.last() == entries[entries.len() - 1]);
        let rest = entries.drop_last();
        assert forall|i: int| 0 <= i < rest.len() implies (#[trigger] rest[i]).0 == rest[i].1.native_name@ by {
            assert(rest[i] == entries[i]);
        }
        lemma_latest_keyed(rest, key);
    }
}

/// Describing a name gives a descriptor of that name, and leaves the previous
/// descriptors as they were.
pub proof fn lemma_describe_step_name(f: FactoryView, name: Seq<char>, preferred: Option<Seq<char>>)
    requires
        well_keyed(f.previous),
    ensures
        describe_step(f, name, preferred).1.native_name == name,
        describe_step(f, name, preferred).0.previous == f.previous,
{
    lemma_latest_keyed(f.previous, name);
}

/// A name the previous blueprint knows keeps the previous descriptor stored
/// under it, whatever stem is preferred, and counts as reused.
pub proof fn lemma_known_name_keeps_descriptor(f: FactoryView, name: Seq<char>, preferred: Option<Seq<char>>)
    requires
        latest(f.previous, name) is Some,
    ensures
        describe_step(f, name, preferred).1 == latest(f.previous, name).unwrap()@,
        describe_step(f, name, preferred).0.reused == count_up(f.reused),
        describe_step(f, name, preferred).0.previous == f.previous,
{
}

/// Describing never changes what the previous blueprint provides.
pub proof fn lemma_describe_all_keeps_previous(f: FactoryView, names: Seq<Seq<char>>)
    ensures
        describe_all(f, names).0.previous == f.previous,
        describe_all(f, names).0.previous_decisions == f.previous_decisions,
    decreases names.len(),
{
    if names.len() > 0 {
        lemma_describe_all_keeps_previous(f, names.drop_last());
    }
}

/// Each name of a list that the previous blueprint knows keeps the previous
/// descriptor stored under it.
pub proof fn lemma_describe_all_known(f: FactoryView, names: Seq<Seq<char>>, i: int)
    requires
        0 <= i < names.len(),
        latest(f.previous, names[i]) is Some,
    ensures
        describe_all(f, names).1[i] == latest(f.previous, names[i]).unwrap()@,
    decreases names.len(),
{
    lemma_describe_all_len(f, names.drop_last());
    lemma_describe_all_keeps_previous(f, names.drop_last());
    if i < names.len() - 1 {
        assert(names.drop_last()[i] == names[i]);
        lemma_describe_all_known(f, names.drop_last(), i);
    }
}

/// A name of a list that the previous blueprint does not know is encoded from
/// the stem derived from its name: its code is that stem, or the stem, an
/// underscore and the name's short hash.
pub proof fn lemma_describe_all_fresh(f: FactoryView, names: Seq<Seq<char>>, i: int)
    requires
        0 <= i < names.len(),
        latest(f.previous, names[i]) is None,
    ensures
        ({
            let d = describe_all(f, names).1[i];
            let stem = translate_name(names[i]);
            &&& d.native_name == names[i]
            &&& d.english_stem == stem
            &&& (d.code == stem || d.code == stem + seq!['_'] + short_hash(names[i]))
        }),
    decreases names.len(),
{
    lemma_describe_all_len(f, names.drop_last());
    lemma_describe_all_keeps_previous(f, names.drop_last());
    if i < names.len() - 1 {
        assert(names.drop_last()[i] == names[i]);
        lemma_describe_all_fresh(f, names.drop_last(), i);
    }
}

/// Each name gives one descriptor: whichever entries share a native name hold
/// the same descriptor.
pub open spec fn consistent_names(ds: Seq<SemanticDescriptor>) -> bool {
    forall|i: int, j: int|
        0 <= i < ds.len() && 0 <= j < ds.len() && #[trigger] ds[i].native_name@ == #[trigger] ds[j].native_name@
            ==> ds[i]@ == ds[j]@
}

/// A name that some descriptor carries is found among the keyed descriptors;
/// with consistent names, it is found with that descriptor.
pub proof fn lemma_latest_keyed_found(ds: Seq<SemanticDescriptor>, j: int)
    requires
        0 <= j < ds.len(),
    ensures
        latest(keyed(ds), ds[j].native_name@) is Some,
        consistent_names(ds) ==> latest(keyed(ds), ds[j].native_name@).unwrap()@ == ds[j]@,
    decreases ds.len(),
{
    let k = keyed(ds);
    let key = ds[j].native_name@;
    assert(k.last() == (ds.last().native_name@, ds.last()));
    if ds.last().native_name@ != key {
        let rest = ds.drop_last();
        assert(k.drop_last() =~= keyed(rest));
        assert(rest[j] == ds[j]);
        lemma_latest_keyed_found(rest, j);
        if consistent_names(ds) {
            assert forall|a: int, b: int|
                0 <= a < rest.len() && 0 <= b < rest.len() && #[trigger] rest[a].native_name@
                    == #[trigger] rest[b].native_name@ implies rest[a]@ == rest[b]@ by {
                assert(rest[a] == ds[a]);
                assert(rest[b] == ds[b]);
            }
        }
    } else {
        assert(ds.last() == ds[ds.len() - 1]);
    }
}

/// Describing names from a factory whose previous descriptors are well keyed
/// gives each name a descriptor of that name.
pub proof fn lemma_describe_all_names(f: FactoryView, names: Seq<Seq<char>>)
    requires
        well_keyed(f.previous),
    ensures
        forall|i: int| 0 <= i < names.len() ==> (#[trigger] describe_all(f, names).1[i]).native_name == names[i],
    decreases names.len(),
{
    if names.len() > 0 {
        let rest = names.drop_last();
        lemma_describe_all_names(f, rest);
        lemma_describe_all_len(f, rest);
        lemma_describe_all_keeps_previous(f, rest);
        let (f1, ds) = describe_all(f, rest);
        lemma_describe_step_name(f1, names.last(), None);
        assert forall|i: int| 0 <= i < names.len() implies (#[trigger] describe_all(f, names).1[i]).native_name
            == names[i] by {
            if i < names.len() - 1 {
                assert(rest[i] == names[i]);
            }
        }
    }
}

/// Describing a list of names in turn, each with its derived stem.
pub open spec fn describe_all(f: FactoryView, names: Seq<Seq<char>>) -> (FactoryView, Seq<DescriptorView>)
    decreases names.len(),
{
    if names.len() == 0 {
        (f, Seq::empty())
    } else {
        let (f1, ds) = describe_all(f, names.drop_last());
        let (f2, d) = describe_step(f1, names.last(), None);
        (f2, ds.push(d))
    }
}

/// Describing a list of names in turn, each with its own preferred stem.
pub open spec fn describe_each(f: FactoryView, requests: Seq<(Seq<char>, Option<Seq<char>>)>) -> (FactoryView, Seq<DescriptorView>)
    decreases requests.len(),
{
    if requests.len() == 0 {
        (f, Seq::empty())
    } else {
        let (f1, ds) = describe_each(f, requests.drop_last());
        let (f2, d) = describe_step(f1, requests.last().0, requests.last().1);
        (f2, ds.push(d))
    }
}

/// Describing a list of requests gives one descriptor per request.
pub proof fn lemma_describe_each_len(f: FactoryView, requests: Seq<(Seq<char>, Option<Seq<char>>)>)
    ensures
        describe_each(f, requests).1.len() == requests.len(),
    decreases requests.len(),
{
    if requests.len() > 0 {
        lemma_describe_each_len(f, requests.drop_last());
    }
}

/// Describing a list of names gives one descriptor per name.
pub proof fn lemma_describe_all_len(f: FactoryView, names: Seq<Seq<char>>)
    ensures
        describe_all(f, names).1.len() == names.len(),
    decreases names.len(),
{
    if names.len() > 0 {
        lemma_describe_all_len(f, names.drop_last());
    }
}

/// The decisions recorded in a previous blueprint, keyed by subject.
pub open spec fn keyed_decisions(ds: Seq<InferenceDecision>) -> Seq<(Seq<char>, InferenceDecision)> {
    ds.map_values(|d: InferenceDecision| (d.subject@, d))
}

/// Produces descriptors for mother-tongue names, reusing those of a previous
/// blueprint so that stable names keep stable codes.
pub struct DescriptorFactory {
    previous: TextMap<SemanticDescriptor>,
    previous_decisions: TextMap<InferenceDecision>,
    encoder: DescriptorEncoder,
    decisions: Vec<InferenceDecision>,
    reused_semantics: u64,
}

impl View for DescriptorFactory {
    type V = FactoryView;

    closed spec fn view(&self) -> FactoryView {
        FactoryView {
            previous: self.previous@,
            previous_decisions: self.previous_decisions@,
            claims: self.encoder.claims(),
            decisions: self.decisions@.map_values(|d: InferenceDecision| d@),
            reused: self.reused_semantics,
        }
    }
}

impl DescriptorFactory {
    /// A factory that reuses the descriptors and decisions of `previous_blueprint`.
    pub fn new(previous_blueprint: Option<&Blueprint>) -> (r: Self)
        ensures
            r@.previous == match previous_blueprint {
                Some(b) => keyed(collected_descriptors(*b)),
                None => Seq::empty(),
            },
            r@.previous_decisions == match previous_blueprint {
                Some(b) => keyed_decisions(b.inference_decisions@),
                None => Seq::empty(),
            },
            r@.claims == Seq::<(Seq<char>, Seq<char>)>::empty(),
            r@.decisions == Seq::<DecisionView>::empty(),
            r@.reused == 0,
    {
        let mut previous: TextMap<SemanticDescriptor> = TextMap::new();
        let mut previous_decisions: TextMap<InferenceDecision> = TextMap::new();
        if let Some(blueprint) = previous_blueprint {
            collect_descriptors(blueprint, &mut previous);
            let ds = &blueprint.inference_decisions;
            let mut i: usize = 0;
            assert(keyed_decisions(ds@.take(0)) =~= Seq::<(Seq<char>, InferenceDecision)>::empty());
            while i < ds.len()
                invariant
                    i <= ds@.len(),
                    previous_decisions@ == keyed_decisions(ds@.take(i as int)),
                decreases ds@.len() - i,
            {
                let d = &ds[i];
                previous_decisions.insert(d.subject.clone(), d.clone());
                assert(keyed_decisions(ds@.take(i + 1)) =~= keyed_decisions(ds@.take(i as int)).push((d.subject@, *d)));
                i = i + 1;
            }
            assert(ds@.take(i as int) =~= ds@);
        }
        let r = DescriptorFactory {
            previous,
            previous_decisions,
            encoder: DescriptorEncoder::new(),
            decisions: Vec::new(),
            reused_semantics: 0,
        };
        assert(r@.decisions =~= Seq::<DecisionView>::empty());
        assert(previous_blueprint is None ==> r@.previous =~= Seq::<(Seq<char>, SemanticDescriptor)>::empty());
        r
    }

    /// The descriptor of `native_name`: the previous one when the name is known
    /// from the previous blueprint, otherwise one encoded from `preferred_stem`
    /// (or the stem inferred from the name).  The decision is recorded.
    pub fn describe(&mut self, native_name: &str, preferred_stem: Option<&str>) -> (r: SemanticDescriptor)
        ensures
            (final(self)@, r@) == describe_step(old(self)@, native_name@, match preferred_stem {
                Some(s) => Some(s@),
                None => None,
            }),
            latest(old(self)@.previous, native_name@) is None && r.code@ != r.english_stem@ ==> short_hash(
                native_name@,
            ).len() == 8 && is_hex_text(short_hash(native_name@)),
    {
        if let Some(previous) = self.previous.get(native_name) {
            let previous = previous.clone();
            self.encoder.reserve(&previous);
            if self.reused_semantics < u64::MAX {
                self.reused_semantics = self.reused_semantics + 1;
            }
            let decision = match self.previous_decisions.get(native_name) {
                Some(d) => d.clone(),
                None => InferenceDecision {
                    subject: owned(native_name),
                    decision: concat4("推导英文语义 ", previous.english_stem.as_str(), "，编码为 ", previous.code.as_str()),
                    reused: false,
                },
            };
            let ghost d = decision@;
            self.decisions.push(decision);
            assert(self@.decisions =~= old(self)@.decisions.push(d));
            return previous;
        }
        let english_stem = match preferred_stem {
            Some(s) => owned(s),
            None => translate_semantic_name(native_name),
        };
        let descriptor = self.encoder.describe(native_name, english_stem.as_str());
        let decision = InferenceDecision {
            subject: owned(native_name),
            decision: concat4("推导英文语义 ", english_stem.as_str(), "，编码为 ", descriptor.code.as_str()),
            reused: false,
        };
        let ghost d = decision@;
        self.decisions.push(decision);
        assert(self@.decisions =~= old(self)@.decisions.push(d));
        descriptor
    }

    /// The decisions taken and the number of reused names.
    pub fn finish(self) -> (r: (Vec<InferenceDecision>, u64))
        ensures
            r.0@.map_values(|d: InferenceDecision| d@) == self@.decisions,
            r.1 == self@.reused,
    {
        (self.decisions, self.reused_semantics)
    }
}

/// Requests for names without a preferred stem.
pub open spec fn unstemmed(names: Seq<Seq<char>>) -> Seq<(Seq<char>, Option<Seq<char>>)> {
    names.map_values(|n: Seq<char>| (n, None::<Seq<char>>))
}

/// The decision recorded when a name is described for the first time.
pub open spec fn first_decision(d: DescriptorView) -> DecisionView {
    DecisionView { subject: d.native_name, decision: decision_text(d.english_stem, d.code), reused: false }
}

/// Describing names in turn is describing the requests for them without
/// preferred stems.
pub proof fn lemma_describe_all_as_each(f: FactoryView, names: Seq<Seq<char>>)
    ensures
        describe_all(f, names) == describe_each(f, unstemmed(names)),
    decreases names.len(),
{
    if names.len() > 0 {
        assert(unstemmed(names).drop_last() =~= unstemmed(names.drop_last()));
        lemma_describe_all_as_each(f, names.drop_last());
    } else {
        assert(unstemmed(names) =~= Seq::<(Seq<char>, Option<Seq<char>>)>::empty());
    }
}

/// Describing two lists of requests in turn is describing their concatenation.
pub proof fn lemma_describe_each_append(
    f: FactoryView,
    a: Seq<(Seq<char>, Option<Seq<char>>)>,
    b: Seq<(Seq<char>, Option<Seq<char>>)>,
)
    ensures
        describe_each(f, a + b) == (
            describe_each(describe_each(f, a).0, b).0,
            describe_each(f, a).1 + describe_each(describe_each(f, a).0, b).1,
        ),
    decreases b.len(),
{
    let (fa, da) = describe_each(f, a);
    if b.len() == 0 {
        assert(a + b =~= a);
        assert(da + describe_each(fa, b).1 =~= da);
    } else {
        let b1 = b.drop_last();
        lemma_describe_each_append(f, a, b1);
        assert((a + b).drop_last() =~= a + b1);
        assert((a + b).last() == b.last());
        let (fb1, db1) = describe_each(fa, b1);
        let (fb, d) = describe_step(fb1, b.last().0, b.last().1);
        assert((da + db1).push(d) =~= da + db1.push(d));
    }
}

/// Describing never changes what the previous blueprint provides.
pub proof fn lemma_describe_each_keeps_previous(f: FactoryView, requests: Seq<(Seq<char>, Option<Seq<char>>)>)
    ensures
        describe_each(f, requests).0.previous == f.previous,
        describe_each(f, requests).0.previous_decisions == f.previous_decisions,
    decreases requests.len(),
{
    if requests.len() > 0 {
        lemma_describe_each_keeps_previous(f, requests.drop_last());
    }
}

/// Describing never lowers the number of reused names.
pub proof fn lemma_describe_each_reused(f: FactoryView, requests: Seq<(Seq<char>, Option<Seq<char>>)>)
    ensures
        describe_each(f, requests).0.reused >= f.reused,
    decreases requests.len(),
{
    if requests.len() > 0 {
        lemma_describe_each_reused(f, requests.drop_last());
    }
}

/// Without a previous blueprint, each request gives a descriptor of its name
/// and records the decision of a first description.
pub proof fn lemma_first_description(f: FactoryView, requests: Seq<(Seq<char>, Option<Seq<char>>)>)
    requires
        f.previous.len() == 0,
    ensures
        describe_each(f, requests).1.len() == requests.len(),
        describe_each(f, requests).0.decisions == f.decisions + describe_each(f, requests).1.map_values(
            |d: DescriptorView| first_decision(d),
        ),
        forall|k: int| 0 <= k < requests.len() ==> (#[trigger] describe_each(f, requests).1[k]).native_name == requests[k].0,
    decreases requests.len(),
{
    lemma_describe_each_keeps_previous(f, requests);
    if requests.len() > 0 {
        let rest = requests.drop_last();
        lemma_first_description(f, rest);
        lemma_describe_each_keeps_previous(f, rest);
        let (f1, ds) = describe_each(f, rest);
        let (f2, d) = describe_step(f1, requests.last().0, requests.last().1);
        assert(ds.push(d).map_values(|x: DescriptorView| first_decision(x)) =~= ds.map_values(
            |x: DescriptorView| first_decision(x),
        ).push(first_decision(d)));
        assert forall|k: int| 0 <= k < requests.len() implies (#[trigger] describe_each(f, requests).1[k]).native_name
            == requests[k].0 by {
            if k < rest.len() {
                assert(rest[k] == requests[k]);
            }
        }
    } else {
        assert(describe_each(f, requests).1.map_values(|d: DescriptorView| first_decision(d)) =~= Seq::<DecisionView>::empty());
        assert(f.decisions + Seq::<DecisionView>::empty() =~= f.decisions);
    }
}

/// Every request whose name the previous descriptors know is known with the
/// descriptor `ds` gives it, and a previous decision recorded under that name
/// is the decision of its first description.
pub open spec fn agrees_with(
    previous: Seq<(Seq<char>, SemanticDescriptor)>,
    previous_decisions: Seq<(Seq<char>, InferenceDecision)>,
    requests: Seq<(Seq<char>, Option<Seq<char>>)>,
    ds: Seq<DescriptorView>,
) -> bool {
    forall|k: int|
        #![trigger requests[k]]
        0 <= k < requests.len() ==> (latest(previous, requests[k].0) matches Some(d) ==> d@ == ds[k]
            && (latest(previous_decisions, requests[k].0) matches Some(x) ==> x@ == first_decision(ds[k])))
}

/// Describing the same requests again, from a factory that remembers what the
/// first description gave, gives the same descriptors, claims and decisions.
pub proof fn lemma_replay(f: FactoryView, g: FactoryView, requests: Seq<(Seq<char>, Option<Seq<char>>)>)
    requires
        f.previous.len() == 0,
        g.claims == f.claims,
        g.decisions == f.decisions,
        agrees_with(g.previous, g.previous_decisions, requests, describe_each(f, requests).1),
    ensures
        describe_each(g, requests).1 == describe_each(f, requests).1,
        describe_each(g, requests).0.claims == describe_each(f, requests).0.claims,
        describe_each(g, requests).0.decisions == describe_each(f, requests).0.decisions,
    decreases requests.len(),
{
    if requests.len() > 0 {
        let rest = requests.drop_last();
        let n = requests.last().0;
        let p = requests.last().1;
        lemma_describe_each_len(f, rest);
        let (f1, ds1) = describe_each(f, rest);
        let (f2, d) = describe_step(f1, n, p);
        assert(describe_each(f, requests).1 == ds1.push(d));
        assert forall|k: int| #![trigger rest[k]] 0 <= k < rest.len() implies (latest(g.previous, rest[k].0) matches Some(x)
            ==> x@ == ds1[k] && (latest(g.previous_decisions, rest[k].0) matches Some(y) ==> y@ == first_decision(ds1[k]))) by {
            assert(rest[k] == requests[k]);
            assert(ds1.push(d)[k] == ds1[k]);
        }
        lemma_replay(f, g, rest);
        lemma_describe_each_keeps_previous(f, rest);
        lemma_describe_each_keeps_previous(g, rest);
        let k = requests.len() - 1;
        assert(requests[k] == requests.last());
        assert(ds1.push(d)[k] == d);
        let g1 = describe_each(g, rest).0;
        assert(latest(f1.previous, n) is None);
    }
}

} // verus!
