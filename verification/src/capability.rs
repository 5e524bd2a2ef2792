//! Capabilities that explain where a model's data comes from, and how a
//! mother-tongue phrase is resolved to exactly one of them.
use vstd::prelude::*;

use crate::blueprint::{AppliedDefault, Blueprint};
use crate::descriptor::{DescriptorView, SemanticDescriptor};
use crate::diagnostic::{diagnostics_view, error_view, Diagnostic, DiagnosticView};
use crate::inference::engine::default_view;
use crate::text::{contains, owned, str_contains, str_eq};

verus! {

/// What a capability provider is known by: its mother-tongue name and aliases.
#[derive(Clone, Debug, PartialEq, Eq)]
pub struct ProviderProfile {
    pub native_name: String,
    pub aliases: Vec<String>,
}

/// The text of a list of strings.
pub open spec fn alias_texts(aliases: Seq<String>) -> Seq<Seq<char>> {
    aliases.map_values(|a: String| a@)
}

/// A provider explains a capability requirement when its name is the
/// requirement's name, or one of its aliases occurs in the name or in the
/// source phrase.
pub open spec fn profile_matches(name: Seq<char>, aliases: Seq<Seq<char>>, native_name: Seq<char>, source_phrase: Seq<char>) -> bool {
    name == native_name || exists|i: int|
        0 <= i < aliases.len() && (contains(native_name, #[trigger] aliases[i]) || contains(source_phrase, aliases[i]))
}

/// Whether a provider explains a capability requirement.
pub fn provider_matches(name: &str, aliases: &Vec<String>, native_name: &str, source_phrase: &str) -> (r: bool)
    ensures
        r == profile_matches(name@, alias_texts(aliases@), native_name@, source_phrase@),
{
    let ghost al = alias_texts(aliases@);
    if str_eq(name, native_name) {
        return true;
    }
    let mut i: usize = 0;
    while i < aliases.len()
        invariant
            i <= aliases@.len(),
            al == alias_texts(aliases@),
            forall|j: int| 0 <= j < i ==> !(contains(native_name@, #[trigger] al[j]) || contains(source_phrase@, al[j])),
        decreases aliases@.len() - i,
    {
        let alias = aliases[i].as_str();
        if str_contains(native_name, alias) || str_contains(source_phrase, alias) {
            assert(al[i as int] == alias@);
            return true;
        }
        i = i + 1;
    }
    false
}

/// The indices of the profiles that explain a requirement, in order.
pub open spec fn matching_profiles(profiles: Seq<ProviderProfile>, native_name: Seq<char>, source_phrase: Seq<char>) -> Seq<int>
    decreases profiles.len(),
{
    if profiles.len() == 0 {
        Seq::empty()
    } else {
        let rest = matching_profiles(profiles.drop_last(), native_name, source_phrase);
        let p = profiles.last();
        if profile_matches(p.native_name@, alias_texts(p.aliases@), native_name, source_phrase) {
            rest.push(profiles.len() - 1)
        } else {
            rest
        }
    }
}

/// The error reported when no registered capability explains a requirement.
pub open spec fn unexplained_error(native_name: Seq<char>) -> DiagnosticView {
    error_view(native_name, "没有已注册能力可以解释这段数据获取语义。"@)
}

/// The error reported when several registered capabilities explain a requirement.
pub open spec fn ambiguous_error(native_name: Seq<char>) -> DiagnosticView {
    error_view(native_name, "多个已注册能力同时匹配，无法安全选择；请补充更明确的母语约束。"@)
}

/// Resolves a capability requirement to the one provider that explains it;
/// refuses to guess when none or several do.
pub fn resolve_provider(profiles: &Vec<ProviderProfile>, native_name: &str, source_phrase: &str) -> (r: Result<usize, Diagnostic>)
    ensures
        ({
            let m = matching_profiles(profiles@, native_name@, source_phrase@);
            match r {
                Ok(i) => m == seq![i as int],
                Err(d) => m.len() != 1 && d@ == if m.len() == 0 {
                    unexplained_error(native_name@)
                } else {
                    ambiguous_error(native_name@)
                },
            }
        }),
{
    let ghost all = profiles@;
    let mut found: Option<usize> = None;
    let mut ambiguous = false;
    let mut i: usize = 0;
    assert(all.take(0) =~= Seq::<ProviderProfile>::empty());
    while i < profiles.len()
        invariant
            i <= profiles@.len(),
            all == profiles@,
            ({
                let m = matching_profiles(all.take(i as int), native_name@, source_phrase@);
                &&& ambiguous == (m.len() >= 2)
                &&& (m.len() == 1 ==> found == Some(m[0] as usize))
                &&& (m.len() == 1 ==> 0 <= m[0] < i)
                &&& (m.len() == 0 ==> found is None)
            }),
        decreases profiles@.len() - i,
    {
        let p = &profiles[i];
        assert(all.take(i + 1).drop_last() =~= all.take(i as int));
        assert(all.take(i + 1).last() == *p);
        if provider_matches(p.native_name.as_str(), &p.aliases, native_name, source_phrase) {
            if found.is_some() {
                ambiguous = true;
            } else {
                found = Some(i);
            }
        }
        i = i + 1;
    }
    assert(all.take(i as int) =~= all);
    if ambiguous {
        Err(Diagnostic::error(native_name, "多个已注册能力同时匹配，无法安全选择；请补充更明确的母语约束。"))
    } else {
        match found {
            Some(k) => {
                proof {
                    let m = matching_profiles(all, native_name@, source_phrase@);
                    assert(m =~= seq![k as int]);
                }
                Ok(k)
            },
            None => Err(Diagnostic::error(native_name, "没有已注册能力可以解释这段数据获取语义。")),
        }
    }
}

/// The aliases of the fixture capability.
pub open spec fn fixture_aliases() -> Seq<Seq<char>> {
    seq!["模拟采集"@, "模拟数据"@, "测试数据"@]
}

/// The only data-source capability of the first release: it reads simulated raw
/// values from a map the host hands over.
#[derive(Clone, Copy, Debug, Default)]
pub struct FixtureMapProvider;

impl FixtureMapProvider {
    /// The capability's descriptor.
    pub fn descriptor(&self) -> (r: SemanticDescriptor)
        ensures
            r@ == (DescriptorView { native_name: "模拟采集"@, english_stem: "fixture_map"@, code: "fixture_map"@ }),
    {
        SemanticDescriptor::new("模拟采集", "fixture_map", "fixture_map")
    }

    /// The names under which product sources mention the capability.
    pub fn aliases(&self) -> (r: &'static [&'static str])
        ensures
            r@.map_values(|a: &str| a@) == fixture_aliases(),
    {
        let r: &'static [&'static str] = &["模拟采集", "模拟数据", "测试数据"];
        proof {
            reveal_strlit("模拟采集");
        }
        assert(r@.map_values(|a: &str| a@) =~= fixture_aliases());
        r
    }

    /// The defaults the capability applies: keys must match strictly.
    pub fn defaults(&self) -> (r: Vec<AppliedDefault>)
        ensures
            r@.map_values(|d: AppliedDefault| default_view(d)) == seq![
                ("模拟采集"@, "严格键匹配"@, "缺字段必须失败，不能以零值伪造有效遥测"@),
            ],
    {
        let r = vec![
            AppliedDefault {
                subject: owned("模拟采集"),
                value: owned("严格键匹配"),
                reason: owned("缺字段必须失败，不能以零值伪造有效遥测"),
            },
        ];
        assert(r@.map_values(|d: AppliedDefault| default_view(d)) =~= seq![
            ("模拟采集"@, "严格键匹配"@, "缺字段必须失败，不能以零值伪造有效遥测"@),
        ]);
        r
    }

    /// A blueprint that uses the capability must bind at least one field.
    pub fn validate(&self, blueprint: &Blueprint) -> (r: Vec<Diagnostic>)
        ensures
            diagnostics_view(r@) == if blueprint.bindings@.len() == 0 {
                seq![error_view("模拟采集"@, "模拟采集至少需要一个字段绑定。"@)]
            } else {
                Seq::<DiagnosticView>::empty()
            },
    {
        let mut r: Vec<Diagnostic> = Vec::new();
        if blueprint.bindings.len() == 0 {
            r.push(Diagnostic::error("模拟采集", "模拟采集至少需要一个字段绑定。"));
        }
        assert(diagnostics_view(r@) =~= if blueprint.bindings@.len() == 0 {
            seq![error_view("模拟采集"@, "模拟采集至少需要一个字段绑定。"@)]
        } else {
            Seq::<DiagnosticView>::empty()
        });
        r
    }

    /// Lowers the capability into the blueprint: its defaults are recorded.
    pub fn lower(&self, blueprint: &mut Blueprint)
        ensures
            final(blueprint).defaults@.map_values(|d: AppliedDefault| default_view(d)) == old(
                blueprint,
            ).defaults@.map_values(|d: AppliedDefault| default_view(d)) + seq![
                ("模拟采集"@, "严格键匹配"@, "缺字段必须失败，不能以零值伪造有效遥测"@),
            ],
            final(blueprint).source_text == old(blueprint).source_text,
            final(blueprint).requirements == old(blueprint).requirements,
            final(blueprint).structs == old(blueprint).structs,
            final(blueprint).enums == old(blueprint).enums,
            final(blueprint).functions == old(blueprint).functions,
            final(blueprint).application == old(blueprint).application,
            final(blueprint).capabilities == old(blueprint).capabilities,
            final(blueprint).bindings == old(blueprint).bindings,
            final(blueprint).inference_decisions == old(blueprint).inference_decisions,
    {
        let mut extra = self.defaults();
        let ghost before = blueprint.defaults@;
        let ghost added = extra@;
        blueprint.defaults.append(&mut extra);
        assert(blueprint.defaults@.map_values(|d: AppliedDefault| default_view(d)) =~= before.map_values(
            |d: AppliedDefault| default_view(d),
        ) + added.map_values(|d: AppliedDefault| default_view(d)));
    }
}

} // verus!
