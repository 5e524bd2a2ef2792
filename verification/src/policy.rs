//! Policy checks: the product source must not carry machine protocol, and a
//! blueprint must keep its references intact and its codes unique.
use vstd::prelude::*;

use crate::blueprint::{Blueprint, FieldBinding, FieldDefinition, StructDefinition};
use crate::descriptor::{same_descriptor, SemanticDescriptor};
use crate::diagnostic::{diagnostics_view, error_view, Diagnostic, DiagnosticLevel, DiagnosticView};
use crate::text::{concat3, concat4, contains, str_contains, str_eq};
use crate::textmap::{latest, lemma_latest_text, text_entries, TextMap};

verus! {

/// The machine-protocol markers a product source may not contain, each with the
/// label of what it would leak.
pub open spec fn forbidden_markers() -> Seq<(Seq<char>, Seq<char>)> {
    seq![
        ("kind:"@, "类型判别字段"@),
        ("kind："@, "类型判别字段"@),
        ("dictionary:"@, "字典编码"@),
        ("dictionary："@, "字典编码"@),
        ("provider_id"@, "能力提供者标识"@),
        ("rust_type"@, "Rust 类型"@),
        ("table_name"@, "数据库表名"@),
        ("code:"@, "显式代码"@),
        ("code："@, "显式代码"@),
    ]
}

/// The message reporting that the source filled in what `label` names.
pub open spec fn leak_message(label: Seq<char>) -> Seq<char> {
    "产品输入不能填写"@ + label + "，该信息必须由编译器推导。"@
}

/// One error, in marker order, for each marker of `markers` found in `source`.
pub open spec fn leak_diagnostics(
    source: Seq<char>,
    markers: Seq<(Seq<char>, Seq<char>)>,
) -> Seq<DiagnosticView>
    decreases markers.len(),
{
    if markers.len() == 0 {
        Seq::empty()
    } else {
        let rest = leak_diagnostics(source, markers.drop_last());
        if contains(source, markers.last().0) {
            rest.push(error_view("母语输入"@, leak_message(markers.last().1)))
        } else {
            rest
        }
    }
}

fn forbidden_marker(i: usize) -> (r: (&'static str, &'static str))
    requires
        i < 9,
    ensures
        r.0@ == forbidden_markers()[i as int].0,
        r.1@ == forbidden_markers()[i as int].1,
{
    match i {
        0 => ("kind:", "类型判别字段"),
        1 => ("kind：", "类型判别字段"),
        2 => ("dictionary:", "字典编码"),
        3 => ("dictionary：", "字典编码"),
        4 => ("provider_id", "能力提供者标识"),
        5 => ("rust_type", "Rust 类型"),
        6 => ("table_name", "数据库表名"),
        7 => ("code:", "显式代码"),
        _ => ("code：", "显式代码"),
    }
}

/// Refuses machine protocol leaking back into the product source: one error for
/// each forbidden marker the source contains.
pub fn validate_source_contract(source_text: &str) -> (r: Vec<Diagnostic>)
    ensures
        diagnostics_view(r@) == leak_diagnostics(source_text@, forbidden_markers()),
{
    let mut out: Vec<Diagnostic> = Vec::new();
    let mut i: usize = 0;
    assert(forbidden_markers().len() == 9);
    assert(forbidden_markers().take(0) =~= Seq::<(Seq<char>, Seq<char>)>::empty());
    while i < 9
        invariant
            i <= 9,
            forbidden_markers().len() == 9,
            diagnostics_view(out@) == leak_diagnostics(source_text@, forbidden_markers().take(i as int)),
        decreases 9 - i,
    {
        let (needle, label) = forbidden_marker(i);
        assert(forbidden_markers().take(i + 1).drop_last() =~= forbidden_markers().take(i as int));
        if str_contains(source_text, needle) {
            let message = concat3("产品输入不能填写", label, "，该信息必须由编译器推导。");
            let d = Diagnostic::error("母语输入", message.as_str());
            out.push(d);
            assert(diagnostics_view(out@) =~= diagnostics_view(out@.drop_last()).push(d@));
        }
        i = i + 1;
    }
    assert(forbidden_markers().take(9) =~= forbidden_markers());
    out
}

/// The message reporting that `code` is already held by `previous`.
pub open spec fn conflict_message(code: Seq<char>, previous: Seq<char>) -> Seq<char> {
    "代码身份 "@ + code + " 与“"@ + previous + "”冲突。"@
}

/// The conflicts found while claiming codes in order: a claim conflicts when the
/// latest earlier claim of the same code came from another name.
pub open spec fn claim_conflicts(claims: Seq<(Seq<char>, Seq<char>)>) -> Seq<DiagnosticView>
    decreases claims.len(),
{
    if claims.len() == 0 {
        Seq::empty()
    } else {
        let prior = claims.drop_last();
        let (code, name) = claims.last();
        let rest = claim_conflicts(prior);
        match latest(prior, code) {
            Some(previous) => if previous != name {
                rest.push(error_view(name, conflict_message(code, previous)))
            } else {
                rest
            },
            None => rest,
        }
    }
}

/// The claims of a structure's fields: each field claims `<struct>.<field>`.
pub open spec fn field_claims(struct_code: Seq<char>, fields: Seq<FieldDefinition>) -> Seq<(Seq<char>, Seq<char>)>
    decreases fields.len(),
{
    if fields.len() == 0 {
        Seq::empty()
    } else {
        field_claims(struct_code, fields.drop_last()).push(
            (struct_code + "."@ + fields.last().descriptor.code@, fields.last().descriptor.native_name@),
        )
    }
}

/// The claims of structures: each structure claims its code, then its fields claim theirs.
pub open spec fn struct_claims(structs: Seq<StructDefinition>) -> Seq<(Seq<char>, Seq<char>)>
    decreases structs.len(),
{
    if structs.len() == 0 {
        Seq::empty()
    } else {
        let s = structs.last();
        struct_claims(structs.drop_last()) + seq![(s.descriptor.code@, s.descriptor.native_name@)]
            + field_claims(s.descriptor.code@, s.fields@)
    }
}

/// The claims of a list of descriptors, each claiming its own code.
pub open spec fn descriptor_claims(ds: Seq<SemanticDescriptor>) -> Seq<(Seq<char>, Seq<char>)> {
    ds.map_values(|d: SemanticDescriptor| (d.code@, d.native_name@))
}

/// Every code claim a blueprint makes, in order: structures and their fields,
/// enumerations, then functions.
pub open spec fn blueprint_claims(b: Blueprint) -> Seq<(Seq<char>, Seq<char>)> {
    struct_claims(b.structs@) + descriptor_claims(b.enums@.map_values(|e: crate::blueprint::EnumDefinition| e.descriptor))
        + descriptor_claims(b.functions@.map_values(|f: crate::blueprint::FunctionDefinition| f.descriptor))
}

/// Some structure is described by `owner`.
pub open spec fn owner_exists(structs: Seq<StructDefinition>, owner: SemanticDescriptor) -> bool {
    exists|i: int| 0 <= i < structs.len() && #[trigger] structs[i].descriptor@ == owner@
}

/// Some structure described by `owner` has a field described by `field`.
pub open spec fn owned_field_exists(
    structs: Seq<StructDefinition>,
    owner: SemanticDescriptor,
    field: SemanticDescriptor,
) -> bool {
    exists|i: int, j: int|
        0 <= i < structs.len() && #[trigger] structs[i].descriptor@ == owner@ && 0 <= j
            < structs[i].fields@.len() && #[trigger] structs[i].fields@[j].descriptor@ == field@
}

/// The message for a binding that refers to a missing structure or field.
pub open spec fn dangling_binding_message() -> Seq<char> {
    "字段绑定引用了不存在的结构或字段。"@
}

/// One error, in binding order, for each binding whose owner or field does not exist.
pub open spec fn dangling_bindings(structs: Seq<StructDefinition>, bindings: Seq<FieldBinding>) -> Seq<DiagnosticView>
    decreases bindings.len(),
{
    if bindings.len() == 0 {
        Seq::empty()
    } else {
        let b = bindings.last();
        let rest = dangling_bindings(structs, bindings.drop_last());
        if !owner_exists(structs, b.owner) || !owned_field_exists(structs, b.owner, b.field) {
            rest.push(error_view(b.field.native_name@, dangling_binding_message()))
        } else {
            rest
        }
    }
}

/// The diagnostics a blueprint's policy check reports.
pub open spec fn blueprint_policy(b: Blueprint) -> Seq<DiagnosticView> {
    claim_conflicts(blueprint_claims(b)) + dangling_bindings(b.structs@, b.bindings@)
}

/// Claims `code` for `native_name`, reporting a conflict when the code was last
/// claimed by another name.
pub fn claim_code(
    code: &str,
    native_name: &str,
    claimed: &mut TextMap<String>,
    diagnostics: &mut Vec<Diagnostic>,
)
    ensures
        final(claimed)@ == old(claimed)@.push((code@, final(claimed)@.last().1)),
        final(claimed)@.last().1@ == native_name@,
        diagnostics_view(final(diagnostics)@) == diagnostics_view(old(diagnostics)@) + match latest(
            text_entries(old(claimed)@),
            code@,
        ) {
            Some(previous) => if previous != native_name@ {
                seq![error_view(native_name@, conflict_message(code@, previous))]
            } else {
                Seq::empty()
            },
            None => Seq::empty(),
        },
{
    proof {
        lemma_latest_text(old(claimed)@, code@);
    }
    let previous = match claimed.get(code) {
        Some(p) => Some(p.clone()),
        None => None,
    };
    claimed.insert(crate::text::owned(code), crate::text::owned(native_name));
    if let Some(previous) = previous {
        if !str_eq(previous.as_str(), native_name) {
            let message = concat4("代码身份 ", code, " 与“", previous.as_str());
            let message = message.concat("”冲突。");
            let d = Diagnostic::error(native_name, message.as_str());
            diagnostics.push(d);
            assert(diagnostics_view(diagnostics@) =~= diagnostics_view(old(diagnostics)@).push(d@));
            return;
        }
    }
    assert(diagnostics_view(diagnostics@) =~= diagnostics_view(old(diagnostics)@));
}

/// Checks the blueprint's referential integrity and the uniqueness of its codes.
pub fn validate_blueprint(blueprint: &Blueprint) -> (r: Vec<Diagnostic>)
    ensures
        diagnostics_view(r@) == blueprint_policy(*blueprint),
{
    let mut diagnostics: Vec<Diagnostic> = Vec::new();
    let mut claimed: TextMap<String> = TextMap::new();
    let ghost mut claims: Seq<(Seq<char>, Seq<char>)> = Seq::empty();
    let structs = &blueprint.structs;
    let mut i: usize = 0;
    assert(structs@.take(0) =~= Seq::<StructDefinition>::empty());
    while i < structs.len()
        invariant
            i <= structs@.len(),
            structs == &blueprint.structs,
            text_entries(claimed@) == struct_claims(structs@.take(i as int)),
            diagnostics_view(diagnostics@) == claim_conflicts(struct_claims(structs@.take(i as int))),
        decreases structs@.len() - i,
    {
        let definition = &structs[i];
        let ghost before = struct_claims(structs@.take(i as int));
        proof {
            lemma_latest_text(claimed@, definition.descriptor.code@);
        }
        claim_code(definition.descriptor.code.as_str(), definition.descriptor.native_name.as_str(), &mut claimed, &mut diagnostics);
        assert(text_entries(claimed@) =~= before.push((definition.descriptor.code@, definition.descriptor.native_name@)));
        assert(before.push((definition.descriptor.code@, definition.descriptor.native_name@)).drop_last() =~= before);
        let fields = &definition.fields;
        let mut j: usize = 0;
        assert(fields@.take(0) =~= Seq::<FieldDefinition>::empty());
        assert(before + seq![(definition.descriptor.code@, definition.descriptor.native_name@)] + field_claims(definition.descriptor.code@, fields@.take(0)) =~= before.push((definition.descriptor.code@, definition.descriptor.native_name@)));
        while j < fields.len()
            invariant
                j <= fields@.len(),
                fields == &definition.fields,
                text_entries(claimed@) == before + seq![(definition.descriptor.code@, definition.descriptor.native_name@)]
                    + field_claims(definition.descriptor.code@, fields@.take(j as int)),
                diagnostics_view(diagnostics@) == claim_conflicts(text_entries(claimed@)),
            decreases fields@.len() - j,
        {
            let field = &fields[j];
            let qualified = concat3(definition.descriptor.code.as_str(), ".", field.descriptor.code.as_str());
            let ghost prior = text_entries(claimed@);
            proof {
                lemma_latest_text(claimed@, qualified@);
            }
            claim_code(qualified.as_str(), field.descriptor.native_name.as_str(), &mut claimed, &mut diagnostics);
            assert(fields@.take(j + 1).drop_last() =~= fields@.take(j as int));
            assert(text_entries(claimed@) =~= prior.push((qualified@, field.descriptor.native_name@)));
            assert(prior.push((qualified@, field.descriptor.native_name@)).drop_last() =~= prior);
            j = j + 1;
        }
        assert(fields@.take(j as int) =~= fields@);
        assert(structs@.take(i + 1).drop_last() =~= structs@.take(i as int));
        i = i + 1;
    }
    assert(structs@.take(i as int) =~= structs@);
    let ghost after_structs = text_entries(claimed@);
    let enums = &blueprint.enums;
    let mut k: usize = 0;
    while k < enums.len()
        invariant
            k <= enums@.len(),
            enums == &blueprint.enums,
            text_entries(claimed@) == after_structs + descriptor_claims(
                enums@.take(k as int).map_values(|e: crate::blueprint::EnumDefinition| e.descriptor),
            ),
            diagnostics_view(diagnostics@) == claim_conflicts(text_entries(claimed@)),
        decreases enums@.len() - k,
    {
        let d = &enums[k].descriptor;
        let ghost prior = text_entries(claimed@);
        proof {
            lemma_latest_text(claimed@, d.code@);
        }
        claim_code(d.code.as_str(), d.native_name.as_str(), &mut claimed, &mut diagnostics);
        assert(text_entries(claimed@) =~= prior.push((d.code@, d.native_name@)));
        assert(prior.push((d.code@, d.native_name@)).drop_last() =~= prior);
        assert(descriptor_claims(enums@.take(k + 1).map_values(|e: crate::blueprint::EnumDefinition| e.descriptor))
            =~= descriptor_claims(enums@.take(k as int).map_values(|e: crate::blueprint::EnumDefinition| e.descriptor)).push((d.code@, d.native_name@)));
        k = k + 1;
    }
    assert(enums@.take(k as int) =~= enums@);
    let ghost after_enums = text_entries(claimed@);
    let functions = &blueprint.functions;
    let mut f: usize = 0;
    while f < functions.len()
        invariant
            f <= functions@.len(),
            functions == &blueprint.functions,
            text_entries(claimed@) == after_enums + descriptor_claims(
                functions@.take(f as int).map_values(|e: crate::blueprint::FunctionDefinition| e.descriptor),
            ),
            diagnostics_view(diagnostics@) == claim_conflicts(text_entries(claimed@)),
        decreases functions@.len() - f,
    {
        let d = &functions[f].descriptor;
        let ghost prior = text_entries(claimed@);
        proof {
            lemma_latest_text(claimed@, d.code@);
        }
        claim_code(d.code.as_str(), d.native_name.as_str(), &mut claimed, &mut diagnostics);
        assert(text_entries(claimed@) =~= prior.push((d.code@, d.native_name@)));
        assert(prior.push((d.code@, d.native_name@)).drop_last() =~= prior);
        assert(descriptor_claims(functions@.take(f + 1).map_values(|e: crate::blueprint::FunctionDefinition| e.descriptor))
            =~= descriptor_claims(functions@.take(f as int).map_values(|e: crate::blueprint::FunctionDefinition| e.descriptor)).push((d.code@, d.native_name@)));
        f = f + 1;
    }
    assert(functions@.take(f as int) =~= functions@);
    assert(text_entries(claimed@) =~= blueprint_claims(*blueprint));
    let ghost claim_part = diagnostics_view(diagnostics@);
    let bindings = &blueprint.bindings;
    let mut b: usize = 0;
    assert(bindings@.take(0) =~= Seq::<FieldBinding>::empty());
    while b < bindings.len()
        invariant
            b <= bindings@.len(),
            bindings == &blueprint.bindings,
            diagnostics_view(diagnostics@) == claim_part + dangling_bindings(blueprint.structs@, bindings@.take(b as int)),
        decreases bindings@.len() - b,
    {
        let binding = &bindings[b];
        let owner_ok = struct_described(&blueprint.structs, &binding.owner);
        let field_ok = field_described(&blueprint.structs, &binding.owner, &binding.field);
        assert(bindings@.take(b + 1).drop_last() =~= bindings@.take(b as int));
        assert(bindings@.take(b + 1).last() == *binding);
        let ghost rest = dangling_bindings(blueprint.structs@, bindings@.take(b as int));
        if !owner_ok || !field_ok {
            let d = Diagnostic::error(binding.field.native_name.as_str(), "字段绑定引用了不存在的结构或字段。");
            diagnostics.push(d);
            assert(diagnostics_view(diagnostics@) =~= diagnostics_view(diagnostics@.drop_last()).push(d@));
            assert((claim_part + rest).push(d@) =~= claim_part + rest.push(d@));
        }
        b = b + 1;
    }
    assert(bindings@.take(b as int) =~= bindings@);
    diagnostics
}

fn struct_described(structs: &Vec<StructDefinition>, owner: &SemanticDescriptor) -> (r: bool)
    ensures
        r == owner_exists(structs@, *owner),
{
    let mut i: usize = 0;
    while i < structs.len()
        invariant
            i <= structs@.len(),
            forall|t: int| 0 <= t < i ==> #[trigger] structs@[t].descriptor@ != owner@,
        decreases structs@.len() - i,
    {
        if same_descriptor(&structs[i].descriptor, owner) {
            return true;
        }
        i = i + 1;
    }
    false
}

fn field_described(structs: &Vec<StructDefinition>, owner: &SemanticDescriptor, field: &SemanticDescriptor) -> (r: bool)
    ensures
        r == owned_field_exists(structs@, *owner, *field),
{
    let mut i: usize = 0;
    while i < structs.len()
        invariant
            i <= structs@.len(),
            forall|t: int, u: int|
                0 <= t < i && #[trigger] structs@[t].descriptor@ == owner@ && 0 <= u < structs@[t].fields@.len()
                    ==> #[trigger] structs@[t].fields@[u].descriptor@ != field@,
        decreases structs@.len() - i,
    {
        if same_descriptor(&structs[i].descriptor, owner) {
            let fields = &structs[i].fields;
            let mut j: usize = 0;
            while j < fields.len()
                invariant
                    j <= fields@.len(),
                    i < structs@.len(),
                    structs@[i as int].descriptor@ == owner@,
                    fields == &structs@[i as int].fields,
                    forall|u: int| 0 <= u < j ==> #[trigger] fields@[u].descriptor@ != field@,
                decreases fields@.len() - j,
            {
                if same_descriptor(&fields[j].descriptor, field) {
                    assert(structs@[i as int].descriptor@ == owner@);
                    assert(structs@[i as int].fields@[j as int].descriptor@ == field@);
                    return true;
                }
                j = j + 1;
            }
        }
        i = i + 1;
    }
    false
}

/// A marker of `markers` that `source` contains is reported.
proof fn lemma_marker_reported(source: Seq<char>, markers: Seq<(Seq<char>, Seq<char>)>, k: int)
    requires
        0 <= k < markers.len(),
        contains(source, markers[k].0),
    ensures
        leak_diagnostics(source, markers).contains(error_view("母语输入"@, leak_message(markers[k].1))),
    decreases markers.len(),
{
    let rest = markers.drop_last();
    let d = error_view("母语输入"@, leak_message(markers[k].1));
    if k < markers.len() - 1 {
        assert(rest[k] == markers[k]);
        lemma_marker_reported(source, rest, k);
        let r = leak_diagnostics(source, rest);
        let i = choose|i: int| 0 <= i < r.len() && r[i] == d;
        if contains(source, markers.last().0) {
            assert(r.push(error_view("母语输入"@, leak_message(markers.last().1)))[i] == d);
        }
    } else {
        assert(markers.last() == markers[k]);
        let r = leak_diagnostics(source, rest);
        assert(r.push(d)[r.len() as int] == d);
    }
}

/// Nothing is reported for a source that contains none of the markers.
proof fn lemma_no_marker_reported(source: Seq<char>, markers: Seq<(Seq<char>, Seq<char>)>)
    requires
        forall|k: int| 0 <= k < markers.len() ==> !contains(source, #[trigger] markers[k].0),
    ensures
        leak_diagnostics(source, markers).len() == 0,
    decreases markers.len(),
{
    if markers.len() > 0 {
        let rest = markers.drop_last();
        assert forall|k: int| 0 <= k < rest.len() implies !contains(source, #[trigger] rest[k].0) by {
            assert(rest[k] == markers[k]);
        }
        lemma_no_marker_reported(source, rest);
        assert(markers.last() == markers[markers.len() - 1]);
    }
}

/// The source contract refuses every machine-protocol marker: a source that
/// contains `kind:`, `dictionary:`, `provider_id`, `rust_type`, `table_name` or
/// `code:` (a colon also full-width) is refused with an error naming what the
/// source filled in, and a source that contains none of them passes.
pub proof fn lemma_source_contract_refuses_markers(source: Seq<char>)
    ensures
        ({
            let r = leak_diagnostics(source, forbidden_markers());
            let refused = |label: Seq<char>|
                DiagnosticView {
                    level: DiagnosticLevel::Error,
                    subject: "母语输入"@,
                    message: "产品输入不能填写"@ + label + "，该信息必须由编译器推导。"@,
                };
            &&& (contains(source, "kind:"@) || contains(source, "kind："@)) ==> r.contains(refused("类型判别字段"@))
            &&& (contains(source, "dictionary:"@) || contains(source, "dictionary："@)) ==> r.contains(refused("字典编码"@))
            &&& contains(source, "provider_id"@) ==> r.contains(refused("能力提供者标识"@))
            &&& contains(source, "rust_type"@) ==> r.contains(refused("Rust 类型"@))
            &&& contains(source, "table_name"@) ==> r.contains(refused("数据库表名"@))
            &&& (contains(source, "code:"@) || contains(source, "code："@)) ==> r.contains(refused("显式代码"@))
            &&& (!contains(source, "kind:"@) && !contains(source, "kind："@) && !contains(source, "dictionary:"@)
                && !contains(source, "dictionary："@) && !contains(source, "provider_id"@) && !contains(source, "rust_type"@)
                && !contains(source, "table_name"@) && !contains(source, "code:"@) && !contains(source, "code："@))
                ==> r.len() == 0
        }),
{
    let m = forbidden_markers();
    assert forall|k: int| 0 <= k < m.len() && contains(source, #[trigger] m[k].0) implies leak_diagnostics(source, m).contains(
        error_view("母语输入"@, leak_message(m[k].1)),
    ) by {
        lemma_marker_reported(source, m, k);
    }
    assert(m[0].0 == "kind:"@ && m[1].0 == "kind："@ && m[2].0 == "dictionary:"@ && m[3].0 == "dictionary："@);
    assert(m[4].0 == "provider_id"@ && m[5].0 == "rust_type"@ && m[6].0 == "table_name"@);
    assert(m[7].0 == "code:"@ && m[8].0 == "code："@);
    if forall|k: int| 0 <= k < m.len() ==> !contains(source, #[trigger] m[k].0) {
        lemma_no_marker_reported(source, m);
    }
}

/// A binding whose owner describes no structure that has a field the binding's
/// field describes is listed as dangling.
proof fn lemma_dangling_listed(structs: Seq<StructDefinition>, bindings: Seq<FieldBinding>, k: int)
    requires
        0 <= k < bindings.len(),
        !owned_field_exists(structs, bindings[k].owner, bindings[k].field),
    ensures
        dangling_bindings(structs, bindings).contains(error_view(bindings[k].field.native_name@, dangling_binding_message())),
    decreases bindings.len(),
{
    let rest = bindings.drop_last();
    let d = error_view(bindings[k].field.native_name@, dangling_binding_message());
    if k < bindings.len() - 1 {
        assert(rest[k] == bindings[k]);
        lemma_dangling_listed(structs, rest, k);
        let r = dangling_bindings(structs, rest);
        let i = choose|i: int| 0 <= i < r.len() && r[i] == d;
        let b = bindings.last();
        if !owner_exists(structs, b.owner) || !owned_field_exists(structs, b.owner, b.field) {
            assert(r.push(error_view(b.field.native_name@, dangling_binding_message()))[i] == d);
        }
    } else {
        assert(bindings.last() == bindings[k]);
        let r = dangling_bindings(structs, rest);
        assert(r.push(d)[r.len() as int] == d);
    }
}

/// No binding is listed as dangling when every binding's owner describes a
/// structure that has a field the binding's field describes.
proof fn lemma_no_dangling(structs: Seq<StructDefinition>, bindings: Seq<FieldBinding>)
    requires
        forall|k: int| 0 <= k < bindings.len() ==> owned_field_exists(structs, (#[trigger] bindings[k]).owner, bindings[k].field),
    ensures
        dangling_bindings(structs, bindings).len() == 0,
    decreases bindings.len(),
{
    if bindings.len() > 0 {
        let rest = bindings.drop_last();
        assert forall|k: int| 0 <= k < rest.len() implies owned_field_exists(structs, (#[trigger] rest[k]).owner, rest[k].field) by {
            assert(rest[k] == bindings[k]);
        }
        lemma_no_dangling(structs, rest);
        let b = bindings.last();
        assert(b == bindings[bindings.len() - 1]);
        let (i, j) = choose|i: int, j: int|
            0 <= i < structs.len() && #[trigger] structs[i].descriptor@ == b.owner@ && 0 <= j < structs[i].fields@.len()
                && #[trigger] structs[i].fields@[j].descriptor@ == b.field@;
        assert(owner_exists(structs, b.owner));
    }
}

/// The policy refuses a binding to a field its owner does not have: when no
/// structure described by the binding's owner has a field described by the
/// binding's field, the policy reports an error on the field's name.  When
/// every binding refers to an existing field of its owner, the policy reports
/// code conflicts only.
pub proof fn lemma_policy_refuses_dangling_bindings(b: Blueprint)
    ensures
        forall|k: int|
            0 <= k < b.bindings@.len() && !(exists|i: int, j: int|
                0 <= i < b.structs@.len() && 0 <= j < b.structs@[i].fields@.len() && b.structs@[i].descriptor@
                    == (#[trigger] b.bindings@[k]).owner@ && #[trigger] b.structs@[i].fields@[j].descriptor@
                    == b.bindings@[k].field@) ==> blueprint_policy(b).contains(
                DiagnosticView {
                    level: DiagnosticLevel::Error,
                    subject: b.bindings@[k].field.native_name@,
                    message: "字段绑定引用了不存在的结构或字段。"@,
                },
            ),
        (forall|k: int|
            0 <= k < b.bindings@.len() ==> exists|i: int, j: int|
                0 <= i < b.structs@.len() && 0 <= j < b.structs@[i].fields@.len() && b.structs@[i].descriptor@
                    == (#[trigger] b.bindings@[k]).owner@ && #[trigger] b.structs@[i].fields@[j].descriptor@
                    == b.bindings@[k].field@) ==> blueprint_policy(b) == claim_conflicts(blueprint_claims(b)),
{
    let c = claim_conflicts(blueprint_claims(b));
    let structs = b.structs@;
    let bindings = b.bindings@;
    assert forall|k: int|
        0 <= k < bindings.len() && !(exists|i: int, j: int|
            0 <= i < structs.len() && 0 <= j < structs[i].fields@.len() && structs[i].descriptor@ == (#[trigger] bindings[k]).owner@
                && #[trigger] structs[i].fields@[j].descriptor@ == bindings[k].field@) implies blueprint_policy(b).contains(
        error_view(bindings[k].field.native_name@, dangling_binding_message()),
    ) by {
        lemma_dangling_listed(structs, bindings, k);
        let r = dangling_bindings(structs, bindings);
        let i = choose|i: int| 0 <= i < r.len() && r[i] == error_view(bindings[k].field.native_name@, dangling_binding_message());
        assert((c + r)[c.len() + i] == r[i]);
    }
    if forall|k: int|
        0 <= k < bindings.len() ==> exists|i: int, j: int|
            0 <= i < structs.len() && 0 <= j < structs[i].fields@.len() && structs[i].descriptor@ == (#[trigger] bindings[k]).owner@
                && #[trigger] structs[i].fields@[j].descriptor@ == bindings[k].field@ {
        lemma_no_dangling(structs, bindings);
        assert(c + dangling_bindings(structs, bindings) =~= c);
    }
}

} // verus!
