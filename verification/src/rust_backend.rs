//! The deterministic Rust backend.  It consumes only the blueprint: the library
//! plans every generated item (names, checks, bindings, tests) and assembles the
//! artifact set; the host turns each plan into formatted Rust source.
use vstd::prelude::*;

use crate::artifact::{files_bytes, files_text, sorted_files, ArtifactFile, ArtifactSet};
use crate::digest::{hex_lower, is_hex_text, spec_sha256};
use crate::text::{concat2, owned};
use convert_case::Casing;

pub mod model;
pub mod bindings;
pub mod tests;


verus! {

/// Why the backend cannot generate a blueprint.
#[derive(Clone, Debug, PartialEq, Eq)]
pub enum BackendError {
    /// A code does not become a Rust type identifier.
    TypeIdent { code: String },
    /// A code does not become a Rust value identifier.
    ValueIdent { code: String },
    /// A field of a decoded structure has no binding.
    MissingBinding { field: String },
    /// A division is bound to a field that is not a decimal.
    DivisionOnNonDecimal { field: String },
    /// There is no structure to generate tests for.
    NoStructure,
    /// A range-checked field has no binding.
    MissingRangeBinding { field: String },
}

/// The content of a backend error.
pub ghost enum BackendErrorView {
    TypeIdent(Seq<char>),
    ValueIdent(Seq<char>),
    MissingBinding(Seq<char>),
    DivisionOnNonDecimal(Seq<char>),
    NoStructure,
    MissingRangeBinding(Seq<char>),
}

impl View for BackendError {
    type V = BackendErrorView;

    open spec fn view(&self) -> BackendErrorView {
        match self {
            BackendError::TypeIdent { code } => BackendErrorView::TypeIdent(code@),
            BackendError::ValueIdent { code } => BackendErrorView::ValueIdent(code@),
            BackendError::MissingBinding { field } => BackendErrorView::MissingBinding(field@),
            BackendError::DivisionOnNonDecimal { field } => BackendErrorView::DivisionOnNonDecimal(field@),
            BackendError::NoStructure => BackendErrorView::NoStructure,
            BackendError::MissingRangeBinding { field } => BackendErrorView::MissingRangeBinding(field@),
        }
    }
}

/// The message an engineer reads for a backend error.
pub open spec fn backend_error_message(e: BackendErrorView) -> Seq<char> {
    match e {
        BackendErrorView::TypeIdent(code) => "无法把 "@ + code + " 生成为 Rust 类型标识符"@,
        BackendErrorView::ValueIdent(code) => "无法把 "@ + code + " 生成为 Rust 值标识符"@,
        BackendErrorView::MissingBinding(field) => "字段 "@ + field + " 缺少生成绑定"@,
        BackendErrorView::DivisionOnNonDecimal(field) => "除法变换只能生成到小数字段: "@ + field,
        BackendErrorView::NoStructure => "至少需要一个结构定义才能生成测试"@,
        BackendErrorView::MissingRangeBinding(field) => "范围校验字段缺少生成绑定: "@ + field,
    }
}

impl BackendError {
    /// The message of this error.
    pub fn message(&self) -> (r: String)
        ensures
            r@ == backend_error_message(self@),
    {
        match self {
            BackendError::TypeIdent { code } => crate::text::concat3("无法把 ", code.as_str(), " 生成为 Rust 类型标识符"),
            BackendError::ValueIdent { code } => crate::text::concat3("无法把 ", code.as_str(), " 生成为 Rust 值标识符"),
            BackendError::MissingBinding { field } => crate::text::concat3("字段 ", field.as_str(), " 缺少生成绑定"),
            BackendError::DivisionOnNonDecimal { field } => concat2("除法变换只能生成到小数字段: ", field.as_str()),
            BackendError::NoStructure => owned("至少需要一个结构定义才能生成测试"),
            BackendError::MissingRangeBinding { field } => concat2("范围校验字段缺少生成绑定: ", field.as_str()),
        }
    }
}

/// The first error of two steps, or the sequence extended by the second's item.
pub open spec fn push_ok<T>(rest: Result<Seq<T>, BackendErrorView>, item: Result<T, BackendErrorView>) -> Result<Seq<T>, BackendErrorView> {
    match rest {
        Ok(s) => match item {
            Ok(x) => Ok(s.push(x)),
            Err(e) => Err(e),
        },
        Err(e) => Err(e),
    }
}

/// The first error of two steps, or the two sequences one after the other.
pub open spec fn concat_ok<T>(rest: Result<Seq<T>, BackendErrorView>, more: Result<Seq<T>, BackendErrorView>) -> Result<Seq<T>, BackendErrorView> {
    match rest {
        Ok(s) => match more {
            Ok(t) => Ok(s + t),
            Err(e) => Err(e),
        },
        Err(e) => Err(e),
    }
}

/// Planning each element in turn: the plans in order, or the first error.
pub open spec fn collect_ok<A, T>(xs: Seq<A>, f: spec_fn(A) -> Result<T, BackendErrorView>) -> Result<Seq<T>, BackendErrorView>
    decreases xs.len(),
{
    if xs.len() == 0 {
        Ok(Seq::empty())
    } else {
        push_ok(collect_ok(xs.drop_last(), f), f(xs.last()))
    }
}

/// Planning each element in turn, each giving several items: all of them in
/// order, or the first error.
pub open spec fn flat_collect_ok<A, T>(xs: Seq<A>, f: spec_fn(A) -> Result<Seq<T>, BackendErrorView>) -> Result<Seq<T>, BackendErrorView>
    decreases xs.len(),
{
    if xs.len() == 0 {
        Ok(Seq::empty())
    } else {
        concat_ok(flat_collect_ok(xs.drop_last(), f), f(xs.last()))
    }
}

/// A successful collection holds, at each position, the plan of the element
/// at that position.
pub proof fn lemma_collect_ok_each<A, T>(xs: Seq<A>, f: spec_fn(A) -> Result<T, BackendErrorView>)
    ensures
        collect_ok(xs, f) matches Ok(ys) ==> ys.len() == xs.len() && forall|i: int|
            0 <= i < xs.len() ==> #[trigger] f(xs[i]) == Ok::<T, BackendErrorView>(ys[i]),
    decreases xs.len(),
{
    if xs.len() > 0 {
        let rest = xs.drop_last();
        lemma_collect_ok_each(rest, f);
        if collect_ok(xs, f) is Ok {
            let ys = collect_ok(xs, f)->Ok_0;
            let ys0 = collect_ok(rest, f)->Ok_0;
            assert forall|i: int| 0 <= i < xs.len() implies #[trigger] f(xs[i]) == Ok::<T, BackendErrorView>(ys[i]) by {
                if i < rest.len() {
                    assert(rest[i] == xs[i]);
                    assert(ys[i] == ys0[i]);
                } else {
                    assert(xs.last() == xs[i]);
                }
            }
        }
    }
}

/// A successful flat collection holds every item that the plan of each of its
/// elements gives.
pub proof fn lemma_flat_collect_ok_each<A, T>(xs: Seq<A>, f: spec_fn(A) -> Result<Seq<T>, BackendErrorView>, i: int)
    requires
        0 <= i < xs.len(),
        flat_collect_ok(xs, f) is Ok,
    ensures
        f(xs[i]) is Ok,
        forall|x: T| (#[trigger] f(xs[i])->Ok_0.contains(x)) ==> flat_collect_ok(xs, f)->Ok_0.contains(x),
    decreases xs.len(),
{
    let rest = xs.drop_last();
    let all = flat_collect_ok(xs, f)->Ok_0;
    let before = flat_collect_ok(rest, f)->Ok_0;
    if i < rest.len() {
        assert(rest[i] == xs[i]);
        lemma_flat_collect_ok_each(rest, f, i);
        assert forall|x: T| (#[trigger] f(xs[i])->Ok_0.contains(x)) implies all.contains(x) by {
            let k = choose|k: int| 0 <= k < before.len() && before[k] == x;
            assert(all[k] == before[k]);
        }
    } else {
        assert(xs.last() == xs[i]);
        let mine = f(xs[i])->Ok_0;
        assert forall|x: T| (#[trigger] f(xs[i])->Ok_0.contains(x)) implies all.contains(x) by {
            let k = choose|k: int| 0 <= k < mine.len() && mine[k] == x;
            assert(all[before.len() + k] == mine[k]);
        }
    }
}

/// One more element of a collection.
pub proof fn lemma_collect_step<A, T>(xs: Seq<A>, f: spec_fn(A) -> Result<T, BackendErrorView>, i: int)
    requires
        0 <= i < xs.len(),
    ensures
        collect_ok(xs.take(i + 1), f) == push_ok(collect_ok(xs.take(i), f), f(xs[i])),
{
    assert(xs.take(i + 1).drop_last() =~= xs.take(i));
    assert(xs.take(i + 1).last() == xs[i]);
}

/// An error in a prefix is the error of the whole collection.
pub proof fn lemma_collect_err<A, T>(xs: Seq<A>, f: spec_fn(A) -> Result<T, BackendErrorView>, i: int)
    requires
        0 <= i <= xs.len(),
        collect_ok(xs.take(i), f) is Err,
    ensures
        collect_ok(xs, f) == collect_ok(xs.take(i), f),
    decreases xs.len() - i,
{
    if i < xs.len() {
        lemma_collect_step(xs, f, i);
        lemma_collect_err(xs, f, i + 1);
    } else {
        assert(xs.take(i) =~= xs);
    }
}

/// One more element of a flat collection.
pub proof fn lemma_flat_collect_step<A, T>(xs: Seq<A>, f: spec_fn(A) -> Result<Seq<T>, BackendErrorView>, i: int)
    requires
        0 <= i < xs.len(),
    ensures
        flat_collect_ok(xs.take(i + 1), f) == concat_ok(flat_collect_ok(xs.take(i), f), f(xs[i])),
{
    assert(xs.take(i + 1).drop_last() =~= xs.take(i));
    assert(xs.take(i + 1).last() == xs[i]);
}

/// An error in a prefix is the error of the whole flat collection.
pub proof fn lemma_flat_collect_err<A, T>(xs: Seq<A>, f: spec_fn(A) -> Result<Seq<T>, BackendErrorView>, i: int)
    requires
        0 <= i <= xs.len(),
        flat_collect_ok(xs.take(i), f) is Err,
    ensures
        flat_collect_ok(xs, f) == flat_collect_ok(xs.take(i), f),
    decreases xs.len() - i,
{
    if i < xs.len() {
        lemma_flat_collect_step(xs, f, i);
        lemma_flat_collect_err(xs, f, i + 1);
    } else {
        assert(xs.take(i) =~= xs);
    }
}

/// The plans of a planning step, as text, or its error.
pub open spec fn plan_view<T, V>(r: Result<Vec<T>, BackendError>, f: spec_fn(T) -> V) -> Result<Seq<V>, BackendErrorView> {
    match r {
        Ok(v) => Ok(v@.map_values(f)),
        Err(e) => Err(e@),
    }
}

/// The case an identifier is written in.
#[derive(Clone, Copy, Debug, PartialEq, Eq, Structural)]
pub enum IdentCase {
    /// `PascalCase`, for types.
    Pascal,
    /// `snake_case`, for values and functions.
    Snake,
}

/// `code` converted to `case` by `convert_case`.
pub uninterp spec fn spec_to_case(code: Seq<char>, case: IdentCase) -> Seq<char>;

/// `text` parses as a Rust identifier with `syn`.
pub uninterp spec fn spec_parses_as_ident(text: Seq<char>) -> bool;

/// Calls `convert_case::Casing::to_case` with the case of the same name.
#[verifier::external_body]
fn to_case(code: &str, case: IdentCase) -> (r: String)
    ensures
        r@ == spec_to_case(code@, case),
{
    code.to_case(
        match case {
            IdentCase::Pascal => convert_case::Case::Pascal,
            IdentCase::Snake => convert_case::Case::Snake,
        },
    )
}

/// Calls `syn::parse_str::<syn::Ident>` and tells whether it parsed.
#[verifier::external_body]
fn parses_as_ident(text: &str) -> (r: bool)
    ensures
        r == spec_parses_as_ident(text@),
{
    syn::parse_str::<syn::Ident>(text).is_ok()
}

/// The Rust type identifier of a code, or the error naming the code.
pub open spec fn type_ident_of(code: Seq<char>) -> Result<Seq<char>, BackendErrorView> {
    if spec_parses_as_ident(spec_to_case(code, IdentCase::Pascal)) {
        Ok(spec_to_case(code, IdentCase::Pascal))
    } else {
        Err(BackendErrorView::TypeIdent(code))
    }
}

/// The Rust value identifier of a code, or the error naming the code.
pub open spec fn value_ident_of(code: Seq<char>) -> Result<Seq<char>, BackendErrorView> {
    if spec_parses_as_ident(spec_to_case(code, IdentCase::Snake)) {
        Ok(spec_to_case(code, IdentCase::Snake))
    } else {
        Err(BackendErrorView::ValueIdent(code))
    }
}

/// The text of an identifier result.
pub open spec fn ident_view(r: Result<String, BackendError>) -> Result<Seq<char>, BackendErrorView> {
    match r {
        Ok(s) => Ok(s@),
        Err(e) => Err(e@),
    }
}

/// A PascalCase candidate becomes the type identifier of `code` when it parses.
pub fn type_ident_from(code: &str, candidate: String, parses: bool) -> (r: Result<String, BackendError>)
    ensures
        ident_view(r) == if parses {
            Ok(candidate@)
        } else {
            Err(BackendErrorView::TypeIdent(code@))
        },
{
    if parses {
        Ok(candidate)
    } else {
        Err(BackendError::TypeIdent { code: owned(code) })
    }
}

/// A snake_case candidate becomes the value identifier of `code` when it parses.
pub fn value_ident_from(code: &str, candidate: String, parses: bool) -> (r: Result<String, BackendError>)
    ensures
        ident_view(r) == if parses {
            Ok(candidate@)
        } else {
            Err(BackendErrorView::ValueIdent(code@))
        },
{
    if parses {
        Ok(candidate)
    } else {
        Err(BackendError::ValueIdent { code: owned(code) })
    }
}

/// The Rust type identifier of a code: its PascalCase form, when that is an identifier.
pub fn type_ident(code: &str) -> (r: Result<String, BackendError>)
    ensures
        ident_view(r) == type_ident_of(code@),
{
    let candidate = to_case(code, IdentCase::Pascal);
    let parses = parses_as_ident(candidate.as_str());
    type_ident_from(code, candidate, parses)
}

/// The Rust value identifier of a code: its snake_case form, when that is an identifier.
pub fn value_ident(code: &str) -> (r: Result<String, BackendError>)
    ensures
        ident_view(r) == value_ident_of(code@),
{
    let candidate = to_case(code, IdentCase::Snake);
    let parses = parses_as_ident(candidate.as_str());
    value_ident_from(code, candidate, parses)
}

/// The source of the generated crate root.
pub open spec fn lib_source() -> Seq<char> {
    "#![forbid(unsafe_code)]\n\npub mod bindings;\npub mod descriptors;\npub mod enums;\npub mod functions;\npub mod structs;\npub mod validators;\n"@
}

/// The generated crate root: it forbids unsafe code and declares the modules.
pub fn render_lib() -> (r: String)
    ensures
        r@ == lib_source(),
{
    owned("#![forbid(unsafe_code)]\n\npub mod bindings;\npub mod descriptors;\npub mod enums;\npub mod functions;\npub mod structs;\npub mod validators;\n")
}

/// A generated file.
pub fn artifact(relative_path: &str, source: String) -> (r: ArtifactFile)
    ensures
        r.relative_path@ == relative_path@,
        r.source == source,
{
    ArtifactFile { relative_path: owned(relative_path), source }
}

/// The formatted sources of the generated modules and tests.
pub struct GeneratedSources {
    pub descriptors: String,
    pub structs: String,
    pub enums: String,
    pub validators: String,
    pub bindings: String,
    pub functions: String,
    pub tests: String,
}

/// The paths and sources of the generated files, in the order they are produced.
pub open spec fn generated_files(blueprint_json: Seq<char>, application_json: Seq<char>, s: GeneratedSources) -> Seq<(Seq<char>, Seq<char>)> {
    seq![
        ("blueprint.json"@, blueprint_json),
        ("application.json"@, application_json),
        ("src/lib.rs"@, lib_source()),
        ("src/descriptors.rs"@, s.descriptors@),
        ("src/structs.rs"@, s.structs@),
        ("src/enums.rs"@, s.enums@),
        ("src/validators.rs"@, s.validators@),
        ("src/bindings.rs"@, s.bindings@),
        ("src/functions.rs"@, s.functions@),
        ("tests/generated.rs"@, s.tests@),
    ]
}

/// The backend that generates Rust source from a blueprint.
#[derive(Clone, Copy, Debug, Default)]
pub struct RustBackend;

impl RustBackend {
    /// The artifact set of a generation: the two JSON snapshots, the crate
    /// root, the six generated modules and the generated tests.
    pub fn assemble(&self, blueprint_json: String, application_json: String, sources: GeneratedSources) -> (r: ArtifactSet)
        ensures
            files_text(r.files@) == sorted_files(generated_files(blueprint_json@, application_json@, sources)),
            r.hash@ == hex_lower(spec_sha256(files_bytes(sorted_files(generated_files(blueprint_json@, application_json@, sources))))),
            r.hash@.len() == 64,
            is_hex_text(r.hash@),
    {
        let ghost expected = generated_files(blueprint_json@, application_json@, sources);
        let files = vec![
            artifact("blueprint.json", blueprint_json),
            artifact("application.json", application_json),
            artifact("src/lib.rs", render_lib()),
            artifact("src/descriptors.rs", sources.descriptors),
            artifact("src/structs.rs", sources.structs),
            artifact("src/enums.rs", sources.enums),
            artifact("src/validators.rs", sources.validators),
            artifact("src/bindings.rs", sources.bindings),
            artifact("src/functions.rs", sources.functions),
            artifact("tests/generated.rs", sources.tests),
        ];
        assert(files_text(files@) =~= expected);
        ArtifactSet::new(files)
    }
}

} // verus!
