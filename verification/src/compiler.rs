//! The compilation pipeline: source contract, inference, capability
//! resolution, blueprint policy and Rust generation.  The host performs each
//! stage's outside work; a session records the outcomes and decides what comes next.
use vstd::prelude::*;

use crate::artifact::ArtifactSet;
use crate::blueprint::{Blueprint, FieldDefinition, StructDefinition};
use crate::diagnostic::{diagnostics_view, BreakingChange, Diagnostic, DiagnosticLevel, DiagnosticView, ImpactArea};
use crate::inference::engine::InferenceResult;
use crate::observability::{CompileStage, CompileStageObservation, CompileStageStatus, CompileTrace, InferenceMode};
use crate::policy::{blueprint_policy, validate_blueprint};
use crate::text::{concat3, owned, str_eq};

verus! {

/// A compilation request: the mother-tongue source and, optionally, the
/// blueprint of the previous version.
#[derive(Clone, Debug, PartialEq)]
pub struct CompileRequest {
    pub source_text: String,
    pub previous_blueprint: Option<Blueprint>,
}

/// The complete result of a compilation; there are no artifacts when a
/// diagnostic is an error.
#[derive(Clone, Debug, PartialEq)]
pub struct CompileResult {
    pub blueprint: Option<Blueprint>,
    pub diagnostics: Vec<Diagnostic>,
    pub breaking_changes: Vec<BreakingChange>,
    pub artifacts: Option<ArtifactSet>,
    pub trace: CompileTrace,
}

/// Some diagnostic is an error.
pub open spec fn has_error(ds: Seq<DiagnosticView>) -> bool {
    exists|i: int| 0 <= i < ds.len() && (#[trigger] ds[i]).level == DiagnosticLevel::Error
}

/// Whether some diagnostic is an error.
pub fn has_errors(diagnostics: &[Diagnostic]) -> (r: bool)
    ensures
        r == has_error(diagnostics_view(diagnostics@)),
{
    let ghost ds = diagnostics_view(diagnostics@);
    let mut i: usize = 0;
    while i < diagnostics.len()
        invariant
            i <= diagnostics@.len(),
            ds == diagnostics_view(diagnostics@),
            forall|j: int| 0 <= j < i ==> (#[trigger] ds[j]).level != DiagnosticLevel::Error,
        decreases diagnostics@.len() - i,
    {
        let is_error = match diagnostics[i].level {
            DiagnosticLevel::Error => true,
            _ => false,
        };
        if is_error {
            assert(ds[i as int].level == DiagnosticLevel::Error);
            return true;
        }
        i = i + 1;
    }
    false
}

/// The observation of a stage that took `duration_ms` milliseconds.
pub open spec fn observation(stage: CompileStage, duration_ms: u64, succeeded: bool) -> CompileStageObservation {
    CompileStageObservation {
        stage,
        status: if succeeded {
            CompileStageStatus::Succeeded
        } else {
            CompileStageStatus::Failed
        },
        duration_ms,
    }
}

/// Records a stage, how long it took and whether it succeeded.
pub fn trace_stage(trace: &mut CompileTrace, stage: CompileStage, duration_ms: u64, succeeded: bool)
    ensures
        final(trace).stages@ == old(trace).stages@.push(observation(stage, duration_ms, succeeded)),
        final(trace).inference == old(trace).inference,
{
    let status = if succeeded {
        CompileStageStatus::Succeeded
    } else {
        CompileStageStatus::Failed
    };
    trace.stages.push(CompileStageObservation { stage, status, duration_ms });
}

/// The content of a breaking change.
pub ghost struct ChangeView {
    pub subject: Seq<char>,
    pub previous_code: Seq<char>,
    pub current_code: Seq<char>,
    pub impacts: Seq<ImpactArea>,
    pub message: Seq<char>,
}

/// The content of a breaking change.
pub open spec fn change_view(c: BreakingChange) -> ChangeView {
    ChangeView {
        subject: c.subject@,
        previous_code: c.previous_code@,
        current_code: c.current_code@,
        impacts: c.impacts@,
        message: c.message@,
    }
}

/// The contents of a list of breaking changes.
pub open spec fn changes_view(cs: Seq<BreakingChange>) -> Seq<ChangeView> {
    cs.map_values(|c: BreakingChange| change_view(c))
}

/// Every boundary a re-encoding reaches.
pub open spec fn all_impacts() -> Seq<ImpactArea> {
    seq![ImpactArea::Database, ImpactArea::Api, ImpactArea::Dictionary, ImpactArea::DeviceBinding]
}

/// The breaking change of a name re-encoded from `old_code` to `new_code`.
pub open spec fn reencoded(old_name: Seq<char>, old_code: Seq<char>, new_name: Seq<char>, new_code: Seq<char>) -> ChangeView {
    ChangeView {
        subject: old_name + " → "@ + new_name,
        previous_code: old_code,
        current_code: new_code,
        impacts: all_impacts(),
        message: "母语名称变化导致代码身份重算，所有内部引用必须同步迁移。"@,
    }
}

/// The breaking change of a re-encoded name, if its code changed.
pub open spec fn code_change(old_name: Seq<char>, old_code: Seq<char>, new_name: Seq<char>, new_code: Seq<char>) -> Seq<ChangeView> {
    if old_code == new_code {
        Seq::empty()
    } else {
        seq![reencoded(old_name, old_code, new_name, new_code)]
    }
}

/// Records the breaking change of a re-encoded name when its code changed.
pub fn compare_descriptor(old_name: &str, old_code: &str, new_name: &str, new_code: &str, changes: &mut Vec<BreakingChange>)
    ensures
        changes_view(final(changes)@) == changes_view(old(changes)@) + code_change(old_name@, old_code@, new_name@, new_code@),
{
    if str_eq(old_code, new_code) {
        assert(changes_view(changes@) =~= changes_view(changes@) + code_change(old_name@, old_code@, new_name@, new_code@));
        return;
    }
    let ghost before = changes_view(changes@);
    let impacts = vec![ImpactArea::Database, ImpactArea::Api, ImpactArea::Dictionary, ImpactArea::DeviceBinding];
    changes.push(
        BreakingChange {
            subject: concat3(old_name, " → ", new_name),
            previous_code: owned(old_code),
            current_code: owned(new_code),
            impacts,
            message: owned("母语名称变化导致代码身份重算，所有内部引用必须同步迁移。"),
        },
    );
    assert(changes_view(changes@) =~= before + code_change(old_name@, old_code@, new_name@, new_code@));
}

/// The smaller of two lengths.
pub open spec fn min_len(a: int, b: int) -> int {
    if a <= b {
        a
    } else {
        b
    }
}

/// The breaking changes of the first `n` pairs of fields.
pub open spec fn field_changes(olds: Seq<FieldDefinition>, news: Seq<FieldDefinition>, n: int) -> Seq<ChangeView>
    decreases n,
{
    if n <= 0 {
        Seq::empty()
    } else {
        field_changes(olds, news, n - 1) + code_change(
            olds[n - 1].descriptor.native_name@,
            olds[n - 1].descriptor.code@,
            news[n - 1].descriptor.native_name@,
            news[n - 1].descriptor.code@,
        )
    }
}

/// The breaking changes of one pair of structures: the structure's own, then
/// those of its fields, paired in order.
pub open spec fn struct_change(old: StructDefinition, new: StructDefinition) -> Seq<ChangeView> {
    code_change(old.descriptor.native_name@, old.descriptor.code@, new.descriptor.native_name@, new.descriptor.code@)
        + field_changes(old.fields@, new.fields@, min_len(old.fields@.len() as int, new.fields@.len() as int))
}

/// The breaking changes of the first `n` pairs of structures.
pub open spec fn struct_changes(olds: Seq<StructDefinition>, news: Seq<StructDefinition>, n: int) -> Seq<ChangeView>
    decreases n,
{
    if n <= 0 {
        Seq::empty()
    } else {
        struct_changes(olds, news, n - 1) + struct_change(olds[n - 1], news[n - 1])
    }
}

/// The breaking changes between two versions of a blueprint: structures and
/// their fields are paired in order, and every changed code is reported.
pub open spec fn breaking_changes(previous: Blueprint, current: Blueprint) -> Seq<ChangeView> {
    struct_changes(
        previous.structs@,
        current.structs@,
        min_len(previous.structs@.len() as int, current.structs@.len() as int),
    )
}

/// Reports every structure or field whose code changed between two versions.
pub fn detect_breaking_changes(previous: &Blueprint, current: &Blueprint) -> (r: Vec<BreakingChange>)
    ensures
        changes_view(r@) == breaking_changes(*previous, *current),
{
    let mut changes: Vec<BreakingChange> = Vec::new();
    let olds = &previous.structs;
    let news = &current.structs;
    let n = if olds.len() <= news.len() {
        olds.len()
    } else {
        news.len()
    };
    let mut i: usize = 0;
    assert(changes_view(changes@) =~= Seq::<ChangeView>::empty());
    while i < n
        invariant
            i <= n,
            n == min_len(olds@.len() as int, news@.len() as int),
            changes_view(changes@) == struct_changes(olds@, news@, i as int),
        decreases n - i,
    {
        let old = &olds[i];
        let new = &news[i];
        let ghost before = changes_view(changes@);
        compare_descriptor(
            old.descriptor.native_name.as_str(),
            old.encode(),
            new.descriptor.native_name.as_str(),
            new.encode(),
            &mut changes,
        );
        let m = if old.fields.len() <= new.fields.len() {
            old.fields.len()
        } else {
            new.fields.len()
        };
        let ghost mid = changes_view(changes@);
        let mut j: usize = 0;
        assert(mid =~= mid + field_changes(old.fields@, new.fields@, 0));
        while j < m
            invariant
                j <= m,
                m == min_len(old.fields@.len() as int, new.fields@.len() as int),
                changes_view(changes@) == mid + field_changes(old.fields@, new.fields@, j as int),
            decreases m - j,
        {
            let of = &old.fields[j];
            let nf = &new.fields[j];
            let ghost cur = changes_view(changes@);
            compare_descriptor(
                of.descriptor.native_name.as_str(),
                of.descriptor.code.as_str(),
                nf.descriptor.native_name.as_str(),
                nf.descriptor.code.as_str(),
                &mut changes,
            );
            assert(changes_view(changes@) =~= mid + field_changes(old.fields@, new.fields@, j + 1));
            j = j + 1;
        }
        assert(changes_view(changes@) =~= struct_changes(olds@, news@, i + 1));
        i = i + 1;
    }
    changes
}

/// Two versions of the same blueprint break nothing.
pub proof fn lemma_unchanged_blueprint_breaks_nothing(b: Blueprint)
    ensures
        breaking_changes(b, b) == Seq::<ChangeView>::empty(),
{
    assert forall|n: int| 0 <= n <= b.structs@.len() implies #[trigger] struct_changes(b.structs@, b.structs@, n)
        == Seq::<ChangeView>::empty() by {
        lemma_same_structs(b.structs@, n);
    }
    assert(struct_changes(b.structs@, b.structs@, b.structs@.len() as int) == Seq::<ChangeView>::empty());
}

proof fn lemma_same_fields(fs: Seq<FieldDefinition>, n: int)
    ensures
        field_changes(fs, fs, n) == Seq::<ChangeView>::empty(),
    decreases n,
{
    if n > 0 {
        lemma_same_fields(fs, n - 1);
        assert(field_changes(fs, fs, n) =~= Seq::<ChangeView>::empty());
    }
}

proof fn lemma_same_structs(ss: Seq<StructDefinition>, n: int)
    ensures
        struct_changes(ss, ss, n) == Seq::<ChangeView>::empty(),
    decreases n,
{
    if n > 0 {
        lemma_same_structs(ss, n - 1);
        let s = ss[n - 1];
        lemma_same_fields(s.fields@, min_len(s.fields@.len() as int, s.fields@.len() as int));
        assert(struct_changes(ss, ss, n) =~= Seq::<ChangeView>::empty());
    }
}

proof fn lemma_field_change_reported(olds: Seq<FieldDefinition>, news: Seq<FieldDefinition>, n: int, j: int)
    requires
        0 <= j < n,
        olds[j].descriptor.code@ != news[j].descriptor.code@,
    ensures
        field_changes(olds, news, n).contains(
            reencoded(
                olds[j].descriptor.native_name@,
                olds[j].descriptor.code@,
                news[j].descriptor.native_name@,
                news[j].descriptor.code@,
            ),
        ),
    decreases n,
{
    let x = reencoded(
        olds[j].descriptor.native_name@,
        olds[j].descriptor.code@,
        news[j].descriptor.native_name@,
        news[j].descriptor.code@,
    );
    let rest = field_changes(olds, news, n - 1);
    let all = field_changes(olds, news, n);
    if j == n - 1 {
        assert(all[rest.len() as int] == x);
    } else {
        lemma_field_change_reported(olds, news, n - 1, j);
        let k = choose|k: int| 0 <= k < rest.len() && rest[k] == x;
        assert(all[k] == x);
    }
}

proof fn lemma_struct_change_reported(olds: Seq<StructDefinition>, news: Seq<StructDefinition>, n: int, i: int, x: ChangeView)
    requires
        0 <= i < n,
        struct_change(olds[i], news[i]).contains(x),
    ensures
        struct_changes(olds, news, n).contains(x),
    decreases n,
{
    let rest = struct_changes(olds, news, n - 1);
    let all = struct_changes(olds, news, n);
    if i == n - 1 {
        let k = choose|k: int| 0 <= k < struct_change(olds[i], news[i]).len() && struct_change(olds[i], news[i])[k] == x;
        assert(all[rest.len() + k] == x);
    } else {
        lemma_struct_change_reported(olds, news, n - 1, i, x);
        let k = choose|k: int| 0 <= k < rest.len() && rest[k] == x;
        assert(all[k] == x);
    }
}

/// Every structure and every field paired across two versions whose code
/// changed is reported as a breaking change, with its previous and current codes.
pub proof fn lemma_reencoded_names_reported(previous: Blueprint, current: Blueprint, i: int, j: int)
    requires
        0 <= i < previous.structs@.len(),
        i < current.structs@.len(),
    ensures
        ({
            let o = previous.structs@[i];
            let c = current.structs@[i];
            &&& o.descriptor.code@ != c.descriptor.code@ ==> breaking_changes(previous, current).contains(
                reencoded(o.descriptor.native_name@, o.descriptor.code@, c.descriptor.native_name@, c.descriptor.code@),
            )
            &&& (0 <= j < o.fields@.len() && j < c.fields@.len() && o.fields@[j].descriptor.code@
                != c.fields@[j].descriptor.code@) ==> breaking_changes(previous, current).contains(
                reencoded(
                    o.fields@[j].descriptor.native_name@,
                    o.fields@[j].descriptor.code@,
                    c.fields@[j].descriptor.native_name@,
                    c.fields@[j].descriptor.code@,
                ),
            )
        }),
{
    let o = previous.structs@[i];
    let c = current.structs@[i];
    let n = min_len(previous.structs@.len() as int, current.structs@.len() as int);
    let sc = struct_change(o, c);
    let own = code_change(o.descriptor.native_name@, o.descriptor.code@, c.descriptor.native_name@, c.descriptor.code@);
    let m = min_len(o.fields@.len() as int, c.fields@.len() as int);
    let fc = field_changes(o.fields@, c.fields@, m);
    if o.descriptor.code@ != c.descriptor.code@ {
        let x = reencoded(o.descriptor.native_name@, o.descriptor.code@, c.descriptor.native_name@, c.descriptor.code@);
        assert(sc[0] == x);
        lemma_struct_change_reported(previous.structs@, current.structs@, n, i, x);
    }
    if 0 <= j < o.fields@.len() && j < c.fields@.len() && o.fields@[j].descriptor.code@ != c.fields@[j].descriptor.code@ {
        let x = reencoded(
            o.fields@[j].descriptor.native_name@,
            o.fields@[j].descriptor.code@,
            c.fields@[j].descriptor.native_name@,
            c.fields@[j].descriptor.code@,
        );
        lemma_field_change_reported(o.fields@, c.fields@, m, j);
        let k = choose|k: int| 0 <= k < fc.len() && fc[k] == x;
        assert(sc[own.len() + k] == x);
        lemma_struct_change_reported(previous.structs@, current.structs@, n, i, x);
    }
}

/// The policy findings for a blueprint: its policy diagnostics, and the
/// breaking changes against the previous version when there is one.
pub fn policy_findings(blueprint: &Blueprint, previous: Option<&Blueprint>) -> (r: (Vec<Diagnostic>, Vec<BreakingChange>))
    ensures
        diagnostics_view(r.0@) == blueprint_policy(*blueprint),
        changes_view(r.1@) == match previous {
            Some(p) => breaking_changes(*p, *blueprint),
            None => Seq::<ChangeView>::empty(),
        },
{
    let diagnostics = validate_blueprint(blueprint);
    let changes = match previous {
        Some(p) => detect_breaking_changes(p, blueprint),
        None => {
            let v: Vec<BreakingChange> = Vec::new();
            assert(changes_view(v@) =~= Seq::<ChangeView>::empty());
            v
        },
    };
    (diagnostics, changes)
}

/// How far a compilation has come.
#[derive(Clone, Copy, Debug, PartialEq, Eq, Structural)]
pub enum CompilePhase {
    Started,
    SourceChecked,
    Inferred,
    CapabilitiesResolved,
    PolicyChecked,
    Generated,
}

/// The outside work a compilation needs next.
#[derive(Clone, Copy, Debug, PartialEq, Eq, Structural)]
pub enum CompileAction {
    /// Check the source against the source contract.
    CheckSource,
    /// Run the inference engine on the source.
    Infer,
    /// Resolve, validate and lower the blueprint's capability requirements.
    ResolveCapabilities,
    /// Validate the blueprint's policy and compare it with the previous version.
    CheckPolicy,
    /// Generate the Rust artifacts.
    Generate,
    /// Hand the result over.
    Finish,
}

/// The state of one compilation.
pub struct CompileSession {
    phase: CompilePhase,
    trace: CompileTrace,
    diagnostics: Vec<Diagnostic>,
    blueprint: Option<Blueprint>,
    breaking_changes: Vec<BreakingChange>,
    artifacts: Option<ArtifactSet>,
}

/// The recorded state of a compilation.
pub ghost struct SessionView {
    pub phase: CompilePhase,
    pub trace: CompileTrace,
    pub diagnostics: Seq<Diagnostic>,
    pub blueprint: Option<Blueprint>,
    pub breaking_changes: Seq<BreakingChange>,
    pub artifacts: Option<ArtifactSet>,
}

impl View for CompileSession {
    type V = SessionView;

    closed spec fn view(&self) -> SessionView {
        SessionView {
            phase: self.phase,
            trace: self.trace,
            diagnostics: self.diagnostics@,
            blueprint: self.blueprint,
            breaking_changes: self.breaking_changes@,
            artifacts: self.artifacts,
        }
    }
}

/// The action a compilation in state `s` needs next: after a source or policy
/// check that found an error the compilation finishes; otherwise each stage
/// follows the one before.
pub open spec fn next_action_of(s: SessionView) -> CompileAction {
    match s.phase {
        CompilePhase::Started => CompileAction::CheckSource,
        CompilePhase::SourceChecked => if has_error(diagnostics_view(s.diagnostics)) {
            CompileAction::Finish
        } else {
            CompileAction::Infer
        },
        CompilePhase::Inferred => CompileAction::ResolveCapabilities,
        CompilePhase::CapabilitiesResolved => CompileAction::CheckPolicy,
        CompilePhase::PolicyChecked => if has_error(diagnostics_view(s.diagnostics)) {
            CompileAction::Finish
        } else {
            CompileAction::Generate
        },
        CompilePhase::Generated => CompileAction::Finish,
    }
}

/// The stages, in the order they run.
pub open spec fn stage_order() -> Seq<CompileStage> {
    seq![
        CompileStage::SourceContract,
        CompileStage::Inference,
        CompileStage::CapabilityResolution,
        CompileStage::BlueprintPolicy,
        CompileStage::RustGeneration,
    ]
}

/// How many stages a compilation in a phase has run.
pub open spec fn stages_run(p: CompilePhase) -> int {
    match p {
        CompilePhase::Started => 0,
        CompilePhase::SourceChecked => 1,
        CompilePhase::Inferred => 2,
        CompilePhase::CapabilitiesResolved => 3,
        CompilePhase::PolicyChecked => 4,
        CompilePhase::Generated => 5,
    }
}

/// The stages a trace observed, in order.
pub open spec fn observed_stages(t: CompileTrace) -> Seq<CompileStage> {
    t.stages@.map_values(|o: CompileStageObservation| o.stage)
}

/// Observing the next stage extends the observed order by that stage.
proof fn lemma_observe_next(stages: Seq<CompileStageObservation>, o: CompileStageObservation, n: int)
    requires
        0 <= n < 5,
        stages.map_values(|x: CompileStageObservation| x.stage) == stage_order().take(n),
        o.stage == stage_order()[n],
    ensures
        stages.push(o).map_values(|x: CompileStageObservation| x.stage) == stage_order().take(n + 1),
{
    let m = stages.map_values(|x: CompileStageObservation| x.stage);
    let pushed = stages.push(o).map_values(|x: CompileStageObservation| x.stage);
    assert(m.len() == n);
    assert forall|i: int| 0 <= i < n + 1 implies pushed[i] == stage_order().take(n + 1)[i] by {
        if i < n {
            assert(pushed[i] == stages[i].stage);
            assert(m[i] == stages[i].stage);
            assert(m[i] == stage_order().take(n)[i]);
        }
    }
    assert(pushed =~= stage_order().take(n + 1));
}

/// A compilation's state is consistent: its trace observed the stages run so
/// far in their order, it has artifacts only once generated, and generation
/// only follows a compilation without errors.
pub open spec fn session_wf(s: SessionView) -> bool {
    &&& observed_stages(s.trace) == stage_order().take(stages_run(s.phase))
    &&& (s.artifacts is Some <==> s.phase == CompilePhase::Generated)
    &&& (s.phase == CompilePhase::Generated ==> !has_error(diagnostics_view(s.diagnostics)))
    &&& (s.blueprint is Some ==> s.phase != CompilePhase::Started && s.phase != CompilePhase::SourceChecked)
    &&& (s.blueprint is None ==> s.phase == CompilePhase::Started || s.phase == CompilePhase::SourceChecked)
}

impl CompileSession {
    /// A compilation that has not started any stage.
    pub fn new() -> (r: Self)
        ensures
            r@.phase == CompilePhase::Started,
            r@.trace.stages@.len() == 0,
            r@.trace.inference.engine@ == "unresolved"@,
            r@.trace.inference.mode == InferenceMode::Deterministic,
            r@.trace.inference.model is None,
            r@.trace.inference.reused_semantics == 0,
            r@.trace.inference.input_tokens == 0,
            r@.trace.inference.output_tokens == 0,
            r@.trace.inference.total_tokens == 0,
            r@.trace.inference.cached_input_tokens == 0,
            r@.diagnostics.len() == 0,
            r@.blueprint is None,
            r@.breaking_changes.len() == 0,
            r@.artifacts is None,
            session_wf(r@),
    {
        let trace = CompileTrace::default();
        assert(observed_stages(trace) =~= stage_order().take(0));
        CompileSession {
            phase: CompilePhase::Started,
            trace,
            diagnostics: Vec::new(),
            blueprint: None,
            breaking_changes: Vec::new(),
            artifacts: None,
        }
    }

    /// The outside work this compilation needs next.
    pub fn next_action(&self) -> (r: CompileAction)
        ensures
            r == next_action_of(self@),
    {
        match self.phase {
            CompilePhase::Started => CompileAction::CheckSource,
            CompilePhase::SourceChecked => if has_errors(self.diagnostics.as_slice()) {
                CompileAction::Finish
            } else {
                CompileAction::Infer
            },
            CompilePhase::Inferred => CompileAction::ResolveCapabilities,
            CompilePhase::CapabilitiesResolved => CompileAction::CheckPolicy,
            CompilePhase::PolicyChecked => if has_errors(self.diagnostics.as_slice()) {
                CompileAction::Finish
            } else {
                CompileAction::Generate
            },
            CompilePhase::Generated => CompileAction::Finish,
        }
    }

    /// The blueprint inferred so far.
    pub fn blueprint(&self) -> (r: Option<&Blueprint>)
        ensures
            r == match self@.blueprint {
                Some(b) => Some(&b),
                None => None::<&Blueprint>,
            },
    {
        match &self.blueprint {
            Some(b) => Some(b),
            None => None,
        }
    }

    /// Records the source contract check: its diagnostics, and a stage that
    /// succeeded when none of them is an error.
    pub fn record_source_check(&mut self, diagnostics: Vec<Diagnostic>, duration_ms: u64)
        requires
            old(self)@.phase == CompilePhase::Started,
            session_wf(old(self)@),
        ensures
            final(self)@ == (SessionView {
                phase: CompilePhase::SourceChecked,
                trace: CompileTrace {
                    stages: final(self)@.trace.stages,
                    ..old(self)@.trace
                },
                diagnostics: old(self)@.diagnostics + diagnostics@,
                ..old(self)@
            }),
            final(self)@.trace.stages@ == old(self)@.trace.stages@.push(
                observation(
                    CompileStage::SourceContract,
                    duration_ms,
                    !has_error(diagnostics_view(old(self)@.diagnostics + diagnostics@)),
                ),
            ),
            session_wf(final(self)@),
    {
        let mut diagnostics = diagnostics;
        self.diagnostics.append(&mut diagnostics);
        let ok = !has_errors(self.diagnostics.as_slice());
        proof {
            lemma_observe_next(self.trace.stages@, observation(CompileStage::SourceContract, duration_ms, true), 0);
            lemma_observe_next(self.trace.stages@, observation(CompileStage::SourceContract, duration_ms, false), 0);
        }
        trace_stage(&mut self.trace, CompileStage::SourceContract, duration_ms, ok);
        self.phase = CompilePhase::SourceChecked;
    }

    /// Records the inference: its metrics, blueprint and diagnostics; the stage succeeded.
    pub fn record_inference(&mut self, inference: InferenceResult, duration_ms: u64)
        requires
            old(self)@.phase == CompilePhase::SourceChecked,
            session_wf(old(self)@),
        ensures
            final(self)@ == (SessionView {
                phase: CompilePhase::Inferred,
                trace: CompileTrace { stages: final(self)@.trace.stages, inference: inference.metrics },
                diagnostics: old(self)@.diagnostics + inference.diagnostics@,
                blueprint: Some(inference.blueprint),
                ..old(self)@
            }),
            final(self)@.trace.stages@ == old(self)@.trace.stages@.push(
                observation(CompileStage::Inference, duration_ms, true),
            ),
            session_wf(final(self)@),
    {
        let InferenceResult { blueprint, diagnostics, metrics } = inference;
        proof {
            lemma_observe_next(self.trace.stages@, observation(CompileStage::Inference, duration_ms, true), 1);
            lemma_observe_next(self.trace.stages@, observation(CompileStage::Inference, duration_ms, false), 1);
        }
        trace_stage(&mut self.trace, CompileStage::Inference, duration_ms, true);
        self.trace.inference = metrics;
        let mut diagnostics = diagnostics;
        self.diagnostics.append(&mut diagnostics);
        self.blueprint = Some(blueprint);
        self.phase = CompilePhase::Inferred;
    }

    /// Records the capability resolution: the lowered blueprint, the
    /// resolution and validation diagnostics, and a stage that succeeded when
    /// no diagnostic so far is an error.
    pub fn record_capabilities(&mut self, blueprint: Blueprint, diagnostics: Vec<Diagnostic>, duration_ms: u64)
        requires
            old(self)@.phase == CompilePhase::Inferred,
            session_wf(old(self)@),
        ensures
            final(self)@ == (SessionView {
                phase: CompilePhase::CapabilitiesResolved,
                trace: CompileTrace {
                    stages: final(self)@.trace.stages,
                    ..old(self)@.trace
                },
                diagnostics: old(self)@.diagnostics + diagnostics@,
                blueprint: Some(blueprint),
                ..old(self)@
            }),
            final(self)@.trace.stages@ == old(self)@.trace.stages@.push(
                observation(
                    CompileStage::CapabilityResolution,
                    duration_ms,
                    !has_error(diagnostics_view(old(self)@.diagnostics + diagnostics@)),
                ),
            ),
            session_wf(final(self)@),
    {
        let mut diagnostics = diagnostics;
        self.diagnostics.append(&mut diagnostics);
        self.blueprint = Some(blueprint);
        let ok = !has_errors(self.diagnostics.as_slice());
        proof {
            lemma_observe_next(self.trace.stages@, observation(CompileStage::CapabilityResolution, duration_ms, true), 2);
            lemma_observe_next(self.trace.stages@, observation(CompileStage::CapabilityResolution, duration_ms, false), 2);
        }
        trace_stage(&mut self.trace, CompileStage::CapabilityResolution, duration_ms, ok);
        self.phase = CompilePhase::CapabilitiesResolved;
    }

    /// Records the policy check: its diagnostics and breaking changes, and a
    /// stage that succeeded when no diagnostic so far is an error.
    pub fn record_policy(&mut self, diagnostics: Vec<Diagnostic>, breaking_changes: Vec<BreakingChange>, duration_ms: u64)
        requires
            old(self)@.phase == CompilePhase::CapabilitiesResolved,
            session_wf(old(self)@),
        ensures
            final(self)@ == (SessionView {
                phase: CompilePhase::PolicyChecked,
                trace: CompileTrace {
                    stages: final(self)@.trace.stages,
                    ..old(self)@.trace
                },
                diagnostics: old(self)@.diagnostics + diagnostics@,
                breaking_changes: breaking_changes@,
                ..old(self)@
            }),
            final(self)@.trace.stages@ == old(self)@.trace.stages@.push(
                observation(
                    CompileStage::BlueprintPolicy,
                    duration_ms,
                    !has_error(diagnostics_view(old(self)@.diagnostics + diagnostics@)),
                ),
            ),
            session_wf(final(self)@),
    {
        let mut diagnostics = diagnostics;
        self.diagnostics.append(&mut diagnostics);
        self.breaking_changes = breaking_changes;
        let ok = !has_errors(self.diagnostics.as_slice());
        proof {
            lemma_observe_next(self.trace.stages@, observation(CompileStage::BlueprintPolicy, duration_ms, true), 3);
            lemma_observe_next(self.trace.stages@, observation(CompileStage::BlueprintPolicy, duration_ms, false), 3);
        }
        trace_stage(&mut self.trace, CompileStage::BlueprintPolicy, duration_ms, ok);
        self.phase = CompilePhase::PolicyChecked;
    }

    /// Records the generated artifacts; the stage succeeded.
    pub fn record_generation(&mut self, artifacts: ArtifactSet, duration_ms: u64)
        requires
            old(self)@.phase == CompilePhase::PolicyChecked,
            !has_error(diagnostics_view(old(self)@.diagnostics)),
            session_wf(old(self)@),
        ensures
            final(self)@ == (SessionView {
                phase: CompilePhase::Generated,
                trace: CompileTrace {
                    stages: final(self)@.trace.stages,
                    ..old(self)@.trace
                },
                artifacts: Some(artifacts),
                ..old(self)@
            }),
            final(self)@.trace.stages@ == old(self)@.trace.stages@.push(
                observation(CompileStage::RustGeneration, duration_ms, true),
            ),
            session_wf(final(self)@),
    {
        proof {
            lemma_observe_next(self.trace.stages@, observation(CompileStage::RustGeneration, duration_ms, true), 4);
            lemma_observe_next(self.trace.stages@, observation(CompileStage::RustGeneration, duration_ms, false), 4);
        }
        trace_stage(&mut self.trace, CompileStage::RustGeneration, duration_ms, true);
        self.artifacts = Some(artifacts);
        self.phase = CompilePhase::Generated;
    }

    /// The result of the compilation so far.
    pub fn finish(self) -> (r: CompileResult)
        requires
            session_wf(self@),
        ensures
            r.blueprint == self@.blueprint,
            r.diagnostics@ == self@.diagnostics,
            r.breaking_changes@ == self@.breaking_changes,
            r.artifacts == self@.artifacts,
            r.trace == self@.trace,
            r.artifacts is Some ==> !has_error(diagnostics_view(r.diagnostics@)),
    {
        CompileResult {
            blueprint: self.blueprint,
            diagnostics: self.diagnostics,
            breaking_changes: self.breaking_changes,
            artifacts: self.artifacts,
            trace: self.trace,
        }
    }
}

/// A consistent compilation state has artifacts only when no diagnostic is an
/// error, and a generated one has observed every stage in order.
pub proof fn lemma_generated_session(s: SessionView)
    requires
        session_wf(s),
    ensures
        s.artifacts is Some ==> !has_error(diagnostics_view(s.diagnostics)),
        s.artifacts is Some ==> observed_stages(s.trace) == stage_order(),
{
    assert(stage_order().take(5) =~= stage_order());
}

} // verus!
