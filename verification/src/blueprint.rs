//! The blueprint: the compiler's single intermediate representation, which every
//! backend consumes.
use vstd::prelude::*;

use crate::descriptor::SemanticDescriptor;
use crate::encode::Encode;
use crate::text::{concat2, concat3, concat4, starts_with, str_eq};

verus! {

/// The complete intermediate representation of one compiled product source.
#[derive(Clone, Debug, PartialEq)]
pub struct Blueprint {
    pub source_text: String,
    pub requirements: Vec<Requirement>,
    pub structs: Vec<StructDefinition>,
    pub enums: Vec<EnumDefinition>,
    pub functions: Vec<FunctionDefinition>,
    pub application: ApplicationDefinition,
    pub capabilities: Vec<CapabilityRequirement>,
    pub bindings: Vec<FieldBinding>,
    pub inference_decisions: Vec<InferenceDecision>,
    pub defaults: Vec<AppliedDefault>,
}

/// One mother-tongue requirement.
#[derive(Clone, Debug, PartialEq, Eq)]
pub struct Requirement {
    pub descriptor: SemanticDescriptor,
    pub text: String,
}

impl Encode for Requirement {
    fn encode(&self) -> (r: &str)
        ensures
            r@ == self.descriptor.code@,
    {
        self.descriptor.encode()
    }
}

/// A structure definition.
#[derive(Clone, Debug, PartialEq)]
pub struct StructDefinition {
    pub descriptor: SemanticDescriptor,
    pub fields: Vec<FieldDefinition>,
}

impl StructDefinition {
    /// The structure's code.
    pub fn encode(&self) -> (r: &str)
        ensures
            r@ == self.descriptor.code@,
    {
        self.descriptor.encode()
    }
}

/// A structure field.
#[derive(Clone, Debug, PartialEq)]
pub struct FieldDefinition {
    pub descriptor: SemanticDescriptor,
    pub field_type: FieldType,
    pub required: bool,
    pub unit: Option<String>,
    pub validations: Vec<ValidationRule>,
    pub domain_metadata: Vec<DomainMetadata>,
}

impl Encode for FieldDefinition {
    fn encode(&self) -> (r: &str)
        ensures
            r@ == self.descriptor.code@,
    {
        self.descriptor.encode()
    }
}

/// The domain field types the compiler supports.
#[derive(Clone, Copy, Debug, PartialEq, Eq, Structural)]
pub enum FieldType {
    String,
    Password,
    Email,
    Dictionary,
    Integer,
    Decimal,
    Boolean,
    Timestamp,
    Json,
}

/// The Rust type a field type is generated as.
pub open spec fn rust_type_name(t: FieldType) -> Seq<char> {
    match t {
        FieldType::String | FieldType::Password | FieldType::Email | FieldType::Dictionary => "String"@,
        FieldType::Integer | FieldType::Timestamp => "i64"@,
        FieldType::Decimal => "f64"@,
        FieldType::Boolean => "bool"@,
        FieldType::Json => "serde_json::Value"@,
    }
}

/// Field types held as text in generated code.
pub open spec fn is_text_type(t: FieldType) -> bool {
    t == FieldType::String || t == FieldType::Password || t == FieldType::Email || t
        == FieldType::Dictionary
}

impl FieldType {
    /// The Rust type this field type is generated as.
    pub fn rust_type(&self) -> (r: &'static str)
        ensures
            r@ == rust_type_name(*self),
    {
        match self {
            FieldType::String | FieldType::Password | FieldType::Email | FieldType::Dictionary => "String",
            FieldType::Integer | FieldType::Timestamp => "i64",
            FieldType::Decimal => "f64",
            FieldType::Boolean => "bool",
            FieldType::Json => "serde_json::Value",
        }
    }
}

/// A field validation constraint.  The bounds of a number range are decimal
/// literals as the product source wrote them.
#[derive(Clone, Debug, PartialEq)]
pub enum ValidationRule {
    Required,
    Unique,
    Email,
    NumberRange { minimum: String, maximum: String },
}

/// The complete application defined by one mother-tongue project.
#[derive(Clone, Debug, PartialEq, Eq)]
pub struct ApplicationDefinition {
    pub domain: DomainDefinition,
    pub operations: Vec<DomainOperation>,
    pub interfaces: Vec<InterfaceDefinition>,
    pub views: Vec<ViewDefinition>,
    pub navigation: NavigationDefinition,
    pub permissions: Vec<PermissionDefinition>,
}

/// The operation name the compiler gives by default to an intent on a model;
/// empty for intents with no default operation.
pub open spec fn default_operation_name(intent: OperationIntent, model_name: Seq<char>) -> Seq<char> {
    match intent {
        OperationIntent::List => "查询"@ + model_name + "列表"@,
        OperationIntent::Read => "查看"@ + model_name,
        OperationIntent::Create => "新增"@ + model_name,
        OperationIntent::Update => "修改"@ + model_name,
        OperationIntent::Delete => "删除"@ + model_name,
        OperationIntent::Authenticate | OperationIntent::Command => Seq::empty(),
    }
}

/// The route of an operation: `/api/app/<domain>/<model>`, followed by `/{id}`
/// for intents on one record, and by the operation's own code when the
/// operation is not the model's default one (or is a command).
pub open spec fn operation_route(
    domain_code: Seq<char>,
    model_code: Seq<char>,
    model_name: Seq<char>,
    operation_name: Seq<char>,
    operation_code: Seq<char>,
    intent: OperationIntent,
) -> Seq<char> {
    let base = "/api/app/"@ + domain_code + "/"@ + model_code;
    let default_name = default_operation_name(intent, model_name);
    if operation_name != default_name && default_name.len() > 0 {
        match intent {
            OperationIntent::List | OperationIntent::Create => base + "/"@ + operation_code,
            OperationIntent::Read | OperationIntent::Update | OperationIntent::Delete => base
                + "/{id}/"@ + operation_code,
            OperationIntent::Authenticate | OperationIntent::Command => base,
        }
    } else {
        match intent {
            OperationIntent::List | OperationIntent::Create => base,
            OperationIntent::Read | OperationIntent::Update | OperationIntent::Delete => base
                + "/{id}"@,
            OperationIntent::Authenticate => base + "/authenticate"@,
            OperationIntent::Command => base + "/"@ + operation_code,
        }
    }
}

/// Every operation route lies under `/api/app/<domain>/<model>`.
pub proof fn lemma_route_under_model(
    domain_code: Seq<char>,
    model_code: Seq<char>,
    model_name: Seq<char>,
    operation_name: Seq<char>,
    operation_code: Seq<char>,
    intent: OperationIntent,
)
    ensures
        starts_with(
            operation_route(domain_code, model_code, model_name, operation_name, operation_code, intent),
            "/api/app/"@ + domain_code + "/"@ + model_code,
        ),
{
    let base = "/api/app/"@ + domain_code + "/"@ + model_code;
    let r = operation_route(domain_code, model_code, model_name, operation_name, operation_code, intent);
    assert(base.len() <= r.len());
    assert(r.take(base.len() as int) =~= base);
}

/// The route of a view: `/<domain>/<view>`.
pub open spec fn view_route(domain_code: Seq<char>, view_code: Seq<char>) -> Seq<char> {
    "/"@ + domain_code + "/"@ + view_code
}

/// The index of the first operation named `name`.
pub open spec fn first_operation_named(ops: Seq<DomainOperation>, name: Seq<char>) -> Option<int>
    decreases ops.len(),
{
    if ops.len() == 0 {
        None
    } else if ops[0].descriptor.native_name@ == name {
        Some(0)
    } else {
        match first_operation_named(ops.drop_first(), name) {
            Some(k) => Some(k + 1),
            None => None,
        }
    }
}

/// The first operation named `name` is within bounds and carries that name.
pub proof fn lemma_first_operation_named(ops: Seq<DomainOperation>, name: Seq<char>)
    ensures
        first_operation_named(ops, name) matches Some(k) ==> 0 <= k < ops.len()
            && ops[k].descriptor.native_name@ == name,
    decreases ops.len(),
{
    if ops.len() > 0 && ops[0].descriptor.native_name@ != name {
        lemma_first_operation_named(ops.drop_first(), name);
    }
}

/// The default operation name of an intent on a model.
pub fn default_operation_text(intent: OperationIntent, model_name: &str) -> (r: String)
    ensures
        r@ == default_operation_name(intent, model_name@),
{
    match intent {
        OperationIntent::List => concat3("查询", model_name, "列表"),
        OperationIntent::Read => concat2("查看", model_name),
        OperationIntent::Create => concat2("新增", model_name),
        OperationIntent::Update => concat2("修改", model_name),
        OperationIntent::Delete => concat2("删除", model_name),
        OperationIntent::Authenticate | OperationIntent::Command => String::new(),
    }
}

/// The route of an operation on `model` within the domain whose code is `domain_code`.
pub fn operation_route_text(
    domain_code: &str,
    model: &SemanticDescriptor,
    operation_name: &str,
    operation_code: &str,
    intent: OperationIntent,
) -> (r: String)
    ensures
        r@ == operation_route(
            domain_code@,
            model.code@,
            model.native_name@,
            operation_name@,
            operation_code@,
            intent,
        ),
{
    let base = concat4("/api/app/", domain_code, "/", model.code.as_str());
    let default_name = default_operation_text(intent, model.native_name.as_str());
    if !str_eq(operation_name, default_name.as_str()) && !default_name.as_str().is_empty() {
        match intent {
            OperationIntent::List | OperationIntent::Create => concat3(base.as_str(), "/", operation_code),
            OperationIntent::Read | OperationIntent::Update | OperationIntent::Delete => concat3(
                base.as_str(),
                "/{id}/",
                operation_code,
            ),
            OperationIntent::Authenticate | OperationIntent::Command => base,
        }
    } else {
        match intent {
            OperationIntent::List | OperationIntent::Create => base,
            OperationIntent::Read | OperationIntent::Update | OperationIntent::Delete => concat2(
                base.as_str(),
                "/{id}",
            ),
            OperationIntent::Authenticate => concat2(base.as_str(), "/authenticate"),
            OperationIntent::Command => concat3(base.as_str(), "/", operation_code),
        }
    }
}

impl ApplicationDefinition {
    /// Recomputes every route of the domain after semantic codes changed: each
    /// interface bound to a known operation gets that operation's route, and
    /// every view gets `/<domain>/<view>`.
    pub fn refresh_derived_paths(&mut self)
        ensures
            final(self).domain == old(self).domain,
            final(self).operations == old(self).operations,
            final(self).navigation == old(self).navigation,
            final(self).permissions == old(self).permissions,
            final(self).interfaces@.len() == old(self).interfaces@.len(),
            forall|i: int|
                0 <= i < old(self).interfaces@.len() ==> {
                    let before = #[trigger] old(self).interfaces@[i];
                    let after = final(self).interfaces@[i];
                    &&& after.descriptor == before.descriptor
                    &&& after.operation == before.operation
                    &&& after.method == before.method
                    &&& match first_operation_named(
                        old(self).operations@,
                        before.operation.native_name@,
                    ) {
                        Some(k) => {
                            let op = old(self).operations@[k];
                            after.path@ == operation_route(
                                old(self).domain.descriptor.code@,
                                op.model.code@,
                                op.model.native_name@,
                                op.descriptor.native_name@,
                                op.descriptor.code@,
                                op.intent,
                            )
                        },
                        None => after.path == before.path,
                    }
                },
            final(self).views@.len() == old(self).views@.len(),
            forall|i: int|
                0 <= i < old(self).views@.len() ==> {
                    let before = #[trigger] old(self).views@[i];
                    let after = final(self).views@[i];
                    &&& after.descriptor == before.descriptor
                    &&& after.model == before.model
                    &&& after.layout == before.layout
                    &&& after.fields == before.fields
                    &&& after.actions == before.actions
                    &&& after.route@ == view_route(
                        old(self).domain.descriptor.code@,
                        before.descriptor.code@,
                    )
                },
    {
        let n = self.interfaces.len();
        let mut i: usize = 0;
        while i < n
            invariant
                i <= n,
                n == old(self).interfaces@.len(),
                self.interfaces@.len() == n,
                self.domain == old(self).domain,
                self.operations == old(self).operations,
                self.navigation == old(self).navigation,
                self.permissions == old(self).permissions,
                self.views == old(self).views,
                forall|j: int| i <= j < n ==> #[trigger] self.interfaces@[j] == old(self).interfaces@[j],
                forall|j: int|
                    0 <= j < i ==> {
                        let before = #[trigger] old(self).interfaces@[j];
                        let after = self.interfaces@[j];
                        &&& after.descriptor == before.descriptor
                        &&& after.operation == before.operation
                        &&& after.method == before.method
                        &&& match first_operation_named(
                            old(self).operations@,
                            before.operation.native_name@,
                        ) {
                            Some(k) => {
                                let op = old(self).operations@[k];
                                after.path@ == operation_route(
                                    old(self).domain.descriptor.code@,
                                    op.model.code@,
                                    op.model.native_name@,
                                    op.descriptor.native_name@,
                                    op.descriptor.code@,
                                    op.intent,
                                )
                            },
                            None => after.path == before.path,
                        }
                    },
            decreases n - i,
        {
            let found = find_operation(&self.operations, self.interfaces[i].operation.native_name.as_str());
            proof {
                lemma_first_operation_named(self.operations@, self.interfaces@[i as int].operation.native_name@);
            }
            if let Some(k) = found {
                let op = &self.operations[k];
                let path = operation_route_text(
                    self.domain.descriptor.code.as_str(),
                    &op.model,
                    op.descriptor.native_name.as_str(),
                    op.descriptor.code.as_str(),
                    op.intent,
                );
                self.interfaces[i].path = path;
            }
            i = i + 1;
        }
        let m = self.views.len();
        let mut j: usize = 0;
        while j < m
            invariant
                j <= m,
                m == old(self).views@.len(),
                self.views@.len() == m,
                self.domain == old(self).domain,
                self.operations == old(self).operations,
                self.navigation == old(self).navigation,
                self.permissions == old(self).permissions,
                self.interfaces@.len() == old(self).interfaces@.len(),
                forall|q: int|
                    0 <= q < old(self).interfaces@.len() ==> {
                        let before = #[trigger] old(self).interfaces@[q];
                        let after = self.interfaces@[q];
                        &&& after.descriptor == before.descriptor
                        &&& after.operation == before.operation
                        &&& after.method == before.method
                        &&& match first_operation_named(
                            old(self).operations@,
                            before.operation.native_name@,
                        ) {
                            Some(k) => {
                                let op = old(self).operations@[k];
                                after.path@ == operation_route(
                                    old(self).domain.descriptor.code@,
                                    op.model.code@,
                                    op.model.native_name@,
                                    op.descriptor.native_name@,
                                    op.descriptor.code@,
                                    op.intent,
                                )
                            },
                            None => after.path == before.path,
                        }
                    },
                forall|t: int| j <= t < m ==> #[trigger] self.views@[t] == old(self).views@[t],
                forall|t: int|
                    0 <= t < j ==> {
                        let before = #[trigger] old(self).views@[t];
                        let after = self.views@[t];
                        &&& after.descriptor == before.descriptor
                        &&& after.model == before.model
                        &&& after.layout == before.layout
                        &&& after.fields == before.fields
                        &&& after.actions == before.actions
                        &&& after.route@ == view_route(
                            old(self).domain.descriptor.code@,
                            before.descriptor.code@,
                        )
                    },
            decreases m - j,
        {
            let route = concat4("/", self.domain.descriptor.code.as_str(), "/", self.views[j].descriptor.code.as_str());
            self.views[j].route = route;
            j = j + 1;
        }
    }
}

/// The index of the first operation named `name`.
pub fn find_operation(ops: &Vec<DomainOperation>, name: &str) -> (r: Option<usize>)
    ensures
        match r {
            Some(k) => first_operation_named(ops@, name@) == Some(k as int),
            None => first_operation_named(ops@, name@) is None,
        },
{
    let mut i: usize = 0;
    assert(ops@.skip(0) =~= ops@);
    while i < ops.len()
        invariant
            i <= ops@.len(),
            first_operation_named(ops@, name@) == match first_operation_named(ops@.skip(i as int), name@) {
                Some(k) => Some(k + i),
                None => None::<int>,
            },
        decreases ops@.len() - i,
    {
        assert(ops@.skip(i as int).drop_first() =~= ops@.skip(i + 1));
        if str_eq(ops[i].descriptor.native_name.as_str(), name) {
            return Some(i);
        }
        i = i + 1;
    }
    assert(ops@.skip(i as int) =~= Seq::<DomainOperation>::empty());
    None
}

/// A domain boundary and the models it references.
#[derive(Clone, Debug, PartialEq, Eq)]
pub struct DomainDefinition {
    pub descriptor: SemanticDescriptor,
    pub models: Vec<SemanticDescriptor>,
}

impl Encode for DomainDefinition {
    fn encode(&self) -> (r: &str)
        ensures
            r@ == self.descriptor.code@,
    {
        self.descriptor.encode()
    }
}

/// The intent of a domain operation; it decides the route and the execution plan.
#[derive(Clone, Copy, Debug, PartialEq, Eq, Structural)]
pub enum OperationIntent {
    List,
    Read,
    Create,
    Update,
    Delete,
    Authenticate,
    Command,
}

/// A typed domain operation, without script source.
#[derive(Clone, Debug, PartialEq, Eq)]
pub struct DomainOperation {
    pub descriptor: SemanticDescriptor,
    pub model: SemanticDescriptor,
    pub intent: OperationIntent,
    pub steps: Vec<OperationPlanStep>,
}

impl Encode for DomainOperation {
    fn encode(&self) -> (r: &str)
        ensures
            r@ == self.descriptor.code@,
    {
        self.descriptor.encode()
    }
}

/// An operation step the host can execute deterministically.
#[derive(Clone, Debug, PartialEq, Eq)]
pub enum OperationPlanStep {
    ValidateInput,
    QueryRecords,
    LoadRecord,
    CreateRecord,
    UpdateRecord,
    DeleteRecord,
    InvokeCapability { capability: SemanticDescriptor },
    ReturnResult,
}

/// The HTTP method of an interface.
#[derive(Clone, Copy, Debug, PartialEq, Eq, Structural)]
pub enum HttpMethod {
    Get,
    Post,
    Put,
    Delete,
}

/// An outward domain interface; method and path are derived by the compiler.
#[derive(Clone, Debug, PartialEq, Eq)]
pub struct InterfaceDefinition {
    pub descriptor: SemanticDescriptor,
    pub operation: SemanticDescriptor,
    pub method: HttpMethod,
    pub path: String,
}

/// The controlled layout semantics a view uses.
#[derive(Clone, Copy, Debug, PartialEq, Eq, Structural)]
pub enum ViewLayout {
    Table,
    Detail,
    Form,
}

/// A view action referring to a domain operation.
#[derive(Clone, Debug, PartialEq, Eq)]
pub struct ViewActionDefinition {
    pub descriptor: SemanticDescriptor,
    pub operation: SemanticDescriptor,
}

/// View semantics independent of any UI framework.
#[derive(Clone, Debug, PartialEq, Eq)]
pub struct ViewDefinition {
    pub descriptor: SemanticDescriptor,
    pub model: SemanticDescriptor,
    pub layout: ViewLayout,
    pub fields: Vec<SemanticDescriptor>,
    pub actions: Vec<ViewActionDefinition>,
    pub route: String,
}

impl Encode for ViewDefinition {
    fn encode(&self) -> (r: &str)
        ensures
            r@ == self.descriptor.code@,
    {
        self.descriptor.encode()
    }
}

/// A menu entry leading to a view.
#[derive(Clone, Debug, PartialEq, Eq)]
pub struct NavigationEntry {
    pub descriptor: SemanticDescriptor,
    pub view: SemanticDescriptor,
    pub order: i32,
    pub permissions: Vec<SemanticDescriptor>,
}

/// The application's navigation.
#[derive(Clone, Debug, PartialEq, Eq)]
pub struct NavigationDefinition {
    pub section_label: String,
    pub descriptor: SemanticDescriptor,
    pub default_view: SemanticDescriptor,
    pub entries: Vec<NavigationEntry>,
}

/// A permission rule, kept typed rather than as a policy expression.
#[derive(Clone, Copy, Debug, PartialEq, Eq, Structural)]
pub enum PermissionRule {
    Authenticated,
    OwnRecords,
    AllRecords,
}

/// A mother-tongue permission and the operations it allows.
#[derive(Clone, Debug, PartialEq, Eq)]
pub struct PermissionDefinition {
    pub descriptor: SemanticDescriptor,
    pub rule: PermissionRule,
    pub operations: Vec<SemanticDescriptor>,
}

/// Domain metadata from a controlled vocabulary or namespace extension.
#[derive(Clone, Debug, PartialEq, Eq)]
pub struct DomainMetadata {
    pub namespace: String,
    pub name: String,
    pub value: String,
}

/// A business enumeration without data.
#[derive(Clone, Debug, PartialEq, Eq)]
pub struct EnumDefinition {
    pub descriptor: SemanticDescriptor,
    pub values: Vec<EnumValueDefinition>,
}

impl EnumDefinition {
    /// The enumeration's code.
    pub fn encode(&self) -> (r: &str)
        ensures
            r@ == self.descriptor.code@,
    {
        self.descriptor.encode()
    }
}

/// An enumeration value; its mother-tongue label and code identity stay apart.
#[derive(Clone, Debug, PartialEq, Eq)]
pub struct EnumValueDefinition {
    pub descriptor: SemanticDescriptor,
}

impl Encode for EnumValueDefinition {
    fn encode(&self) -> (r: &str)
        ensures
            r@ == self.descriptor.code@,
    {
        self.descriptor.encode()
    }
}

/// A domain function that can be generated.
#[derive(Clone, Debug, PartialEq, Eq)]
pub struct FunctionDefinition {
    pub descriptor: SemanticDescriptor,
    pub input_model: SemanticDescriptor,
    pub output_model: SemanticDescriptor,
    pub steps: Vec<LogicStep>,
}

impl FunctionDefinition {
    /// The function's code.
    pub fn encode(&self) -> (r: &str)
        ensures
            r@ == self.descriptor.code@,
    {
        self.descriptor.encode()
    }
}

/// A typed logic step.
#[derive(Clone, Copy, Debug, PartialEq, Eq, Structural)]
pub enum LogicStep {
    ReadSourceMap,
    DecodeBindings,
    ValidateFields,
    ReturnAcceptedValue,
}

/// A capability requirement inferred from the mother-tongue description of a data source.
#[derive(Clone, Debug, PartialEq, Eq)]
pub struct CapabilityRequirement {
    pub descriptor: SemanticDescriptor,
    pub source_phrase: String,
}

impl Encode for CapabilityRequirement {
    fn encode(&self) -> (r: &str)
        ensures
            r@ == self.descriptor.code@,
    {
        self.descriptor.encode()
    }
}

/// A typed binding between a domain field and a raw source key.
#[derive(Clone, Debug, PartialEq)]
pub struct FieldBinding {
    pub owner: SemanticDescriptor,
    pub field: SemanticDescriptor,
    pub source: SemanticDescriptor,
    pub transform: ValueTransform,
}

impl Encode for FieldBinding {
    fn encode(&self) -> (r: &str)
        ensures
            r@ == self.field.code@,
    {
        self.field.encode()
    }
}

/// A pure transformation from a raw value to a domain field.  A divisor is a
/// decimal literal as the product source wrote it.
#[derive(Clone, Debug, PartialEq)]
pub enum ValueTransform {
    Identity,
    Divide { divisor: String },
}

/// The content of an inference decision.
pub ghost struct DecisionView {
    pub subject: Seq<char>,
    pub decision: Seq<char>,
    pub reused: bool,
}

impl View for InferenceDecision {
    type V = DecisionView;

    open spec fn view(&self) -> DecisionView {
        DecisionView { subject: self.subject@, decision: self.decision@, reused: self.reused }
    }
}

/// A decision taken by the inference engine, recorded so that people can audit it.
#[derive(Debug, PartialEq, Eq)]
pub struct InferenceDecision {
    pub subject: String,
    pub decision: String,
    pub reused: bool,
}

impl Clone for InferenceDecision {
    fn clone(&self) -> (r: Self)
        ensures
            r == *self,
    {
        InferenceDecision { subject: self.subject.clone(), decision: self.decision.clone(), reused: self.reused }
    }
}

/// A safe default the compiler applied.
#[derive(Clone, Debug, PartialEq, Eq)]
pub struct AppliedDefault {
    pub subject: String,
    pub value: String,
    pub reason: String,
}

} // verus!
