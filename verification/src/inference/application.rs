//! Inference of the application layer: operations and their interfaces, views,
//! permissions and navigation.
use vstd::prelude::*;

use crate::blueprint::{
    lemma_route_under_model, default_operation_name, default_operation_text, operation_route, operation_route_text,
    view_route, ApplicationDefinition, DomainDefinition, DomainOperation, FieldDefinition, HttpMethod,
    InterfaceDefinition, NavigationDefinition, NavigationEntry, OperationIntent, OperationPlanStep,
    PermissionDefinition, PermissionRule, ViewActionDefinition, ViewDefinition, ViewLayout,
};
use crate::descriptor::{DescriptorView, SemanticDescriptor};
use crate::inference::factory::{lemma_describe_all_len, describe_all, describe_step, descriptors_of, DescriptorFactory, FactoryView};
use crate::inference::outline::{texts, views_text, ParsedView};
use crate::text::{
    concat2, concat4, contains, owned, split_once, starts_with, split_once_any, str_contains, str_split_once,
    str_split_once_any, str_trim, trim,
};

verus! {

/// The intent a mother-tongue operation line expresses.
pub open spec fn operation_intent(v: Seq<char>) -> OperationIntent {
    if contains(v, "登录"@) || contains(v, "认证"@) {
        OperationIntent::Authenticate
    } else if contains(v, "删除"@) {
        OperationIntent::Delete
    } else if contains(v, "修改"@) || contains(v, "更新"@) || contains(v, "停用"@) {
        OperationIntent::Update
    } else if contains(v, "新增"@) || contains(v, "注册"@) || contains(v, "创建"@) || contains(v, "保存"@) {
        OperationIntent::Create
    } else if contains(v, "查看"@) || contains(v, "详情"@) {
        OperationIntent::Read
    } else if contains(v, "查询"@) || contains(v, "筛选"@) || contains(v, "列表"@) {
        OperationIntent::List
    } else {
        OperationIntent::Command
    }
}

/// Infers the intent of an operation line.
pub fn infer_operation_intent(value: &str) -> (r: OperationIntent)
    ensures
        r == operation_intent(value@),
{
    if str_contains(value, "登录") || str_contains(value, "认证") {
        OperationIntent::Authenticate
    } else if str_contains(value, "删除") {
        OperationIntent::Delete
    } else if str_contains(value, "修改") || str_contains(value, "更新") || str_contains(value, "停用") {
        OperationIntent::Update
    } else if str_contains(value, "新增") || str_contains(value, "注册") || str_contains(value, "创建")
        || str_contains(value, "保存") {
        OperationIntent::Create
    } else if str_contains(value, "查看") || str_contains(value, "详情") {
        OperationIntent::Read
    } else if str_contains(value, "查询") || str_contains(value, "筛选") || str_contains(value, "列表") {
        OperationIntent::List
    } else {
        OperationIntent::Command
    }
}

/// The execution plan of an intent.
pub open spec fn plan_steps(intent: OperationIntent) -> Seq<OperationPlanStep> {
    match intent {
        OperationIntent::List => seq![OperationPlanStep::QueryRecords, OperationPlanStep::ReturnResult],
        OperationIntent::Read => seq![OperationPlanStep::LoadRecord, OperationPlanStep::ReturnResult],
        OperationIntent::Create => seq![
            OperationPlanStep::ValidateInput,
            OperationPlanStep::CreateRecord,
            OperationPlanStep::ReturnResult,
        ],
        OperationIntent::Update => seq![
            OperationPlanStep::ValidateInput,
            OperationPlanStep::LoadRecord,
            OperationPlanStep::UpdateRecord,
            OperationPlanStep::ReturnResult,
        ],
        OperationIntent::Delete => seq![
            OperationPlanStep::LoadRecord,
            OperationPlanStep::DeleteRecord,
            OperationPlanStep::ReturnResult,
        ],
        OperationIntent::Authenticate | OperationIntent::Command => seq![
            OperationPlanStep::ValidateInput,
            OperationPlanStep::QueryRecords,
            OperationPlanStep::ReturnResult,
        ],
    }
}

/// The execution plan of an intent.
pub fn operation_steps(intent: OperationIntent) -> (r: Vec<OperationPlanStep>)
    ensures
        r@ == plan_steps(intent),
{
    let mut v: Vec<OperationPlanStep> = Vec::new();
    match intent {
        OperationIntent::List => {
            v.push(OperationPlanStep::QueryRecords);
            v.push(OperationPlanStep::ReturnResult);
        },
        OperationIntent::Read => {
            v.push(OperationPlanStep::LoadRecord);
            v.push(OperationPlanStep::ReturnResult);
        },
        OperationIntent::Create => {
            v.push(OperationPlanStep::ValidateInput);
            v.push(OperationPlanStep::CreateRecord);
            v.push(OperationPlanStep::ReturnResult);
        },
        OperationIntent::Update => {
            v.push(OperationPlanStep::ValidateInput);
            v.push(OperationPlanStep::LoadRecord);
            v.push(OperationPlanStep::UpdateRecord);
            v.push(OperationPlanStep::ReturnResult);
        },
        OperationIntent::Delete => {
            v.push(OperationPlanStep::LoadRecord);
            v.push(OperationPlanStep::DeleteRecord);
            v.push(OperationPlanStep::ReturnResult);
        },
        OperationIntent::Authenticate | OperationIntent::Command => {
            v.push(OperationPlanStep::ValidateInput);
            v.push(OperationPlanStep::QueryRecords);
            v.push(OperationPlanStep::ReturnResult);
        },
    }
    assert(v@ =~= plan_steps(intent));
    v
}

/// The HTTP method of an intent.
pub open spec fn method_of(intent: OperationIntent) -> HttpMethod {
    match intent {
        OperationIntent::List | OperationIntent::Read => HttpMethod::Get,
        OperationIntent::Create | OperationIntent::Authenticate | OperationIntent::Command => HttpMethod::Post,
        OperationIntent::Update => HttpMethod::Put,
        OperationIntent::Delete => HttpMethod::Delete,
    }
}

/// The HTTP method of an intent.
pub fn operation_method(intent: OperationIntent) -> (r: HttpMethod)
    ensures
        r == method_of(intent),
{
    match intent {
        OperationIntent::List | OperationIntent::Read => HttpMethod::Get,
        OperationIntent::Create | OperationIntent::Authenticate | OperationIntent::Command => HttpMethod::Post,
        OperationIntent::Update => HttpMethod::Put,
        OperationIntent::Delete => HttpMethod::Delete,
    }
}

/// The route of an operation on `model` in `domain`.
pub fn operation_path(
    domain: &SemanticDescriptor,
    model: &SemanticDescriptor,
    operation: &DomainOperation,
) -> (r: String)
    ensures
        r@ == operation_route(
            domain.code@,
            model.code@,
            model.native_name@,
            operation.descriptor.native_name@,
            operation.descriptor.code@,
            operation.intent,
        ),
{
    operation_route_text(
        domain.code.as_str(),
        model,
        operation.descriptor.native_name.as_str(),
        operation.descriptor.code.as_str(),
        operation.intent,
    )
}

/// The intents of the operations every model receives.
pub open spec fn crud_intents() -> Seq<OperationIntent> {
    seq![
        OperationIntent::List,
        OperationIntent::Read,
        OperationIntent::Create,
        OperationIntent::Update,
        OperationIntent::Delete,
    ]
}

/// The operations of an application: the model's default operations, then one
/// per operation line, each with its name and intent.
pub open spec fn operation_plan(model_name: Seq<char>, lines: Seq<Seq<char>>) -> Seq<(Seq<char>, OperationIntent)> {
    crud_intents().map_values(|i: OperationIntent| (default_operation_name(i, model_name), i)) + lines.map_values(
        |l: Seq<char>| (l, operation_intent(l)),
    )
}

/// The names of a plan.
pub open spec fn plan_names(plan: Seq<(Seq<char>, OperationIntent)>) -> Seq<Seq<char>> {
    plan.map_values(|p: (Seq<char>, OperationIntent)| p.0)
}

/// `ops` are the operations of `plan` on `model`, described as `descs`.
pub open spec fn operations_match(
    ops: Seq<DomainOperation>,
    model: SemanticDescriptor,
    plan: Seq<(Seq<char>, OperationIntent)>,
    descs: Seq<DescriptorView>,
) -> bool {
    &&& ops.len() == plan.len()
    &&& forall|i: int|
        0 <= i < ops.len() ==> {
            &&& (#[trigger] ops[i]).descriptor@ == descs[i]
            &&& ops[i].model == model
            &&& ops[i].intent == plan[i].1
            &&& ops[i].steps@ == plan_steps(plan[i].1)
        }
}

/// Every interface of an application lies under `/api/app/`, followed by its
/// domain's and model's codes.
pub proof fn lemma_interfaces_under_api(
    ifaces: Seq<InterfaceDefinition>,
    ops: Seq<DomainOperation>,
    domain: SemanticDescriptor,
    model: SemanticDescriptor,
)
    requires
        interfaces_match(ifaces, ops, domain, model),
    ensures
        forall|i: int|
            0 <= i < ifaces.len() ==> starts_with(
                (#[trigger] ifaces[i]).path@,
                "/api/app/"@ + domain.code@ + "/"@ + model.code@,
            ),
        forall|i: int| 0 <= i < ifaces.len() ==> starts_with((#[trigger] ifaces[i]).path@, "/api/app/"@),
{
    let base = "/api/app/"@ + domain.code@ + "/"@ + model.code@;
    assert forall|i: int| 0 <= i < ifaces.len() implies starts_with((#[trigger] ifaces[i]).path@, base) && starts_with(
        ifaces[i].path@,
        "/api/app/"@,
    ) by {
        lemma_route_under_model(
            domain.code@,
            model.code@,
            model.native_name@,
            ops[i].descriptor.native_name@,
            ops[i].descriptor.code@,
            ops[i].intent,
        );
        let p = ifaces[i].path@;
        assert(base.take(("/api/app/"@).len() as int) =~= "/api/app/"@);
        assert(p.take(("/api/app/"@).len() as int) =~= p.take(base.len() as int).take(("/api/app/"@).len() as int));
    }
}

fn crud_intent(i: usize) -> (r: OperationIntent)
    requires
        i < 5,
    ensures
        r == crud_intents()[i as int],
{
    match i {
        0 => OperationIntent::List,
        1 => OperationIntent::Read,
        2 => OperationIntent::Create,
        3 => OperationIntent::Update,
        _ => OperationIntent::Delete,
    }
}

/// Describes the next operation of a plan and appends it.
fn push_operation(
    ops: &mut Vec<DomainOperation>,
    model: &SemanticDescriptor,
    name: String,
    intent: OperationIntent,
    factory: &mut DescriptorFactory,
    Ghost(f0): Ghost<FactoryView>,
    Ghost(plan): Ghost<Seq<(Seq<char>, OperationIntent)>>,
    Ghost(n): Ghost<int>,
)
    requires
        0 <= n < plan.len(),
        plan[n] == (name@, intent),
        ({
            let (f, descs) = describe_all(f0, plan_names(plan).take(n));
            &&& old(factory)@ == f
            &&& operations_match(old(ops)@, *model, plan.take(n), descs)
        }),
    ensures
        ({
            let (f, descs) = describe_all(f0, plan_names(plan).take(n + 1));
            &&& final(factory)@ == f
            &&& operations_match(final(ops)@, *model, plan.take(n + 1), descs)
        }),
{
    let ghost (fa, descs) = describe_all(f0, plan_names(plan).take(n));
    proof {
        lemma_describe_all_len(f0, plan_names(plan).take(n));
    }
    assert(plan_names(plan).take(n + 1).drop_last() =~= plan_names(plan).take(n));
    assert(plan_names(plan).take(n + 1).last() == name@);
    let descriptor = factory.describe(name.as_str(), None);
    let op = DomainOperation { descriptor, model: model.clone(), intent, steps: operation_steps(intent) };
    let ghost old_ops = ops@;
    ops.push(op);
    let ghost (fb, descs2) = describe_all(f0, plan_names(plan).take(n + 1));
    assert(descs2 == descs.push(descriptor@));
    assert forall|j: int| 0 <= j < ops@.len() implies {
        &&& (#[trigger] ops@[j]).descriptor@ == descs2[j]
        &&& ops@[j].model == *model
        &&& ops@[j].intent == plan.take(n + 1)[j].1
        &&& ops@[j].steps@ == plan_steps(plan.take(n + 1)[j].1)
    } by {
        if j < n {
            assert(ops@[j] == old_ops[j]);
            assert(plan.take(n + 1)[j] == plan.take(n)[j]);
        }
    }
}

/// The operations of an application: the model's default operations followed
/// by one operation per line.
pub fn infer_operations(
    model: &SemanticDescriptor,
    operation_lines: &Vec<String>,
    factory: &mut DescriptorFactory,
) -> (r: Vec<DomainOperation>)
    ensures
        ({
            let plan = operation_plan(model.native_name@, texts(operation_lines@));
            let (f, descs) = describe_all(old(factory)@, plan_names(plan));
            &&& final(factory)@ == f
            &&& operations_match(r@, *model, plan, descs)
        }),
{
    let ghost plan = operation_plan(model.native_name@, texts(operation_lines@));
    let ghost f0 = factory@;
    let mut ops: Vec<DomainOperation> = Vec::new();
    assert(plan.len() == 5 + operation_lines@.len());
    assert(plan_names(plan).take(0) =~= Seq::<Seq<char>>::empty());
    assert(plan.take(0) =~= Seq::<(Seq<char>, OperationIntent)>::empty());
    let mut k: usize = 0;
    while k < 5
        invariant
            k <= 5,
            plan == operation_plan(model.native_name@, texts(operation_lines@)),
            plan.len() == 5 + operation_lines@.len(),
            ({
                let (f, descs) = describe_all(f0, plan_names(plan).take(k as int));
                &&& factory@ == f
                &&& operations_match(ops@, *model, plan.take(k as int), descs)
            }),
        decreases 5 - k,
    {
        let intent = crud_intent(k);
        let name = default_operation_text(intent, model.native_name.as_str());
        push_operation(&mut ops, model, name, intent, factory, Ghost(f0), Ghost(plan), Ghost(k as int));
        k = k + 1;
    }
    let mut i: usize = 0;
    while i < operation_lines.len()
        invariant
            i <= operation_lines@.len(),
            plan == operation_plan(model.native_name@, texts(operation_lines@)),
            plan.len() == 5 + operation_lines@.len(),
            ({
                let (f, descs) = describe_all(f0, plan_names(plan).take(5 + i));
                &&& factory@ == f
                &&& operations_match(ops@, *model, plan.take(5 + i), descs)
            }),
        decreases operation_lines@.len() - i,
    {
        let line = &operation_lines[i];
        let intent = infer_operation_intent(line.as_str());
        assert(plan[5 + i] == (line@, intent));
        push_operation(&mut ops, model, owned(line.as_str()), intent, factory, Ghost(f0), Ghost(plan), Ghost(5 + i));
        i = i + 1;
    }
    assert(plan.take(5 + i) =~= plan);
    assert(plan_names(plan).take(5 + i) =~= plan_names(plan));
    ops
}

/// `ifaces` expose `ops` of `model` within `domain`, one each.
pub open spec fn interfaces_match(
    ifaces: Seq<InterfaceDefinition>,
    ops: Seq<DomainOperation>,
    domain: SemanticDescriptor,
    model: SemanticDescriptor,
) -> bool {
    &&& ifaces.len() == ops.len()
    &&& forall|i: int|
        0 <= i < ifaces.len() ==> {
            &&& (#[trigger] ifaces[i]).descriptor == ops[i].descriptor
            &&& ifaces[i].operation == ops[i].descriptor
            &&& ifaces[i].method == method_of(ops[i].intent)
            &&& ifaces[i].path@ == operation_route(
                domain.code@,
                model.code@,
                model.native_name@,
                ops[i].descriptor.native_name@,
                ops[i].descriptor.code@,
                ops[i].intent,
            )
        }
}

/// One interface per operation, with the operation's method and route.
pub fn infer_interfaces(
    domain: &SemanticDescriptor,
    model: &SemanticDescriptor,
    operations: &Vec<DomainOperation>,
) -> (r: Vec<InterfaceDefinition>)
    ensures
        interfaces_match(r@, operations@, *domain, *model),
{
    let mut out: Vec<InterfaceDefinition> = Vec::new();
    let mut i: usize = 0;
    while i < operations.len()
        invariant
            i <= operations@.len(),
            interfaces_match(out@, operations@.take(i as int), *domain, *model),
        decreases operations@.len() - i,
    {
        let op = &operations[i];
        out.push(InterfaceDefinition {
            descriptor: op.descriptor.clone(),
            operation: op.descriptor.clone(),
            method: operation_method(op.intent),
            path: operation_path(domain, model, op),
        });
        assert forall|j: int| 0 <= j < out@.len() implies #[trigger] out@[j].descriptor == operations@.take(i + 1)[j].descriptor by {
            if j < i {
                assert(operations@.take(i + 1)[j] == operations@.take(i as int)[j]);
            }
        }
        i = i + 1;
    }
    assert(operations@.take(i as int) =~= operations@);
    out
}

/// Some line contains `s`.
pub open spec fn line_mentions(lines: Seq<Seq<char>>, s: Seq<char>) -> bool {
    exists|i: int| 0 <= i < lines.len() && contains(#[trigger] lines[i], s)
}

fn mentions(lines: &Vec<String>, s: &str) -> (r: bool)
    ensures
        r == line_mentions(texts(lines@), s@),
{
    let mut i: usize = 0;
    while i < lines.len()
        invariant
            i <= lines@.len(),
            forall|j: int| 0 <= j < i ==> !contains(#[trigger] texts(lines@)[j], s@),
        decreases lines@.len() - i,
    {
        if str_contains(lines[i].as_str(), s) {
            assert(texts(lines@)[i as int] == lines@[i as int]@);
            return true;
        }
        i = i + 1;
    }
    false
}

/// The layout a view's name and lines ask for.
pub open spec fn layout_of(name: Seq<char>, lines: Seq<Seq<char>>) -> ViewLayout {
    if contains(name, "列表"@) || line_mentions(lines, "表格"@) {
        ViewLayout::Table
    } else if contains(name, "资料"@) || contains(name, "表单"@) || line_mentions(lines, "表单"@) {
        ViewLayout::Form
    } else {
        ViewLayout::Detail
    }
}

/// The views to build: three default views of the model when the source
/// declares none, otherwise the declared ones, each with name, layout and lines.
pub open spec fn view_plan(
    model_name: Seq<char>,
    parsed: Seq<(Seq<char>, Seq<Seq<char>>)>,
) -> Seq<(Seq<char>, ViewLayout, Seq<Seq<char>>)> {
    if parsed.len() == 0 {
        seq![
            (model_name + "列表"@, ViewLayout::Table, Seq::<Seq<char>>::empty()),
            (model_name + "详情"@, ViewLayout::Detail, Seq::<Seq<char>>::empty()),
            (model_name + "表单"@, ViewLayout::Form, Seq::<Seq<char>>::empty()),
        ]
    } else {
        parsed.map_values(|p: (Seq<char>, Seq<Seq<char>>)| (p.0, layout_of(p.0, p.1), p.1))
    }
}

/// The descriptors of the fields a view's lines mention (all of them when
/// there are no lines).
pub open spec fn mentioned_fields(fields: Seq<FieldDefinition>, lines: Seq<Seq<char>>) -> Seq<SemanticDescriptor>
    decreases fields.len(),
{
    if fields.len() == 0 {
        Seq::empty()
    } else {
        let rest = mentioned_fields(fields.drop_last(), lines);
        if lines.len() == 0 || line_mentions(lines, fields.last().descriptor.native_name@) {
            rest.push(fields.last().descriptor)
        } else {
            rest
        }
    }
}

/// The fields a view shows: the mentioned ones, or every field when none is.
pub open spec fn view_fields(fields: Seq<FieldDefinition>, lines: Seq<Seq<char>>) -> Seq<SemanticDescriptor> {
    if mentioned_fields(fields, lines).len() == 0 {
        descriptors_of(fields)
    } else {
        mentioned_fields(fields, lines)
    }
}

/// Whether an operation is an action of a view: the view's lines mention it, or
/// it creates from a table or updates from a form.
pub open spec fn is_view_action(lines: Seq<Seq<char>>, layout: ViewLayout, op: DomainOperation) -> bool {
    line_mentions(lines, op.descriptor.native_name@) || (layout == ViewLayout::Table && op.intent
        == OperationIntent::Create) || (layout == ViewLayout::Form && op.intent == OperationIntent::Update)
}

/// The descriptors of a view's action operations, in operation order.
pub open spec fn view_actions(ops: Seq<DomainOperation>, lines: Seq<Seq<char>>, layout: ViewLayout) -> Seq<SemanticDescriptor>
    decreases ops.len(),
{
    if ops.len() == 0 {
        Seq::empty()
    } else {
        let rest = view_actions(ops.drop_last(), lines, layout);
        if is_view_action(lines, layout, ops.last()) {
            rest.push(ops.last().descriptor)
        } else {
            rest
        }
    }
}

/// `v` is the view planned as `(name, layout, lines)` with descriptor `desc`.
pub open spec fn view_matches(
    v: ViewDefinition,
    domain: SemanticDescriptor,
    model: SemanticDescriptor,
    fields: Seq<FieldDefinition>,
    ops: Seq<DomainOperation>,
    planned: (Seq<char>, ViewLayout, Seq<Seq<char>>),
    desc: DescriptorView,
) -> bool {
    &&& v.descriptor@ == desc
    &&& v.model == model
    &&& v.layout == planned.1
    &&& v.fields@ == view_fields(fields, planned.2)
    &&& v.actions@.len() == view_actions(ops, planned.2, planned.1).len()
    &&& forall|k: int|
        0 <= k < v.actions@.len() ==> {
            &&& (#[trigger] v.actions@[k]).descriptor == view_actions(ops, planned.2, planned.1)[k]
            &&& v.actions@[k].operation == view_actions(ops, planned.2, planned.1)[k]
        }
    &&& v.route@ == view_route(domain.code@, desc.code)
}

/// The names of a view plan.
pub open spec fn view_names(plan: Seq<(Seq<char>, ViewLayout, Seq<Seq<char>>)>) -> Seq<Seq<char>> {
    plan.map_values(|p: (Seq<char>, ViewLayout, Seq<Seq<char>>)| p.0)
}

/// `views` are the planned views, described as `descs`.
pub open spec fn views_match(
    views: Seq<ViewDefinition>,
    domain: SemanticDescriptor,
    model: SemanticDescriptor,
    fields: Seq<FieldDefinition>,
    ops: Seq<DomainOperation>,
    plan: Seq<(Seq<char>, ViewLayout, Seq<Seq<char>>)>,
    descs: Seq<DescriptorView>,
) -> bool {
    &&& views.len() == plan.len()
    &&& forall|i: int| 0 <= i < views.len() ==> view_matches(#[trigger] views[i], domain, model, fields, ops, plan[i], descs[i])
}

fn field_descriptors(fields: &Vec<FieldDefinition>, lines: &Vec<String>) -> (r: Vec<SemanticDescriptor>)
    ensures
        r@ == view_fields(fields@, texts(lines@)),
{
    let mut selected: Vec<SemanticDescriptor> = Vec::new();
    let mut all: Vec<SemanticDescriptor> = Vec::new();
    let no_lines = lines.len() == 0;
    let mut i: usize = 0;
    while i < fields.len()
        invariant
            i <= fields@.len(),
            no_lines == (texts(lines@).len() == 0),
            selected@ == mentioned_fields(fields@.take(i as int), texts(lines@)),
            all@ == descriptors_of(fields@.take(i as int)),
        decreases fields@.len() - i,
    {
        let f = &fields[i];
        assert(fields@.take(i + 1).drop_last() =~= fields@.take(i as int));
        assert(descriptors_of(fields@.take(i + 1)) =~= descriptors_of(fields@.take(i as int)).push(f.descriptor));
        if no_lines || mentions(lines, f.descriptor.native_name.as_str()) {
            selected.push(f.descriptor.clone());
        }
        all.push(f.descriptor.clone());
        i = i + 1;
    }
    assert(fields@.take(i as int) =~= fields@);
    if selected.len() == 0 {
        all
    } else {
        selected
    }
}

fn action_definitions(ops: &Vec<DomainOperation>, lines: &Vec<String>, layout: ViewLayout) -> (r: Vec<ViewActionDefinition>)
    ensures
        r@.len() == view_actions(ops@, texts(lines@), layout).len(),
        forall|k: int|
            0 <= k < r@.len() ==> {
                &&& (#[trigger] r@[k]).descriptor == view_actions(ops@, texts(lines@), layout)[k]
                &&& r@[k].operation == view_actions(ops@, texts(lines@), layout)[k]
            },
{
    let mut out: Vec<ViewActionDefinition> = Vec::new();
    let mut i: usize = 0;
    while i < ops.len()
        invariant
            i <= ops@.len(),
            out@.len() == view_actions(ops@.take(i as int), texts(lines@), layout).len(),
            forall|k: int|
                0 <= k < out@.len() ==> {
                    &&& (#[trigger] out@[k]).descriptor == view_actions(ops@.take(i as int), texts(lines@), layout)[k]
                    &&& out@[k].operation == view_actions(ops@.take(i as int), texts(lines@), layout)[k]
                },
        decreases ops@.len() - i,
    {
        let op = &ops[i];
        assert(ops@.take(i + 1).drop_last() =~= ops@.take(i as int));
        assert(ops@.take(i + 1).last() == *op);
        let selected = mentions(lines, op.descriptor.native_name.as_str()) || (match (layout, op.intent) {
            (ViewLayout::Table, OperationIntent::Create) => true,
            (ViewLayout::Form, OperationIntent::Update) => true,
            _ => false,
        });
        if selected {
            out.push(ViewActionDefinition { descriptor: op.descriptor.clone(), operation: op.descriptor.clone() });
        }
        i = i + 1;
    }
    assert(ops@.take(i as int) =~= ops@);
    out
}

/// Builds one view.
pub fn build_view(
    domain: &SemanticDescriptor,
    model: &SemanticDescriptor,
    fields: &Vec<FieldDefinition>,
    operations: &Vec<DomainOperation>,
    native_name: &str,
    layout: ViewLayout,
    lines: &Vec<String>,
    factory: &mut DescriptorFactory,
) -> (r: ViewDefinition)
    ensures
        ({
            let (f, d) = describe_step(old(factory)@, native_name@, None);
            &&& final(factory)@ == f
            &&& view_matches(r, *domain, *model, fields@, operations@, (native_name@, layout, texts(lines@)), d)
        }),
{
    let descriptor = factory.describe(native_name, None);
    let view_fields = field_descriptors(fields, lines);
    let actions = action_definitions(operations, lines, layout);
    let route = concat4("/", domain.code.as_str(), "/", descriptor.code.as_str());
    ViewDefinition { route, descriptor, model: model.clone(), layout, fields: view_fields, actions }
}

fn view_layout(view: &ParsedView) -> (r: ViewLayout)
    ensures
        r == layout_of(view.native_name@, texts(view.lines@)),
{
    if str_contains(view.native_name.as_str(), "列表") || mentions(&view.lines, "表格") {
        ViewLayout::Table
    } else if str_contains(view.native_name.as_str(), "资料") || str_contains(view.native_name.as_str(), "表单")
        || mentions(&view.lines, "表单") {
        ViewLayout::Form
    } else {
        ViewLayout::Detail
    }
}

/// The views of the application.
pub fn infer_views(
    domain: &SemanticDescriptor,
    model: &SemanticDescriptor,
    fields: &Vec<FieldDefinition>,
    operations: &Vec<DomainOperation>,
    parsed_views: &Vec<ParsedView>,
    factory: &mut DescriptorFactory,
) -> (r: Vec<ViewDefinition>)
    ensures
        ({
            let plan = view_plan(model.native_name@, views_text(parsed_views@));
            let (f, descs) = describe_all(old(factory)@, view_names(plan));
            &&& final(factory)@ == f
            &&& views_match(r@, *domain, *model, fields@, operations@, plan, descs)
        }),
{
    let ghost plan = view_plan(model.native_name@, views_text(parsed_views@));
    let ghost f0 = factory@;
    let no_views = parsed_views.len() == 0;
    let count: usize = if no_views { 3 } else { parsed_views.len() };
    let empty_lines: Vec<String> = Vec::new();
    assert(texts(empty_lines@) =~= Seq::<Seq<char>>::empty());
    let mut out: Vec<ViewDefinition> = Vec::new();
    let mut i: usize = 0;
    assert(view_names(plan).take(0) =~= Seq::<Seq<char>>::empty());
    while i < count
        invariant
            i <= count,
            plan == view_plan(model.native_name@, views_text(parsed_views@)),
            count == plan.len(),
            no_views == (parsed_views@.len() == 0),
            texts(empty_lines@) == Seq::<Seq<char>>::empty(),
            ({
                let (f, descs) = describe_all(f0, view_names(plan).take(i as int));
                &&& factory@ == f
                &&& views_match(out@, *domain, *model, fields@, operations@, plan.take(i as int), descs)
            }),
        decreases count - i,
    {
        let ghost (fa, descs) = describe_all(f0, view_names(plan).take(i as int));
        proof {
            lemma_describe_all_len(f0, view_names(plan).take(i as int));
        }
        assert(view_names(plan).take(i + 1).drop_last() =~= view_names(plan).take(i as int));
        let view = if no_views {
            let (name, layout) = if i == 0 {
                (concat2(model.native_name.as_str(), "列表"), ViewLayout::Table)
            } else if i == 1 {
                (concat2(model.native_name.as_str(), "详情"), ViewLayout::Detail)
            } else {
                (concat2(model.native_name.as_str(), "表单"), ViewLayout::Form)
            };
            assert(plan[i as int] == (name@, layout, texts(empty_lines@)));
            build_view(domain, model, fields, operations, name.as_str(), layout, &empty_lines, factory)
        } else {
            let parsed = &parsed_views[i];
            let layout = view_layout(parsed);
            assert(plan[i as int] == (parsed.native_name@, layout, texts(parsed.lines@)));
            build_view(domain, model, fields, operations, parsed.native_name.as_str(), layout, &parsed.lines, factory)
        };
        let ghost old_out = out@;
        out.push(view);
        let ghost (fb, descs2) = describe_all(f0, view_names(plan).take(i + 1));
        assert forall|j: int| 0 <= j < out@.len() implies view_matches(#[trigger] out@[j], *domain, *model, fields@, operations@, plan.take(i + 1)[j], descs2[j]) by {
            if j < i {
                assert(out@[j] == old_out[j]);
                assert(plan.take(i + 1)[j] == plan.take(i as int)[j]);
            }
        }
        i = i + 1;
    }
    assert(plan.take(i as int) =~= plan);
    assert(view_names(plan).take(i as int) =~= view_names(plan));
    out
}

/// The actor a permission line speaks of: what precedes `可以` (or else `只能`),
/// trimmed, unless that is empty; the whole line otherwise.
pub open spec fn permission_actor(line: Seq<char>) -> Seq<char> {
    let split = match split_once(line, "可以"@) {
        Some(p) => Some(p),
        None => split_once(line, "只能"@),
    };
    match split {
        Some((actor, _)) => if trim(actor).len() > 0 {
            trim(actor)
        } else {
            line
        },
        None => line,
    }
}

/// The rule a permission line states.
pub open spec fn permission_rule(line: Seq<char>) -> PermissionRule {
    if contains(line, "自己"@) {
        PermissionRule::OwnRecords
    } else if contains(line, "全部"@) || contains(line, "管理员"@) {
        PermissionRule::AllRecords
    } else {
        PermissionRule::Authenticated
    }
}

/// The operations a rule allows: all of them for all records, otherwise every
/// operation that neither lists nor deletes.
pub open spec fn allowed_operations(ops: Seq<DomainOperation>, rule: PermissionRule) -> Seq<SemanticDescriptor>
    decreases ops.len(),
{
    if ops.len() == 0 {
        Seq::empty()
    } else {
        let rest = allowed_operations(ops.drop_last(), rule);
        let op = ops.last();
        if rule == PermissionRule::AllRecords || !(op.intent == OperationIntent::List || op.intent
            == OperationIntent::Delete) {
            rest.push(op.descriptor)
        } else {
            rest
        }
    }
}

/// `perms` are the permissions stated by `lines`, their actors described as `descs`.
pub open spec fn permissions_match(
    perms: Seq<PermissionDefinition>,
    ops: Seq<DomainOperation>,
    lines: Seq<Seq<char>>,
    descs: Seq<DescriptorView>,
) -> bool {
    &&& perms.len() == lines.len()
    &&& forall|i: int|
        0 <= i < perms.len() ==> {
            &&& (#[trigger] perms[i]).descriptor@ == descs[i]
            &&& perms[i].rule == permission_rule(lines[i])
            &&& perms[i].operations@ == allowed_operations(ops, permission_rule(lines[i]))
        }
}

fn actor_of(line: &str) -> (r: &str)
    ensures
        r@ == permission_actor(line@),
{
    let split = match str_split_once(line, "可以") {
        Some(p) => Some(p),
        None => str_split_once(line, "只能"),
    };
    match split {
        Some((actor, _)) => {
            let t = str_trim(actor);
            if !t.is_empty() {
                t
            } else {
                line
            }
        },
        None => line,
    }
}

fn allowed(ops: &Vec<DomainOperation>, rule: PermissionRule) -> (r: Vec<SemanticDescriptor>)
    ensures
        r@ == allowed_operations(ops@, rule),
{
    let mut out: Vec<SemanticDescriptor> = Vec::new();
    let mut i: usize = 0;
    while i < ops.len()
        invariant
            i <= ops@.len(),
            out@ == allowed_operations(ops@.take(i as int), rule),
        decreases ops@.len() - i,
    {
        let op = &ops[i];
        assert(ops@.take(i + 1).drop_last() =~= ops@.take(i as int));
        assert(ops@.take(i + 1).last() == *op);
        let all = match rule {
            PermissionRule::AllRecords => true,
            _ => false,
        };
        let restricted = match op.intent {
            OperationIntent::List | OperationIntent::Delete => true,
            _ => false,
        };
        if all || !restricted {
            out.push(op.descriptor.clone());
        }
        i = i + 1;
    }
    assert(ops@.take(i as int) =~= ops@);
    out
}

/// The actors of permission lines.
pub open spec fn permission_actors(lines: Seq<Seq<char>>) -> Seq<Seq<char>> {
    lines.map_values(|l: Seq<char>| permission_actor(l))
}

/// The permissions stated by the permission lines.
pub fn infer_permissions(
    lines: &Vec<String>,
    operations: &Vec<DomainOperation>,
    factory: &mut DescriptorFactory,
) -> (r: Vec<PermissionDefinition>)
    ensures
        ({
            let (f, descs) = describe_all(old(factory)@, permission_actors(texts(lines@)));
            &&& final(factory)@ == f
            &&& permissions_match(r@, operations@, texts(lines@), descs)
        }),
{
    let ghost f0 = factory@;
    let ghost ls = texts(lines@);
    let mut out: Vec<PermissionDefinition> = Vec::new();
    let mut i: usize = 0;
    assert(permission_actors(ls).take(0) =~= Seq::<Seq<char>>::empty());
    while i < lines.len()
        invariant
            i <= lines@.len(),
            ls == texts(lines@),
            ({
                let (f, descs) = describe_all(f0, permission_actors(ls).take(i as int));
                &&& factory@ == f
                &&& permissions_match(out@, operations@, ls.take(i as int), descs)
            }),
        decreases lines@.len() - i,
    {
        let line = lines[i].as_str();
        let actor = actor_of(line);
        let rule = if str_contains(line, "自己") {
            PermissionRule::OwnRecords
        } else if str_contains(line, "全部") || str_contains(line, "管理员") {
            PermissionRule::AllRecords
        } else {
            PermissionRule::Authenticated
        };
        let operations_allowed = allowed(operations, rule);
        let ghost (fa, descs) = describe_all(f0, permission_actors(ls).take(i as int));
        proof {
            lemma_describe_all_len(f0, permission_actors(ls).take(i as int));
        }
        assert(permission_actors(ls).take(i + 1).drop_last() =~= permission_actors(ls).take(i as int));
        assert(permission_actors(ls).take(i + 1).last() == actor@);
        let descriptor = factory.describe(actor, None);
        let ghost old_out = out@;
        out.push(PermissionDefinition { descriptor, rule, operations: operations_allowed });
        let ghost (fb, descs2) = describe_all(f0, permission_actors(ls).take(i + 1));
        assert forall|j: int| 0 <= j < out@.len() implies {
            &&& (#[trigger] out@[j]).descriptor@ == descs2[j]
            &&& out@[j].rule == permission_rule(ls.take(i + 1)[j])
            &&& out@[j].operations@ == allowed_operations(operations@, permission_rule(ls.take(i + 1)[j]))
        } by {
            if j < i {
                assert(out@[j] == old_out[j]);
                assert(ls.take(i + 1)[j] == ls.take(i as int)[j]);
            }
        }
        i = i + 1;
    }
    assert(ls.take(i as int) =~= ls);
    assert(permission_actors(ls).take(i as int) =~= permission_actors(ls));
    out
}

/// The first quoted text of a line (between `“` or `"` and `”` or `"`), trimmed,
/// when it is not blank.
pub open spec fn quoted(v: Seq<char>) -> Option<Seq<char>> {
    match split_once_any(v, seq!['“', '"']) {
        Some((_, suffix)) => match split_once_any(suffix, seq!['”', '"']) {
            Some((q, _)) => if trim(q).len() > 0 {
                Some(trim(q))
            } else {
                None
            },
            None => None,
        },
        None => None,
    }
}

/// Reads the first quoted text of a line.
pub fn quoted_text(value: &str) -> (r: Option<String>)
    ensures
        match r {
            Some(s) => quoted(value@) == Some(s@),
            None => quoted(value@) is None,
        },
{
    let open_marks = ['“', '"'];
    let close_marks = ['”', '"'];
    assert(open_marks@ =~= seq!['“', '"']);
    assert(close_marks@ =~= seq!['”', '"']);
    let (_, suffix) = str_split_once_any(value, &open_marks)?;
    let (q, _) = str_split_once_any(suffix, &close_marks)?;
    let t = str_trim(q);
    if t.is_empty() {
        None
    } else {
        Some(owned(t))
    }
}

/// The first quoted text among lines.
pub open spec fn first_quoted(lines: Seq<Seq<char>>) -> Option<Seq<char>>
    decreases lines.len(),
{
    if lines.len() == 0 {
        None
    } else {
        match quoted(lines[0]) {
            Some(q) => Some(q),
            None => first_quoted(lines.drop_first()),
        }
    }
}

/// The navigation section label: the first quoted text, `业务` when there is none.
pub open spec fn section_label(lines: Seq<Seq<char>>) -> Seq<char> {
    match first_quoted(lines) {
        Some(q) => q,
        None => "业务"@,
    }
}

/// A line marks `name` as the default view: it says `默认` and names it.
pub open spec fn marks_default(lines: Seq<Seq<char>>, name: Seq<char>) -> bool {
    exists|i: int| 0 <= i < lines.len() && contains(#[trigger] lines[i], "默认"@) && contains(lines[i], name)
}

/// The first view some line marks as the default one.
pub open spec fn default_view_index(views: Seq<ViewDefinition>, lines: Seq<Seq<char>>) -> Option<int>
    decreases views.len(),
{
    if views.len() == 0 {
        None
    } else if marks_default(lines, views[0].descriptor.native_name@) {
        Some(0)
    } else {
        match default_view_index(views.drop_first(), lines) {
            Some(k) => Some(k + 1),
            None => None,
        }
    }
}

/// The permissions shown on a view's menu entry: all of them, except that table
/// views show only those over all records.
pub open spec fn entry_permissions(perms: Seq<PermissionDefinition>, layout: ViewLayout) -> Seq<SemanticDescriptor>
    decreases perms.len(),
{
    if perms.len() == 0 {
        Seq::empty()
    } else {
        let rest = entry_permissions(perms.drop_last(), layout);
        if layout != ViewLayout::Table || perms.last().rule == PermissionRule::AllRecords {
            rest.push(perms.last().descriptor)
        } else {
            rest
        }
    }
}

/// `nav` is the navigation of `views` in `domain`.
pub open spec fn navigation_match(
    nav: NavigationDefinition,
    domain: SemanticDescriptor,
    views: Seq<ViewDefinition>,
    perms: Seq<PermissionDefinition>,
    lines: Seq<Seq<char>>,
) -> bool {
    &&& nav.section_label@ == section_label(lines)
    &&& nav.descriptor == domain
    &&& nav.default_view == views[match default_view_index(views, lines) {
        Some(k) => k,
        None => 0,
    }].descriptor
    &&& nav.entries@.len() == views.len()
    &&& forall|i: int|
        0 <= i < views.len() ==> {
            &&& (#[trigger] nav.entries@[i]).descriptor == views[i].descriptor
            &&& nav.entries@[i].view == views[i].descriptor
            &&& nav.entries@[i].order == (i + 1) * 10
            &&& nav.entries@[i].permissions@ == entry_permissions(perms, views[i].layout)
        }
}

proof fn lemma_default_view_index(views: Seq<ViewDefinition>, lines: Seq<Seq<char>>)
    ensures
        default_view_index(views, lines) matches Some(k) ==> 0 <= k < views.len(),
    decreases views.len(),
{
    if views.len() > 0 && !marks_default(lines, views[0].descriptor.native_name@) {
        lemma_default_view_index(views.drop_first(), lines);
    }
}

fn entry_permission_list(perms: &Vec<PermissionDefinition>, layout: ViewLayout) -> (r: Vec<SemanticDescriptor>)
    ensures
        r@ == entry_permissions(perms@, layout),
{
    let mut out: Vec<SemanticDescriptor> = Vec::new();
    let mut i: usize = 0;
    while i < perms.len()
        invariant
            i <= perms@.len(),
            out@ == entry_permissions(perms@.take(i as int), layout),
        decreases perms@.len() - i,
    {
        let p = &perms[i];
        assert(perms@.take(i + 1).drop_last() =~= perms@.take(i as int));
        assert(perms@.take(i + 1).last() == *p);
        let table = match layout {
            ViewLayout::Table => true,
            _ => false,
        };
        let all = match p.rule {
            PermissionRule::AllRecords => true,
            _ => false,
        };
        if !table || all {
            out.push(p.descriptor.clone());
        }
        i = i + 1;
    }
    assert(perms@.take(i as int) =~= perms@);
    out
}

fn marks_default_line(lines: &Vec<String>, name: &str) -> (r: bool)
    ensures
        r == marks_default(texts(lines@), name@),
{
    let mut i: usize = 0;
    while i < lines.len()
        invariant
            i <= lines@.len(),
            forall|j: int|
                0 <= j < i ==> !(contains(#[trigger] texts(lines@)[j], "默认"@) && contains(texts(lines@)[j], name@)),
        decreases lines@.len() - i,
    {
        assert(texts(lines@)[i as int] == lines@[i as int]@);
        if str_contains(lines[i].as_str(), "默认") && str_contains(lines[i].as_str(), name) {
            return true;
        }
        i = i + 1;
    }
    false
}

/// The navigation of the application.
pub fn infer_navigation(
    domain: &SemanticDescriptor,
    views: &Vec<ViewDefinition>,
    permissions: &Vec<PermissionDefinition>,
    lines: &Vec<String>,
) -> (r: NavigationDefinition)
    requires
        0 < views@.len() <= 214748364,
    ensures
        navigation_match(r, *domain, views@, permissions@, texts(lines@)),
{
    let ghost ls = texts(lines@);
    let mut label: Option<String> = None;
    let mut i: usize = 0;
    assert(ls.skip(0) =~= ls);
    while i < lines.len() && label.is_none()
        invariant
            i <= lines@.len(),
            ls == texts(lines@),
            label is None ==> first_quoted(ls) == first_quoted(ls.skip(i as int)),
            label matches Some(q) ==> first_quoted(ls) == Some(q@),
        decreases lines@.len() - i,
    {
        assert(ls.skip(i as int)[0] == lines@[i as int]@);
        assert(ls.skip(i as int).drop_first() =~= ls.skip(i + 1));
        label = quoted_text(lines[i].as_str());
        i = i + 1;
    }
    if label.is_none() {
        assert(ls.skip(i as int) =~= Seq::<Seq<char>>::empty());
    }
    let section_label = match label {
        Some(q) => q,
        None => owned("业务"),
    };
    let mut default_index: usize = 0;
    let mut found = false;
    let mut k: usize = 0;
    assert(views@.skip(0) =~= views@);
    proof {
        lemma_default_view_index(views@, ls);
    }
    while k < views.len() && !found
        invariant
            k <= views@.len(),
            ls == texts(lines@),
            !found ==> default_view_index(views@, ls) == match default_view_index(views@.skip(k as int), ls) {
                Some(t) => Some(t + k),
                None => None::<int>,
            },
            found ==> default_view_index(views@, ls) == Some(default_index as int) && default_index < views@.len(),
            !found ==> default_index == 0,
            0 < views@.len(),
        decreases views@.len() - k,
    {
        assert(views@.skip(k as int)[0] == views@[k as int]);
        assert(views@.skip(k as int).drop_first() =~= views@.skip(k + 1));
        if marks_default_line(lines, views[k].descriptor.native_name.as_str()) {
            default_index = k;
            found = true;
        }
        k = k + 1;
    }
    if !found {
        assert(views@.skip(k as int) =~= Seq::<ViewDefinition>::empty());
    }
    assert(default_index < views@.len());
    assert(default_index == match default_view_index(views@, ls) {
        Some(t) => t,
        None => 0,
    });
    let default_view = views[default_index].descriptor.clone();
    let mut entries: Vec<NavigationEntry> = Vec::new();
    let mut j: usize = 0;
    while j < views.len()
        invariant
            j <= views@.len(),
            views@.len() <= 214748364,
            entries@.len() == j,
            forall|t: int|
                0 <= t < j ==> {
                    &&& (#[trigger] entries@[t]).descriptor == views@[t].descriptor
                    &&& entries@[t].view == views@[t].descriptor
                    &&& entries@[t].order == (t + 1) * 10
                    &&& entries@[t].permissions@ == entry_permissions(permissions@, views@[t].layout)
                },
        decreases views@.len() - j,
    {
        let view = &views[j];
        let order: i32 = ((j + 1) as i32) * 10;
        entries.push(NavigationEntry {
            descriptor: view.descriptor.clone(),
            view: view.descriptor.clone(),
            order,
            permissions: entry_permission_list(permissions, view.layout),
        });
        j = j + 1;
    }
    NavigationDefinition { section_label, descriptor: domain.clone(), default_view, entries }
}

/// The application of a model within a domain, inferred from the outline's lines.
pub fn infer_application(
    domain_descriptor: SemanticDescriptor,
    model_descriptor: SemanticDescriptor,
    fields: &Vec<FieldDefinition>,
    operation_lines: &Vec<String>,
    parsed_views: &Vec<ParsedView>,
    navigation_lines: &Vec<String>,
    permission_lines: &Vec<String>,
    factory: &mut DescriptorFactory,
) -> (r: ApplicationDefinition)
    requires
        parsed_views@.len() <= 214748364,
    ensures
        ({
            let op_plan = operation_plan(model_descriptor.native_name@, texts(operation_lines@));
            let (f1, op_descs) = describe_all(old(factory)@, plan_names(op_plan));
            let v_plan = view_plan(model_descriptor.native_name@, views_text(parsed_views@));
            let (f2, view_descs) = describe_all(f1, view_names(v_plan));
            let (f3, perm_descs) = describe_all(f2, permission_actors(texts(permission_lines@)));
            &&& final(factory)@ == f3
            &&& r.domain.descriptor == domain_descriptor
            &&& r.domain.models@ == seq![model_descriptor]
            &&& operations_match(r.operations@, model_descriptor, op_plan, op_descs)
            &&& interfaces_match(r.interfaces@, r.operations@, domain_descriptor, model_descriptor)
            &&& views_match(r.views@, domain_descriptor, model_descriptor, fields@, r.operations@, v_plan, view_descs)
            &&& permissions_match(r.permissions@, r.operations@, texts(permission_lines@), perm_descs)
            &&& navigation_match(r.navigation, domain_descriptor, r.views@, r.permissions@, texts(navigation_lines@))
        }),
{
    let operations = infer_operations(&model_descriptor, operation_lines, factory);
    let interfaces = infer_interfaces(&domain_descriptor, &model_descriptor, &operations);
    let views = infer_views(&domain_descriptor, &model_descriptor, fields, &operations, parsed_views, factory);
    let permissions = infer_permissions(permission_lines, &operations, factory);
    proof {
        let v_plan = view_plan(model_descriptor.native_name@, views_text(parsed_views@));
        assert(v_plan.len() > 0);
    }
    let navigation = infer_navigation(&domain_descriptor, &views, &permissions, navigation_lines);
    let mut models: Vec<SemanticDescriptor> = Vec::new();
    models.push(model_descriptor);
    ApplicationDefinition {
        domain: DomainDefinition { descriptor: domain_descriptor, models },
        operations,
        interfaces,
        views,
        navigation,
        permissions,
    }
}

/// An operation that a view should offer is among the view's actions.
proof fn lemma_view_action_offered(ops: Seq<DomainOperation>, lines: Seq<Seq<char>>, layout: ViewLayout, j: int)
    requires
        0 <= j < ops.len(),
        (layout == ViewLayout::Table && ops[j].intent == OperationIntent::Create) || (layout == ViewLayout::Form
            && ops[j].intent == OperationIntent::Update) || (exists|l: int|
            0 <= l < lines.len() && contains(#[trigger] lines[l], ops[j].descriptor.native_name@)),
    ensures
        view_actions(ops, lines, layout).contains(ops[j].descriptor),
    decreases ops.len(),
{
    let rest = ops.drop_last();
    let r = view_actions(rest, lines, layout);
    if j < ops.len() - 1 {
        assert(rest[j] == ops[j]);
        lemma_view_action_offered(rest, lines, layout, j);
        let k = choose|k: int| 0 <= k < r.len() && r[k] == ops[j].descriptor;
        assert(r.push(ops.last().descriptor)[k] == r[k]);
    } else {
        assert(ops.last() == ops[j]);
        assert(r.push(ops[j].descriptor)[r.len() as int] == ops[j].descriptor);
    }
}

/// Every action of a view is the descriptor of one of the operations.
proof fn lemma_view_actions_are_operations(ops: Seq<DomainOperation>, lines: Seq<Seq<char>>, layout: ViewLayout)
    ensures
        forall|k: int|
            0 <= k < view_actions(ops, lines, layout).len() ==> exists|j: int|
                0 <= j < ops.len() && #[trigger] view_actions(ops, lines, layout)[k] == ops[j].descriptor,
    decreases ops.len(),
{
    if ops.len() > 0 {
        let rest = ops.drop_last();
        lemma_view_actions_are_operations(rest, lines, layout);
        let r = view_actions(rest, lines, layout);
        let all = view_actions(ops, lines, layout);
        assert forall|k: int| 0 <= k < all.len() implies exists|j: int|
            0 <= j < ops.len() && #[trigger] all[k] == ops[j].descriptor by {
            if k < r.len() {
                assert(all[k] == r[k]);
                let j = choose|j: int| 0 <= j < rest.len() && r[k] == rest[j].descriptor;
                assert(rest[j] == ops[j]);
            } else {
                assert(all[k] == ops.last().descriptor);
                assert(ops.last() == ops[ops.len() - 1]);
            }
        }
    }
}

/// The views offer the operations they should, and nothing else: a table view
/// offers every create operation, a form view every update operation, and
/// every view each operation that one of its lines names; each action of a
/// view is one of the operations.
pub proof fn lemma_views_offer_actions(
    views: Seq<ViewDefinition>,
    domain: SemanticDescriptor,
    model: SemanticDescriptor,
    fields: Seq<FieldDefinition>,
    ops: Seq<DomainOperation>,
    plan: Seq<(Seq<char>, ViewLayout, Seq<Seq<char>>)>,
    descs: Seq<DescriptorView>,
)
    requires
        views_match(views, domain, model, fields, ops, plan, descs),
    ensures
        forall|i: int, j: int|
            0 <= i < views.len() && 0 <= j < ops.len() && (((#[trigger] views[i]).layout == ViewLayout::Table
                && (#[trigger] ops[j]).intent == OperationIntent::Create) || (views[i].layout == ViewLayout::Form
                && ops[j].intent == OperationIntent::Update) || (exists|l: int|
                0 <= l < plan[i].2.len() && contains(#[trigger] plan[i].2[l], ops[j].descriptor.native_name@)))
                ==> exists|k: int| 0 <= k < views[i].actions@.len() && #[trigger] views[i].actions@[k].operation == ops[j].descriptor,
        forall|i: int, k: int|
            0 <= i < views.len() && 0 <= k < (#[trigger] views[i]).actions@.len() ==> exists|j: int|
                0 <= j < ops.len() && #[trigger] views[i].actions@[k].operation == ops[j].descriptor,
{
    assert forall|i: int, j: int|
        0 <= i < views.len() && 0 <= j < ops.len() && (((#[trigger] views[i]).layout == ViewLayout::Table
            && (#[trigger] ops[j]).intent == OperationIntent::Create) || (views[i].layout == ViewLayout::Form
            && ops[j].intent == OperationIntent::Update) || (exists|l: int|
            0 <= l < plan[i].2.len() && contains(#[trigger] plan[i].2[l], ops[j].descriptor.native_name@)))
        implies exists|k: int| 0 <= k < views[i].actions@.len() && #[trigger] views[i].actions@[k].operation == ops[j].descriptor by {
        assert(view_matches(views[i], domain, model, fields, ops, plan[i], descs[i]));
        lemma_view_action_offered(ops, plan[i].2, plan[i].1, j);
        let va = view_actions(ops, plan[i].2, plan[i].1);
        let k = choose|k: int| 0 <= k < va.len() && va[k] == ops[j].descriptor;
        assert(views[i].actions@[k].operation == va[k]);
    }
    assert forall|i: int, k: int| 0 <= i < views.len() && 0 <= k < (#[trigger] views[i]).actions@.len() implies exists|j: int|
        0 <= j < ops.len() && #[trigger] views[i].actions@[k].operation == ops[j].descriptor by {
        assert(view_matches(views[i], domain, model, fields, ops, plan[i], descs[i]));
        lemma_view_actions_are_operations(ops, plan[i].2, plan[i].1);
        let va = view_actions(ops, plan[i].2, plan[i].1);
        assert(views[i].actions@[k].operation == va[k]);
    }
}

} // verus!
