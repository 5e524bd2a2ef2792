use nature_compiler::capability::{resolve_provider, ProviderProfile};
use nature_compiler::compiler::{
    compare_descriptor, detect_breaking_changes, has_errors, policy_findings, trace_stage,
    CompileAction,
};
use nature_compiler::rust_backend::bindings::plan_bindings;
use nature_compiler::rust_backend::model::{
    plan_descriptors, plan_enums, plan_functions, plan_structs, plan_validators,
};
use nature_compiler::rust_backend::tests::plan_tests;
use nature_compiler::rust_backend::GeneratedSources;
use nature_compiler::inference::engine::{infer_chinese_blueprint, InferenceError};
use nature_compiler::policy::{validate_blueprint, validate_source_contract};
use nature_compiler::{
    ArtifactSet, Blueprint, CompileResult, RustBackend, CompileSession, CompileStage, CompileStageStatus, CompileTrace, Diagnostic, DiagnosticLevel,
    FixtureMapProvider, HttpMethod, ImpactArea, InferenceMode, MotherTongueInferenceEngine,
    OperationIntent, PermissionRule, ValueTransform, ViewLayout,
};

const ENVIRONMENT: &str = "领域：环境采集\n需求：\n1. 无效数据不能入库\n建模：环境遥测\n1. 温度：小数，摄氏度，范围 -40 到 125\n2. 湿度：百分比，范围 0 到 100\n数据获取：\n1. 模拟采集提供温度原值和湿度原值\n2. 温度等于温度原值除以10\n3. 湿度等于湿度原值除以10\n";

const USERS: &str = "领域：用户管理\n\n需求：\n1. 用户可以注册和登录\n2. 管理员可以查询、修改和停用用户\n\n建模：用户\n1. 用户名：文本，必填，唯一\n2. 密码：密码，必填\n3. 邮箱：文本，邮箱格式\n4. 权限等级：字典，显示母语标签\n\n操作：\n1. 注册用户时校验用户名和邮箱，然后保存用户\n2. 登录时校验密码并返回登录结果\n\n界面：用户列表\n1. 使用表格展示用户名、邮箱和权限等级\n\n界面：用户资料\n1. 使用表单管理用户信息\n\n导航：\n1. 在“组织管理”下面显示“用户管理”\n2. 用户列表作为默认页面\n\n权限：\n1. 用户只能管理自己的资料\n2. 管理员可以管理全部用户";

#[test]
fn environment_source_infers_model_fields_and_bindings() {
    let result = infer_chinese_blueprint(ENVIRONMENT, None).unwrap();
    let b = &result.blueprint;
    assert_eq!(b.structs.len(), 1);
    assert_eq!(b.structs[0].descriptor.code, "environment_telemetry");
    assert_eq!(b.structs[0].fields[0].descriptor.code, "temperature");
    assert_eq!(b.structs[0].fields[1].descriptor.code, "humidity");
    assert!(b.structs[0].fields.iter().all(|f| f.required));
    assert_eq!(b.bindings.len(), 2);
    assert_eq!(b.bindings[0].source.code, "temp_x10");
    assert_eq!(b.bindings[1].source.code, "humidity_x10");
    assert_eq!(b.bindings[0].transform, ValueTransform::Divide { divisor: "10".to_string() });
    assert_eq!(b.capabilities.len(), 1);
    assert_eq!(b.capabilities[0].descriptor.code, "fixture_map");
    assert_eq!(b.functions.len(), 1);
    assert_eq!(b.functions[0].descriptor.code, "process_telemetry");
    assert_eq!(b.functions[0].input_model.code, "source_values");
    assert_eq!(result.metrics.mode, InferenceMode::Deterministic);
    assert_eq!(result.metrics.engine, "mother_tongue");
    assert_eq!(result.metrics.reused_semantics, 0);
    assert!(!has_errors(&result.diagnostics));
    assert!(validate_blueprint(b).is_empty());
}

#[test]
fn recompiling_with_previous_blueprint_keeps_codes() {
    let first = infer_chinese_blueprint(ENVIRONMENT, None).unwrap();
    let previous = first.blueprint.clone();
    let second = infer_chinese_blueprint(ENVIRONMENT, Some(&previous)).unwrap();
    assert_eq!(previous.structs, second.blueprint.structs);
    assert_eq!(previous.inference_decisions, second.blueprint.inference_decisions);
    assert!(second.metrics.reused_semantics > 0);
    assert!(detect_breaking_changes(&previous, &second.blueprint).is_empty());
}

#[test]
fn renamed_field_is_reencoded_and_reported() {
    let first = infer_chinese_blueprint(ENVIRONMENT, None).unwrap();
    let previous = first.blueprint.clone();
    let renamed = ENVIRONMENT.replace("温度", "室温");
    let second = infer_chinese_blueprint(&renamed, Some(&previous)).unwrap();
    assert_ne!(second.blueprint.structs[0].fields[0].descriptor.code, "temperature");
    let changes = detect_breaking_changes(&previous, &second.blueprint);
    assert!(changes.iter().any(|c| c.previous_code == "temperature"));
    assert_eq!(
        changes[0].impacts,
        vec![ImpactArea::Database, ImpactArea::Api, ImpactArea::Dictionary, ImpactArea::DeviceBinding]
    );
}

#[test]
fn user_domain_infers_full_application() {
    let result = MotherTongueInferenceEngine.infer(USERS, None).unwrap();
    let b = &result.blueprint;
    let app = &b.application;
    assert_eq!(app.domain.descriptor.native_name, "用户管理");
    assert_eq!(app.views.len(), 2);
    assert_eq!(app.views[0].layout, ViewLayout::Table);
    assert_eq!(app.views[1].layout, ViewLayout::Form);
    assert_eq!(app.navigation.section_label, "组织管理");
    assert_eq!(app.navigation.default_view, app.views[0].descriptor);
    assert_eq!(app.navigation.entries.len(), 2);
    assert_eq!(app.navigation.entries[0].order, 10);
    assert_eq!(app.navigation.entries[1].order, 20);
    assert!(app.interfaces.iter().all(|i| i.path.starts_with("/api/app/")));
    assert_eq!(app.operations.len(), 7);
    assert_eq!(app.operations[0].native_name_intent(), ("查询用户列表".to_string(), OperationIntent::List));
    assert_eq!(app.operations[5].intent, OperationIntent::Create);
    assert_eq!(app.operations[6].intent, OperationIntent::Authenticate);
    assert_eq!(app.interfaces[0].method, HttpMethod::Get);
    assert!(app.interfaces[6].path.ends_with("/authenticate"));
    assert_eq!(app.permissions.len(), 2);
    assert_eq!(app.permissions[0].rule, PermissionRule::OwnRecords);
    assert_eq!(app.permissions[0].descriptor.native_name, "用户");
    assert_eq!(app.permissions[1].rule, PermissionRule::AllRecords);
    assert_eq!(app.permissions[1].operations.len(), 7);
    assert_eq!(app.permissions[0].operations.len(), 5);
    let fields = &b.structs[0].fields;
    assert_eq!(fields.len(), 4);
    assert!(fields[0].required);
    assert!(!fields[2].required);
    assert!(result.diagnostics.iter().all(|d| d.level != DiagnosticLevel::Error));
}

trait OperationNames {
    fn native_name_intent(&self) -> (String, OperationIntent);
}

impl OperationNames for nature_compiler::DomainOperation {
    fn native_name_intent(&self) -> (String, OperationIntent) {
        (self.descriptor.native_name.clone(), self.intent)
    }
}

#[test]
fn refused_sources_name_their_reason() {
    assert_eq!(infer_chinese_blueprint("   \n ", None).unwrap_err(), InferenceError::EmptySource);
    assert_eq!(infer_chinese_blueprint("需求：用户", None).unwrap_err(), InferenceError::MissingModel);
    assert_eq!(infer_chinese_blueprint("建模：用户", None).unwrap_err(), InferenceError::MissingFields);
    assert_eq!(InferenceError::EmptySource.message(), "母语需求不能为空");
    assert_eq!(InferenceError::MissingFields.message(), "建模章节至少需要一个母语字段");
}

#[test]
fn untyped_field_defaults_to_text_with_warning() {
    let result = infer_chinese_blueprint("建模：订单\n1. 备注", None).unwrap();
    let b = &result.blueprint;
    assert_eq!(result.diagnostics.len(), 1);
    assert_eq!(result.diagnostics[0].level, DiagnosticLevel::Warning);
    assert_eq!(result.diagnostics[0].subject, "备注");
    assert_eq!(b.defaults.len(), 1);
    assert_eq!(b.defaults[0].value, "文本");
    assert_eq!(b.application.domain.descriptor.native_name, "订单领域");
    assert_eq!(b.application.views.len(), 3);
    assert!(b.bindings.is_empty());
    assert!(b.functions.is_empty());
}

#[test]
fn acquisition_without_capability_or_mapping_is_reported() {
    let result = infer_chinese_blueprint("建模：环境遥测\n1. 温度：小数\n数据获取：\n1. 从文件读取", None).unwrap();
    assert_eq!(result.diagnostics.len(), 2);
    assert_eq!(result.diagnostics[0].subject, "温度");
    assert_eq!(result.diagnostics[0].message, "没有找到字段对应的数据获取映射。");
    assert_eq!(result.diagnostics[1].subject, "数据获取");
    assert!(has_errors(&result.diagnostics));
}

#[test]
fn rejects_machine_protocol_markers_in_source() {
    let diagnostics = validate_source_contract("需求：用户\nkind: iot.modbus.register");
    assert!(has_errors(&diagnostics));
    assert!(diagnostics.iter().any(|d| d.message.contains("不能填写")));
    assert!(validate_source_contract("建模：用户\n1. 姓名：文本").is_empty());
}

#[test]
fn resolves_exactly_one_capability() {
    let fixture = ProviderProfile {
        native_name: FixtureMapProvider.descriptor().native_name,
        aliases: FixtureMapProvider.aliases().iter().map(|a| a.to_string()).collect(),
    };
    let second = ProviderProfile { native_name: "另一个模拟采集".to_string(), aliases: vec!["模拟采集".to_string()] };
    assert_eq!(resolve_provider(&vec![fixture.clone()], "模拟采集", "模拟采集提供温度原值"), Ok(0));
    let ambiguous = resolve_provider(&vec![fixture.clone(), second], "模拟采集", "模拟采集提供温度原值").unwrap_err();
    assert!(ambiguous.message.contains("多个"));
    let missing = resolve_provider(&vec![fixture], "文件导入", "从文件读取").unwrap_err();
    assert_eq!(missing.message, "没有已注册能力可以解释这段数据获取语义。");
}

#[test]
fn fixture_provider_validates_and_lowers() {
    let result = infer_chinese_blueprint(ENVIRONMENT, None).unwrap();
    let mut blueprint = result.blueprint;
    assert!(FixtureMapProvider.validate(&blueprint).is_empty());
    let before = blueprint.defaults.len();
    FixtureMapProvider.lower(&mut blueprint);
    assert_eq!(blueprint.defaults.len(), before + 1);
    assert_eq!(blueprint.defaults[before].value, "严格键匹配");
    blueprint.bindings.clear();
    assert_eq!(FixtureMapProvider.validate(&blueprint)[0].message, "模拟采集至少需要一个字段绑定。");
    assert_eq!(FixtureMapProvider.descriptor().code, "fixture_map");
}

#[test]
fn session_runs_every_stage_in_order_without_errors() {
    let mut session = CompileSession::new();
    assert_eq!(session.next_action(), CompileAction::CheckSource);
    session.record_source_check(validate_source_contract(ENVIRONMENT), 1);
    assert_eq!(session.next_action(), CompileAction::Infer);
    let inference = infer_chinese_blueprint(ENVIRONMENT, None).unwrap();
    session.record_inference(inference, 2);
    assert_eq!(session.next_action(), CompileAction::ResolveCapabilities);
    let mut blueprint = session.blueprint().unwrap().clone();
    FixtureMapProvider.lower(&mut blueprint);
    session.record_capabilities(blueprint, Vec::new(), 3);
    assert_eq!(session.next_action(), CompileAction::CheckPolicy);
    let (diagnostics, changes) = policy_findings(session.blueprint().unwrap(), None);
    session.record_policy(diagnostics, changes, 4);
    assert_eq!(session.next_action(), CompileAction::Generate);
    let artifacts = nature_compiler::ArtifactSet::new(Vec::new());
    session.record_generation(artifacts, 5);
    assert_eq!(session.next_action(), CompileAction::Finish);
    let result = session.finish();
    let stages: Vec<CompileStage> = result.trace.stages.iter().map(|o| o.stage).collect();
    assert_eq!(
        stages,
        vec![
            CompileStage::SourceContract,
            CompileStage::Inference,
            CompileStage::CapabilityResolution,
            CompileStage::BlueprintPolicy,
            CompileStage::RustGeneration,
        ]
    );
    assert!(result.artifacts.is_some());
    assert_eq!(result.trace.inference.engine, "mother_tongue");
    assert_eq!(result.trace.stages[2].duration_ms, 3);
}

#[test]
fn session_stops_after_a_failed_source_check() {
    let mut session = CompileSession::new();
    session.record_source_check(validate_source_contract("需求：用户\nkind: iot.modbus.register"), 0);
    assert_eq!(session.next_action(), CompileAction::Finish);
    let result = session.finish();
    assert!(result.blueprint.is_none());
    assert!(result.artifacts.is_none());
    assert_eq!(result.trace.stages.len(), 1);
    assert_eq!(result.trace.stages[0].status, CompileStageStatus::Failed);
}

#[test]
fn stage_traces_and_breaking_changes_are_recorded() {
    let mut trace = CompileTrace::default();
    trace_stage(&mut trace, CompileStage::Inference, 7, false);
    assert_eq!(trace.stages.len(), 1);
    assert_eq!(trace.stages[0].status, CompileStageStatus::Failed);
    assert_eq!(trace.stages[0].duration_ms, 7);
    assert_eq!(trace.inference.engine, "unresolved");

    let mut changes = Vec::new();
    compare_descriptor("温度", "temperature", "温度", "temperature", &mut changes);
    assert!(changes.is_empty());
    compare_descriptor("温度", "temperature", "室温", "room_temperature", &mut changes);
    assert_eq!(changes.len(), 1);
    assert_eq!(changes[0].subject, "温度 → 室温");
    assert_eq!(changes[0].current_code, "room_temperature");
    assert_eq!(changes[0].message, "母语名称变化导致代码身份重算，所有内部引用必须同步迁移。");
    assert!(has_errors(&[Diagnostic::error("a", "b")]));
    assert!(!has_errors(&[Diagnostic::warning("a", "b"), Diagnostic::notice("c", "d")]));
}

/// The profile under which the fixture capability is registered.
fn fixture_profile() -> ProviderProfile {
    ProviderProfile {
        native_name: FixtureMapProvider.descriptor().native_name,
        aliases: FixtureMapProvider.aliases().iter().map(|alias| alias.to_string()).collect(),
    }
}

/// A generation that writes each plan in its debug form, so that two
/// generations of equal blueprints can be compared.
fn generate_plans(blueprint: &Blueprint) -> ArtifactSet {
    RustBackend.assemble(
        format!("{:?}", blueprint),
        format!("{:?}", blueprint.application),
        GeneratedSources {
            descriptors: format!("{:?}", plan_descriptors(blueprint).unwrap()),
            structs: format!("{:?}", plan_structs(blueprint).unwrap()),
            enums: format!("{:?}", plan_enums(blueprint).unwrap()),
            validators: format!("{:?}", plan_validators(blueprint).unwrap()),
            bindings: format!("{:?}", plan_bindings(blueprint).unwrap()),
            functions: format!("{:?}", plan_functions(blueprint).unwrap()),
            tests: format!("{:?}", plan_tests(blueprint).unwrap()),
        },
    )
}

/// Runs a compilation session to its end, with the fixture capability behind
/// every profile that resolves.
fn compile_source(source: &str, previous: Option<&Blueprint>, profiles: &Vec<ProviderProfile>) -> CompileResult {
    let mut session = CompileSession::new();
    loop {
        match session.next_action() {
            CompileAction::CheckSource => session.record_source_check(validate_source_contract(source), 0),
            CompileAction::Infer => {
                let inference = MotherTongueInferenceEngine.infer(source, previous).unwrap();
                session.record_inference(inference, 0);
            }
            CompileAction::ResolveCapabilities => {
                let mut blueprint = session.blueprint().unwrap().clone();
                let mut diagnostics = Vec::new();
                for requirement in blueprint.capabilities.clone() {
                    match resolve_provider(profiles, &requirement.descriptor.native_name, &requirement.source_phrase) {
                        Ok(_) => {
                            diagnostics.extend(FixtureMapProvider.validate(&blueprint));
                            FixtureMapProvider.lower(&mut blueprint);
                        }
                        Err(diagnostic) => diagnostics.push(diagnostic),
                    }
                }
                session.record_capabilities(blueprint, diagnostics, 0);
            }
            CompileAction::CheckPolicy => {
                let (diagnostics, changes) = policy_findings(session.blueprint().unwrap(), previous);
                session.record_policy(diagnostics, changes, 0);
            }
            CompileAction::Generate => {
                let artifacts = generate_plans(session.blueprint().unwrap());
                session.record_generation(artifacts, 0);
            }
            CompileAction::Finish => return session.finish(),
        }
    }
}

#[test]
fn compiles_mother_tongue_environment_model() {
    let result = compile_source(ENVIRONMENT, None, &vec![fixture_profile()]);
    assert!(result.artifacts.is_some(), "诊断: {:?}", result.diagnostics);
    let blueprint = result.blueprint.as_ref().unwrap();
    assert_eq!(blueprint.structs[0].descriptor.code, "environment_telemetry");
    assert_eq!(blueprint.structs[0].fields[0].descriptor.code, "temperature");
    assert_eq!(blueprint.bindings[0].source.code, "temp_x10");
    assert_eq!(blueprint.bindings[1].source.code, "humidity_x10");
    assert_eq!(
        result.trace.stages.iter().map(|observation| observation.stage).collect::<Vec<_>>(),
        [
            CompileStage::SourceContract,
            CompileStage::Inference,
            CompileStage::CapabilityResolution,
            CompileStage::BlueprintPolicy,
            CompileStage::RustGeneration,
        ]
    );
    assert_eq!(result.trace.inference.mode, InferenceMode::Deterministic);
    // The generated sources here are the plans' debug text, so the digest has
    // no fixed expected value: the artifact set is checked by its shape, ten
    // files and a 64-digit lowercase hexadecimal digest.
    let artifacts = result.artifacts.as_ref().unwrap();
    assert_eq!(artifacts.files.len(), 10);
    assert_eq!(artifacts.hash.len(), 64);
    assert!(artifacts.hash.chars().all(|c| c.is_ascii_digit() || ('a'..='f').contains(&c)));
}

#[test]
fn stable_semantics_reuse_previous_inference() {
    let profiles = vec![fixture_profile()];
    let first = compile_source(ENVIRONMENT, None, &profiles);
    let previous = first.blueprint.as_ref().unwrap().clone();
    let second = compile_source(ENVIRONMENT, Some(&previous), &profiles);
    let current = second.blueprint.as_ref().unwrap();
    assert_eq!(previous.structs, current.structs);
    assert_eq!(previous.inference_decisions, current.inference_decisions);
    assert!(second.trace.inference.reused_semantics > 0);
    assert_eq!(first.artifacts, second.artifacts);
}

#[test]
fn rename_reencodes_and_reports_external_impacts() {
    let profiles = vec![fixture_profile()];
    let first = compile_source(ENVIRONMENT, None, &profiles);
    let previous = first.blueprint.as_ref().unwrap().clone();
    let renamed_source = ENVIRONMENT.replace("温度", "室温");
    let second = compile_source(&renamed_source, Some(&previous), &profiles);
    let current = second.blueprint.as_ref().unwrap();
    assert_ne!(current.structs[0].fields[0].descriptor.code, "temperature");
    assert!(second.breaking_changes.iter().any(|change| change.previous_code == "temperature"));
}

#[test]
fn rejects_machine_protocol_in_product_source() {
    let result = compile_source("需求：用户\nkind: iot.modbus.register", None, &vec![fixture_profile()]);
    assert!(result.artifacts.is_none());
    assert!(result.diagnostics.iter().any(|item| item.message.contains("不能填写")));
}

#[test]
fn capability_ambiguity_fails_before_generation() {
    let second = ProviderProfile { native_name: "第二模拟采集".to_string(), aliases: vec!["模拟采集".to_string()] };
    let result = compile_source(ENVIRONMENT, None, &vec![fixture_profile(), second]);
    assert!(result.artifacts.is_none());
    assert!(result.diagnostics.iter().any(|item| item.message.contains("多个")));
}

#[test]
fn compiles_full_stack_user_domain_without_machine_protocol() {
    let result = compile_source(USERS, None, &vec![fixture_profile()]);
    let blueprint = result.blueprint.as_ref().unwrap();
    assert!(result.artifacts.is_some(), "诊断: {:?}", result.diagnostics);
    assert_eq!(blueprint.application.domain.descriptor.native_name, "用户管理");
    assert_eq!(blueprint.application.views.len(), 2);
    assert_eq!(blueprint.application.views[0].layout, ViewLayout::Table);
    assert_eq!(blueprint.application.navigation.section_label, "组织管理");
    assert!(blueprint.application.interfaces.iter().all(|interface| interface.path.starts_with("/api/app/")));
}
