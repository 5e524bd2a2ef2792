use nature_compiler::artifact::ArtifactFile as File;
use nature_compiler::digest::{sha256_hex, sha256_hex8};
use nature_compiler::inference::engine::infer_chinese_blueprint;
use nature_compiler::rust_backend::bindings::{plan_bindings, ReadKind};
use nature_compiler::rust_backend::model::{
    plan_descriptors, plan_enums, plan_functions, plan_structs, plan_validators, ValidationCheck,
};
use nature_compiler::rust_backend::tests::{plan_tests, FixtureAssertion, FixtureRaw, TestValue, TestsPlan};
use nature_compiler::rust_backend::{
    render_lib, type_ident, value_ident, BackendError, GeneratedSources,
};
use nature_compiler::{ArtifactSet, FieldType, RustBackend};

const ENVIRONMENT: &str = "建模：环境遥测\n1. 温度：小数，摄氏度，范围 -40 到 125\n2. 湿度：百分比\n数据获取：\n1. 模拟采集提供温度原值和湿度原值\n2. 温度等于温度原值除以10\n3. 湿度等于湿度原值\n";

fn file(path: &str, source: &str) -> File {
    File { relative_path: path.to_string(), source: source.to_string() }
}

#[test]
fn digests_are_lowercase_sha256() {
    assert_eq!(sha256_hex(b""), "e3b0c44298fc1c149afbf4c8996fb92427ae41e4649b934ca495991b7852b855");
    assert_eq!(sha256_hex(b"abc"), "ba7816bf8f01cfea414140de5dae2223b00361a396177a9cb410ff61f20015ad");
    assert_eq!(sha256_hex8(b"abc"), "ba7816bf");
}

#[test]
fn artifact_set_sorts_files_and_digests_them() {
    let set = ArtifactSet::new(vec![file("src/lib.rs", "b"), file("Cargo.toml", "a")]);
    assert_eq!(set.files[0].relative_path, "Cargo.toml");
    assert_eq!(set.files[1].relative_path, "src/lib.rs");
    assert_eq!(set.hash, sha256_hex(b"Cargo.toml\0a\0src/lib.rs\0b\0"));
    assert_eq!(set.file("src/lib.rs").map(|f| f.source.as_str()), Some("b"));
    assert!(set.file("missing.rs").is_none());
    let reversed = ArtifactSet::new(vec![file("Cargo.toml", "a"), file("src/lib.rs", "b")]);
    assert_eq!(set, reversed);
}

#[test]
fn identifiers_follow_rust_case_rules() {
    assert_eq!(type_ident("environment_telemetry").unwrap(), "EnvironmentTelemetry");
    assert_eq!(type_ident("process_telemetry_function").unwrap(), "ProcessTelemetryFunction");
    assert_eq!(value_ident("temperature").unwrap(), "temperature");
    assert_eq!(value_ident("decode_environment_telemetry").unwrap(), "decode_environment_telemetry");
    assert_eq!(value_ident("type"), Err(BackendError::ValueIdent { code: "type".to_string() }));
    assert_eq!(
        value_ident("type").unwrap_err().message(),
        "无法把 type 生成为 Rust 值标识符"
    );
    assert!(type_ident("").is_err());
}

#[test]
fn crate_root_declares_the_generated_modules() {
    let lib = render_lib();
    assert!(lib.starts_with("#![forbid(unsafe_code)]\n"));
    assert!(lib.contains("pub mod validators;\n"));
}

#[test]
fn model_plans_follow_the_blueprint() {
    let b = infer_chinese_blueprint(ENVIRONMENT, None).unwrap().blueprint;
    let structs = plan_structs(&b).unwrap();
    assert_eq!(structs.len(), 1);
    assert_eq!(structs[0].ident, "EnvironmentTelemetry");
    assert_eq!(structs[0].fields[0].ident, "temperature");
    assert_eq!(structs[0].fields[0].field_type, FieldType::Decimal);

    let descriptors = plan_descriptors(&b).unwrap();
    assert_eq!(descriptors.len(), 2);
    assert_eq!(descriptors[0].ident, "EnvironmentTelemetryTemperatureField");
    assert_eq!(descriptors[0].unit, Some("摄氏度".to_string()));

    assert!(plan_enums(&b).unwrap().is_empty());

    let validators = plan_validators(&b).unwrap();
    assert_eq!(validators[0].function_ident, "validate_environment_telemetry");
    assert_eq!(
        validators[0].checks,
        vec![ValidationCheck::Range {
            field: "temperature".to_string(),
            label: "温度".to_string(),
            minimum: "-40".to_string(),
            maximum: "125".to_string(),
        }]
    );

    let functions = plan_functions(&b).unwrap();
    assert_eq!(functions[0].function_ident, "process_telemetry");
    assert_eq!(functions[0].descriptor_ident, "ProcessTelemetryFunction");
    assert_eq!(functions[0].decoder_ident, "decode_environment_telemetry");
}

#[test]
fn binding_plans_read_and_divide_raw_values() {
    let b = infer_chinese_blueprint(ENVIRONMENT, None).unwrap().blueprint;
    let decoders = plan_bindings(&b).unwrap();
    assert_eq!(decoders.len(), 1);
    assert_eq!(decoders[0].decoder_ident, "decode_environment_telemetry");
    let a = &decoders[0].assignments;
    assert_eq!(a[0].read, ReadKind::Decimal);
    assert_eq!(a[0].source_code, "temp_x10");
    assert_eq!(a[0].divisor, Some("10".to_string()));
    assert_eq!(a[1].source_code, "humidity_raw");
    assert_eq!(a[1].divisor, None);

    let mut broken = b.clone();
    broken.bindings.pop();
    assert_eq!(
        plan_bindings(&broken),
        Err(BackendError::MissingBinding { field: "湿度".to_string() })
    );
}

#[test]
fn test_plans_cover_fixture_and_range() {
    let b = infer_chinese_blueprint(ENVIRONMENT, None).unwrap().blueprint;
    match plan_tests(&b).unwrap() {
        TestsPlan::Fixture(f) => {
            assert_eq!(f.first_key, "temp_x10");
            assert_eq!(
                f.inserts[0].raw,
                FixtureRaw::Decimal { base: "25.3".to_string(), divisor: Some("10".to_string()) }
            );
            assert_eq!(f.checks[1].assertion, FixtureAssertion::Decimal { expected: "61.2".to_string() });
            assert_eq!(
                f.descriptor_check,
                Some(("EnvironmentTelemetryTemperatureField".to_string(), "temperature".to_string()))
            );
            let range = f.range_test.unwrap();
            assert_eq!(range.source_code, "temp_x10");
            assert_eq!(range.maximum, "125");
            assert_eq!(range.inserts.len(), 2);
        },
        TestsPlan::Model(_) => panic!("bound fields need fixture tests"),
    }
    let plain = infer_chinese_blueprint("建模：用户\n1. 姓名：文本，必填", None).unwrap().blueprint;
    match plan_tests(&plain).unwrap() {
        TestsPlan::Model(m) => {
            assert_eq!(m.type_ident, "User");
            assert_eq!(m.validator_ident, "validate_user");
            assert_eq!(m.assignments, vec![("name".to_string(), TestValue::Text)]);
        },
        TestsPlan::Fixture(_) => panic!("unbound fields need a model test"),
    }
    let mut empty = plain.clone();
    empty.structs.clear();
    assert_eq!(plan_tests(&empty), Err(BackendError::NoStructure));
}

#[test]
fn assembled_artifacts_have_the_fixed_layout() {
    let sources = GeneratedSources {
        descriptors: "d".to_string(),
        structs: "s".to_string(),
        enums: "e".to_string(),
        validators: "v".to_string(),
        bindings: "b".to_string(),
        functions: "f".to_string(),
        tests: "t".to_string(),
    };
    let set = RustBackend.assemble("{}".to_string(), "[]".to_string(), sources);
    let paths: Vec<&str> = set.files.iter().map(|f| f.relative_path.as_str()).collect();
    assert_eq!(
        paths,
        vec![
            "application.json",
            "blueprint.json",
            "src/bindings.rs",
            "src/descriptors.rs",
            "src/enums.rs",
            "src/functions.rs",
            "src/lib.rs",
            "src/structs.rs",
            "src/validators.rs",
            "tests/generated.rs",
        ]
    );
    assert_eq!(set.file("tests/generated.rs").unwrap().source, "t");
    assert_eq!(set.hash.len(), 64);
}
