use nature_compiler::digest::sha256_hex8;
use nature_compiler::inference::factory::{translate_semantic_name, DescriptorFactory};
use nature_compiler::{normalize_inferred_stem, DescriptorEncoder};
use nature_compiler::inference::fields::{extract_numbers, number_after, parse_field};
use nature_compiler::inference::outline::{scan_source, section_title, strip_list_marker};
use nature_compiler::{FieldType, ValidationRule};

#[test]
fn extracts_negative_decimal_range() {
    let numbers: Vec<f64> = extract_numbers("范围 -40 到 125")
        .iter()
        .map(|n| n.parse::<f64>().unwrap())
        .collect();
    assert_eq!(numbers, vec![-40.0, 125.0]);
}

#[test]
fn collision_adds_stable_short_hash() {
    let mut factory = DescriptorFactory::new(None);
    let first = factory.describe("甲", Some("same"));
    let second = factory.describe("乙", Some("same"));

    assert_eq!(first.code, "same");
    assert!(second.code.starts_with("same_"));
    assert_eq!(second.code.len(), 13);
}

#[test]
fn list_marker_is_removed_without_touching_content() {
    assert_eq!(strip_list_marker("12. 温度：小数"), "温度：小数");
}

#[test]
fn list_marker_with_enumeration_comma_is_removed() {
    assert_eq!(strip_list_marker("  3、湿度：百分比 "), "湿度：百分比");
    assert_eq!(strip_list_marker("温度"), "温度");
}

#[test]
fn section_title_takes_value_after_either_colon() {
    assert_eq!(section_title("建模：环境遥测", "建模"), Some("环境遥测"));
    assert_eq!(section_title("建模: 用户 ", "建模"), Some("用户"));
    assert_eq!(section_title("数据获取：", "数据获取"), Some(""));
    assert_eq!(section_title("1. 温度", "建模"), None);
}

#[test]
fn numbers_skip_text_and_keep_decimals() {
    assert_eq!(extract_numbers("温度原值除以10"), vec!["10".to_string()]);
    assert_eq!(extract_numbers("范围 0.5 到 99.9"), vec!["0.5".to_string(), "99.9".to_string()]);
    assert!(extract_numbers("没有数字").is_empty());
    assert_eq!(number_after("温度等于温度原值除以10", "除以"), Some("10".to_string()));
    assert_eq!(number_after("温度等于温度原值", "除以"), None);
}

#[test]
fn parses_decimal_field_with_unit_and_range() {
    let field = parse_field("温度：小数，摄氏度，范围 -40 到 125");
    assert_eq!(field.native_name, "温度");
    assert_eq!(field.field_type, FieldType::Decimal);
    assert_eq!(field.unit, Some("摄氏度".to_string()));
    assert_eq!(field.range, Some(("-40".to_string(), "125".to_string())));
    assert!(!field.required);
    assert!(!field.type_was_defaulted);
}

#[test]
fn parses_required_unique_text_and_defaulted_type() {
    let field = parse_field("用户名：文本，必填，唯一");
    assert_eq!(field.field_type, FieldType::String);
    assert!(field.required);
    assert!(field.unique);
    assert!(!field.type_was_defaulted);

    let bare = parse_field("备注");
    assert_eq!(bare.native_name, "备注");
    assert_eq!(bare.field_type, FieldType::String);
    assert!(bare.type_was_defaulted);

    let mail = parse_field("邮箱：文本，邮箱格式");
    assert_eq!(mail.field_type, FieldType::Email);
    assert!(mail.email);
    let _ = ValidationRule::Email;
}

#[test]
fn outline_sorts_lines_into_sections() {
    let outline = scan_source("领域：用户管理\n需求：\n1. 用户可以注册\n建模：用户\n1. 用户名：文本\n\n数据获取：\n1. 模拟采集\n界面：用户列表\n1. 表格\n导航：\n1. 默认\n权限：\n1. 管理员可以管理全部用户");
    assert_eq!(outline.domain_name, Some("用户管理".to_string()));
    assert_eq!(outline.model_name, Some("用户".to_string()));
    assert_eq!(outline.requirements, vec!["用户可以注册".to_string()]);
    assert_eq!(outline.field_lines, vec!["用户名：文本".to_string()]);
    assert_eq!(outline.acquisition_lines, vec!["模拟采集".to_string()]);
    assert_eq!(outline.views.len(), 1);
    assert_eq!(outline.views[0].native_name, "用户列表");
    assert_eq!(outline.views[0].lines, vec!["表格".to_string()]);
    assert_eq!(outline.navigation_lines, vec!["默认".to_string()]);
    assert_eq!(outline.permission_lines, vec!["管理员可以管理全部用户".to_string()]);
}

#[test]
fn semantic_names_translate_or_transliterate() {
    assert_eq!(translate_semantic_name("温度"), "temperature");
    assert_eq!(translate_semantic_name("模拟采集"), "fixture_map");
    assert_eq!(translate_semantic_name("订单"), "ding_dan");
    assert_eq!(translate_semantic_name("室温"), "shi_wen");
}

#[test]
fn inferred_stems_are_snake_case_identifiers() {
    assert_eq!(normalize_inferred_stem("Ding Dan ", "订单"), "ding_dan");
    assert_eq!(normalize_inferred_stem("3D Model", "三维模型"), "n_3d_model");
    assert_eq!(
        normalize_inferred_stem("!!", "甲"),
        format!("semantic_{}", sha256_hex8("甲".as_bytes()))
    );
}

#[test]
fn encoder_keeps_a_name_on_its_code() {
    let mut encoder = DescriptorEncoder::new();
    let first = encoder.describe("温度", "temperature");
    let again = encoder.describe("温度", "temperature");
    let other = encoder.describe("室温", "temperature");
    assert_eq!(first.code, "temperature");
    assert_eq!(again.code, "temperature");
    assert!(other.code.starts_with("temperature_"));
    assert_eq!(other.code.len(), "temperature_".len() + 8);
    let suffix = &other.code["temperature_".len()..];
    assert!(suffix.chars().all(|c| c.is_ascii_digit() || ('a'..='f').contains(&c)));
    assert_eq!(suffix, sha256_hex8("室温".as_bytes()));
}
