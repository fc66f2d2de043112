use latale_tools::ldt::types::is_true_lower_text;
use latale_tools::ldt::{FieldType, FieldValue, LdtHeader, HEADER_SIZE};

fn per_text(bits: u32) -> String {
    f32::from_bits(bits).to_string()
}

fn per_bits(text: &str) -> u32 {
    text.parse::<f32>().map(f32::to_bits).unwrap_or(0)
}

#[test]
fn test_field_type_from_i32() {
    assert_eq!(FieldType::from_i32(0), FieldType::NA);
    assert_eq!(FieldType::from_i32(1), FieldType::String);
    assert_eq!(FieldType::from_i32(2), FieldType::TF);
    assert_eq!(FieldType::from_i32(3), FieldType::Num);
    assert_eq!(FieldType::from_i32(4), FieldType::Per);
    assert_eq!(FieldType::from_i32(5), FieldType::FID);
    assert_eq!(FieldType::from_i32(6), FieldType::Alias);
    assert_eq!(FieldType::from_i32(7), FieldType::Num64);
    assert_eq!(FieldType::from_i32(-1), FieldType::NA);
    assert_eq!(FieldType::from_i32(100), FieldType::NA);
}

#[test]
fn test_field_type_csv_type_name() {
    assert_eq!(FieldType::NA.csv_type_name(), "na");
    assert_eq!(FieldType::String.csv_type_name(), "string");
    assert_eq!(FieldType::TF.csv_type_name(), "bool");
    assert_eq!(FieldType::Num.csv_type_name(), "int32");
    assert_eq!(FieldType::Per.csv_type_name(), "float32");
    assert_eq!(FieldType::FID.csv_type_name(), "fid");
    assert_eq!(FieldType::Alias.csv_type_name(), "alias");
    assert_eq!(FieldType::Num64.csv_type_name(), "int64");
}

#[test]
fn test_field_type_from_csv_type_name() {
    assert_eq!(FieldType::from_csv_type_name("na"), Some(FieldType::NA));
    assert_eq!(FieldType::from_csv_type_name("STRING"), Some(FieldType::String));
    assert_eq!(FieldType::from_csv_type_name("Bool"), Some(FieldType::TF));
    assert_eq!(FieldType::from_csv_type_name("invalid"), None);
}

#[test]
fn test_field_type_is_variable_length() {
    assert!(!FieldType::NA.is_variable_length());
    assert!(FieldType::String.is_variable_length());
    assert!(!FieldType::TF.is_variable_length());
    assert!(!FieldType::Num.is_variable_length());
    assert!(!FieldType::Per.is_variable_length());
    assert!(FieldType::FID.is_variable_length());
    assert!(FieldType::Alias.is_variable_length());
    assert!(!FieldType::Num64.is_variable_length());
}

#[test]
fn test_field_value_field_type() {
    assert_eq!(FieldValue::NA.field_type(), FieldType::NA);
    assert_eq!(FieldValue::String("test".into()).field_type(), FieldType::String);
    assert_eq!(FieldValue::TF(true).field_type(), FieldType::TF);
    assert_eq!(FieldValue::Num(42).field_type(), FieldType::Num);
    assert_eq!(FieldValue::Per(3.14f32.to_bits()).field_type(), FieldType::Per);
    assert_eq!(FieldValue::FID(1, 100).field_type(), FieldType::FID);
    assert_eq!(FieldValue::Alias("alias".into()).field_type(), FieldType::Alias);
    assert_eq!(FieldValue::Num64(9999999999).field_type(), FieldType::Num64);
}

#[test]
fn test_field_value_to_csv_string() {
    assert_eq!(FieldValue::NA.to_csv_string(per_text), "");
    assert_eq!(FieldValue::String("hello".into()).to_csv_string(per_text), "hello");
    assert_eq!(FieldValue::TF(true).to_csv_string(per_text), "true");
    assert_eq!(FieldValue::TF(false).to_csv_string(per_text), "false");
    assert_eq!(FieldValue::Num(42).to_csv_string(per_text), "42");
    assert_eq!(FieldValue::FID(1, 100).to_csv_string(per_text), "1,100");
    assert_eq!(FieldValue::Num64(9999999999).to_csv_string(per_text), "9999999999");
}

#[test]
fn test_field_value_from_csv_string() {
    assert_eq!(FieldValue::from_csv_string("", FieldType::NA, per_bits), FieldValue::NA);
    assert_eq!(
        FieldValue::from_csv_string("test", FieldType::String, per_bits),
        FieldValue::String("test".into())
    );
    assert_eq!(FieldValue::from_csv_string("true", FieldType::TF, per_bits), FieldValue::TF(true));
    assert_eq!(
        FieldValue::from_csv_string("false", FieldType::TF, per_bits),
        FieldValue::TF(false)
    );
    assert_eq!(FieldValue::from_csv_string("42", FieldType::Num, per_bits), FieldValue::Num(42));
    assert_eq!(
        FieldValue::from_csv_string("3.14", FieldType::Per, per_bits),
        FieldValue::Per(3.14f32.to_bits())
    );
    assert_eq!(
        FieldValue::from_csv_string("1,100", FieldType::FID, per_bits),
        FieldValue::FID(1, 100)
    );
    assert_eq!(
        FieldValue::from_csv_string("alias_val", FieldType::Alias, per_bits),
        FieldValue::Alias("alias_val".into())
    );
    assert_eq!(
        FieldValue::from_csv_string("9999999999", FieldType::Num64, per_bits),
        FieldValue::Num64(9999999999)
    );
}

#[test]
fn test_ldt_header_size() {
    assert_eq!(std::mem::size_of::<LdtHeader>(), HEADER_SIZE);
}

#[test]
fn field_type_codes_round_trip() {
    for code in 0..8 {
        assert_eq!(FieldType::from_i32(code).to_i32(), code);
    }
}

#[test]
fn csv_type_names_round_trip() {
    for code in 0..8 {
        let t = FieldType::from_i32(code);
        assert_eq!(FieldType::from_csv_type_name(t.csv_type_name()), Some(t));
    }
}

#[test]
fn per_value_text_comes_from_the_float() {
    assert_eq!(FieldValue::Per(1.5f32.to_bits()).to_csv_string(per_text), "1.5");
    assert_eq!(FieldValue::Alias("a b".into()).to_csv_string(per_text), "a b");
}

#[test]
fn empty_csv_text_gives_empty_values() {
    assert_eq!(FieldValue::from_csv_string("", FieldType::String, per_bits), FieldValue::NA);
    assert_eq!(FieldValue::from_csv_string("", FieldType::Alias, per_bits), FieldValue::Alias(String::new()));
    assert_eq!(FieldValue::from_csv_string("", FieldType::TF, per_bits), FieldValue::TF(false));
    assert_eq!(FieldValue::from_csv_string("", FieldType::Num, per_bits), FieldValue::Num(0));
    assert_eq!(FieldValue::from_csv_string("", FieldType::Per, per_bits), FieldValue::Per(0));
    assert_eq!(FieldValue::from_csv_string("", FieldType::FID, per_bits), FieldValue::FID(0, 0));
    assert_eq!(FieldValue::from_csv_string("", FieldType::Num64, per_bits), FieldValue::Num64(0));
}

#[test]
fn csv_text_edge_cases() {
    assert_eq!(FieldValue::from_csv_string("YES", FieldType::TF, per_bits), FieldValue::TF(true));
    assert_eq!(FieldValue::from_csv_string("1", FieldType::TF, per_bits), FieldValue::TF(true));
    assert_eq!(FieldValue::from_csv_string("no", FieldType::TF, per_bits), FieldValue::TF(false));
    assert_eq!(FieldValue::from_csv_string("x", FieldType::Num, per_bits), FieldValue::Num(0));
    assert_eq!(FieldValue::from_csv_string("1,2,3", FieldType::FID, per_bits), FieldValue::FID(0, 0));
    assert_eq!(FieldValue::from_csv_string("7,x", FieldType::FID, per_bits), FieldValue::FID(7, 0));
    assert_eq!(FieldValue::from_csv_string("abc", FieldType::NA, per_bits), FieldValue::NA);
}

#[test]
fn csv_text_reads_back_as_the_value() {
    let values = vec![
        FieldValue::NA,
        FieldValue::String("a,b".into()),
        FieldValue::Num(i32::MIN),
        FieldValue::Num(-5),
        FieldValue::Num64(i64::MAX),
        FieldValue::FID(-3, 9_000_000_001),
        FieldValue::Alias(String::new()),
    ];
    for v in values {
        let text = v.to_csv_string(per_text);
        assert_eq!(FieldValue::from_csv_string(&text, v.field_type(), per_bits), v);
    }
    assert_eq!(FieldValue::from_csv_string("", FieldType::String, per_bits), FieldValue::NA);
}

#[test]
fn type_names_and_flags_in_any_case() {
    assert_eq!(FieldType::from_csv_type_name("INT32"), Some(FieldType::Num));
    assert_eq!(FieldType::from_csv_type_name("Float32"), Some(FieldType::Per));
    assert_eq!(FieldType::from_lower_csv_type_name("int64"), Some(FieldType::Num64));
    assert_eq!(FieldType::from_lower_csv_type_name("INT64"), None);
    assert_eq!(FieldType::from_lower_csv_type_name("text"), None);
    assert!(is_true_lower_text("yes"));
    assert!(is_true_lower_text("1"));
    assert!(!is_true_lower_text("YES"));
    assert!(!is_true_lower_text("no"));
    let never = |_: &str| 0u32;
    assert_eq!(FieldValue::from_csv_string("TRUE", FieldType::TF, never), FieldValue::TF(true));
    assert_eq!(FieldValue::from_csv_string("Yes", FieldType::TF, never), FieldValue::TF(true));
    assert_eq!(FieldValue::from_csv_string("y", FieldType::TF, never), FieldValue::TF(false));
}
