use convert_buddy::transform::{
    CoerceSpec, FieldMapInput, TimestampFormat, TransformConfigInput, TransformEngine,
    TransformMode, TransformPlan,
};
use convert_buddy::{ConvertError, JsonParser, NdjsonParser};

fn one_field(coerce: Option<CoerceSpec>, origin: &str) -> TransformConfigInput {
    TransformConfigInput {
        mode: TransformMode::Replace,
        fields: vec![FieldMapInput {
            target_field_name: "out".to_string(),
            origin_field_name: Some(origin.to_string()),
            required: None,
            default_value: None,
            coerce,
            compute: None,
        }],
        on_missing_field: None,
        on_missing_required: None,
        on_coerce_error: None,
    }
}

#[test]
fn coerce_i64_from_string() {
    let plan = TransformPlan::compile(one_field(Some(CoerceSpec::I64), "v")).unwrap();
    let mut engine = TransformEngine::new(plan);
    let res = engine.push(b"{\"v\":\"42\"}\n").unwrap();
    assert_eq!(String::from_utf8_lossy(&res.output), "{\"out\":42}\n");
    assert_eq!(res.records, 1);
}

#[test]
fn coerce_bool_from_string() {
    let plan = TransformPlan::compile(one_field(Some(CoerceSpec::Bool), "v")).unwrap();
    let mut engine = TransformEngine::new(plan);
    let res = engine.push(b"{\"v\":\"TRUE\"}\n").unwrap();
    assert_eq!(String::from_utf8_lossy(&res.output), "{\"out\":true}\n");
}

#[test]
fn coerce_timestamp_iso8601() {
    let plan = TransformPlan::compile(one_field(
        Some(CoerceSpec::TimestampMs { format: Some(TimestampFormat::Iso8601) }),
        "t",
    ))
    .unwrap();
    let mut engine = TransformEngine::new(plan);
    let res = engine.push(b"{\"t\":\"1970-01-01T00:00:01Z\"}\n").unwrap();
    assert_eq!(String::from_utf8_lossy(&res.output), "{\"out\":1000}\n");
}

#[test]
fn coerce_timestamp_unix_s() {
    let plan = TransformPlan::compile(one_field(
        Some(CoerceSpec::TimestampMs { format: Some(TimestampFormat::UnixS) }),
        "t",
    ))
    .unwrap();
    let mut engine = TransformEngine::new(plan);
    let res = engine.push(b"{\"t\":7}\n").unwrap();
    assert_eq!(String::from_utf8_lossy(&res.output), "{\"out\":7000}\n");
}

#[test]
fn compute_lower_uses_real_lowercasing() {
    let input = TransformConfigInput {
        mode: TransformMode::Replace,
        fields: vec![FieldMapInput {
            target_field_name: "l".to_string(),
            origin_field_name: None,
            required: None,
            default_value: None,
            coerce: None,
            compute: Some("lower(s)".to_string()),
        }],
        on_missing_field: None,
        on_missing_required: None,
        on_coerce_error: None,
    };
    let plan = TransformPlan::compile(input).unwrap();
    let mut engine = TransformEngine::new(plan);
    let res = engine.push(b"{\"s\":\"HeLLo\"}\n").unwrap();
    assert_eq!(String::from_utf8_lossy(&res.output), "{\"l\":\"hello\"}\n");
}

#[test]
fn invalid_ndjson_line_is_skipped_not_fatal() {
    let mut parser = NdjsonParser::new(64);
    let out = parser.push(b"{broken\n{\"ok\":1}\n").unwrap();
    assert_eq!(String::from_utf8_lossy(&out), "{\"ok\":1}\n");
}

#[test]
fn json_framing_empty_stream() {
    let mut parser = NdjsonParser::new(64);
    let out = parser.to_json_array(b"", true, true).unwrap();
    assert_eq!(out, b"[]".to_vec());
}

#[test]
fn json_framing_comma_count() {
    let mut parser = NdjsonParser::new(64);
    let out = parser.to_json_array(b"{\"a\":1}\n{\"b\":2}\n{\"c\":3}\n", true, true).unwrap();
    let s = String::from_utf8_lossy(&out);
    assert_eq!(s.matches(',').count(), 2);
    assert!(s.starts_with('['));
    assert!(s.ends_with(']'));
}

#[test]
fn error_messages_render() {
    let errors = vec![
        ConvertError::CsvParse("bad csv".to_string()),
        ConvertError::XmlParse("bad xml".to_string()),
        ConvertError::InvalidConfig("invalid".to_string()),
        ConvertError::BufferOverflow("overflow".to_string()),
        ConvertError::Io("io".to_string()),
    ];
    for error in errors {
        let message = error.message();
        assert!(!message.is_empty());
    }
}

#[test]
fn quick_validate_trims_before_checking() {
    let parser = JsonParser::new();
    assert!(parser.quick_validate(b"   [1]"));
    assert!(!parser.quick_validate(b"  x"));
}
