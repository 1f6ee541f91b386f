use convert_buddy::csv_parser::CsvConfig;
use convert_buddy::transform::{
    FieldMapInput, TransformConfigInput, TransformMode, TransformPlan,
};
use convert_buddy::{Converter, Stats, XmlConfig};

fn auto_converter(input: &str, output: &str) -> Converter {
    Converter::with_config(false, input, output, 1048576, false, None, None, None).unwrap()
}

fn configured(input: &str, output: &str, stats: bool) -> Converter {
    Converter::with_config(
        false,
        input,
        output,
        1024,
        stats,
        Some(CsvConfig::new_default()),
        Some(XmlConfig::new_default()),
        None,
    )
    .unwrap()
}

fn run(conv: &mut Converter, input: &[u8]) -> String {
    let out = conv.push(input).unwrap();
    let fin = conv.finish().unwrap();
    let combined = [out, fin].concat();
    String::from_utf8_lossy(&combined).to_string()
}

#[test]
fn test_xml_to_json_auto_detect_movie() {
    let xml = b"<movies><movie><title>Example Movie A</title><year>1999</year></movie><movie><title>Example Movie B</title><year>2010</year></movie></movies>";
    let mut converter = auto_converter("xml", "json");
    let result_str = run(&mut converter, xml);
    assert!(result_str.contains("Example Movie A") || result_str.contains("Example Movie B"));
    assert!(result_str.starts_with('['));
    assert!(result_str.ends_with(']'));
}

#[test]
fn test_xml_to_ndjson_auto_detect_product() {
    let xml = b"<catalog><product><id>123</id><name>Widget</name></product><product><id>456</id><name>Gadget</name></product></catalog>";
    let mut converter = auto_converter("xml", "ndjson");
    let result_str = run(&mut converter, xml);
    assert!(result_str.contains("Widget"));
    assert!(result_str.contains("Gadget"));
    let lines: Vec<&str> = result_str.lines().collect();
    assert_eq!(lines.len(), 2);
}

#[test]
fn test_xml_to_csv_auto_detect_person() {
    let xml = b"<people><person><name>Alice</name><age>30</age></person><person><name>Bob</name><age>25</age></person></people>";
    let mut converter = auto_converter("xml", "csv");
    let result_str = run(&mut converter, xml);
    assert!(result_str.contains("Alice"));
    assert!(result_str.contains("Bob"));
    assert!(result_str.contains("name"));
    assert!(result_str.contains("age"));
}

#[test]
fn test_csv_comma_to_json_auto_detect() {
    let csv = b"name,age,city\nAlice,30,NYC\nBob,25,LA";
    let mut converter = auto_converter("csv", "json");
    let result_str = run(&mut converter, csv);
    assert!(result_str.contains("Alice"));
    assert!(result_str.contains("NYC"));
    assert!(result_str.contains("Bob"));
    assert!(result_str.starts_with('['));
    assert!(result_str.ends_with(']'));
}

#[test]
fn test_csv_semicolon_to_json_auto_detect() {
    let csv = b"product;price;stock\nWidget;19.99;100\nGadget;29.99;50";
    let mut converter = auto_converter("csv", "json");
    let result_str = run(&mut converter, csv);
    assert!(result_str.contains("Widget"));
    assert!(result_str.contains("19.99"));
    assert!(result_str.contains("Gadget"));
}

#[test]
fn test_csv_tab_to_json_auto_detect() {
    let csv = b"id\tname\temail\n1\tAlice\talice@test.com\n2\tBob\tbob@test.com";
    let mut converter = auto_converter("csv", "json");
    let result_str = run(&mut converter, csv);
    assert!(result_str.contains("Alice"));
    assert!(result_str.contains("alice@test.com"));
}

#[test]
fn test_csv_pipe_to_ndjson_auto_detect() {
    let csv = b"code|description|quantity\nA001|Item One|10\nB002|Item Two|20";
    let mut converter = auto_converter("csv", "ndjson");
    let result_str = run(&mut converter, csv);
    assert!(result_str.contains("Item One"));
    assert!(result_str.contains("B002"));
    let lines: Vec<&str> = result_str.lines().collect();
    assert_eq!(lines.len(), 2);
}

#[test]
fn test_xml_nested_arrays_to_json() {
    let xml = b"<movies><movie><title>The Matrix</title><cast><actor><name>Keanu</name></actor><actor><name>Laurence</name></actor></cast></movie></movies>";
    let mut converter = auto_converter("xml", "json");
    let result_str = run(&mut converter, xml);
    assert!(result_str.contains("Keanu"));
    assert!(result_str.contains("Laurence"));
}

#[test]
fn test_xml_nested_arrays_to_csv_flattening() {
    let xml = b"<movies><movie><title>Test</title><cast><actor><name>Actor1</name><role>Role1</role></actor><actor><name>Actor2</name><role>Role2</role></actor></cast></movie></movies>";
    let mut converter = auto_converter("xml", "csv");
    let result_str = run(&mut converter, xml);
    assert!(result_str.contains("cast.actor.0.name") || result_str.contains("Actor1"));
    assert!(result_str.contains("cast.actor.1.name") || result_str.contains("Actor2"));
}

#[test]
fn test_csv_complex_nested_to_json() {
    let csv = b"title,cast.actor.0.name,cast.actor.0.role,cast.actor.1.name,cast.actor.1.role\nMatrix,Keanu,Neo,Laurence,Morpheus";
    let mut converter = auto_converter("csv", "json");
    let result_str = run(&mut converter, csv);
    assert!(result_str.contains("Keanu"));
    assert!(result_str.contains("Morpheus"));
}

#[test]
fn test_xml_different_record_elements() {
    let xml1 = b"<catalog><item><sku>A001</sku></item><item><sku>A002</sku></item></catalog>";
    let mut converter1 = auto_converter("xml", "json");
    let result1_str = run(&mut converter1, xml1);
    assert!(result1_str.contains("A001"));
    assert!(result1_str.contains("A002"));
    let xml2 = b"<orders><order><id>AAA</id></order><order><id>BBB</id></order></orders>";
    let mut converter2 = auto_converter("xml", "json");
    let result2_str = run(&mut converter2, xml2);
    assert!(result2_str.contains("AAA") || result2_str.contains("BBB"));
}

#[test]
fn test_ndjson_to_json_conversion() {
    let ndjson = b"{\"a\":1}\n{\"b\":2}\n{\"c\":3}";
    let mut converter = auto_converter("ndjson", "json");
    let result_str = run(&mut converter, ndjson);
    assert!(result_str.starts_with('['));
    assert!(result_str.ends_with(']'));
    assert!(result_str.contains(r#""a":1"#));
    assert!(result_str.contains(r#""b":2"#));
}

#[test]
fn test_converter_invalid_format_errors() {
    let result = Converter::with_config(false, "bad", "json", 1024, false, None, None, None);
    assert!(result.is_err());
}

#[test]
fn test_converter_detection_waits_for_more_data() {
    let mut converter = auto_converter("csv", "json");
    let output = converter.push(b"name,age\nAli").unwrap();
    assert!(output.is_empty());
    let big_chunk = vec![b'a'; 300];
    let _ = converter.push(&big_chunk).unwrap();
}

#[test]
fn test_converter_states_csv_and_ndjson() {
    let mut csv_to_ndjson = configured("csv", "ndjson", true);
    let output = csv_to_ndjson.push(b"name,age\nAlice,30\n").unwrap();
    assert!(String::from_utf8_lossy(&output).contains("Alice"));

    let mut csv_to_json = configured("csv", "json", false);
    let output = csv_to_json.push(b"name,age\nAlice,30\n").unwrap();
    let final_output = csv_to_json.finish().unwrap();
    let combined_bytes = [output, final_output].concat();
    let combined = String::from_utf8_lossy(&combined_bytes);
    assert!(combined.starts_with('['));

    let mut csv_to_xml = configured("csv", "xml", false);
    let output = csv_to_xml.push(b"name,age\nAlice,30\n").unwrap();
    let final_output = csv_to_xml.finish().unwrap();
    let combined_bytes = [output, final_output].concat();
    let combined = String::from_utf8_lossy(&combined_bytes);
    assert!(combined.contains("<root>"));

    let mut ndjson_passthrough = configured("ndjson", "ndjson", false);
    let output = ndjson_passthrough.push(b"{\"a\":1}\n").unwrap();
    assert!(String::from_utf8_lossy(&output).contains("\"a\""));
}

#[test]
fn test_converter_states_ndjson_targets() {
    let mut ndjson_to_json = configured("ndjson", "json", false);
    let output = ndjson_to_json.push(b"{\"a\":1}\n").unwrap();
    let final_output = ndjson_to_json.finish().unwrap();
    let combined_bytes = [output, final_output].concat();
    let combined = String::from_utf8_lossy(&combined_bytes);
    assert!(combined.starts_with('['));
    assert!(combined.ends_with(']'));

    let mut ndjson_to_csv = configured("ndjson", "csv", false);
    let output = ndjson_to_csv.push(b"{\"name\":\"Ada\"}\n").unwrap();
    let final_output = ndjson_to_csv.finish().unwrap();
    let combined_bytes = [output, final_output].concat();
    let combined = String::from_utf8_lossy(&combined_bytes);
    assert!(combined.contains("name"));

    let mut ndjson_to_xml = configured("ndjson", "xml", false);
    let output = ndjson_to_xml.push(b"{\"name\":\"Ada\"}\n").unwrap();
    let final_output = ndjson_to_xml.finish().unwrap();
    let combined_bytes = [output, final_output].concat();
    let combined = String::from_utf8_lossy(&combined_bytes);
    assert!(combined.contains("<root>"));
}

#[test]
fn test_converter_states_xml_targets() {
    let mut xml_to_ndjson = configured("xml", "ndjson", false);
    let output = xml_to_ndjson.push(b"<root><row><name>Ada</name></row></root>").unwrap();
    assert!(String::from_utf8_lossy(&output).contains("Ada"));

    let mut xml_to_json = configured("xml", "json", false);
    let output = xml_to_json.push(b"<root><row><name>Ada</name></row></root>").unwrap();
    let final_output = xml_to_json.finish().unwrap();
    let combined_bytes = [output, final_output].concat();
    let combined = String::from_utf8_lossy(&combined_bytes);
    assert!(combined.starts_with('['));

    let mut xml_to_csv = configured("xml", "csv", false);
    let output = xml_to_csv.push(b"<root><row><name>Ada</name></row></root>").unwrap();
    let final_output = xml_to_csv.finish().unwrap();
    let combined_bytes = [output, final_output].concat();
    let combined = String::from_utf8_lossy(&combined_bytes);
    assert!(combined.contains("name"));

    let mut xml_passthrough = configured("xml", "xml", false);
    let output = xml_passthrough.push(b"<root><row><name>Ada</name></row></root>").unwrap();
    assert!(String::from_utf8_lossy(&output).contains("Ada"));
}

#[test]
fn test_converter_states_json_targets() {
    let mut json_passthrough = configured("json", "json", false);
    let output = json_passthrough.push(br#"{"a":1}"#).unwrap();
    let finished = json_passthrough.finish().unwrap();
    let combined = [output, finished].concat();
    assert_eq!(combined, br#"{"a":1}"#.to_vec());

    let mut json_to_ndjson = configured("json", "ndjson", false);
    let output = json_to_ndjson.push(br#"[{"a":1},{"b":2}]"#).unwrap();
    let finished = json_to_ndjson.finish().unwrap();
    let combined = [output, finished].concat();
    assert!(String::from_utf8_lossy(&combined).contains('\n'));

    let mut json_to_ndjson_single = configured("json", "ndjson", false);
    let output = json_to_ndjson_single.push(br#"{"a":1}"#).unwrap();
    let finished = json_to_ndjson_single.finish().unwrap();
    let combined = [output, finished].concat();
    assert!(String::from_utf8_lossy(&combined).contains('\n'));

    let mut json_to_csv = configured("json", "csv", false);
    let output = json_to_csv.push(br#"[{"name":"Ada"}]"#).unwrap();
    let final_output = json_to_csv.finish().unwrap();
    let combined_bytes = [output, final_output].concat();
    let combined = String::from_utf8_lossy(&combined_bytes);
    assert!(combined.contains("name"));

    let mut json_to_xml = configured("json", "xml", false);
    let output = json_to_xml.push(br#"[{"name":"Ada"}]"#).unwrap();
    let final_output = json_to_xml.finish().unwrap();
    let combined_bytes = [output, final_output].concat();
    let combined = String::from_utf8_lossy(&combined_bytes);
    assert!(combined.contains("<root>"));
}

#[test]
fn test_stats_and_finish_errors() {
    let mut converter = configured("ndjson", "json", true);
    let _ = converter.push(b"{\"a\":1}\n").unwrap();
    let _ = converter.finish().unwrap();
    let stats = converter.get_stats();
    assert!(stats.bytes_in() > 0);
    let error = converter.finish();
    assert!(error.is_err());
}

#[test]
fn test_push_after_finish_errors() {
    let mut converter = configured("json", "json", false);
    let _ = converter.finish().unwrap();
    let result = converter.push(br#"{"a":1}"#);
    assert!(result.is_err());
}

#[test]
fn test_detect_helpers_and_simd_flag() {
    let format = convert_buddy::detect::detect_format(br#"{"a":1}"#);
    assert_eq!(format, Some(convert_buddy::Format::Json));
}

#[test]
fn scenario_csv_to_ndjson_exact() {
    let mut conv = configured("csv", "ndjson", false);
    let out = conv.push(b"name,age\nAlice,30\nBob,25\n").unwrap();
    let fin = conv.finish().unwrap();
    let combined = [out, fin].concat();
    assert_eq!(
        String::from_utf8_lossy(&combined),
        "{\"name\":\"Alice\",\"age\":\"30\"}\n{\"name\":\"Bob\",\"age\":\"25\"}\n"
    );
}

#[test]
fn scenario_ndjson_to_json_exact() {
    let mut conv = configured("ndjson", "json", false);
    let out = conv.push(b"{\"a\":1}\n{\"b\":2}\n").unwrap();
    let fin = conv.finish().unwrap();
    let combined = [out, fin].concat();
    assert_eq!(String::from_utf8_lossy(&combined), "[{\"a\":1},{\"b\":2}]");
}

#[test]
fn scenario_xml_to_json_auto_detect() {
    let mut conv = auto_converter("xml", "json");
    let out = run(
        &mut conv,
        b"<catalog><product><id>1</id></product><product><id>2</id></product></catalog>",
    );
    assert_eq!(out, "[{\"id\":\"1\"},{\"id\":\"2\"}]");
}

#[test]
fn scenario_pipe_quoted_auto_detect() {
    let mut conv = auto_converter("csv", "ndjson");
    let out = run(&mut conv, b"\"a\"|\"b\"\n\"1\"|\"2\"\n");
    assert_eq!(out, "{\"a\":\"1\",\"b\":\"2\"}\n");
}

#[test]
fn scenario_transform_compute_sum() {
    let input = TransformConfigInput {
        mode: TransformMode::Replace,
        fields: vec![FieldMapInput {
            target_field_name: "sum".to_string(),
            origin_field_name: None,
            required: None,
            default_value: None,
            coerce: None,
            compute: Some("x+y".to_string()),
        }],
        on_missing_field: None,
        on_missing_required: None,
        on_coerce_error: None,
    };
    let plan = TransformPlan::compile(input).unwrap();
    let mut conv =
        Converter::with_config(false, "ndjson", "ndjson", 1024, false, None, None, Some(plan))
            .unwrap();
    let out = conv.push(b"{\"x\":\"3\",\"y\":\"4\"}\n").unwrap();
    let fin = conv.finish().unwrap();
    let combined = [out, fin].concat();
    assert_eq!(String::from_utf8_lossy(&combined), "{\"sum\":7.0}\n");
}

#[test]
fn scenario_xml_repeated_tag_to_array() {
    let mut xml_cfg = XmlConfig::new_default();
    xml_cfg.record_element = "row".to_string();
    let mut conv =
        Converter::with_config(false, "xml", "ndjson", 1024, false, None, Some(xml_cfg), None)
            .unwrap();
    let out = conv.push(b"<root><row><tag>a</tag><tag>b</tag></row></root>").unwrap();
    let fin = conv.finish().unwrap();
    let combined = [out, fin].concat();
    assert_eq!(String::from_utf8_lossy(&combined), "{\"tag\":[\"a\",\"b\"]}\n");
}

#[test]
fn chunk_boundary_independence_csv() {
    let input: &[u8] = b"name,age\nAlice,30\nBob,25\nCarol,41\n";
    let mut whole = configured("csv", "ndjson", false);
    let mut out1 = whole.push(input).unwrap();
    out1.extend_from_slice(&whole.finish().unwrap());
    for cut in 1..input.len() {
        let mut split = configured("csv", "ndjson", false);
        let mut out2 = split.push(&input[..cut]).unwrap();
        out2.extend_from_slice(&split.push(&input[cut..]).unwrap());
        out2.extend_from_slice(&split.finish().unwrap());
        assert_eq!(out1, out2, "outputs differ when cut at {}", cut);
    }
}

#[test]
fn record_count_preserved_in_stats() {
    let mut conv = configured("csv", "ndjson", true);
    let _ = conv.push(b"h1,h2\na,b\nc,d\ne,f\n").unwrap();
    let _ = conv.finish().unwrap();
    assert_eq!(conv.get_stats().records_processed(), 3);
}

#[test]
fn stats_monotonic_across_pushes() {
    let mut conv = configured("ndjson", "ndjson", true);
    let mut last = 0u64;
    for _ in 0..4 {
        let _ = conv.push(b"{\"a\":1}\n").unwrap();
        let s: Stats = conv.get_stats();
        assert!(s.bytes_in() >= last);
        last = s.bytes_in();
    }
}

#[test]
fn stats_getters_and_recording() {
    let mut stats = Stats::new_default();
    stats.record_chunk(128);
    stats.record_output(256);
    stats.record_records(3);
    stats.record_parse_time(10_000_000);
    stats.record_transform_time(20_000_000);
    stats.record_write_time(30_000_000);
    stats.update_buffer_size(64);
    stats.update_buffer_size(32);
    assert_eq!(stats.bytes_in(), 128);
    assert_eq!(stats.bytes_out(), 256);
    assert_eq!(stats.chunks_in(), 1);
    assert_eq!(stats.records_processed(), 3);
    assert_eq!(stats.max_buffer_size(), 64);
    assert_eq!(stats.current_partial_size(), 32);
    assert!(stats.parse_time_ns() > 0);
    assert!(stats.transform_time_ns() > 0);
    assert!(stats.write_time_ns() > 0);
}

#[test]
fn csv_round_trip_of_string_fields() {
    let mut to_nd = configured("csv", "ndjson", false);
    let mut nd = to_nd.push(b"a,b\nx,y\nq,r\n").unwrap();
    nd.extend_from_slice(&to_nd.finish().unwrap());
    let mut back = configured("ndjson", "csv", false);
    let mut csv = back.push(&nd).unwrap();
    csv.extend_from_slice(&back.finish().unwrap());
    assert_eq!(String::from_utf8_lossy(&csv), "a,b\nx,y\nq,r\n");
}

#[test]
fn transform_error_policies() {
    let input = TransformConfigInput {
        mode: TransformMode::Replace,
        fields: vec![],
        on_missing_field: None,
        on_missing_required: None,
        on_coerce_error: None,
    };
    assert!(TransformPlan::compile(input).is_err());
}
