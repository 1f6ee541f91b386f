use convert_buddy::csv_parser::{CsvConfig, CsvParser};
use convert_buddy::{BufferPool, Format, JsonParser, NdjsonParser, XmlConfig, XmlParser, XmlWriter};

#[test]
fn test_buffer_pool_acquire_release() {
    let mut pool = BufferPool::new(4, 1024);
    let buffer1 = pool.acquire();
    assert_eq!(buffer1.len(), 0);
    assert!(buffer1.capacity() >= 1024);
    pool.release(buffer1);
    assert_eq!(pool.size(), 1);
    let buffer2 = pool.acquire();
    pool.release(buffer2);
    assert_eq!(pool.size(), 1);
}

#[test]
fn test_buffer_pool_capacity() {
    let mut pool = BufferPool::new(4, 1024);
    let buffer = pool.acquire_with_capacity(2048);
    assert!(buffer.capacity() >= 2048);
    pool.release(buffer);
    let buffer2 = pool.acquire_with_capacity(1500);
    assert!(buffer2.capacity() >= 1500);
}

#[test]
fn test_buffer_pool_max_size() {
    let mut pool = BufferPool::new(2, 1024);
    pool.release(Vec::with_capacity(1024));
    pool.release(Vec::with_capacity(1024));
    pool.release(Vec::with_capacity(1024));
    assert_eq!(pool.size(), 2);
}

#[test]
fn format_string_round_trip() {
    assert_eq!(Format::from_string("csv"), Some(Format::Csv));
    assert_eq!(Format::from_string("ndjson"), Some(Format::Ndjson));
    assert_eq!(Format::from_string("jsonl"), Some(Format::Ndjson));
    assert_eq!(Format::from_string("json"), Some(Format::Json));
    assert_eq!(Format::from_string("xml"), Some(Format::Xml));
    assert_eq!(Format::from_string("unknown"), None);
    assert_eq!(Format::Csv.to_string_js(), "csv");
    assert_eq!(Format::Ndjson.to_string_js(), "ndjson");
    assert_eq!(Format::Json.to_string_js(), "json");
    assert_eq!(Format::Xml.to_string_js(), "xml");
}

#[test]
fn test_quick_validate() {
    let parser = JsonParser::new();
    assert!(parser.quick_validate(b"{\"key\": \"value\"}"));
    assert!(parser.quick_validate(b"[1, 2, 3]"));
    assert!(parser.quick_validate(b"\"string\""));
    assert!(parser.quick_validate(b"true"));
    assert!(parser.quick_validate(b"false"));
    assert!(parser.quick_validate(b"null"));
    assert!(parser.quick_validate(b"123"));
    assert!(parser.quick_validate(b"  {\"key\": \"value\"}  "));
    assert!(!parser.quick_validate(b""));
    assert!(!parser.quick_validate(b"   "));
}

#[test]
fn test_parse_and_validate_errors() {
    let parser = JsonParser::new();
    let invalid = br#"{ "a": "#;
    let result = parser.parse_and_validate(invalid);
    assert!(result.is_err());
}

#[test]
fn test_parse_and_minify_and_prettify() {
    let parser = JsonParser::new();
    let data = br#" { "a": 1, "b": [true, false] } "#;

    let minified = parser.parse_and_minify(data).unwrap();
    assert_eq!(String::from_utf8_lossy(&minified), r#"{"a":1,"b":[true,false]}"#);

    let pretty = parser.parse_and_prettify(data).unwrap();
    let pretty_str = String::from_utf8_lossy(&pretty);
    assert!(pretty_str.contains("\n"));
    assert!(pretty_str.contains("\"a\""));
}

#[test]
fn prettify_exact_two_space_layout() {
    let parser = JsonParser::new();
    let pretty = parser.parse_and_prettify(br#"{"a":1,"b":[true,false]}"#).unwrap();
    assert_eq!(
        String::from_utf8_lossy(&pretty),
        "{\n  \"a\": 1,\n  \"b\": [\n    true,\n    false\n  ]\n}"
    );
}

#[test]
fn test_simple_csv() {
    let config = CsvConfig::new_default();
    let mut parser = CsvParser::new(config, 1024);
    let input = b"name,age\nAlice,30\nBob,25\n";
    let result = parser.push_to_ndjson(input).unwrap();
    assert!(result.contains(&b'{'));
    assert!(parser.record_count() == 2);
    let output = String::from_utf8_lossy(&result);
    assert!(output.contains("Alice") || output.contains("Bob"));
}

#[test]
fn test_quoted_csv() {
    let config = CsvConfig::new_default();
    let mut parser = CsvParser::new(config, 1024);
    let input = b"name,description\n\"Alice\",\"Hello, World\"\n";
    let result = parser.push_to_ndjson(input).unwrap();
    assert!(result.contains(&b'{'));
}

#[test]
fn test_multiple_records() {
    let config = CsvConfig::new_default();
    let mut parser = CsvParser::new(config, 1024);
    let input = b"name,age\nAlice,30\nBob,25\nCharlie,35\n";
    let result = parser.push_to_ndjson(input).unwrap();
    let output = String::from_utf8_lossy(&result);
    assert!(output.contains("Alice"));
    assert!(output.contains("Bob"));
}

#[test]
fn test_trim_whitespace_and_missing_headers() {
    let mut config = CsvConfig::new_default();
    config.has_headers = false;
    config.trim_whitespace = true;
    let mut parser = CsvParser::new(config, 1024);
    let input = b" Alice , 30 \n";
    let result = parser.push_to_ndjson(input).unwrap();
    let output = String::from_utf8_lossy(&result);
    assert!(output.contains("\"field_0\":\"Alice\""));
    assert!(output.contains("\"field_1\":\"30\""));
}

#[test]
fn test_quoted_fields_with_escapes_and_newlines() {
    let config = CsvConfig::new_default();
    let mut parser = CsvParser::new(config, 1024);
    let input = b"name,quote\r\n\"Alice\",\"She said \"\"Hi\"\"\"\r\n";
    let result = parser.push_to_ndjson(input).unwrap();
    let output = String::from_utf8_lossy(&result);
    assert!(output.contains("She said \\\"Hi\\\""));
    assert!(parser.partial_size() == 0);
}

#[test]
fn test_quoted_fields_with_escapes() {
    let config = CsvConfig::new_default();
    let mut parser = CsvParser::new(config, 1024);
    let input = b"name,quote\r\n\"Alice\",\"She said \"\"Hi\"\"\"\r\n";
    let result = parser.push_to_ndjson(input).unwrap();
    let output = String::from_utf8_lossy(&result);
    assert!(output.contains("Alice"));
}

#[test]
fn test_backslash_escaped_quotes() {
    let config = CsvConfig::new_default();
    let mut parser = CsvParser::new(config, 1024);
    let input = b"name,quote\n\"Gorwin \\\"Grog\\\" Oakenshield\",\"Value\"\n";
    let result = parser.push_to_ndjson(input).unwrap();
    let output = String::from_utf8_lossy(&result);
    assert!(output.contains("Gorwin"));
    assert!(output.contains("Grog"));
    assert!(output.contains("Oakenshield"));
}

#[test]
fn test_backslash_escaped_quotes_with_special_chars() {
    let config = CsvConfig::new_default();
    let mut parser = CsvParser::new(config, 1024);
    let input = b"name,value\n\"test\\nline\",\"value\"\n";
    let result = parser.push_to_ndjson(input).unwrap();
    let output = String::from_utf8_lossy(&result);
    assert!(output.contains("test") && output.contains("line"));
}

#[test]
fn test_partial_line_and_finish() {
    let config = CsvConfig::new_default();
    let mut parser = CsvParser::new(config, 1024);
    let chunk = b"name,age\nAlice,30";
    let result = parser.push_to_ndjson(chunk).unwrap();
    assert!(result.is_empty());
    assert!(parser.partial_size() > 0);
    let remaining = parser.finish().unwrap();
    let output = String::from_utf8_lossy(&remaining);
    assert!(output.contains("Alice"));
}

#[test]
fn test_ndjson_parsing() {
    let mut parser = NdjsonParser::new(1024);
    let input = b"{\"name\":\"Alice\"}\n{\"name\":\"Bob\"}\n";
    let result = parser.push(input).unwrap();
    assert!(!result.is_empty());
}

#[test]
fn test_partial_line_handling() {
    let mut parser = NdjsonParser::new(1024);
    let chunk1 = b"{\"name\":\"Ali";
    let _result1 = parser.push(chunk1).unwrap();
    let chunk2 = b"ce\"}\n";
    let result2 = parser.push(chunk2).unwrap();
    assert!(!result2.is_empty());
}

#[test]
fn test_to_json_array() {
    let mut parser = NdjsonParser::new(1024);
    let input = b"{\"name\":\"Alice\"}\n{\"name\":\"Bob\"}\n";
    let result = parser.to_json_array(input, true, true).unwrap();
    let expected = b"[{\"name\":\"Alice\"},{\"name\":\"Bob\"}]";
    assert_eq!(result, expected);
}

#[test]
fn test_skip_invalid_and_whitespace_lines() {
    let mut parser = NdjsonParser::new(1024);
    let input = b"\n   \noops\n{\"valid\":true}\n";
    let result = parser.push(input).unwrap();
    let output = String::from_utf8_lossy(&result);
    assert!(output.contains("{\"valid\":true}"));
    assert!(!output.contains("oops"));
}

#[test]
fn test_to_json_array_partial_last() {
    let mut parser = NdjsonParser::new(1024);
    let input = b"{\"name\":\"Alice\"}\n{\"name\":\"Bob\"}";
    let result = parser.to_json_array(input, true, false).unwrap();
    let output = String::from_utf8_lossy(&result);
    assert!(output.starts_with('['));
    assert!(!output.ends_with(']'));
}

#[test]
fn test_finish_behavior() {
    let mut parser = NdjsonParser::new(1024);
    let input = b"{\"test\":true}";
    let result = parser.push(input).unwrap();
    let final_output = parser.finish().unwrap();
    let combined = [result, final_output].concat();
    assert!(!combined.is_empty());
}

#[test]
fn test_simple_xml() {
    let mut config = XmlConfig::new_default();
    config.record_element = "person".to_string();
    let mut parser = XmlParser::new(config, 1024);
    let input = b"<root><person><name>Alice</name><age>30</age></person></root>";
    let result = parser.push_to_ndjson(input).unwrap();
    assert!(result.contains(&b'{'));
    assert!(parser.record_count() > 0);
}

#[test]
fn test_xml_with_attributes() {
    let mut config = XmlConfig::new_default();
    config.record_element = "item".to_string();
    config.include_attributes = true;
    let mut parser = XmlParser::new(config, 1024);
    let input = b"<root><item id=\"1\"><name>Test</name></item></root>";
    let result = parser.push_to_ndjson(input).unwrap();
    assert!(result.contains(&b'{'));
}

#[test]
fn test_xml_repeated_elements_as_array() {
    let mut config = XmlConfig::new_default();
    config.record_element = "row".to_string();
    config.include_attributes = false;
    let mut parser = XmlParser::new(config, 1024);
    let input = b"<root><row><tag>one</tag><tag>two</tag></row></root>";
    let result = parser.push_to_ndjson(input).unwrap();
    let output = String::from_utf8_lossy(&result);
    assert!(output.contains("["));
    assert!(output.contains("one"));
    assert!(output.contains("two"));
}

#[test]
fn test_xml_finish_with_partial_buffer() {
    let config = XmlConfig::new_default();
    let mut parser = XmlParser::new(config, 1024);
    let input = b"<root><row><name>Alice</name></row></root>";
    let output = parser.push_to_ndjson(input).unwrap();
    let output_str = String::from_utf8_lossy(&output);
    assert!(output_str.contains("Alice"));
    let remaining = parser.finish().unwrap();
    assert!(remaining.is_empty());
    assert!(parser.partial_size() == 0);
}

#[test]
fn test_xml_rss_like_structure() {
    let mut config = XmlConfig::new_default();
    config.record_element = "item".to_string();
    config.include_attributes = false;
    let mut parser = XmlParser::new(config, 1024);
    let input = br#"<?xml version="1.0"?>
<rss version="2.0">
  <channel>
    <title>Test Feed</title>
    <item>
      <id>1</id>
      <title>Article 1</title>
    </item>
    <item>
      <id>2</id>
      <title>Article 2</title>
    </item>
  </channel>
</rss>"#;
    let result = parser.push_to_ndjson(input).unwrap();
    let output_str = String::from_utf8_lossy(&result);
    assert_eq!(output_str.matches('\n').count(), 2);
    assert!(output_str.contains("Article 1"));
    assert!(output_str.contains("Article 2"));
    assert!(!output_str.contains("<?xml"));
    assert!(!output_str.contains("Test Feed"));
    assert_eq!(parser.record_count(), 2);
}

#[test]
fn test_xml_streaming_with_chunks() {
    let mut config = XmlConfig::new_default();
    config.record_element = "item".to_string();
    config.include_attributes = false;
    let mut parser = XmlParser::new(config, 1024);
    let xml_content: &[u8] = br#"<?xml version="1.0"?>
<rss xmlns:g="http://example.com/ns/1.0" version="2.0">
    <channel>
        <title>Example Feed</title>
        <item>
            <g:id>A1</g:id>
            <g:title>Sample Product Title</g:title>
            <g:price>9.99 USD</g:price>
        </item>
    </channel>
</rss>"#;
    let chunk_size = 64;
    let mut total_output = Vec::new();
    for chunk in xml_content.chunks(chunk_size) {
        let output = parser.push_to_ndjson(chunk).unwrap();
        total_output.extend_from_slice(&output);
    }
    let final_output = parser.finish().unwrap();
    total_output.extend_from_slice(&final_output);
    let output_str = String::from_utf8_lossy(&total_output);
    assert_eq!(output_str.matches('\n').count(), 1);
    assert!(!output_str.contains("<?xml version=1.0?>"));
    assert!(output_str.contains("Sample Product Title"));
    assert!(output_str.contains("9.99 USD"));
    assert_eq!(parser.record_count(), 1);
    let lines: Vec<&str> = output_str.trim().split('\n').collect();
    assert_eq!(lines.len(), 1);
    let json_result: Result<serde_json::Value, serde_json::Error> = serde_json::from_str(lines[0]);
    assert!(json_result.is_ok(), "Output should be valid JSON: {}", lines[0]);
    let json_obj = json_result.unwrap();
    assert!(json_obj.is_object());
    let obj = json_obj.as_object().unwrap();
    assert!(obj.contains_key("g:id"));
    assert!(obj.contains_key("g:title"));
    assert!(obj.contains_key("g:price"));
}

#[test]
fn test_xml_simple_debug() {
    let mut config = XmlConfig::new_default();
    config.record_element = "item".to_string();
    config.include_attributes = false;
    let mut parser = XmlParser::new(config, 1024);
    let xml_content = b"<root><item><id>1</id></item></root>";
    let result = parser.push_to_ndjson(xml_content).unwrap();
    let output_str = String::from_utf8_lossy(&result);
    assert!(!output_str.is_empty());
    assert!(output_str.contains("\"id\""));
}

#[test]
fn xml_writer_emits_header_and_records() {
    let mut writer = XmlWriter::new().with_elements("items".to_string(), "item".to_string());
    let output = writer
        .process_json_line(r#"{"name":"Widget","price":19.99,"active":true}"#)
        .unwrap();
    let output_str = String::from_utf8_lossy(&output);
    assert!(output_str.contains("<items>"));
    assert!(output_str.contains("<item>"));
    assert!(output_str.contains("<name>Widget</name>"));
    assert!(output_str.contains("<price>19.99</price>"));
    assert!(output_str.contains("<active>true</active>"));
}

#[test]
fn xml_writer_escapes_special_characters() {
    let mut writer = XmlWriter::new();
    let output = writer
        .process_json_line(r#"{"note":"fish & chips <tasty> \"yes\""}"#)
        .unwrap();
    let output_str = String::from_utf8_lossy(&output);
    assert!(output_str.contains("&amp;"));
    assert!(output_str.contains("&lt;tasty&gt;"));
    assert!(output_str.contains("&quot;yes&quot;"));
}

#[test]
fn xml_writer_finish_without_header_is_empty() {
    let writer = XmlWriter::new();
    let output = writer.finish().unwrap();
    assert!(output.is_empty());
}

#[test]
fn writes_headers_and_rows_with_escaping() {
    let mut writer = convert_buddy::CsvWriter::new();
    let json_line = r#"{"name":"Alice","note":"Hello, \"world\"","value":1}"#;
    let output = writer.process_json_line(json_line).unwrap();
    let output_str = String::from_utf8_lossy(&output);
    assert!(output_str.contains("name"));
    assert!(output_str.contains("\"Hello, \"\"world\"\"\""));
}

#[test]
fn flattens_nested_objects_and_arrays() {
    let mut writer = convert_buddy::CsvWriter::new();
    let json_line = r#"{"parent":{"child":"value"},"items":[{"id":1},{"id":2}],"tags":["a","b"]}"#;
    let output = writer.process_json_line(json_line).unwrap();
    let output_str = String::from_utf8_lossy(&output);
    assert!(output_str.contains("parent.child"));
    assert!(output_str.contains("items.0.id"));
    assert!(output_str.contains("tags.1"));
}

#[test]
fn finish_returns_empty() {
    let mut writer = convert_buddy::CsvWriter::new();
    let output = writer.finish().unwrap();
    assert!(output.is_empty());
}
