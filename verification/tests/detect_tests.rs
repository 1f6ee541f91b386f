use convert_buddy::detect::{detect_csv, detect_format, detect_ndjson, detect_xml};
use convert_buddy::Format;

#[test]
fn detect_format_json() {
    let sample = br#"{ "name": "Ada" }"#;
    assert_eq!(detect_format(sample), Some(Format::Json));
}

#[test]
fn detect_format_ndjson() {
    let sample = b"{\"a\":1}\n{\"b\":2}\n";
    assert_eq!(detect_format(sample), Some(Format::Ndjson));
}

#[test]
fn detect_format_xml() {
    let sample = br#"<?xml version="1.0"?><root></root>"#;
    assert_eq!(detect_format(sample), Some(Format::Xml));
}

#[test]
fn detect_csv_fields_and_delimiter() {
    let sample = b"col_a;col_b;col_c\n1;2;3\n";
    let detection = detect_csv(sample).unwrap();
    assert_eq!(detection.delimiter, b';');
    assert_eq!(detection.fields, vec!["col_a", "col_b", "col_c"]);
}

#[test]
fn detect_pipe_delimited_quoted_csv() {
    let sample = b"\"ProductID\"|\"Code\"|\"Name\"|\"Description\"|\"URL\"|\"ImageURL\"|\"Category\"|\"Variant\"|\"Amount\"|\"Discount\"|\"Related\"\n";
    let detection = detect_csv(sample).unwrap();
    assert_eq!(detection.delimiter, b'|');
    assert_eq!(detection.fields.len(), 11);
}

#[test]
fn detect_pipe_delimited_complex_data() {
    let sample = b"\"ProductID\"|\"Code\"|\"Name\"|\"Description\"|\"URL\"|\"ImageURL\"|\"Category\"|\"Variant\"|\"Amount\"|\"Discount\"|\"Related\"\n\"SKU987654321\"|\"123456789ABC\"|\"Item X\"|\"<ul>Item description <ul>\"|\"https://example.com/product/SKU987654321\"|\"https://example.com/image/v2/PROD/default/item-x-variant-sku987654321.jpg\"|\"Merchandise > Items > Item Category\"|\"BLUE , M\"|\"99\"|\"\"|\"\"\n";
    let detection = detect_csv(sample).unwrap();
    assert_eq!(detection.delimiter, b'|');
}

#[test]
fn detect_csv_comma_delimiter() {
    let sample = b"name,age,email\nJohn,30,john@example.com\n";
    let detection = detect_csv(sample).unwrap();
    assert_eq!(detection.delimiter, b',');
    assert_eq!(detection.fields, vec!["name", "age", "email"]);
}

#[test]
fn detect_csv_tab_delimiter() {
    let sample = b"id\tname\tcity\n1\tAlice\tNY\n";
    let detection = detect_csv(sample).unwrap();
    assert_eq!(detection.delimiter, b'\t');
    assert_eq!(detection.fields, vec!["id", "name", "city"]);
}

#[test]
fn detect_csv_single_column() {
    let sample = b"product\nLaptop\nMouse\nKeyboard\n";
    let detection = detect_csv(sample).unwrap();
    assert_eq!(detection.fields.len(), 1);
    assert_eq!(detection.fields[0], "product");
}

#[test]
fn detect_csv_quoted_fields_with_commas() {
    let sample = b"name,description,price\n\"Product A\",\"Desc, with comma\",99.99\n";
    let detection = detect_csv(sample).unwrap();
    assert_eq!(detection.delimiter, b',');
    assert_eq!(detection.fields, vec!["name", "description", "price"]);
}

#[test]
fn detect_csv_quoted_fields_with_newlines() {
    let sample = b"name,description\n\"Product A\",\"Line1\nLine2\"\n";
    let detection = detect_csv(sample).unwrap();
    assert_eq!(detection.delimiter, b',');
    assert_eq!(detection.fields.len(), 2);
}

#[test]
fn detect_csv_escaped_quotes() {
    let sample = b"name,comment\nAlice,\"She said \"\"Hello\"\"\"\nBob,Normal comment\n";
    let detection = detect_csv(sample).unwrap();
    assert_eq!(detection.delimiter, b',');
    assert_eq!(detection.fields, vec!["name", "comment"]);
}

#[test]
fn detect_csv_mixed_quoted_unquoted() {
    let sample = b"id,name,description\n1,Alice,Normal\n2,\"Bob\",\"Special, field\"\n";
    let detection = detect_csv(sample).unwrap();
    assert_eq!(detection.delimiter, b',');
    assert_eq!(detection.fields, vec!["id", "name", "description"]);
}

#[test]
fn detect_csv_empty_fields() {
    let sample = b"name,age,email\nAlice,,alice@test.com\n";
    let detection = detect_csv(sample).unwrap();
    assert_eq!(detection.delimiter, b',');
    assert_eq!(detection.fields, vec!["name", "age", "email"]);
}

#[test]
fn detect_csv_trailing_comma() {
    let sample = b"a,b,c,\n1,2,3,\n";
    let detection = detect_csv(sample).unwrap();
    assert_eq!(detection.fields.len(), 4);
}

#[test]
fn detect_csv_unicode_fields() {
    let sample = "名前,年齢,都市\n太郎,25,東京\n".as_bytes();
    let detection = detect_csv(sample).unwrap();
    assert_eq!(detection.delimiter, b',');
    assert_eq!(detection.fields, vec!["名前", "年齢", "都市"]);
}

#[test]
fn detect_csv_numeric_header() {
    let sample = b"1,2,3,4,5\na,b,c,d,e\n";
    let detection = detect_csv(sample).unwrap();
    assert_eq!(detection.delimiter, b',');
    assert_eq!(detection.fields, vec!["1", "2", "3", "4", "5"]);
}

#[test]
fn detect_csv_special_characters_in_fields() {
    let sample = b"id,description,notes\n1,Item@Product,Note-123\n";
    let detection = detect_csv(sample).unwrap();
    assert_eq!(detection.delimiter, b',');
    assert_eq!(detection.fields, vec!["id", "description", "notes"]);
}

#[test]
fn detect_csv_whitespace_handling() {
    let sample = b"name , age , city\nAlice , 30 , NYC\n";
    let detection = detect_csv(sample).unwrap();
    assert_eq!(detection.delimiter, b',');
    assert_eq!(detection.fields.len(), 3);
}

#[test]
fn detect_csv_delimiter_priority() {
    let sample = b"a\tb\tc\n1\t2\t3\n4\t5\t6\n";
    let detection = detect_csv(sample).unwrap();
    assert_eq!(detection.delimiter, b'\t');
}

#[test]
fn detect_csv_no_newline_at_end() {
    let sample = b"col1,col2,col3\nval1,val2,val3";
    let detection = detect_csv(sample).unwrap();
    assert_eq!(detection.delimiter, b',');
    assert_eq!(detection.fields, vec!["col1", "col2", "col3"]);
}

#[test]
fn detect_xml_simple() {
    let sample = b"<root><item>test</item></root>";
    let detection = detect_xml(sample).unwrap();
    assert!(detection.elements.contains(&"root".to_string()));
    assert!(detection.elements.contains(&"item".to_string()));
}

#[test]
fn detect_xml_with_declaration() {
    let sample = br#"<?xml version="1.0"?><movies><movie><title>Test</title></movie></movies>"#;
    let detection = detect_xml(sample).unwrap();
    assert!(detection.elements.contains(&"movies".to_string()));
    assert!(detection.elements.contains(&"movie".to_string()));
    assert!(detection.elements.contains(&"title".to_string()));
}

#[test]
fn detect_xml_with_attributes() {
    let sample = br#"<root id="123"><person name="Ada" age="36"><skill>Rust</skill></person></root>"#;
    let detection = detect_xml(sample).unwrap();
    assert!(detection.elements.contains(&"root".to_string()));
    assert!(detection.elements.contains(&"person".to_string()));
    assert!(detection.elements.contains(&"skill".to_string()));
    assert_eq!(detection.elements.len(), 3);
}

#[test]
fn detect_xml_complex_movies() {
    let sample = b"<movies><movie><title>The Shawshank Redemption</title><genre>Drama</genre><year>1994</year><cast><actor><name>Tim Robbins</name><role>Andy Dufresne</role></actor></cast></movie></movies>";
    let detection = detect_xml(sample).unwrap();
    assert!(detection.elements.contains(&"movies".to_string()));
    assert!(detection.elements.contains(&"movie".to_string()));
    assert!(detection.elements.contains(&"title".to_string()));
    assert!(detection.elements.contains(&"genre".to_string()));
    assert!(detection.elements.contains(&"year".to_string()));
    assert!(detection.elements.contains(&"cast".to_string()));
    assert!(detection.elements.contains(&"actor".to_string()));
    assert!(detection.elements.contains(&"name".to_string()));
    assert!(detection.elements.contains(&"role".to_string()));
}

#[test]
fn detect_xml_with_namespaces() {
    let sample = br#"<root xmlns:custom="http://example.com"><custom:item>test</custom:item></root>"#;
    let detection = detect_xml(sample).unwrap();
    assert!(detection.elements.contains(&"root".to_string()));
    assert!(detection.elements.len() >= 1);
}

#[test]
fn detect_xml_no_duplicates() {
    let sample = b"<root><item>1</item><item>2</item><item>3</item></root>";
    let detection = detect_xml(sample).unwrap();
    let item_count = detection.elements.iter().filter(|e| *e == "item").count();
    assert_eq!(item_count, 1);
}

#[test]
fn detect_xml_sorted() {
    let sample = b"<root><zebra/><apple/><monkey/></root>";
    let detection = detect_xml(sample).unwrap();
    assert_eq!(detection.elements, vec!["apple", "monkey", "root", "zebra"]);
}

#[test]
fn detect_xml_record_element_movie() {
    let sample = b"<movies><movie><title>Test</title></movie><movie><title>Test2</title></movie></movies>";
    let detection = detect_xml(sample).unwrap();
    assert_eq!(detection.record_element, Some("movie".to_string()));
}

#[test]
fn detect_xml_record_element_product() {
    let sample = b"<catalog><product><id>1</id></product><product><id>2</id></product><product><id>3</id></product></catalog>";
    let detection = detect_xml(sample).unwrap();
    assert_eq!(detection.record_element, Some("product".to_string()));
}

#[test]
fn detect_xml_record_element_person() {
    let sample = b"<people><person><name>Alice</name></person><person><name>Bob</name></person></people>";
    let detection = detect_xml(sample).unwrap();
    assert_eq!(detection.record_element, Some("person".to_string()));
}

#[test]
fn detect_xml_record_element_with_nested_arrays() {
    let sample = b"<movies><movie><cast><actor><name>A</name></actor><actor><name>B</name></actor></cast></movie><movie><cast><actor><name>C</name></actor><actor><name>D</name></actor></cast></movie></movies>";
    let detection = detect_xml(sample).unwrap();
    assert_eq!(detection.record_element, Some("movie".to_string()));
}

#[test]
fn detect_xml_record_element_item() {
    let sample = b"<inventory><item><sku>A001</sku></item><item><sku>A002</sku></item></inventory>";
    let detection = detect_xml(sample).unwrap();
    assert_eq!(detection.record_element, Some("item".to_string()));
}

#[test]
fn detect_xml_record_element_order() {
    let sample = b"<orders><order><id>123</id></order><order><id>456</id></order></orders>";
    let detection = detect_xml(sample).unwrap();
    assert_eq!(detection.record_element, Some("order".to_string()));
}

#[test]
fn detect_xml_record_element_book() {
    let sample = b"<library><book><title>Book1</title></book><book><title>Book2</title></book></library>";
    let detection = detect_xml(sample).unwrap();
    assert_eq!(detection.record_element, Some("book".to_string()));
}

#[test]
fn detect_xml_record_element_user() {
    let sample = b"<users><user><email>a@test.com</email></user><user><email>b@test.com</email></user></users>";
    let detection = detect_xml(sample).unwrap();
    assert_eq!(detection.record_element, Some("user".to_string()));
}

#[test]
fn detect_xml_record_element_row() {
    let sample = b"<data><row><col1>val1</col1></row><row><col1>val2</col1></row></data>";
    let detection = detect_xml(sample).unwrap();
    assert_eq!(detection.record_element, Some("row".to_string()));
}

#[test]
fn detect_pipe_delimited_with_trailing_commas() {
    let sample = b"col_a|col_b|col_c|col_d|col_e\n001|value1|description1|category1|type1\n002|value2|description2|category2|type2\n,,,,,,,,";
    let detection = detect_csv(sample).unwrap();
    assert_eq!(detection.delimiter, b'|');
    assert_eq!(detection.fields.len(), 5);
    assert_eq!(detection.fields[0], "col_a");
    assert_eq!(detection.fields[4], "col_e");
}

#[test]
fn detect_pipe_delimited_complex_header() {
    let sample = b"col_id|col_name|col_desc|col_category|col_type|col_url|col_price|col_discount\n001|product_a|content_a|category_a|type_a|http://example.com|100.00|80.00\n002|product_b|content_b|category_b|type_b|http://example.com|200.00|150.00\n";
    let detection = detect_csv(sample).unwrap();
    assert_eq!(detection.delimiter, b'|');
    assert_eq!(detection.fields.len(), 8);
    assert_eq!(detection.fields[0], "col_id");
    assert_eq!(detection.fields[7], "col_discount");
}

#[test]
fn detect_pipe_preferred_over_comma_when_close() {
    let sample = b"a|b|c\n1|2|3\n4|5|6\n7|8|9\n,,,\n";
    let detection = detect_csv(sample).unwrap();
    assert_eq!(detection.delimiter, b'|');
    assert_eq!(detection.fields.len(), 3);
}

#[test]
fn detect_comma_vs_pipe_more_pipes() {
    let sample = b"a|b|c|d|e\n1|2|3|4|5\n";
    let detection = detect_csv(sample).unwrap();
    assert_eq!(detection.delimiter, b'|');
    assert_eq!(detection.fields.len(), 5);
}

#[test]
fn detect_comma_vs_pipe_more_commas() {
    let sample = b"a,b,c,d,e,f\n1,2,3,4,5,6\n";
    let detection = detect_csv(sample).unwrap();
    assert_eq!(detection.delimiter, b',');
    assert_eq!(detection.fields.len(), 6);
}

#[test]
fn detect_rss_item_element() {
    let sample = br#"<?xml version="1.0"?>
<rss version="2.0">
  <channel>
    <title>Test Feed</title>
    <item>
      <id>1</id>
      <title>Article 1</title>
    </item>
    <item>
      <id>2</id>
      <title>Article 2</title>
    </item>
  </channel>
</rss>"#;
    let detection = detect_xml(sample).expect("Should detect XML");
    assert!(detection.record_element.is_some(), "Should detect a record element");
    assert_eq!(detection.record_element, Some("item".to_string()));
}

#[test]
fn test_pipe_delimited_csv_detection() {
    let csv_data = br#""ProductID"|"SKU"|"ProductName"|"Description"|"URL"|"ImageURL"|"Category"|"Size"|"Price"|"DiscountPrice"|"Stock"
"SKU001"|"PROD-2024-001"|"Blue Winter Jacket"|"<ul>A warm jacket for winter</ul>"|"https://example.com/jacket"|"https://example.com/jacket.jpg"|"Clothing > Outerwear > Jackets"|"M, L, XL"|"89.99"|""|"150"
"SKU002"|"PROD-2024-002"|"Cotton T-Shirt"|"<ul>Comfortable daily wear</ul>"|"https://example.com/tshirt"|"https://example.com/tshirt.jpg"|"Clothing > Tops > T-Shirts"|"S, M, L, XL, XXL"|"24.99"|"19.99"|"500"
"SKU003"|"PROD-2024-003"|"Black Jeans"|"<ul>Classic denim pants</ul>"|"https://example.com/jeans"|"https://example.com/jeans.jpg"|"Clothing > Bottoms > Jeans"|"28, 30, 32, 34, 36"|"59.99"|""|"200""#;
    let format = detect_format(csv_data);
    assert_eq!(format, Some(Format::Csv));
    let csv_info = detect_csv(csv_data);
    assert!(csv_info.is_some());
    let csv_info = csv_info.unwrap();
    assert_eq!(csv_info.delimiter, b'|');
    assert_eq!(csv_info.fields.len(), 11);
    assert_eq!(csv_info.fields[0], "ProductID");
    assert_eq!(csv_info.fields[2], "ProductName");
}

#[test]
fn test_pipe_delimited_csv_with_html_content() {
    let csv_data = br#""ItemID"|"Barcode"|"ItemName"|"LongDescription"|"Link"|"PictureLink"|"ProductCategory"|"Variant"|"RegularPrice"|"SalePrice"|"Quantity"
"101"|"EAN-123456"|"Gaming Mouse"|"<div>High performance mouse with RGB lighting</div>"|"https://shop.com/mouse"|"https://shop.com/img/mouse.jpg"|"Electronics > Peripherals > Mice"|"Black, RGB"|"49.99"|"39.99"|"250"
"102"|"EAN-654321"|"Wireless Keyboard"|"<div>Ergonomic design for long typing sessions</div>"|"https://shop.com/keyboard"|"https://shop.com/img/keyboard.jpg"|"Electronics > Peripherals > Keyboards"|"White"|"79.99"|""|"100""#;
    let format = detect_format(csv_data);
    assert_eq!(format, Some(Format::Csv));
}

#[test]
fn test_pipe_delimited_csv_single_column() {
    let csv_data = br#""Name"
"Alice"
"Bob"
"Charlie""#;
    let format = detect_format(csv_data);
    assert_ne!(format, Some(Format::Ndjson));
}

#[test]
fn test_quoted_strings_not_ndjson() {
    let csv_data = br#""Field1"|"Field2"|"Field3"
"Value1"|"Value2"|"Value3"
"Value4"|"Value5"|"Value6""#;
    let format = detect_format(csv_data);
    assert_eq!(format, Some(Format::Csv));
}

#[test]
fn test_actual_ndjson_still_detected() {
    let ndjson_data = br#"{"id": 1, "name": "Alice", "age": 30}
{"id": 2, "name": "Bob", "age": 25}
{"id": 3, "name": "Charlie", "age": 35}"#;
    let format = detect_format(ndjson_data);
    assert_eq!(format, Some(Format::Ndjson));
}

#[test]
fn test_json_array_not_ndjson() {
    let json_data = br#"[{"id": 1, "name": "Alice"}, {"id": 2, "name": "Bob"}]"#;
    let format = detect_format(json_data);
    assert_eq!(format, Some(Format::Json));
}

#[test]
fn test_csv_with_various_delimiters() {
    let comma_csv = br#""Name","Age","City"
"Alice","30","New York"
"Bob","25","Los Angeles""#;
    assert_eq!(detect_format(comma_csv), Some(Format::Csv));
    let tab_csv = b"\"Name\"\t\"Age\"\t\"City\"\n\"Alice\"\t\"30\"\t\"New York\"\n\"Bob\"\t\"25\"\t\"Los Angeles\"";
    assert_eq!(detect_format(tab_csv), Some(Format::Csv));
    let semi_csv = br#""Name";"Age";"City"
"Alice";"30";"New York"
"Bob";"25";"Los Angeles""#;
    assert_eq!(detect_format(semi_csv), Some(Format::Csv));
}

#[test]
fn detect_ndjson_field_union() {
    let sample = b"{\"a\":1,\"b\":2}\n{\"b\":3,\"c\":4}\n";
    let d = detect_ndjson(sample).unwrap();
    assert_eq!(d.fields, vec!["a", "b", "c"]);
}

#[test]
fn detect_format_deterministic_on_identical_input() {
    let sample = b"name,age\nAlice,30\n";
    let first = detect_format(sample);
    let second = detect_format(sample);
    assert_eq!(first, second);
    assert_eq!(first, Some(Format::Csv));
}
