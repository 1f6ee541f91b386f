//! Format tags and the converter configuration record.
use vstd::prelude::*;
use vstd::string::StringExecFns;
use vstd::string::StringSliceAdditionalSpecFns;
use crate::csv_parser::CsvConfig;
use crate::xml_parser::XmlConfig;
use crate::transform::TransformPlan;

verus! {

/// Supported input/output formats.
#[derive(Debug, Clone, Copy, PartialEq, Eq, Structural)]
pub enum Format {
    Csv,
    Ndjson,
    Json,
    Xml,
}

/// Lowercase an ASCII letter byte; other bytes pass through.
pub open spec fn lower_ascii_byte(b: u8) -> u8 {
    if 65 <= b <= 90 {
        (b + 32) as u8
    } else {
        b
    }
}

/// ASCII-lowercased copy of a byte sequence.
pub open spec fn lower_ascii(s: Seq<u8>) -> Seq<u8> {
    s.map_values(|b: u8| lower_ascii_byte(b))
}

/// The format a name denotes, compared ASCII-case-insensitively:
/// "csv", "ndjson" or "jsonl", "json", "xml"; anything else is unknown.
pub open spec fn spec_format_from(s: Seq<u8>) -> Option<Format> {
    let l = lower_ascii(s);
    if l == seq![99u8, 115u8, 118u8] {
        Some(Format::Csv)
    } else if l == seq![110u8, 100u8, 106u8, 115u8, 111u8, 110u8] || l == seq![
        106u8,
        115u8,
        111u8,
        110u8,
        108u8,
    ] {
        Some(Format::Ndjson)
    } else if l == seq![106u8, 115u8, 111u8, 110u8] {
        Some(Format::Json)
    } else if l == seq![120u8, 109u8, 108u8] {
        Some(Format::Xml)
    } else {
        None
    }
}

/// Compare `a`, lowered ASCII-wise, against `b`.
fn ascii_lower_eq(a: &[u8], b: &[u8]) -> (r: bool)
    ensures
        r == (lower_ascii(a@) == b@),
{
    if a.len() != b.len() {
        proof {
            assert(lower_ascii(a@).len() == a@.len());
        }
        return false;
    }
    let mut i: usize = 0;
    while i < a.len()
        invariant
            0 <= i <= a@.len(),
            a@.len() == b@.len(),
            forall|k: int| 0 <= k < i ==> lower_ascii_byte(a@[k]) == b@[k],
        decreases a@.len() - i,
    {
        let c = a[i];
        let low: u8 = if 65 <= c && c <= 90 {
            c + 32
        } else {
            c
        };
        if low != b[i] {
            proof {
                assert(lower_ascii(a@)[i as int] == lower_ascii_byte(a@[i as int]));
            }
            return false;
        }
        i = i + 1;
    }
    proof {
        assert(lower_ascii(a@) =~= b@);
    }
    true
}

impl Format {
    /// Parse a format name, accepting any ASCII casing.
    pub fn from_string(s: &str) -> (r: Option<Format>)
        ensures
            r == spec_format_from(s.spec_bytes()),
    {
        let b = s.as_bytes();
        if ascii_lower_eq(b, &[99u8, 115u8, 118u8]) {
            Some(Format::Csv)
        } else if ascii_lower_eq(b, &[110u8, 100u8, 106u8, 115u8, 111u8, 110u8]) || ascii_lower_eq(
            b,
            &[106u8, 115u8, 111u8, 110u8, 108u8],
        ) {
            Some(Format::Ndjson)
        } else if ascii_lower_eq(b, &[106u8, 115u8, 111u8, 110u8]) {
            Some(Format::Json)
        } else if ascii_lower_eq(b, &[120u8, 109u8, 108u8]) {
            Some(Format::Xml)
        } else {
            None
        }
    }

    /// The canonical lowercase name of this format. Parsing the name
    /// back yields the same format: the bytes clause feeds
    /// `spec_format_from`, which `from_string` is proved against.
    pub fn to_string_js(&self) -> (r: String)
        ensures
            (*self is Csv ==> r@ == "csv"@) && (*self is Ndjson ==> r@ == "ndjson"@) && (*self
                is Json ==> r@ == "json"@) && (*self is Xml ==> r@ == "xml"@),
            spec_format_from(vstd::utf8::encode_utf8(r@)) == Some(*self),
    {
        let r = match self {
            Format::Csv => String::from_str("csv"),
            Format::Ndjson => String::from_str("ndjson"),
            Format::Json => String::from_str("json"),
            Format::Xml => String::from_str("xml"),
        };
        proof {
            reveal_strlit("csv");
            reveal_strlit("ndjson");
            reveal_strlit("json");
            reveal_strlit("xml");
            assert(spec_format_from(vstd::utf8::encode_utf8(r@)) == Some(*self)) by {
                match self {
                    Format::Csv => {
                        assert(vstd::utf8::is_ascii_chars("csv"@));
                        vstd::utf8::is_ascii_chars_encode_utf8("csv"@);
                        assert(vstd::utf8::encode_utf8("csv"@) =~= seq![99u8, 115u8, 118u8]);
                        assert(lower_ascii(seq![99u8, 115u8, 118u8]) =~= seq![
                            99u8,
                            115u8,
                            118u8,
                        ]);
                    },
                    Format::Ndjson => {
                        assert(vstd::utf8::is_ascii_chars("ndjson"@));
                        vstd::utf8::is_ascii_chars_encode_utf8("ndjson"@);
                        assert(vstd::utf8::encode_utf8("ndjson"@) =~= seq![
                            110u8,
                            100u8,
                            106u8,
                            115u8,
                            111u8,
                            110u8,
                        ]);
                        assert(lower_ascii(seq![110u8, 100u8, 106u8, 115u8, 111u8, 110u8]) =~= seq![
                            110u8,
                            100u8,
                            106u8,
                            115u8,
                            111u8,
                            110u8,
                        ]);
                    },
                    Format::Json => {
                        assert(vstd::utf8::is_ascii_chars("json"@));
                        vstd::utf8::is_ascii_chars_encode_utf8("json"@);
                        assert(vstd::utf8::encode_utf8("json"@) =~= seq![
                            106u8,
                            115u8,
                            111u8,
                            110u8,
                        ]);
                        assert(lower_ascii(seq![106u8, 115u8, 111u8, 110u8]) =~= seq![
                            106u8,
                            115u8,
                            111u8,
                            110u8,
                        ]);
                    },
                    Format::Xml => {
                        assert(vstd::utf8::is_ascii_chars("xml"@));
                        vstd::utf8::is_ascii_chars_encode_utf8("xml"@);
                        assert(vstd::utf8::encode_utf8("xml"@) =~= seq![120u8, 109u8, 108u8]);
                        assert(lower_ascii(seq![120u8, 109u8, 108u8]) =~= seq![
                            120u8,
                            109u8,
                            108u8,
                        ]);
                        assert(lower_ascii(seq![120u8, 109u8, 108u8])[0] == 120u8);
                    },
                }
            }
        }
        r
    }
}

/// Converter configuration: the pipeline's endpoints and tuning knobs.
pub struct ConverterConfig {
    pub input_format: Format,
    pub output_format: Format,
    pub chunk_target_bytes: usize,
    pub enable_stats: bool,
    pub csv_config: Option<CsvConfig>,
    pub xml_config: Option<XmlConfig>,
    pub transform: Option<TransformPlan>,
}

impl ConverterConfig {
    /// A fresh configuration for the given endpoints, with the defaults
    /// the engine documents: a one-megabyte output target, statistics off,
    /// default CSV and XML tuning, and no transform.
    pub fn new(input_format: Format, output_format: Format) -> (r: ConverterConfig)
        ensures
            r.input_format == input_format,
            r.output_format == output_format,
            r.chunk_target_bytes == 1048576usize,
            r.enable_stats == false,
            r.csv_config is Some,
            r.xml_config is Some,
            r.transform is None,
    {
        ConverterConfig {
            input_format,
            output_format,
            chunk_target_bytes: 1048576,
            enable_stats: false,
            csv_config: Some(CsvConfig::new_default()),
            xml_config: Some(XmlConfig::new_default()),
            transform: None,
        }
    }

    pub fn with_chunk_size(self, bytes: usize) -> (r: ConverterConfig)
        ensures
            r == (ConverterConfig { chunk_target_bytes: bytes, ..self }),
    {
        ConverterConfig { chunk_target_bytes: bytes, ..self }
    }

    pub fn with_stats(self, enable: bool) -> (r: ConverterConfig)
        ensures
            r == (ConverterConfig { enable_stats: enable, ..self }),
    {
        ConverterConfig { enable_stats: enable, ..self }
    }

    pub fn with_csv_config(self, config: CsvConfig) -> (r: ConverterConfig)
        ensures
            r == (ConverterConfig { csv_config: Some(config), ..self }),
    {
        ConverterConfig { csv_config: Some(config), ..self }
    }

    pub fn with_xml_config(self, config: XmlConfig) -> (r: ConverterConfig)
        ensures
            r == (ConverterConfig { xml_config: Some(config), ..self }),
    {
        ConverterConfig { xml_config: Some(config), ..self }
    }

    pub fn with_transform(self, transform: TransformPlan) -> (r: ConverterConfig)
        ensures
            r == (ConverterConfig { transform: Some(transform), ..self }),
    {
        ConverterConfig { transform: Some(transform), ..self }
    }
}

} // verus!
