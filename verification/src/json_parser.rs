//! The JSON validator: a cheap byte-level prefix check, and a full
//! structural parse used to validate or minify whole documents.
use vstd::prelude::*;
use vstd::string::StringExecFns;
use crate::bytes::is_ws;
use crate::error::ConvertError;
use crate::json::{is_valid_json, skip_ws, skip_ws_exec, spec_parse, parse_json, lemma_skip_ws};
use crate::json_out::ser;

verus! {

/// Bytes a JSON document can begin with: an object, array, string,
/// `true`, `false`, `null`, or a number.
pub open spec fn valid_start(b: u8) -> bool {
    b == 123 || b == 91 || b == 34 || b == 116 || b == 102 || b == 110 || b == 45 || (48 <= b
        <= 57)
}

/// The quick heuristic: after leading whitespace a plausible first byte
/// remains.
pub open spec fn quick_valid(s: Seq<u8>) -> bool {
    let i = skip_ws(s, 0);
    i < s.len() && valid_start(s[i])
}

/// JSON parsing front end.
pub struct JsonParser {
    use_simd: bool,
}

impl JsonParser {
    pub fn new() -> (r: JsonParser)
        ensures
            true,
    {
        JsonParser { use_simd: false }
    }

    /// Cheap prefix check: whitespace-trimmed input starts with a byte
    /// that can begin a JSON document.
    pub fn quick_validate(&self, data: &[u8]) -> (r: bool)
        ensures
            r == quick_valid(data@),
    {
        proof {
            lemma_skip_ws(data@, 0);
        }
        let i = skip_ws_exec(data, 0);
        if i >= data.len() {
            return false;
        }
        let b = data[i];
        b == 123 || b == 91 || b == 34 || b == 116 || b == 102 || b == 110 || b == 45 || (48 <= b
            && b <= 57)
    }

    /// Full structural validation: accepts exactly the complete JSON
    /// documents of the grammar.
    pub fn parse_and_validate(&self, data: &[u8]) -> (r: Result<(), ConvertError>)
        ensures
            r is Ok <==> is_valid_json(data@),
            r is Err ==> r->Err_0 is JsonParse,
    {
        proof {
            reveal(is_valid_json);
        }
        match parse_json(data) {
            Some(_) => Ok(()),
            None => Err(ConvertError::JsonParse(String::from_str("invalid JSON document"))),
        }
    }

    /// Parse and re-serialize: the document minified, with elements and
    /// keys in source order and numbers kept as their lexemes.
    pub fn parse_and_minify(&self, data: &[u8]) -> (r: Result<Vec<u8>, ConvertError>)
        ensures
            r is Ok <==> is_valid_json(data@),
            r is Ok ==> spec_parse(data@) == Some(spec_parse(data@)->Some_0) && r->Ok_0@ == ser(
                spec_parse(data@)->Some_0,
            ),
            r is Err ==> r->Err_0 is JsonParse,
    {
        proof {
            reveal(is_valid_json);
        }
        match parse_json(data) {
            Some(v) => Ok(crate::json_out::ser_to_vec(&v)),
            None => Err(ConvertError::JsonParse(String::from_str("invalid JSON document"))),
        }
    }

    /// Parse and re-serialize pretty-printed: two-space indentation,
    /// one element or member per line, elements and keys in source
    /// order and numbers kept as their lexemes.
    pub fn parse_and_prettify(&self, data: &[u8]) -> (r: Result<Vec<u8>, ConvertError>)
        ensures
            r is Ok <==> is_valid_json(data@),
            r is Ok ==> spec_parse(data@) == Some(spec_parse(data@)->Some_0) && r->Ok_0@
                == crate::json_out::serp(spec_parse(data@)->Some_0, 0),
            r is Err ==> r->Err_0 is JsonParse,
    {
        proof {
            reveal(is_valid_json);
        }
        match parse_json(data) {
            Some(v) => {
                let mut out: Vec<u8> = Vec::new();
                let ind: Vec<u8> = Vec::new();
                proof {
                    assert(ind@ =~= crate::json_out::pretty_indent(0));
                }
                crate::json_out::write_value_pretty(&mut out, &v, &ind, Ghost(0nat));
                proof {
                    assert(out@ =~= crate::json_out::serp(crate::json::jv(v), 0));
                }
                Ok(out)
            },
            None => Err(ConvertError::JsonParse(String::from_str("invalid JSON document"))),
        }
    }
}

} // verus!
