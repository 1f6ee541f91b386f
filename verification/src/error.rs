//! The error taxonomy of the conversion engine. Every fallible operation
//! of the library reports one of these tagged kinds.
use vstd::prelude::*;
use vstd::string::StringExecFns;

verus! {

/// A tagged conversion error. The payload carries a human-readable detail
/// message for the host to display.
#[derive(Debug)]
pub enum ConvertError {
    JsonParse(String),
    CsvParse(String),
    XmlParse(String),
    Utf8Error(String),
    InvalidConfig(String),
    BufferOverflow(String),
    Io(String),
}

impl ConvertError {
    /// The message prefix that names this error kind.
    pub open spec fn spec_prefix(&self) -> Seq<char> {
        match self {
            ConvertError::JsonParse(_) => "JSON parse error: "@,
            ConvertError::CsvParse(_) => "CSV parse error: "@,
            ConvertError::XmlParse(_) => "XML parse error: "@,
            ConvertError::Utf8Error(_) => "UTF-8 decode error: "@,
            ConvertError::InvalidConfig(_) => "Invalid format configuration: "@,
            ConvertError::BufferOverflow(_) => "Buffer overflow: "@,
            ConvertError::Io(_) => "IO error: "@,
        }
    }

    /// The detail payload.
    pub open spec fn spec_detail(&self) -> Seq<char> {
        match self {
            ConvertError::JsonParse(m) => m@,
            ConvertError::CsvParse(m) => m@,
            ConvertError::XmlParse(m) => m@,
            ConvertError::Utf8Error(m) => m@,
            ConvertError::InvalidConfig(m) => m@,
            ConvertError::BufferOverflow(m) => m@,
            ConvertError::Io(m) => m@,
        }
    }

    /// Render the error as "kind: detail".
    pub fn message(&self) -> (r: String)
        ensures
            r@ == self.spec_prefix() + self.spec_detail(),
    {
        match self {
            ConvertError::JsonParse(m) => String::from_str("JSON parse error: ").concat(
                m.as_str(),
            ),
            ConvertError::CsvParse(m) => String::from_str("CSV parse error: ").concat(m.as_str()),
            ConvertError::XmlParse(m) => String::from_str("XML parse error: ").concat(m.as_str()),
            ConvertError::Utf8Error(m) => String::from_str("UTF-8 decode error: ").concat(
                m.as_str(),
            ),
            ConvertError::InvalidConfig(m) => String::from_str(
                "Invalid format configuration: ",
            ).concat(m.as_str()),
            ConvertError::BufferOverflow(m) => String::from_str("Buffer overflow: ").concat(
                m.as_str(),
            ),
            ConvertError::Io(m) => String::from_str("IO error: ").concat(m.as_str()),
        }
    }
}

} // verus!
