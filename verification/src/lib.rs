pub mod buffer_pool;
pub mod bytes;
pub mod converter;
pub mod csv_parser;
pub mod csv_writer;
pub mod detect;
pub mod error;
pub mod format;
pub mod json;
pub mod json_canon;
pub mod json_out;
pub mod json_parser;
pub mod ndjson_parser;
pub mod stats;
pub mod timing;
pub mod transform;
pub mod xml_parser;

pub use buffer_pool::BufferPool;
pub use converter::Converter;
pub use csv_writer::CsvWriter;
pub use detect::{
    CsvDetection, JsonDetection, NdjsonDetection, StructureDetection, XmlDetection, detect_csv,
    detect_format, detect_json, detect_ndjson, detect_structure, detect_xml,
};
pub use format::{ConverterConfig, Format};
pub use transform::{
    CoerceErrorPolicy, CoerceSpec, FieldMapInput, MissingFieldPolicy, MissingRequiredPolicy,
    TimestampFormat, TransformConfigInput, TransformEngine, TransformMode, TransformPlan,
    TransformResult,
};
pub use xml_parser::{XmlConfig, XmlParser, XmlWriter};
pub use buffer_pool::PooledBuffer;
pub use csv_parser::CsvConfig;
pub use error::ConvertError;
pub use json_parser::JsonParser;
pub use ndjson_parser::NdjsonParser;
pub use stats::Stats;
pub use timing::Timer;
