//! LDT database tables.

pub mod batch;
pub mod csv;
pub mod laws;
pub mod reader;
pub mod types;
pub mod writer;

pub use self::csv::{export_to_csv, import_from_csv, CsvError};
pub use self::reader::{LdtError, LdtReader};
pub use self::types::{
    FieldDef, FieldType, FieldValue, LdtHeader, Row, CSV_EXTENSION, CSV_ID_COLUMN_HEADER,
    CSV_OUTPUT_EXT, CSV_TYPE_SEPARATOR, DEFAULT_CSV_DIR, DEFAULT_DB_ID, DEFAULT_LDT_DIR,
    FIELD_NAME_SIZE, HEADER_SIZE, LDT_EXTENSION, LDT_OUTPUT_EXT, MAX_FIELDS,
};
pub use self::writer::LdtWriter;
