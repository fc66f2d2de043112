//! SPF resource packs.

pub mod crypto;
pub mod laws;
pub mod order;
pub mod reader;
pub mod registry;
pub mod types;
pub mod writer;

pub use self::reader::{SpfError, SpfIssue, SpfReader};
pub use self::registry::SpfRegistry;
pub use self::types::{FInfo, ResId, SpfHeader};
pub use self::writer::SpfWriter;
pub use self::types::{
    DESC_SIZE, FILE_NAME_MAX_LEN, FILE_NAME_SIZE, FINFO_SIZE, INSTANCE_ID_MASK, INSTANCE_ID_START,
    RESID_FILE_ID_SHIFT, SPF_ENCRYPTED_FLAG, SPF_EXTENSION, SPF_HEADER_SIZE,
};
