//! STG stage files.

pub mod laws;
pub mod reader;
pub mod types;
pub mod writer;

pub use self::reader::{StgError, StgReader};
pub use self::types::{MapGroup, MapInfo, MapLink, Stage, StageFile, FIXED_STRING_SIZE};
pub use self::writer::StgWriter;
pub use self::types::{
    DEFAULT_STG_INPUT, GROUP_TYPE_CASH, GROUP_TYPE_EVENT, GROUP_TYPE_EXP, GROUP_TYPE_FIELD,
    GROUP_TYPE_INDUN, GROUP_TYPE_MARKET, GROUP_TYPE_MINIMAP, GROUP_TYPE_PVP, GROUP_TYPE_REVIVE,
    GROUP_TYPE_SUMMON, JSON_EXTENSION, JSON_OUTPUT_EXT, STG_EXTENSION, STG_OUTPUT_EXT,
};
