//! Text encodings and string helpers shared by the file formats.

pub mod encoding;
pub mod paths;
pub mod text;

pub use self::encoding::{encoding_from_name, TextEncoding, DEFAULT_ENCODING};
