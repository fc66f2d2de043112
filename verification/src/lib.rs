//! Readers, writers and converters for the LaTale client's resource formats:
//! SPF resource packs (with their ChaCha20 encryption), LDT tables and STG
//! stage files.

pub mod bytes;
pub mod common;
pub mod launch;
pub mod ldt;
pub mod spf;
pub mod sqlite;
pub mod stg;
