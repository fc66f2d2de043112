//! Which way a directory of LDT and CSV files is converted.

use vstd::prelude::*;
use crate::ldt::types::{DEFAULT_CSV_DIR, DEFAULT_LDT_DIR};

verus! {

/// The way a directory is converted.
#[derive(Debug, Clone, Copy, PartialEq, Eq, Structural)]
pub enum Direction {
    /// Every LDT file becomes a CSV file.
    LdtToCsv,
    /// Every CSV file becomes an LDT file.
    CsvToLdt,
}

/// Why a directory cannot be converted.
#[derive(Debug, Clone, Copy, PartialEq, Eq, Structural)]
pub enum DirectionError {
    /// The directory holds both LDT and CSV files.
    Mixed,
    /// The directory holds neither.
    Empty,
}

/// The way a directory holding `ldt_count` LDT files and `csv_count` CSV
/// files is converted.
pub open spec fn direction_spec(ldt_count: nat, csv_count: nat) -> Result<Direction, DirectionError> {
    if ldt_count > 0 && csv_count > 0 {
        Err(DirectionError::Mixed)
    } else if ldt_count > 0 {
        Ok(Direction::LdtToCsv)
    } else if csv_count > 0 {
        Ok(Direction::CsvToLdt)
    } else {
        Err(DirectionError::Empty)
    }
}

/// Chooses how a directory is converted from the number of LDT and CSV
/// files in it: a directory must hold files of one kind only, and at least
/// one.
pub fn conversion_kind(ldt_count: usize, csv_count: usize) -> (r: Result<Direction, DirectionError>)
    ensures
        r == direction_spec(ldt_count as nat, csv_count as nat),
{
    if ldt_count > 0 && csv_count > 0 {
        Err(DirectionError::Mixed)
    } else if ldt_count > 0 {
        Ok(Direction::LdtToCsv)
    } else if csv_count > 0 {
        Ok(Direction::CsvToLdt)
    } else {
        Err(DirectionError::Empty)
    }
}

impl Direction {
    /// The directory that converted files go to where none is given.
    pub fn default_output_dir(&self) -> (r: &'static str)
        ensures
            r@ == (match *self {
                Direction::LdtToCsv => DEFAULT_CSV_DIR@,
                Direction::CsvToLdt => DEFAULT_LDT_DIR@,
            }),
    {
        match *self {
            Direction::LdtToCsv => DEFAULT_CSV_DIR,
            Direction::CsvToLdt => DEFAULT_LDT_DIR,
        }
    }
}

} // verus!
