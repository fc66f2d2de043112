//! LDT type definitions: field types, values, rows and the 8716-byte header.

use vstd::prelude::*;
use vstd::utf8::*;
use crate::bytes::{i32_le, read_i32, copy_range};
use crate::ldt::writer::{fid_string, fid_text};
use crate::common::text::{
    lemma_int_text, i32_to_string, i64_to_string, spec_i32_text, spec_i64_text, parse_i32, parse_i64, spec_parse_i32, spec_parse_i64, lower_text, spec_utf8_lossy,
    str_eq, to_lowercase, utf8_lossy,
};

verus! {

/// Maximum number of fields in an LDT table.
pub const MAX_FIELDS: usize = 128;

/// Size of each field name in bytes.
pub const FIELD_NAME_SIZE: usize = 64;

/// Total size of the LDT header in bytes:
/// db_id(4) + num_fields(4) + num_rows(4) + field_names(128*64) + field_types(128*4).
pub const HEADER_SIZE: usize = 8716;

/// Offset of the field type table inside the header.
pub const FIELD_TYPES_OFFSET: usize = 8204;

/// Footer padding size (61 bytes of spaces after "END").
pub const FOOTER_PADDING_SIZE: usize = 61;

/// Padding byte value (space character).
pub const PADDING_BYTE: u8 = 0x20;

/// Null terminator byte.
pub const NULL_TERMINATOR: u8 = 0x00;

/// CSV header of the ID column, with its type annotation.
pub const CSV_ID_COLUMN_HEADER: &'static str = "ID:int32";

/// Separator between field name and type in CSV headers.
pub const CSV_TYPE_SEPARATOR: char = ':';

/// Default database ID value.
pub const DEFAULT_DB_ID: i32 = 0;

/// LDT file extension (lowercase).
pub const LDT_EXTENSION: &'static str = "ldt";

/// CSV file extension (lowercase).
pub const CSV_EXTENSION: &'static str = "csv";

/// LDT output file extension (uppercase).
pub const LDT_OUTPUT_EXT: &'static str = ".LDT";

/// CSV output file extension.
pub const CSV_OUTPUT_EXT: &'static str = ".csv";

/// Default input directory for LDT files.
pub const DEFAULT_LDT_DIR: &'static str = "DATA/LDT";

/// Default output directory for CSV files.
pub const DEFAULT_CSV_DIR: &'static str = "DATA/CSV";

/// Field types supported by LDT files; the stored code of each is its
/// position in this list (NA = 0 ... Num64 = 7).
#[derive(Debug, Clone, Copy, PartialEq, Eq, Structural)]
pub enum FieldType {
    /// Invalid/unused field
    NA,
    /// String (length-prefixed)
    String,
    /// Boolean value
    TF,
    /// 32-bit integer
    Num,
    /// Float/percentage
    Per,
    /// Foreign key reference
    FID,
    /// Alias (length-prefixed)
    Alias,
    /// 64-bit integer
    Num64,
}

/// The stored code of a field type.
pub open spec fn field_type_code(t: FieldType) -> i32 {
    match t {
        FieldType::NA => 0,
        FieldType::String => 1,
        FieldType::TF => 2,
        FieldType::Num => 3,
        FieldType::Per => 4,
        FieldType::FID => 5,
        FieldType::Alias => 6,
        FieldType::Num64 => 7,
    }
}

/// The field type of a stored code; codes outside 0..=7 are NA.
pub open spec fn field_type_of_code(v: i32) -> FieldType {
    if v == 1 {
        FieldType::String
    } else if v == 2 {
        FieldType::TF
    } else if v == 3 {
        FieldType::Num
    } else if v == 4 {
        FieldType::Per
    } else if v == 5 {
        FieldType::FID
    } else if v == 6 {
        FieldType::Alias
    } else if v == 7 {
        FieldType::Num64
    } else {
        FieldType::NA
    }
}

/// The CSV type name of a field type.
pub open spec fn csv_type_name_spec(t: FieldType) -> Seq<char> {
    match t {
        FieldType::NA => "na"@,
        FieldType::String => "string"@,
        FieldType::TF => "bool"@,
        FieldType::Num => "int32"@,
        FieldType::Per => "float32"@,
        FieldType::FID => "fid"@,
        FieldType::Alias => "alias"@,
        FieldType::Num64 => "int64"@,
    }
}

/// The field type whose CSV type name is the lower-cased `l`.
pub open spec fn field_type_of_lower_name(l: Seq<char>) -> Option<FieldType> {
    if l == "na"@ {
        Some(FieldType::NA)
    } else if l == "string"@ {
        Some(FieldType::String)
    } else if l == "bool"@ {
        Some(FieldType::TF)
    } else if l == "int32"@ {
        Some(FieldType::Num)
    } else if l == "float32"@ {
        Some(FieldType::Per)
    } else if l == "fid"@ {
        Some(FieldType::FID)
    } else if l == "alias"@ {
        Some(FieldType::Alias)
    } else if l == "int64"@ {
        Some(FieldType::Num64)
    } else {
        None
    }
}

/// The stored field type codes: NA 0, String 1, TF 2, Num 3, Per 4, FID 5,
/// Alias 6, Num64 7; a stored code outside 0 to 7 reads as NA.
pub proof fn lemma_field_type_code_table()
    ensures
        field_type_code(FieldType::NA) == 0,
        field_type_code(FieldType::String) == 1,
        field_type_code(FieldType::TF) == 2,
        field_type_code(FieldType::Num) == 3,
        field_type_code(FieldType::Per) == 4,
        field_type_code(FieldType::FID) == 5,
        field_type_code(FieldType::Alias) == 6,
        field_type_code(FieldType::Num64) == 7,
        forall|v: i32| !(0 <= v <= 7) ==> #[trigger] field_type_of_code(v) == FieldType::NA,
        forall|v: i32| 0 <= v <= 7 ==> field_type_code(#[trigger] field_type_of_code(v)) == v,
{
}

/// The CSV type names: `na`, `string`, `bool`, `int32`, `float32`, `fid`,
/// `alias` and `int64`, each read back (lower-cased) as its type; no other
/// lower-cased name is a type.
pub proof fn lemma_csv_type_name_table()
    ensures
        csv_type_name_spec(FieldType::NA) == "na"@,
        csv_type_name_spec(FieldType::String) == "string"@,
        csv_type_name_spec(FieldType::TF) == "bool"@,
        csv_type_name_spec(FieldType::Num) == "int32"@,
        csv_type_name_spec(FieldType::Per) == "float32"@,
        csv_type_name_spec(FieldType::FID) == "fid"@,
        csv_type_name_spec(FieldType::Alias) == "alias"@,
        csv_type_name_spec(FieldType::Num64) == "int64"@,
        forall|l: Seq<char>|
            #[trigger] field_type_of_lower_name(l) matches Some(t) ==> l == csv_type_name_spec(t),
{
}

/// Whether values of a field type are stored length-prefixed.
pub open spec fn is_variable_length_spec(t: FieldType) -> bool {
    t == FieldType::String || t == FieldType::Alias || t == FieldType::FID
}

impl FieldType {
    /// Converts a stored code to a field type (unknown codes give NA).
    pub fn from_i32(value: i32) -> (r: FieldType)
        ensures
            r == field_type_of_code(value),
    {
        match value {
            1 => FieldType::String,
            2 => FieldType::TF,
            3 => FieldType::Num,
            4 => FieldType::Per,
            5 => FieldType::FID,
            6 => FieldType::Alias,
            7 => FieldType::Num64,
            _ => FieldType::NA,
        }
    }

    /// The stored code of this field type.
    pub fn to_i32(&self) -> (r: i32)
        ensures
            r == field_type_code(*self),
    {
        match *self {
            FieldType::NA => 0,
            FieldType::String => 1,
            FieldType::TF => 2,
            FieldType::Num => 3,
            FieldType::Per => 4,
            FieldType::FID => 5,
            FieldType::Alias => 6,
            FieldType::Num64 => 7,
        }
    }

    /// The CSV type name of this field type.
    pub fn csv_type_name(&self) -> (r: &'static str)
        ensures
            r@ == csv_type_name_spec(*self),
    {
        match *self {
            FieldType::NA => "na",
            FieldType::String => "string",
            FieldType::TF => "bool",
            FieldType::Num => "int32",
            FieldType::Per => "float32",
            FieldType::FID => "fid",
            FieldType::Alias => "alias",
            FieldType::Num64 => "int64",
        }
    }

    /// Parses a field type from its CSV type name, ignoring case.
    pub fn from_csv_type_name(name: &str) -> (r: Option<FieldType>)
        ensures
            r == field_type_of_lower_name(lower_text(name@)),
    {
        let lower = to_lowercase(name);
        FieldType::from_lower_csv_type_name(lower.as_str())
    }

    /// Parses a field type from its lower-cased CSV type name.
    pub fn from_lower_csv_type_name(l: &str) -> (r: Option<FieldType>)
        ensures
            r == field_type_of_lower_name(l@),
    {
        if str_eq(l, "na") {
            Some(FieldType::NA)
        } else if str_eq(l, "string") {
            Some(FieldType::String)
        } else if str_eq(l, "bool") {
            Some(FieldType::TF)
        } else if str_eq(l, "int32") {
            Some(FieldType::Num)
        } else if str_eq(l, "float32") {
            Some(FieldType::Per)
        } else if str_eq(l, "fid") {
            Some(FieldType::FID)
        } else if str_eq(l, "alias") {
            Some(FieldType::Alias)
        } else if str_eq(l, "int64") {
            Some(FieldType::Num64)
        } else {
            None
        }
    }

    /// Whether this field type uses variable-length storage.
    pub fn is_variable_length(&self) -> (r: bool)
        ensures
            r == is_variable_length_spec(*self),
    {
        match *self {
            FieldType::String | FieldType::Alias | FieldType::FID => true,
            _ => false,
        }
    }
}

/// The stored code of a field type gives the field type back.
pub proof fn lemma_field_type_code_roundtrip(t: FieldType)
    ensures
        field_type_of_code(field_type_code(t)) == t,
{
}

/// A field type's CSV type name, lower-cased, gives the field type back.
pub proof fn lemma_csv_type_name_roundtrip(t: FieldType)
    ensures
        field_type_of_lower_name(csv_type_name_spec(t)) == Some(t),
{
    reveal_strlit("na");
    reveal_strlit("string");
    reveal_strlit("bool");
    reveal_strlit("int32");
    reveal_strlit("float32");
    reveal_strlit("fid");
    reveal_strlit("alias");
    reveal_strlit("int64");
    let names = seq!["na"@, "string"@, "bool"@, "int32"@, "float32"@, "fid"@, "alias"@, "int64"@];
    assert(names[0].len() == 2 && names[1].len() == 6 && names[2].len() == 4 && names[3].len() == 5
        && names[4].len() == 7 && names[5].len() == 3 && names[6].len() == 5 && names[7].len() == 5);
    assert(names[3][0] != names[6][0] && names[6][0] != names[7][0]);
    assert(names[3][3] != names[7][3]);
}

/// A value of an LDT field.  `Per` holds the IEEE-754 bits of the stored
/// `f32`: the format only moves those bits.
#[derive(Debug, Clone, PartialEq)]
pub enum FieldValue {
    /// Invalid/empty value
    NA,
    /// String value
    String(String),
    /// Boolean value
    TF(bool),
    /// 32-bit integer
    Num(i32),
    /// Float value, as the bits of an `f32`
    Per(u32),
    /// Foreign key reference (SPF ID, row ID)
    FID(i32, i64),
    /// Alias string
    Alias(String),
    /// 64-bit integer
    Num64(i64),
}

/// The mathematical form of a field value: strings as their characters.
pub enum ValueModel {
    NA,
    String(Seq<char>),
    TF(bool),
    Num(i32),
    Per(u32),
    FID(i32, i64),
    Alias(Seq<char>),
    Num64(i64),
}

impl View for FieldValue {
    type V = ValueModel;

    open spec fn view(&self) -> ValueModel {
        match self {
            FieldValue::NA => ValueModel::NA,
            FieldValue::String(s) => ValueModel::String(s@),
            FieldValue::TF(b) => ValueModel::TF(*b),
            FieldValue::Num(n) => ValueModel::Num(*n),
            FieldValue::Per(p) => ValueModel::Per(*p),
            FieldValue::FID(a, b) => ValueModel::FID(*a, *b),
            FieldValue::Alias(s) => ValueModel::Alias(s@),
            FieldValue::Num64(n) => ValueModel::Num64(*n),
        }
    }
}

/// The field type of a value.
pub open spec fn value_type(v: ValueModel) -> FieldType {
    match v {
        ValueModel::NA => FieldType::NA,
        ValueModel::String(_) => FieldType::String,
        ValueModel::TF(_) => FieldType::TF,
        ValueModel::Num(_) => FieldType::Num,
        ValueModel::Per(_) => FieldType::Per,
        ValueModel::FID(_, _) => FieldType::FID,
        ValueModel::Alias(_) => FieldType::Alias,
        ValueModel::Num64(_) => FieldType::Num64,
    }
}

impl FieldValue {
    /// The field type of this value.
    pub fn field_type(&self) -> (r: FieldType)
        ensures
            r == value_type(self@),
    {
        match self {
            FieldValue::NA => FieldType::NA,
            FieldValue::String(_) => FieldType::String,
            FieldValue::TF(_) => FieldType::TF,
            FieldValue::Num(_) => FieldType::Num,
            FieldValue::Per(_) => FieldType::Per,
            FieldValue::FID(_, _) => FieldType::FID,
            FieldValue::Alias(_) => FieldType::Alias,
            FieldValue::Num64(_) => FieldType::Num64,
        }
    }
}

/// The CSV text of a value other than `Per`: empty for NA, the text of
/// strings and aliases, `true`/`false`, decimal numbers, and
/// `"{spf_id},{row_id}"` for foreign keys.
pub open spec fn csv_text(v: ValueModel) -> Seq<char> {
    match v {
        ValueModel::NA => Seq::empty(),
        ValueModel::String(s) => s,
        ValueModel::TF(b) => if b {
            "true"@
        } else {
            "false"@
        },
        ValueModel::Num(n) => spec_i32_text(n),
        ValueModel::Per(_) => Seq::empty(),
        ValueModel::FID(a, b) => fid_text(a, b),
        ValueModel::Alias(s) => s,
        ValueModel::Num64(n) => spec_i64_text(n),
    }
}

/// What a value reads back as from its CSV text with its own field type:
/// the value itself, but an empty string, whose empty cell stands for NA,
/// reads back as NA.
pub open spec fn csv_read_back(v: ValueModel) -> ValueModel {
    match v {
        ValueModel::String(s) => if s.len() == 0 {
            ValueModel::NA
        } else {
            v
        },
        _ => v,
    }
}

/// Whether a lower-cased CSV text of a boolean means true.
pub open spec fn is_true_text(l: Seq<char>) -> bool {
    l == "true"@ || l == "1"@ || l == "yes"@
}

/// A boolean CSV text means true exactly when, lower-cased, it is `true`,
/// `1` or `yes`.
pub proof fn lemma_true_text_table(l: Seq<char>)
    ensures
        is_true_text(l) <==> (l == "true"@ || l == "1"@ || l == "yes"@),
{
}

/// Whether a lower-cased CSV text of a boolean means true: `true`, `1` or
/// `yes`.
pub fn is_true_lower_text(l: &str) -> (r: bool)
    ensures
        r == is_true_text(l@),
{
    str_eq(l, "true") || str_eq(l, "1") || str_eq(l, "yes")
}

/// The value that the CSV text `s` of a field of type `ty` gives; the bits
/// of a `Per` value are `per_bits`.  Empty text gives the type's empty
/// value (NA for a string field, whose empty cells stand for NA values);
/// unparsable numbers give 0; a boolean is true for `true`, `1` or `yes` in
/// any case.
pub open spec fn value_of_csv(s: Seq<char>, ty: FieldType, per_bits: u32) -> ValueModel {
    match ty {
        FieldType::NA => ValueModel::NA,
        FieldType::String => if s.len() == 0 {
            ValueModel::NA
        } else {
            ValueModel::String(s)
        },
        FieldType::TF => ValueModel::TF(
            s.len() > 0 && is_true_text(lower_text(s)),
        ),
        FieldType::Num => ValueModel::Num(
            if s.len() == 0 {
                0
            } else {
                i32_or_zero(s)
            },
        ),
        FieldType::Per => ValueModel::Per(
            if s.len() == 0 {
                0
            } else {
                per_bits
            },
        ),
        FieldType::FID => if s.len() == 0 {
            ValueModel::FID(0, 0)
        } else {
            ValueModel::FID(fid_of_text(s).0, fid_of_text(s).1)
        },
        FieldType::Alias => ValueModel::Alias(s),
        FieldType::Num64 => ValueModel::Num64(
            if s.len() == 0 {
                0
            } else {
                i64_or_zero(s)
            },
        ),
    }
}

impl FieldValue {
    /// The CSV text of this value.  `per_text` gives the text of the
    /// `f32` whose bits a `Per` value holds.
    pub fn to_csv_string(&self, per_text: impl Fn(u32) -> String) -> (r: String)
        requires
            forall|b: u32| per_text.requires((b,)),
        ensures
            match self@ {
                ValueModel::Per(bits) => per_text.ensures((bits,), r),
                _ => r@ == csv_text(self@),
            },
    {
        match self {
            FieldValue::NA => String::new(),
            FieldValue::String(s) => s.clone(),
            FieldValue::TF(b) => if *b {
                String::from_str("true")
            } else {
                String::from_str("false")
            },
            FieldValue::Num(n) => i32_to_string(*n),
            FieldValue::Per(bits) => per_text(*bits),
            FieldValue::FID(a, b) => fid_string(*a, *b),
            FieldValue::Alias(s) => s.clone(),
            FieldValue::Num64(n) => i64_to_string(*n),
        }
    }

    /// The value that the CSV text `s` gives for a field of type `ty`.
    /// `per_bits` gives the bits of the `f32` that non-empty text of a
    /// `Per` field holds (0 where it is no number).
    pub fn from_csv_string(s: &str, ty: FieldType, per_bits: impl Fn(&str) -> u32) -> (r: FieldValue)
        requires
            per_bits.requires((s,)),
        ensures
            ty == FieldType::Per && s@.len() > 0 ==> (r@ matches ValueModel::Per(b) && per_bits.ensures(
                (s,),
                b,
            )),
            !(ty == FieldType::Per && s@.len() > 0) ==> r@ == value_of_csv(s@, ty, 0),
    {
        let empty = s.unicode_len() == 0;
        match ty {
            FieldType::NA => FieldValue::NA,
            FieldType::String => {
                if empty {
                    FieldValue::NA
                } else {
                    FieldValue::String(String::from_str(s))
                }
            },
            FieldType::TF => {
                if empty {
                    FieldValue::TF(false)
                } else {
                    let lower = to_lowercase(s);
                    FieldValue::TF(is_true_lower_text(lower.as_str()))
                }
            },
            FieldType::Num => {
                if empty {
                    FieldValue::Num(0)
                } else {
                    FieldValue::Num(
                        match parse_i32(s) {
                            Some(v) => v,
                            None => 0,
                        },
                    )
                }
            },
            FieldType::Per => {
                if empty {
                    FieldValue::Per(0)
                } else {
                    FieldValue::Per(per_bits(s))
                }
            },
            FieldType::FID => {
                if empty {
                    FieldValue::FID(0, 0)
                } else {
                    let (a, b) = parse_fid_text(s);
                    FieldValue::FID(a, b)
                }
            },
            FieldType::Alias => FieldValue::Alias(String::from_str(s)),
            FieldType::Num64 => {
                if empty {
                    FieldValue::Num64(0)
                } else {
                    FieldValue::Num64(
                        match parse_i64(s) {
                            Some(v) => v,
                            None => 0,
                        },
                    )
                }
            },
        }
    }
}

/// Field definition with name and type.
#[derive(Debug, Clone, PartialEq)]
pub struct FieldDef {
    /// Field name
    pub name: String,
    /// Field type
    pub field_type: FieldType,
}

/// The mathematical form of a field definition.
pub struct FieldDefModel {
    pub name: Seq<char>,
    pub field_type: FieldType,
}

impl View for FieldDef {
    type V = FieldDefModel;

    open spec fn view(&self) -> FieldDefModel {
        FieldDefModel { name: self.name@, field_type: self.field_type }
    }
}

/// A row in an LDT table.
#[derive(Debug, Clone, PartialEq)]
pub struct Row {
    /// Primary key (row ID, stored as i32 in LDT file)
    pub primary_key: i32,
    /// Field values
    pub values: Vec<FieldValue>,
}

/// The mathematical form of a row.
pub struct RowModel {
    pub primary_key: i32,
    pub values: Seq<ValueModel>,
}

impl View for Row {
    type V = RowModel;

    open spec fn view(&self) -> RowModel {
        RowModel { primary_key: self.primary_key, values: self.values@.map_values(|v: FieldValue| v@) }
    }
}

/// LDT file header (8716 bytes).
#[derive(Clone, Copy)]
pub struct LdtHeader {
    /// Database ID
    pub db_id: i32,
    /// Number of fields in the table
    pub num_fields: i32,
    /// Number of rows in the table
    pub num_rows: i32,
    /// Field names (128 fields * 64 bytes each = 8192 bytes)
    pub field_names: [[u8; FIELD_NAME_SIZE]; MAX_FIELDS],
    /// Field types (128 fields * 4 bytes each = 512 bytes)
    pub field_types: [i32; MAX_FIELDS],
}

/// Whether `h` holds the header stored at the start of `data`.
pub open spec fn header_of_bytes(h: LdtHeader, data: Seq<u8>) -> bool {
    &&& h.db_id == i32_le(data, 0)
    &&& h.num_fields == i32_le(data, 4)
    &&& h.num_rows == i32_le(data, 8)
    &&& forall|i: int, j: int|
        0 <= i < 128 && 0 <= j < 64 ==> #[trigger] h.field_names@[i]@[j] == data[12 + 64 * i + j]
    &&& forall|i: int| 0 <= i < 128 ==> #[trigger] h.field_types@[i] == i32_le(data, 8204 + 4 * i)
}

/// The bytes of a stored name up to its first NUL (all 64 if there is none).
pub open spec fn name_until_nul(b: Seq<u8>) -> Seq<u8>
    decreases b.len(),
{
    if b.len() == 0 {
        b
    } else if b[0] == 0 {
        Seq::empty()
    } else {
        seq![b[0]] + name_until_nul(b.drop_first())
    }
}

/// The name of field `index` of a header (empty past the last slot).
pub open spec fn header_field_name(h: LdtHeader, index: int) -> Seq<char> {
    if index < 0 || index >= 128 {
        Seq::empty()
    } else {
        spec_utf8_lossy(name_until_nul(h.field_names@[index]@))
    }
}

/// The type of field `index` of a header (NA past the last slot).
pub open spec fn header_field_type(h: LdtHeader, index: int) -> FieldType {
    if index < 0 || index >= 128 {
        FieldType::NA
    } else {
        field_type_of_code(h.field_types@[index])
    }
}

/// The field definitions of a header: its first `num_fields` slots.
pub open spec fn header_field_defs(h: LdtHeader) -> Seq<FieldDefModel> {
    Seq::new(
        h.num_fields as nat,
        |i: int| FieldDefModel { name: header_field_name(h, i), field_type: header_field_type(h, i) },
    )
}

/// The field types of a header's first `num_fields` slots.
pub open spec fn header_types(h: LdtHeader) -> Seq<FieldType> {
    Seq::new(h.num_fields as nat, |i: int| header_field_type(h, i))
}

/// Position of the first NUL in `b` (its length if there is none).
pub(crate) fn nul_position(b: &[u8]) -> (r: usize)
    ensures
        r <= b@.len(),
        name_until_nul(b@) == b@.take(r as int),
{
    let mut i: usize = 0;
    while i < b.len() && b[i] != 0
        invariant
            i <= b@.len(),
            forall|k: int| 0 <= k < i ==> b@[k] != 0,
        decreases b@.len() - i,
    {
        i = i + 1;
    }
    proof {
        lemma_name_until_nul(b@, i as int);
    }
    i
}

/// The name bytes of a slot are the bytes before its first NUL.
pub proof fn lemma_name_until_nul(b: Seq<u8>, n: int)
    requires
        0 <= n <= b.len(),
        forall|k: int| 0 <= k < n ==> b[k] != 0,
        n < b.len() ==> b[n] == 0,
    ensures
        name_until_nul(b) == b.take(n),
    decreases b.len(),
{
    if b.len() == 0 {
        assert(b.take(n) =~= b);
    } else if n == 0 {
        assert(b.take(0) =~= Seq::<u8>::empty());
    } else {
        lemma_name_until_nul(b.drop_first(), n - 1);
        assert(b.take(n) =~= seq![b[0]] + b.drop_first().take(n - 1));
    }
}

impl LdtHeader {
    /// Reads the header stored at the start of `data`.
    pub fn from_bytes(data: &[u8]) -> (h: LdtHeader)
        requires
            data@.len() >= HEADER_SIZE,
        ensures
            header_of_bytes(h, data@),
    {
        let mut field_names = [[0u8; FIELD_NAME_SIZE]; MAX_FIELDS];
        let mut i: usize = 0;
        while i < MAX_FIELDS
            invariant
                i <= 128,
                data@.len() >= 8716,
                forall|a: int, j: int|
                    0 <= a < i && 0 <= j < 64 ==> #[trigger] field_names@[a]@[j] == data@[12 + 64 * a
                        + j],
            decreases 128 - i,
        {
            let base = 12 + 64 * i;
            let mut slot = [0u8; FIELD_NAME_SIZE];
            let mut j: usize = 0;
            while j < FIELD_NAME_SIZE
                invariant
                    j <= 64,
                    i < 128,
                    base == 12 + 64 * i,
                    data@.len() >= 8716,
                    forall|k: int| 0 <= k < j ==> #[trigger] slot@[k] == data@[base + k],
                decreases 64 - j,
            {
                slot[j] = data[base + j];
                j = j + 1;
            }
            field_names[i] = slot;
            i = i + 1;
        }
        let mut field_types = [0i32; MAX_FIELDS];
        let mut t: usize = 0;
        while t < MAX_FIELDS
            invariant
                t <= 128,
                data@.len() >= 8716,
                forall|a: int| 0 <= a < t ==> #[trigger] field_types@[a] == i32_le(data@, 8204 + 4 * a),
            decreases 128 - t,
        {
            field_types[t] = read_i32(data, FIELD_TYPES_OFFSET + 4 * t);
            t = t + 1;
        }
        LdtHeader {
            db_id: read_i32(data, 0),
            num_fields: read_i32(data, 4),
            num_rows: read_i32(data, 8),
            field_names,
            field_types,
        }
    }

    /// The name of the field at `index` (bytes up to the first NUL, decoded
    /// as UTF-8 with invalid sequences replaced, so valid UTF-8 decodes
    /// exactly); empty for `index >= 128`.
    pub fn field_name(&self, index: usize) -> (r: String)
        ensures
            r@ == header_field_name(*self, index as int),
            index < 128 && valid_utf8(name_until_nul(self.field_names@[index as int]@)) ==> r@
                == decode_utf8(name_until_nul(self.field_names@[index as int]@)),
    {
        if index >= MAX_FIELDS {
            return String::new();
        }
        let slot = self.field_names[index];
        let end = nul_position(slot.as_slice());
        let bytes = copy_range(slot.as_slice(), 0, end);
        proof {
            assert(bytes@ =~= slot@.take(end as int));
        }
        utf8_lossy(bytes.as_slice())
    }

    /// The type of the field at `index`; NA for `index >= 128`.
    pub fn field_type(&self, index: usize) -> (r: FieldType)
        ensures
            r == header_field_type(*self, index as int),
    {
        if index >= MAX_FIELDS {
            return FieldType::NA;
        }
        FieldType::from_i32(self.field_types[index])
    }

    /// All field definitions: the first `num_fields` slots.
    pub fn field_defs(&self) -> (r: Vec<FieldDef>)
        requires
            self.num_fields >= 0,
        ensures
            r@.map_values(|d: FieldDef| d@) == header_field_defs(*self),
    {
        let num: usize = self.num_fields as usize;
        let mut defs: Vec<FieldDef> = Vec::new();
        let mut i: usize = 0;
        while i < num
            invariant
                i <= num,
                num == self.num_fields,
                defs@.len() == i,
                forall|k: int|
                    0 <= k < i ==> #[trigger] defs@[k]@ == (FieldDefModel {
                        name: header_field_name(*self, k),
                        field_type: header_field_type(*self, k),
                    }),
            decreases num - i,
        {
            defs.push(FieldDef { name: self.field_name(i), field_type: self.field_type(i) });
            i = i + 1;
        }
        assert(defs@.map_values(|d: FieldDef| d@) =~= header_field_defs(*self));
        defs
    }
}

/// `k` is the position of the only comma in `t`.
pub open spec fn fid_split_at(t: Seq<char>, k: int) -> bool {
    &&& 0 <= k < t.len()
    &&& t[k] == ','
    &&& forall|j: int| 0 <= j < t.len() && j != k ==> t[j] != ','
}

/// An `i32` parsed from text, or 0 when the text is not one.
pub open spec fn i32_or_zero(t: Seq<char>) -> i32 {
    match spec_parse_i32(t) {
        Some(v) => v,
        None => 0,
    }
}

/// An `i64` parsed from text, or 0 when the text is not one.
pub open spec fn i64_or_zero(t: Seq<char>) -> i64 {
    match spec_parse_i64(t) {
        Some(v) => v,
        None => 0,
    }
}

/// The foreign key in the text `"{spf_id},{row_id}"`: when the text holds
/// exactly one comma, the two parts parsed (0 for a part that does not
/// parse); otherwise `(0, 0)`.
pub open spec fn fid_of_text(t: Seq<char>) -> (i32, i64) {
    if exists|k: int| fid_split_at(t, k) {
        let k = choose|k: int| fid_split_at(t, k);
        (i32_or_zero(t.take(k)), i64_or_zero(t.skip(k + 1)))
    } else {
        (0, 0)
    }
}

/// The text of a foreign key parses back to it.
pub proof fn lemma_fid_text(a: i32, b: i64)
    ensures
        fid_of_text(fid_text(a, b)) == (a, b),
{
    reveal_strlit(",");
    let ta = spec_i32_text(a);
    let tb = spec_i64_text(b);
    lemma_int_text(a as int);
    lemma_int_text(b as int);
    let t = fid_text(a, b);
    let k = ta.len() as int;
    assert(t == ta + seq![','] + tb);
    assert forall|j: int| 0 <= j < t.len() && j != k implies t[j] != ',' by {
        if j < k {
            assert(t[j] == ta[j]);
        } else {
            assert(t[j] == tb[j - k - 1]);
        }
    }
    assert(fid_split_at(t, k));
    assert forall|k2: int| fid_split_at(t, k2) implies k2 == k by {}
    assert(t.take(k) =~= ta);
    assert(t.skip(k + 1) =~= tb);
}

/// Parses the text of a foreign key, `"{spf_id},{row_id}"`.
pub fn parse_fid_text(s: &str) -> (r: (i32, i64))
    ensures
        r == fid_of_text(s@),
{
    let n = s.unicode_len();
    let mut count: usize = 0;
    let mut first: usize = 0;
    let mut i: usize = 0;
    let ghost mut second: int = 0;
    while i < n
        invariant
            n == s@.len(),
            i <= n,
            count <= i,
            count >= 2 ==> 0 <= second < i && second != first && s@[second] == ',',
            count == 0 ==> forall|j: int| 0 <= j < i ==> s@[j] != ',',
            count >= 1 ==> first < i && s@[first as int] == ',' && forall|j: int|
                0 <= j < first ==> s@[j] != ',',
            count == 1 ==> forall|j: int| 0 <= j < i && j != first ==> s@[j] != ',',
        decreases n - i,
    {
        if s.get_char(i) == ',' {
            if count == 0 {
                first = i;
            } else if count == 1 {
                proof {
                    second = i as int;
                }
            }
            count = count + 1;
        }
        i = i + 1;
    }
    if count == 1 {
        proof {
            assert(fid_split_at(s@, first as int));
            assert forall|k: int| fid_split_at(s@, k) implies k == first by {}
        }
        let left = s.substring_char(0, first);
        let right = s.substring_char(first + 1, n);
        proof {
            assert(left@ =~= s@.take(first as int));
            assert(right@ =~= s@.skip(first + 1));
        }
        let a = match parse_i32(left) {
            Some(v) => v,
            None => 0,
        };
        let b = match parse_i64(right) {
            Some(v) => v,
            None => 0,
        };
        (a, b)
    } else {
        proof {
            if count == 0 {
                assert(!exists|k: int| fid_split_at(s@, k));
            } else {
                assert forall|k: int| !fid_split_at(s@, k) by {
                    if fid_split_at(s@, k) {
                        assert(s@[second] == ',' && s@[first as int] == ',');
                    }
                }
            }
        }
        (0, 0)
    }
}

} // verus!
