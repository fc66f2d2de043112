//! LDT reader: the header and the rows of an LDT file held in memory.
//!
//! Layout: the 8716-byte header, then `num_rows` rows.  A row is its
//! primary key (i32) followed by one value per field, in field order:
//! NA takes no bytes, Num/TF/Per four, Num64 eight, and String/Alias/FID a
//! little-endian u16 length and that many bytes of encoded text.

use vstd::prelude::*;
use crate::bytes::{i32_le, i64_le, read_i32, read_i64, read_u16, read_u32, u16_le, u32_le, copy_range};
use crate::common::encoding::{decode, spec_decode, TextEncoding};
use crate::ldt::types::{
    fid_of_text, header_field_defs, header_of_bytes, header_types, parse_fid_text, FieldDef,
    FieldType, FieldValue, LdtHeader, Row, RowModel, ValueModel, HEADER_SIZE, MAX_FIELDS,
};

verus! {

/// Why an LDT file could not be read.
#[derive(Debug, Clone, Copy, PartialEq, Eq, Structural)]
pub enum LdtError {
    /// The data is shorter than the header.
    FileTooSmall,
    /// The header's field count is negative or above 128.
    InvalidFieldCount,
    /// The header's row count is negative.
    InvalidRowCount,
    /// The rows run past the end of the data.
    UnexpectedEof,
    /// The writer was given no field definitions.
    NoFields,
    /// The writer was given more than 128 field definitions.
    TooManyFields,
    /// A row value has another type than its field.
    TypeMismatch,
    /// A String is over 8192 GBK bytes, or an Alias over 4096.
    StringTooLong,
}

/// The value of type `t` stored at `pos`, and the position after it.
pub open spec fn parse_value_spec(data: Seq<u8>, pos: int, t: FieldType, enc: TextEncoding) -> Option<
    (ValueModel, int),
> {
    match t {
        FieldType::NA => Some((ValueModel::NA, pos)),
        FieldType::Num => if pos + 4 <= data.len() {
            Some((ValueModel::Num(i32_le(data, pos)), pos + 4))
        } else {
            None
        },
        FieldType::Per => if pos + 4 <= data.len() {
            Some((ValueModel::Per(u32_le(data, pos)), pos + 4))
        } else {
            None
        },
        FieldType::TF => if pos + 4 <= data.len() {
            Some((ValueModel::TF(i32_le(data, pos) != 0), pos + 4))
        } else {
            None
        },
        FieldType::Num64 => if pos + 8 <= data.len() {
            Some((ValueModel::Num64(i64_le(data, pos)), pos + 8))
        } else {
            None
        },
        _ => if pos + 2 > data.len() {
            None
        } else {
            let start = pos + 2;
            let end = start + u16_le(data, pos);
            if end > data.len() {
                None
            } else {
                let text = spec_decode(enc, data.subrange(start, end)).0;
                let v = match t {
                    FieldType::String => ValueModel::String(text),
                    FieldType::Alias => ValueModel::Alias(text),
                    _ => ValueModel::FID(fid_of_text(text).0, fid_of_text(text).1),
                };
                Some((v, end))
            }
        },
    }
}

/// The values of the first `n` field types, stored from `pos` on.
pub open spec fn parse_values_spec(
    data: Seq<u8>,
    pos: int,
    types: Seq<FieldType>,
    enc: TextEncoding,
    n: nat,
) -> Option<(Seq<ValueModel>, int)>
    decreases n,
{
    if n == 0 {
        Some((Seq::empty(), pos))
    } else {
        match parse_values_spec(data, pos, types, enc, (n - 1) as nat) {
            Some((vs, p)) => match parse_value_spec(data, p, types[n - 1], enc) {
                Some((v, q)) => Some((vs.push(v), q)),
                None => None,
            },
            None => None,
        }
    }
}

/// The row stored at `pos`, and the position after it.
pub open spec fn parse_row_spec(data: Seq<u8>, pos: int, types: Seq<FieldType>, enc: TextEncoding) -> Option<
    (RowModel, int),
> {
    if pos + 4 > data.len() {
        None
    } else {
        match parse_values_spec(data, pos + 4, types, enc, types.len()) {
            Some((vs, q)) => Some((RowModel { primary_key: i32_le(data, pos), values: vs }, q)),
            None => None,
        }
    }
}

/// The first `n` rows after the header, and the position after them.
pub open spec fn parse_rows_spec(data: Seq<u8>, types: Seq<FieldType>, enc: TextEncoding, n: nat) -> Option<
    (Seq<RowModel>, int),
>
    decreases n,
{
    if n == 0 {
        Some((Seq::empty(), HEADER_SIZE as int))
    } else {
        match parse_rows_spec(data, types, enc, (n - 1) as nat) {
            Some((rs, p)) => match parse_row_spec(data, p, types, enc) {
                Some((r, q)) => Some((rs.push(r), q)),
                None => None,
            },
            None => None,
        }
    }
}

/// All rows of a file with header `h`: none when it has no fields or no
/// rows; otherwise its `num_rows` rows, or `None` if they run past the end.
pub open spec fn read_rows_spec(data: Seq<u8>, h: LdtHeader, enc: TextEncoding) -> Option<Seq<RowModel>> {
    if h.num_fields == 0 || h.num_rows == 0 {
        Some(Seq::empty())
    } else {
        match parse_rows_spec(data, header_types(h), enc, h.num_rows as nat) {
            Some((rs, _)) => Some(rs),
            None => None,
        }
    }
}

/// The checks that opening an LDT file makes, in order.
pub open spec fn open_result_spec(data: Seq<u8>, h: LdtHeader) -> Result<(), LdtError> {
    if data.len() < HEADER_SIZE {
        Err(LdtError::FileTooSmall)
    } else if h.num_fields < 0 || h.num_fields > 128 {
        Err(LdtError::InvalidFieldCount)
    } else if h.num_rows < 0 {
        Err(LdtError::InvalidRowCount)
    } else {
        Ok(())
    }
}

/// An LDT file held in memory, with its header.
pub struct LdtReader {
    data: Vec<u8>,
    header: LdtHeader,
    encoding: TextEncoding,
}

impl LdtReader {
    #[verifier::type_invariant]
    spec fn inv(&self) -> bool {
        &&& self.data@.len() >= HEADER_SIZE
        &&& header_of_bytes(self.header, self.data@)
        &&& 0 <= self.header.num_fields <= 128
        &&& self.header.num_rows >= 0
    }

    /// The bytes of the file.
    pub closed spec fn bytes(&self) -> Seq<u8> {
        self.data@
    }

    /// The header of the file.
    pub closed spec fn spec_header(&self) -> LdtHeader {
        self.header
    }

    /// The encoding of the file's strings.
    pub closed spec fn spec_encoding(&self) -> TextEncoding {
        self.encoding
    }

    /// Opens an LDT file from its bytes: checks that it holds a header,
    /// that the field count is within 0..=128 and that the row count is not
    /// negative.
    pub fn from_bytes(data: Vec<u8>, encoding: TextEncoding) -> (r: Result<LdtReader, LdtError>)
        ensures
            data@.len() < HEADER_SIZE ==> r == Err::<LdtReader, LdtError>(LdtError::FileTooSmall),
            data@.len() >= HEADER_SIZE ==> forall|h: LdtHeader|
                header_of_bytes(h, data@) ==> match open_result_spec(data@, h) {
                    Ok(()) => r matches Ok(reader) && reader.bytes() == data@
                        && reader.spec_header() == h && reader.spec_encoding() == encoding,
                    Err(e) => r == Err::<LdtReader, LdtError>(e),
                },
    {
        if data.len() < HEADER_SIZE {
            return Err(LdtError::FileTooSmall);
        }
        let header = LdtHeader::from_bytes(data.as_slice());
        proof {
            lemma_header_unique(header, data@);
        }
        if header.num_fields < 0 || header.num_fields > 128 {
            return Err(LdtError::InvalidFieldCount);
        }
        if header.num_rows < 0 {
            return Err(LdtError::InvalidRowCount);
        }
        Ok(LdtReader { data, header, encoding })
    }

    /// The encoding used by this reader.
    pub fn encoding(&self) -> (r: TextEncoding)
        ensures
            r == self.spec_encoding(),
    {
        self.encoding
    }

    /// The LDT header.
    pub fn header(&self) -> (r: &LdtHeader)
        ensures
            *r == self.spec_header(),
            header_of_bytes(*r, self.bytes()),
    {
        proof {
            use_type_invariant(self);
        }
        &self.header
    }

    /// The database ID.
    pub fn db_id(&self) -> (r: i32)
        ensures
            r == self.spec_header().db_id,
    {
        self.header.db_id
    }

    /// The number of fields.
    pub fn field_count(&self) -> (r: i32)
        ensures
            r == self.spec_header().num_fields,
            0 <= r <= 128,
    {
        proof {
            use_type_invariant(self);
        }
        self.header.num_fields
    }

    /// The number of rows.
    pub fn row_count(&self) -> (r: i32)
        ensures
            r == self.spec_header().num_rows,
            r >= 0,
    {
        proof {
            use_type_invariant(self);
        }
        self.header.num_rows
    }

    /// The field definitions.
    pub fn field_defs(&self) -> (r: Vec<FieldDef>)
        ensures
            r@.map_values(|d: FieldDef| d@) == header_field_defs(self.spec_header()),
    {
        proof {
            use_type_invariant(self);
        }
        self.header.field_defs()
    }

    /// Reads the value of type `field_type` stored at `offset` of the file:
    /// nothing for NA, a little-endian `i32` for Num and TF (non-zero is
    /// true), the bits of a little-endian `f32` for Per, a little-endian
    /// `i64` for Num64, and for String, Alias and FID a little-endian `u16`
    /// length and that many bytes of text in the reader's encoding (FID text
    /// is `a,b`).  Gives the value and the offset after it, or
    /// `UnexpectedEof` where the file ends first.
    pub fn read_field_value(&self, offset: usize, field_type: FieldType) -> (r: Result<
        (FieldValue, usize),
        LdtError,
    >)
        ensures
            match parse_value_spec(self.bytes(), offset as int, field_type, self.spec_encoding()) {
                Some((v, q)) => r matches Ok((x, p)) && x@ == v && p == q,
                None => r == Err::<(FieldValue, usize), LdtError>(LdtError::UnexpectedEof),
            },
    {
        if offset > self.data.len() {
            return match field_type {
                FieldType::NA => Ok((FieldValue::NA, offset)),
                _ => Err(LdtError::UnexpectedEof),
            };
        }
        read_field_value(self.data.as_slice(), offset, field_type, self.encoding)
    }

    /// The size of the file in bytes.
    pub fn total_size(&self) -> (r: usize)
        ensures
            r == self.bytes().len(),
    {
        self.data.len()
    }

    /// Reads all rows: `Ok` with the rows that `read_rows_spec` describes,
    /// or `UnexpectedEof` when they run past the end of the file.
    pub fn read_rows(&self) -> (r: Result<Vec<Row>, LdtError>)
        ensures
            match read_rows_spec(self.bytes(), self.spec_header(), self.spec_encoding()) {
                Some(rows) => r matches Ok(v) && v@.map_values(|x: Row| x@) == rows,
                None => r == Err::<Vec<Row>, LdtError>(LdtError::UnexpectedEof),
            },
    {
        proof {
            use_type_invariant(self);
        }
        let num_fields = self.header.num_fields as usize;
        let num_rows = self.header.num_rows as usize;
        if num_fields == 0 || num_rows == 0 {
            let empty: Vec<Row> = Vec::new();
            assert(empty@.map_values(|x: Row| x@) =~= Seq::<RowModel>::empty());
            return Ok(empty);
        }
        let mut types: Vec<FieldType> = Vec::new();
        let mut t: usize = 0;
        while t < num_fields
            invariant
                t <= num_fields,
                num_fields == self.header.num_fields,
                types@ == header_types(self.header).take(t as int),
            decreases num_fields - t,
        {
            types.push(self.header.field_type(t));
            assert(header_types(self.header).take(t + 1) =~= header_types(self.header).take(
                t as int,
            ).push(header_types(self.header)[t as int]));
            t = t + 1;
        }
        assert(types@ =~= header_types(self.header));
        let mut rows: Vec<Row> = Vec::new();
        let mut offset: usize = HEADER_SIZE;
        let mut i: usize = 0;
        while i < num_rows
            invariant
                i <= num_rows,
                num_rows == self.header.num_rows,
                self.header.num_fields != 0,
                num_rows != 0,
                types@ == header_types(self.header),
                offset <= self.data@.len(),
                parse_rows_spec(self.data@, types@, self.encoding, i as nat) == Some(
                    (rows@.map_values(|x: Row| x@), offset as int),
                ),
            decreases num_rows - i,
        {
            match read_row(self.data.as_slice(), offset, &types, self.encoding) {
                Ok((row, next)) => {
                    let ghost before = rows@;
                    rows.push(row);
                    assert(rows@.map_values(|x: Row| x@) =~= before.map_values(|x: Row| x@).push(
                        row@,
                    ));
                    offset = next;
                },
                Err(e) => {
                    proof {
                        assert(parse_row_spec(self.data@, offset as int, types@, self.encoding) is None);
                        assert(parse_rows_spec(self.data@, types@, self.encoding, (i + 1) as nat) is None);
                        lemma_rows_fail_stays(self.data@, types@, self.encoding, (i + 1) as nat, num_rows as nat);
                        assert(e == LdtError::UnexpectedEof);
                    }
                    return Err(e);
                },
            }
            i = i + 1;
        }
        Ok(rows)
    }
}

proof fn lemma_header_unique(h: LdtHeader, data: Seq<u8>)
    requires
        header_of_bytes(h, data),
    ensures
        forall|g: LdtHeader| header_of_bytes(g, data) ==> g == h,
{
    broadcast use vstd::array::group_array_axioms;

    assert forall|g: LdtHeader| header_of_bytes(g, data) implies g == h by {
        assert forall|i: int| 0 <= i < 128 implies g.field_names[i] == h.field_names[i] by {
            assert(g.field_names[i] =~= h.field_names[i]);
        }
        assert(g.field_names =~= h.field_names);
        assert(g.field_types =~= h.field_types);
    }
}

proof fn lemma_rows_fail_stays(data: Seq<u8>, types: Seq<FieldType>, enc: TextEncoding, m: nat, n: nat)
    requires
        m <= n,
        parse_rows_spec(data, types, enc, m) is None,
    ensures
        parse_rows_spec(data, types, enc, n) is None,
    decreases n - m,
{
    if m < n {
        lemma_rows_fail_stays(data, types, enc, m + 1, n);
    }
}

proof fn lemma_values_fail_stays(
    data: Seq<u8>,
    pos: int,
    types: Seq<FieldType>,
    enc: TextEncoding,
    m: nat,
    n: nat,
)
    requires
        m <= n,
        parse_values_spec(data, pos, types, enc, m) is None,
    ensures
        parse_values_spec(data, pos, types, enc, n) is None,
    decreases n - m,
{
    if m < n {
        lemma_values_fail_stays(data, pos, types, enc, m + 1, n);
    }
}

/// Reads the value of type `t` at `pos`.
fn read_field_value(data: &[u8], pos: usize, t: FieldType, enc: TextEncoding) -> (r: Result<
    (FieldValue, usize),
    LdtError,
>)
    requires
        pos <= data@.len(),
    ensures
        match parse_value_spec(data@, pos as int, t, enc) {
            Some((v, q)) => r matches Ok((x, p)) && x@ == v && p == q,
            None => r == Err::<(FieldValue, usize), LdtError>(LdtError::UnexpectedEof),
        },
{
    let len = data.len();
    match t {
        FieldType::NA => Ok((FieldValue::NA, pos)),
        FieldType::Num => {
            if len - pos < 4 {
                return Err(LdtError::UnexpectedEof);
            }
            Ok((FieldValue::Num(read_i32(data, pos)), pos + 4))
        },
        FieldType::Per => {
            if len - pos < 4 {
                return Err(LdtError::UnexpectedEof);
            }
            Ok((FieldValue::Per(read_u32(data, pos)), pos + 4))
        },
        FieldType::TF => {
            if len - pos < 4 {
                return Err(LdtError::UnexpectedEof);
            }
            Ok((FieldValue::TF(read_i32(data, pos) != 0), pos + 4))
        },
        FieldType::Num64 => {
            if len - pos < 8 {
                return Err(LdtError::UnexpectedEof);
            }
            Ok((FieldValue::Num64(read_i64(data, pos)), pos + 8))
        },
        _ => {
            if len - pos < 2 {
                return Err(LdtError::UnexpectedEof);
            }
            let n = read_u16(data, pos) as usize;
            let start = pos + 2;
            if len - start < n {
                return Err(LdtError::UnexpectedEof);
            }
            let end = start + n;
            let raw = copy_range(data, start, end);
            let (text, _) = decode(enc, raw.as_slice());
            let v = match t {
                FieldType::String => FieldValue::String(text),
                FieldType::Alias => FieldValue::Alias(text),
                _ => {
                    let (a, b) = parse_fid_text(text.as_str());
                    FieldValue::FID(a, b)
                },
            };
            Ok((v, end))
        },
    }
}

/// Reads the row at `pos`: its primary key and one value per field type.
fn read_row(data: &[u8], pos: usize, types: &Vec<FieldType>, enc: TextEncoding) -> (r: Result<
    (Row, usize),
    LdtError,
>)
    requires
        pos <= data@.len(),
    ensures
        match parse_row_spec(data@, pos as int, types@, enc) {
            Some((row, q)) => r matches Ok((x, p)) && x@ == row && p == q && p <= data@.len(),
            None => r == Err::<(Row, usize), LdtError>(LdtError::UnexpectedEof),
        },
{
    if data.len() - pos < 4 {
        return Err(LdtError::UnexpectedEof);
    }
    let primary_key = read_i32(data, pos);
    let mut p = pos + 4;
    let mut values: Vec<FieldValue> = Vec::new();
    let mut i: usize = 0;
    while i < types.len()
        invariant
            i <= types@.len(),
            p <= data@.len(),
            parse_values_spec(data@, pos + 4, types@, enc, i as nat) == Some(
                (values@.map_values(|v: FieldValue| v@), p as int),
            ),
        decreases types@.len() - i,
    {
        match read_field_value(data, p, types[i], enc) {
            Ok((v, next)) => {
                let ghost before = values@;
                values.push(v);
                assert(values@.map_values(|x: FieldValue| x@) =~= before.map_values(
                    |x: FieldValue| x@,
                ).push(v@));
                proof {
                    lemma_value_end_in_bounds(data@, p as int, types@[i as int], enc);
                }
                p = next;
            },
            Err(e) => {
                proof {
                    lemma_values_fail_stays(data@, pos + 4, types@, enc, (i + 1) as nat, types@.len());
                }
                return Err(e);
            },
        }
        i = i + 1;
    }
    Ok((Row { primary_key, values }, p))
}

proof fn lemma_value_end_in_bounds(data: Seq<u8>, pos: int, t: FieldType, enc: TextEncoding)
    requires
        0 <= pos <= data.len(),
    ensures
        parse_value_spec(data, pos, t, enc) matches Some((_, q)) ==> pos <= q <= data.len(),
{
}

} // verus!
