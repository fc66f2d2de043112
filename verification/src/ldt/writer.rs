//! LDT writer: lays out a header, rows and the footer as bytes.

use vstd::prelude::*;
use vstd::utf8::encode_utf8;
use crate::bytes::{
    i32_bytes, i64_bytes, push_all, push_i32, push_i64, push_u16, push_u32, u16_bytes, u32_bytes,
};
use crate::common::encoding::{encode, spec_encode, TextEncoding};
use crate::common::text::{concat, i32_to_string, i64_to_string, spec_i32_text, spec_i64_text};
use crate::ldt::reader::LdtError;
use crate::ldt::types::{
    field_type_code, value_type, FieldDef, FieldDefModel, FieldType, FieldValue, Row, RowModel, ValueModel,
    FIELD_NAME_SIZE, MAX_FIELDS,
};

verus! {

/// Largest number of UTF-8 bytes of a string that the writer encodes (the
/// text encoder's limit on this machine).
pub const MAX_TEXT_BYTES: usize = usize::MAX / 16;

/// The text of a foreign key: `"{spf_id},{row_id}"`.
pub open spec fn fid_text(a: i32, b: i64) -> Seq<char> {
    spec_i32_text(a) + ","@ + spec_i64_text(b)
}

/// The text that a string-like value is stored as.
pub open spec fn value_text(v: ValueModel) -> Seq<char> {
    match v {
        ValueModel::String(s) => s,
        ValueModel::Alias(s) => s,
        ValueModel::FID(a, b) => fid_text(a, b),
        _ => Seq::empty(),
    }
}

/// Whether a value is stored length-prefixed.
pub open spec fn is_text_value(v: ValueModel) -> bool {
    v is String || v is Alias || v is FID
}

/// Largest number of GBK bytes of a String value.
pub const MAX_STRING_BYTES: usize = 8192;

/// Largest number of GBK bytes of an Alias value.
pub const MAX_ALIAS_BYTES: usize = 4096;

/// Whether the writer accepts the text of a value: a String of at most
/// 8192 GBK bytes, an Alias of at most 4096, and no text of more than
/// `MAX_TEXT_BYTES` UTF-8 bytes.
pub open spec fn value_fits(v: ValueModel) -> bool {
    &&& is_text_value(v) ==> encode_utf8(value_text(v)).len() <= MAX_TEXT_BYTES
    &&& v is String ==> spec_encode(TextEncoding::Gbk, value_text(v)).0.len() <= MAX_STRING_BYTES
    &&& v is Alias ==> spec_encode(TextEncoding::Gbk, value_text(v)).0.len() <= MAX_ALIAS_BYTES
}

/// The type of field `j` (NA past the last field).
pub open spec fn field_type_at(defs: Seq<FieldDefModel>, j: int) -> FieldType {
    if 0 <= j < defs.len() {
        defs[j].field_type
    } else {
        FieldType::NA
    }
}

/// Whether every value of every row has the type of its field.
pub open spec fn rows_typed(defs: Seq<FieldDefModel>, rows: Seq<RowModel>) -> bool {
    forall|i: int, j: int|
        0 <= i < rows.len() && 0 <= j < rows[i].values.len() ==> value_type(
            #[trigger] rows[i].values[j],
        ) == field_type_at(defs, j)
}

/// A length-prefixed byte string (the length is cut to 16 bits).
pub open spec fn var_bytes(e: Seq<u8>) -> Seq<u8> {
    u16_bytes(e.len() as u16) + e
}

/// The bytes of one value; text is always stored as GBK.
pub open spec fn value_bytes(v: ValueModel) -> Seq<u8> {
    match v {
        ValueModel::NA => Seq::empty(),
        ValueModel::Num(n) => i32_bytes(n),
        ValueModel::Per(p) => u32_bytes(p),
        ValueModel::TF(b) => i32_bytes(if b { 1 } else { 0 }),
        ValueModel::Num64(n) => i64_bytes(n),
        _ => var_bytes(spec_encode(TextEncoding::Gbk, value_text(v)).0),
    }
}

/// The bytes of the values, one after another.
pub open spec fn values_bytes(vs: Seq<ValueModel>) -> Seq<u8>
    decreases vs.len(),
{
    if vs.len() == 0 {
        Seq::empty()
    } else {
        values_bytes(vs.drop_last()) + value_bytes(vs.last())
    }
}

/// The bytes of a row: its primary key, then its values.
pub open spec fn row_bytes(r: RowModel) -> Seq<u8> {
    i32_bytes(r.primary_key) + values_bytes(r.values)
}

/// The bytes of the rows, one after another.
pub open spec fn rows_bytes(rs: Seq<RowModel>) -> Seq<u8>
    decreases rs.len(),
{
    if rs.len() == 0 {
        Seq::empty()
    } else {
        rows_bytes(rs.drop_last()) + row_bytes(rs.last())
    }
}

/// The 64-byte slot of a field name: its UTF-8 bytes cut to 63, a NUL, and
/// spaces.
pub open spec fn name_slot(name: Seq<char>) -> Seq<u8> {
    let b = encode_utf8(name);
    let n = if b.len() < 63 { b.len() as int } else { 63 };
    b.take(n) + seq![0u8] + Seq::new((63 - n) as nat, |i: int| 0x20u8)
}

/// The first `k` name slots: field names, then empty slots of zeros.
pub open spec fn name_slots(defs: Seq<FieldDefModel>, k: nat) -> Seq<u8>
    decreases k,
{
    if k == 0 {
        Seq::empty()
    } else {
        name_slots(defs, (k - 1) as nat) + if k - 1 < defs.len() {
            name_slot(defs[k - 1].name)
        } else {
            Seq::new(64, |i: int| 0u8)
        }
    }
}

/// The first `k` type slots: field type codes, then NA.
pub open spec fn type_slots(defs: Seq<FieldDefModel>, k: nat) -> Seq<u8>
    decreases k,
{
    if k == 0 {
        Seq::empty()
    } else {
        type_slots(defs, (k - 1) as nat) + i32_bytes(
            if k - 1 < defs.len() {
                field_type_code(defs[k - 1].field_type)
            } else {
                0
            },
        )
    }
}

/// The 8716 header bytes.
pub open spec fn header_bytes(db_id: i32, defs: Seq<FieldDefModel>, num_rows: i32) -> Seq<u8> {
    i32_bytes(db_id) + i32_bytes(defs.len() as i32) + i32_bytes(num_rows) + name_slots(defs, 128)
        + type_slots(defs, 128)
}

/// The footer: "END" and 61 spaces.
pub open spec fn footer_bytes() -> Seq<u8> {
    seq![0x45u8, 0x4e, 0x44] + Seq::new(61, |i: int| 0x20u8)
}

/// The bytes of a whole LDT file.
pub open spec fn ldt_file_bytes(db_id: i32, defs: Seq<FieldDefModel>, rows: Seq<RowModel>) -> Seq<u8> {
    header_bytes(db_id, defs, rows.len() as i32) + rows_bytes(rows) + footer_bytes()
}

/// Whether every value of every row can be encoded.
pub open spec fn rows_fit(rows: Seq<RowModel>) -> bool {
    forall|i: int, j: int|
        0 <= i < rows.len() && 0 <= j < rows[i].values.len() ==> value_fits(
            #[trigger] rows[i].values[j],
        )
}

/// What writing gives: `NoFields`, `TooManyFields`, `TypeMismatch`,
/// `StringTooLong`, or the file's bytes.
pub open spec fn write_result_spec(db_id: i32, defs: Seq<FieldDefModel>, rows: Seq<RowModel>) -> Result<
    Seq<u8>,
    LdtError,
> {
    if defs.len() == 0 {
        Err(LdtError::NoFields)
    } else if defs.len() > 128 {
        Err(LdtError::TooManyFields)
    } else if !rows_typed(defs, rows) {
        Err(LdtError::TypeMismatch)
    } else if !rows_fit(rows) {
        Err(LdtError::StringTooLong)
    } else {
        Ok(ldt_file_bytes(db_id, defs, rows))
    }
}

/// LDT file writer.
pub struct LdtWriter {
    db_id: i32,
    field_defs: Vec<FieldDef>,
    rows: Vec<Row>,
}

impl LdtWriter {
    /// The database ID.
    pub closed spec fn spec_db_id(&self) -> i32 {
        self.db_id
    }

    /// The field definitions.
    pub closed spec fn spec_field_defs(&self) -> Seq<FieldDefModel> {
        self.field_defs@.map_values(|d: FieldDef| d@)
    }

    /// The rows.
    pub closed spec fn spec_rows(&self) -> Seq<RowModel> {
        self.rows@.map_values(|r: Row| r@)
    }

    /// Creates a writer for the database ID, with no fields and no rows.
    pub fn new(db_id: i32) -> (r: LdtWriter)
        ensures
            r.spec_db_id() == db_id,
            r.spec_field_defs() == Seq::<FieldDefModel>::empty(),
            r.spec_rows() == Seq::<RowModel>::empty(),
    {
        let w = LdtWriter { db_id, field_defs: Vec::new(), rows: Vec::new() };
        assert(w.spec_field_defs() =~= Seq::<FieldDefModel>::empty());
        assert(w.spec_rows() =~= Seq::<RowModel>::empty());
        w
    }

    /// Adds a field definition, unless there are already 128.
    pub fn add_field(&mut self, name: &str, field_type: FieldType) -> (r: &mut Self)
        ensures
            r.spec_db_id() == old(self).spec_db_id(),
            r.spec_rows() == old(self).spec_rows(),
            r.spec_field_defs() == if old(self).spec_field_defs().len() < 128 {
                old(self).spec_field_defs().push(FieldDefModel { name: name@, field_type })
            } else {
                old(self).spec_field_defs()
            },
            *final(self) == *final(r),
    {
        if self.field_defs.len() < MAX_FIELDS {
            let def = FieldDef { name: name.to_owned(), field_type };
            let ghost before = self.field_defs@;
            self.field_defs.push(def);
            assert(self.field_defs@.map_values(|d: FieldDef| d@) =~= before.map_values(
                |d: FieldDef| d@,
            ).push(def@));
        }
        self
    }

    /// Replaces the field definitions.
    pub fn set_field_defs(&mut self, field_defs: Vec<FieldDef>) -> (r: &mut Self)
        ensures
            r.spec_db_id() == old(self).spec_db_id(),
            r.spec_rows() == old(self).spec_rows(),
            r.spec_field_defs() == field_defs@.map_values(|d: FieldDef| d@),
            *final(self) == *final(r),
    {
        self.field_defs = field_defs;
        self
    }

    /// Adds a row.
    pub fn add_row(&mut self, row: Row) -> (r: &mut Self)
        ensures
            r.spec_db_id() == old(self).spec_db_id(),
            r.spec_field_defs() == old(self).spec_field_defs(),
            r.spec_rows() == old(self).spec_rows().push(row@),
            *final(self) == *final(r),
    {
        let ghost before = self.rows@;
        let ghost rv = row@;
        self.rows.push(row);
        assert(self.rows@.map_values(|r: Row| r@) =~= before.map_values(|r: Row| r@).push(rv));
        self
    }

    /// Replaces all rows.
    pub fn set_rows(&mut self, rows: Vec<Row>) -> (r: &mut Self)
        ensures
            r.spec_db_id() == old(self).spec_db_id(),
            r.spec_field_defs() == old(self).spec_field_defs(),
            r.spec_rows() == rows@.map_values(|r: Row| r@),
            *final(self) == *final(r),
    {
        self.rows = rows;
        self
    }

    /// The number of fields.
    pub fn field_count(&self) -> (r: usize)
        ensures
            r == self.spec_field_defs().len(),
    {
        self.field_defs.len()
    }

    /// The number of rows.
    pub fn row_count(&self) -> (r: usize)
        ensures
            r == self.spec_rows().len(),
    {
        self.rows.len()
    }

    /// Lays out the whole LDT file: the header, each row, and the footer.
    pub fn to_bytes(&self) -> (r: Result<Vec<u8>, LdtError>)
        ensures
            match write_result_spec(self.spec_db_id(), self.spec_field_defs(), self.spec_rows()) {
                Ok(b) => r matches Ok(v) && v@ == b,
                Err(e) => r == Err::<Vec<u8>, LdtError>(e),
            },
    {
        if self.field_defs.len() == 0 {
            return Err(LdtError::NoFields);
        }
        if self.field_defs.len() > MAX_FIELDS {
            return Err(LdtError::TooManyFields);
        }
        if !rows_typed_exec(&self.field_defs, &self.rows) {
            return Err(LdtError::TypeMismatch);
        }
        if !rows_fit_exec(&self.rows) {
            return Err(LdtError::StringTooLong);
        }
        let mut out: Vec<u8> = Vec::new();
        write_header(&mut out, self.db_id, &self.field_defs, self.rows.len() as i32);
        write_rows(&mut out, &self.rows);
        write_footer(&mut out);
        assert(out@ =~= ldt_file_bytes(self.db_id, self.spec_field_defs(), self.spec_rows()));
        Ok(out)
    }
}

fn write_rows(out: &mut Vec<u8>, rows: &Vec<Row>)
    requires
        rows_fit(rows@.map_values(|x: Row| x@)),
    ensures
        final(out)@ == old(out)@ + rows_bytes(rows@.map_values(|x: Row| x@)),
{
    let ghost rs = rows@.map_values(|x: Row| x@);
    let mut i: usize = 0;
    while i < rows.len()
        invariant
            i <= rows@.len(),
            rs == rows@.map_values(|x: Row| x@),
            rows_fit(rs),
            out@ == old(out)@ + rows_bytes(rs.take(i as int)),
        decreases rows@.len() - i,
    {
        proof {
            assert forall|j: int| 0 <= j < rows@[i as int].values@.len() implies value_fits(
                #[trigger] rows@[i as int].values@[j]@,
            ) by {
                assert(rs[i as int].values[j] == rows@[i as int].values@[j]@);
            }
        }
        write_row(out, &rows[i]);
        proof {
            assert(rs.take(i + 1).drop_last() =~= rs.take(i as int));
            assert(rs.take(i + 1).last() == rows@[i as int]@);
            assert(out@ =~= old(out)@ + rows_bytes(rs.take(i + 1)));
        }
        i = i + 1;
    }
    assert(rs.take(rows@.len() as int) =~= rs);
}

fn write_footer(out: &mut Vec<u8>)
    ensures
        final(out)@ == old(out)@ + footer_bytes(),
{
    out.push(0x45);
    out.push(0x4e);
    out.push(0x44);
    let mut k: usize = 0;
    while k < 61
        invariant
            k <= 61,
            out@ == old(out)@ + seq![0x45u8, 0x4e, 0x44] + Seq::new(k as nat, |i: int| 0x20u8),
        decreases 61 - k,
    {
        out.push(0x20);
        assert(out@ =~= old(out)@ + seq![0x45u8, 0x4e, 0x44] + Seq::new((k + 1) as nat, |i: int| 0x20u8));
        k = k + 1;
    }
    assert(out@ =~= old(out)@ + footer_bytes());
}

fn value_fits_exec(v: &FieldValue) -> (r: bool)
    ensures
        r == value_fits(v@),
{
    match v {
        FieldValue::String(s) => {
            s.as_str().as_bytes().len() <= MAX_TEXT_BYTES && encode(
                TextEncoding::Gbk,
                s.as_str(),
            ).0.len() <= MAX_STRING_BYTES
        },
        FieldValue::Alias(s) => {
            s.as_str().as_bytes().len() <= MAX_TEXT_BYTES && encode(
                TextEncoding::Gbk,
                s.as_str(),
            ).0.len() <= MAX_ALIAS_BYTES
        },
        FieldValue::FID(a, b) => fid_string(*a, *b).as_str().as_bytes().len() <= MAX_TEXT_BYTES,
        _ => true,
    }
}

fn rows_typed_exec(defs: &Vec<FieldDef>, rows: &Vec<Row>) -> (r: bool)
    ensures
        r == rows_typed(defs@.map_values(|d: FieldDef| d@), rows@.map_values(|x: Row| x@)),
{
    let ghost ds = defs@.map_values(|d: FieldDef| d@);
    let ghost rs = rows@.map_values(|x: Row| x@);
    let mut i: usize = 0;
    while i < rows.len()
        invariant
            i <= rows@.len(),
            ds == defs@.map_values(|d: FieldDef| d@),
            rs == rows@.map_values(|x: Row| x@),
            forall|a: int, j: int|
                0 <= a < i && 0 <= j < rs[a].values.len() ==> value_type(
                    #[trigger] rs[a].values[j],
                ) == field_type_at(ds, j),
        decreases rows@.len() - i,
    {
        let row = &rows[i];
        let mut j: usize = 0;
        while j < row.values.len()
            invariant
                j <= row.values@.len(),
                row == rows@[i as int],
                ds == defs@.map_values(|d: FieldDef| d@),
                rs == rows@.map_values(|x: Row| x@),
                i < rows@.len(),
                forall|a: int, b: int|
                    0 <= a < i && 0 <= b < rs[a].values.len() ==> value_type(
                        #[trigger] rs[a].values[b],
                    ) == field_type_at(ds, b),
                forall|b: int|
                    0 <= b < j ==> value_type(#[trigger] rs[i as int].values[b]) == field_type_at(
                        ds,
                        b,
                    ),
            decreases row.values@.len() - j,
        {
            let expected = if j < defs.len() {
                defs[j].field_type
            } else {
                FieldType::NA
            };
            assert(rs[i as int].values[j as int] == row.values@[j as int]@);
            if row.values[j].field_type() != expected {
                return false;
            }
            j = j + 1;
        }
        i = i + 1;
    }
    true
}

fn rows_fit_exec(rows: &Vec<Row>) -> (r: bool)
    ensures
        r == rows_fit(rows@.map_values(|x: Row| x@)),
{
    let ghost rs = rows@.map_values(|x: Row| x@);
    let mut i: usize = 0;
    while i < rows.len()
        invariant
            i <= rows@.len(),
            rs == rows@.map_values(|x: Row| x@),
            forall|a: int, j: int|
                0 <= a < i && 0 <= j < rs[a].values.len() ==> value_fits(#[trigger] rs[a].values[j]),
        decreases rows@.len() - i,
    {
        let row = &rows[i];
        let mut j: usize = 0;
        while j < row.values.len()
            invariant
                j <= row.values@.len(),
                row == rows@[i as int],
                rs == rows@.map_values(|x: Row| x@),
                i < rows@.len(),
                forall|a: int, b: int|
                    0 <= a < i && 0 <= b < rs[a].values.len() ==> value_fits(#[trigger] rs[a].values[b]),
                forall|b: int| 0 <= b < j ==> value_fits(#[trigger] rs[i as int].values[b]),
            decreases row.values@.len() - j,
        {
            if !value_fits_exec(&row.values[j]) {
                assert(!value_fits(rs[i as int].values[j as int]));
                return false;
            }
            j = j + 1;
        }
        i = i + 1;
    }
    true
}

pub(crate) fn fid_string(a: i32, b: i64) -> (r: String)
    ensures
        r@ == fid_text(a, b),
{
    let left = concat(i32_to_string(a), ",");
    let right = i64_to_string(b);
    concat(left, right.as_str())
}

fn write_text(out: &mut Vec<u8>, text: &str)
    requires
        encode_utf8(text@).len() <= MAX_TEXT_BYTES,
    ensures
        final(out)@ == old(out)@ + var_bytes(spec_encode(TextEncoding::Gbk, text@).0),
{
    let (bytes, _) = encode(TextEncoding::Gbk, text);
    push_u16(out, bytes.len() as u16);
    push_all(out, bytes.as_slice());
    assert(final(out)@ =~= old(out)@ + var_bytes(spec_encode(TextEncoding::Gbk, text@).0));
}

fn write_value(out: &mut Vec<u8>, v: &FieldValue)
    requires
        value_fits(v@),
    ensures
        final(out)@ == old(out)@ + value_bytes(v@),
{
    match v {
        FieldValue::NA => {
            assert(old(out)@ + value_bytes(v@) =~= old(out)@);
        },
        FieldValue::Num(n) => push_i32(out, *n),
        FieldValue::Per(p) => push_u32(out, *p),
        FieldValue::TF(b) => push_i32(out, if *b { 1 } else { 0 }),
        FieldValue::Num64(n) => push_i64(out, *n),
        FieldValue::String(s) => write_text(out, s.as_str()),
        FieldValue::Alias(s) => write_text(out, s.as_str()),
        FieldValue::FID(a, b) => {
            let s = fid_string(*a, *b);
            write_text(out, s.as_str());
        },
    }
}

fn write_row(out: &mut Vec<u8>, row: &Row)
    requires
        forall|j: int| 0 <= j < row.values@.len() ==> value_fits(#[trigger] row.values@[j]@),
    ensures
        final(out)@ == old(out)@ + row_bytes(row@),
{
    push_i32(out, row.primary_key);
    let ghost vs = row@.values;
    let mut j: usize = 0;
    while j < row.values.len()
        invariant
            j <= row.values@.len(),
            vs == row@.values,
            forall|b: int| 0 <= b < row.values@.len() ==> value_fits(#[trigger] row.values@[b]@),
            out@ == old(out)@ + i32_bytes(row.primary_key) + values_bytes(vs.take(j as int)),
        decreases row.values@.len() - j,
    {
        let ghost before = out@;
        write_value(out, &row.values[j]);
        proof {
            assert(vs.take(j + 1).drop_last() =~= vs.take(j as int));
            assert(vs[j as int] == row.values@[j as int]@);
            assert(out@ =~= old(out)@ + i32_bytes(row.primary_key) + values_bytes(vs.take(j + 1)));
        }
        j = j + 1;
    }
    assert(vs.take(row.values@.len() as int) =~= vs);
    assert(out@ =~= old(out)@ + row_bytes(row@));
}

fn write_name_slot(out: &mut Vec<u8>, name: &str)
    ensures
        final(out)@ == old(out)@ + name_slot(name@),
{
    let bytes = name.as_bytes();
    let copy_len = if bytes.len() < 63 { bytes.len() } else { 63 };
    let mut i: usize = 0;
    while i < copy_len
        invariant
            i <= copy_len,
            copy_len <= bytes@.len(),
            copy_len <= 63,
            out@ == old(out)@ + bytes@.take(i as int),
        decreases copy_len - i,
    {
        out.push(bytes[i]);
        assert(bytes@.take(i + 1) =~= bytes@.take(i as int).push(bytes@[i as int]));
        i = i + 1;
    }
    out.push(0);
    let ghost mid = out@;
    let mut k: usize = copy_len;
    while k < 63
        invariant
            copy_len <= k <= 63,
            out@ == mid + Seq::new((k - copy_len) as nat, |i: int| 0x20u8),
        decreases 63 - k,
    {
        out.push(0x20);
        assert(out@ =~= mid + Seq::new((k + 1 - copy_len) as nat, |i: int| 0x20u8));
        k = k + 1;
    }
    assert(out@ =~= old(out)@ + name_slot(name@));
}

fn write_header(out: &mut Vec<u8>, db_id: i32, defs: &Vec<FieldDef>, num_rows: i32)
    requires
        defs@.len() <= 128,
        old(out)@.len() == 0,
    ensures
        final(out)@ == header_bytes(db_id, defs@.map_values(|d: FieldDef| d@), num_rows),
{
    let ghost dm = defs@.map_values(|d: FieldDef| d@);
    push_i32(out, db_id);
    push_i32(out, defs.len() as i32);
    push_i32(out, num_rows);
    let ghost start = out@;
    let mut i: usize = 0;
    while i < MAX_FIELDS
        invariant
            i <= 128,
            defs@.len() <= 128,
            dm == defs@.map_values(|d: FieldDef| d@),
            out@ == start + name_slots(dm, i as nat),
        decreases 128 - i,
    {
        if i < defs.len() {
            write_name_slot(out, defs[i].name.as_str());
        } else {
            let ghost before = out@;
            let mut k: usize = 0;
            while k < FIELD_NAME_SIZE
                invariant
                    k <= 64,
                    out@ == before + Seq::new(k as nat, |j: int| 0u8),
                decreases 64 - k,
            {
                out.push(0);
                assert(out@ =~= before + Seq::new((k + 1) as nat, |j: int| 0u8));
                k = k + 1;
            }
        }
        i = i + 1;
    }
    let ghost names_end = out@;
    let mut t: usize = 0;
    while t < MAX_FIELDS
        invariant
            t <= 128,
            defs@.len() <= 128,
            dm == defs@.map_values(|d: FieldDef| d@),
            out@ == names_end + type_slots(dm, t as nat),
        decreases 128 - t,
    {
        let code = if t < defs.len() { defs[t].field_type.to_i32() } else { 0 };
        push_i32(out, code);
        t = t + 1;
    }
    assert(out@ =~= header_bytes(db_id, dm, num_rows));
}

} // verus!
