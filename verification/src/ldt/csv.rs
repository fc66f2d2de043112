//! The CSV form of an LDT table: a header row whose first column is
//! `ID:int32` and whose other columns are `name:type`, then one record per
//! row, the primary key first.

use vstd::prelude::*;
use crate::common::text::{concat, i32_to_string, parse_i32, spec_i32_text, spec_parse_i32, lower_text};
use crate::common::text::{ascii_lowercase, escape_quotes, is_ascii_text, lemma_int_text};
use vstd::utf8::encode_utf8;
use crate::ldt::laws::lemma_csv_text_reads_back;
use crate::ldt::types::{
    csv_read_back, csv_text, csv_type_name_spec, field_type_of_lower_name, value_of_csv,
    value_type, FieldDef,
    FieldDefModel, FieldType, FieldValue, Row, RowModel, ValueModel, CSV_ID_COLUMN_HEADER,
    DEFAULT_DB_ID,
};

verus! {

/// Why a CSV table could not be read or written.
#[derive(Debug, Clone, Copy, PartialEq, Eq, Structural)]
pub enum CsvError {
    /// The CSV text cannot be read: invalid UTF-8, or a record with another
    /// number of fields than the header.
    ReadFailed,
    /// A record's first column is not an `i32`.
    InvalidPrimaryKey,
    /// A row has another number of values than there are fields.
    UnequalRowLength,
}

/// Whether a `csv::Writer` with default settings quotes a field: where it
/// holds a comma, a quote, `\r` or `\n`.
pub open spec fn csv_needs_quotes(f: Seq<char>) -> bool {
    f.contains(',') || f.contains('"') || f.contains('\r') || f.contains('\n')
}

/// A field as a `csv::Writer` with default settings writes it: in quotes,
/// each quote doubled, where it needs them; else as it is.
pub open spec fn csv_field_text(f: Seq<char>) -> Seq<char> {
    if csv_needs_quotes(f) {
        seq!['"'] + escape_quotes(f) + seq!['"']
    } else {
        f
    }
}

/// The fields of a record as written, between commas.
pub open spec fn csv_joined(fields: Seq<Seq<char>>) -> Seq<char>
    decreases fields.len(),
{
    if fields.len() <= 1 {
        if fields.len() == 0 {
            Seq::empty()
        } else {
            csv_field_text(fields[0])
        }
    } else {
        csv_joined(fields.drop_last()) + seq![','] + csv_field_text(fields.last())
    }
}

/// The bytes that a `csv::Writer` with default settings writes for one
/// record: the fields between commas, then `\n`; a record that would
/// otherwise be an empty line (no field, or one empty field) is written as
/// `""`.
pub open spec fn spec_csv_record(fields: Seq<Seq<char>>) -> Seq<u8> {
    if fields.len() == 0 || (fields.len() == 1 && fields[0].len() == 0) {
        encode_utf8(seq!['"', '"', '\n'])
    } else {
        encode_utf8(csv_joined(fields) + seq!['\n'])
    }
}

/// What a `csv::Reader` with default settings reads from the bytes: the
/// header record (`None` where reading it fails), then each further record
/// (`None` for one that fails: bad UTF-8, or another number of fields than
/// the header).
pub uninterp spec fn spec_csv_read(data: Seq<u8>) -> (
    Option<Seq<Seq<char>>>,
    Seq<Option<Seq<Seq<char>>>>,
);

/// The text of the fields of a record.
pub open spec fn record_view(r: Vec<String>) -> Seq<Seq<char>> {
    r@.map_values(|s: String| s@)
}

/// The text of the fields of records.
pub open spec fn records_view(rs: Seq<Vec<String>>) -> Seq<Seq<Seq<char>>> {
    rs.map_values(|r: Vec<String>| record_view(r))
}

/// The text of the fields of a header record, where there is one.
pub open spec fn header_view(h: Option<Vec<String>>) -> Option<Seq<Seq<char>>> {
    match h {
        Some(v) => Some(record_view(v)),
        None => None,
    }
}

/// The text of records that were read, or `None` for those that failed.
pub open spec fn read_records_view(rs: Seq<Option<Vec<String>>>) -> Seq<Option<Seq<Seq<char>>>> {
    rs.map_values(
        |r: Option<Vec<String>>|
            match r {
                Some(v) => Some(record_view(v)),
                None => None,
            },
    )
}

/// The bytes of records written one after another.  A `csv::Writer` keeps
/// nothing from one record to the next but the field count of the first,
/// which it holds the others to.
pub open spec fn csv_bytes(recs: Seq<Seq<Seq<char>>>) -> Seq<u8>
    decreases recs.len(),
{
    if recs.len() == 0 {
        Seq::empty()
    } else {
        csv_bytes(recs.drop_last()) + spec_csv_record(recs.last())
    }
}

/// Writes one record with a new `csv::Writer` over a byte vector and gives
/// its bytes.  As the crate's source shows, the first record of a writer is
/// never refused, writing into a vector does not fail, and the bytes are
/// those `spec_csv_record` states: the default quote style quotes exactly
/// the fields that hold a delimiter, a quote or a line break, doubling
/// quotes, and writes `""` for a record with no bytes before its `\n`
/// terminator.
#[verifier::external_body]
fn csv_record_bytes(record: &Vec<String>) -> (r: Option<Vec<u8>>)
    ensures
        r is Some,
        r matches Some(b) ==> b@ == spec_csv_record(record_view(*record)),
{
    let mut writer = ::csv::Writer::from_writer(Vec::new());
    match writer.write_record(record) {
        Ok(()) => writer.into_inner().ok(),
        Err(_) => None,
    }
}

/// Whether records read back from the bytes a `csv::Writer` wrote for them:
/// there is at least one, all have the same number of fields, at least one,
/// and the first field does not start with U+FEFF (a reader drops a UTF-8
/// byte order mark at the start of its input).
pub open spec fn csv_records_read_back(recs: Seq<Seq<Seq<char>>>) -> bool {
    &&& recs.len() > 0
    &&& recs[0].len() > 0
    &&& forall|i: int| 0 <= i < recs.len() ==> #[trigger] recs[i].len() == recs[0].len()
    &&& !(recs[0][0].len() > 0 && recs[0][0][0] == '\u{feff}')
}

/// Whether a read gave `recs`: the first as the header, then each further
/// one.
pub open spec fn read_gives(
    r: (Option<Vec<String>>, Vec<Option<Vec<String>>>),
    recs: Seq<Seq<Seq<char>>>,
) -> bool {
    &&& r.0 matches Some(h) && record_view(h) == recs[0]
    &&& read_records_view(r.1@) == recs.drop_first().map_values(|x: Seq<Seq<char>>| Some(x))
}

/// Reads the header and then every record with a `csv::Reader` over the
/// bytes; what it gives is named by `spec_csv_read`.  As the crate's source
/// shows, the reader gives back the records that a writer with default
/// settings wrote, the first as the header: the writer quotes a field that
/// holds a comma, a quote, `\r` or `\n` (doubling quotes), and a lone
/// empty field, so no record reads as an empty line, and the reader keeps
/// spaces and holds every record to the header's field count.
#[verifier::external_body]
fn csv_read(data: &[u8]) -> (r: (Option<Vec<String>>, Vec<Option<Vec<String>>>))
    ensures
        spec_csv_read(data@) == (header_view(r.0), read_records_view(r.1@)),
        forall|recs: Seq<Seq<Seq<char>>>|
            #[trigger] csv_bytes(recs) == data@ && csv_records_read_back(recs) ==> read_gives(r, recs),
{
    let mut reader = ::csv::Reader::from_reader(data);
    let header = reader.headers().ok().map(|h| h.iter().map(String::from).collect());
    let records = reader
        .records()
        .map(|r| r.ok().map(|record| record.iter().map(String::from).collect()))
        .collect();
    (header, records)
}

/// The header column of a field: `name:type`.
pub open spec fn header_cell(d: FieldDefModel) -> Seq<char> {
    d.name + ":"@ + csv_type_name_spec(d.field_type)
}

/// The header record of a table.
pub open spec fn header_record(defs: Seq<FieldDefModel>) -> Seq<Seq<char>> {
    seq![CSV_ID_COLUMN_HEADER@] + defs.map_values(|d: FieldDefModel| header_cell(d))
}

/// Whether `c` is the CSV text of `v`; that of a `Per` value is a text that
/// `per_text` gives for its bits.
pub open spec fn is_cell_of<F: Fn(u32) -> String>(c: Seq<char>, v: ValueModel, per_text: F) -> bool {
    match v {
        ValueModel::Per(b) => exists|t: String| t@ == c && per_text.ensures((b,), t),
        _ => c == csv_text(v),
    }
}

/// Whether `rec` is the CSV record of `row`.
pub open spec fn is_record_of<F: Fn(u32) -> String>(
    rec: Seq<Seq<char>>,
    row: RowModel,
    per_text: F,
) -> bool {
    &&& rec.len() == row.values.len() + 1
    &&& rec[0] == spec_i32_text(row.primary_key)
    &&& forall|j: int|
        0 <= j < row.values.len() ==> is_cell_of(#[trigger] rec[j + 1], row.values[j], per_text)
}

/// Whether `recs` are the CSV records of a table: the header, then one
/// record per row.
pub open spec fn is_table_records<F: Fn(u32) -> String>(
    recs: Seq<Seq<Seq<char>>>,
    defs: Seq<FieldDefModel>,
    rows: Seq<RowModel>,
    per_text: F,
) -> bool {
    &&& recs.len() == rows.len() + 1
    &&& recs[0] == header_record(defs)
    &&& forall|i: int| 0 <= i < rows.len() ==> is_record_of(#[trigger] recs[i + 1], rows[i], per_text)
}

/// Whether every row has one value per field.
pub open spec fn rows_fit_defs(defs: Seq<FieldDefModel>, rows: Seq<RowModel>) -> bool {
    forall|i: int| 0 <= i < rows.len() ==> #[trigger] rows[i].values.len() == defs.len()
}

/// Whether no value of the rows is a `Per`, whose text is that of an `f32`.
pub open spec fn no_per_values(rows: Seq<RowModel>) -> bool {
    forall|i: int, j: int|
        #![trigger rows[i].values[j]]
        0 <= i < rows.len() && 0 <= j < rows[i].values.len() ==> !(rows[i].values[j] is Per)
}

/// The CSV record of a row without `Per` values: its primary key, then the
/// text of each value.
pub open spec fn row_record_spec(row: RowModel) -> Seq<Seq<char>> {
    seq![spec_i32_text(row.primary_key)] + row.values.map_values(|v: ValueModel| csv_text(v))
}

/// The CSV records of a table without `Per` values: the header, then one
/// record per row.
pub open spec fn table_records(defs: Seq<FieldDefModel>, rows: Seq<RowModel>) -> Seq<Seq<Seq<char>>> {
    seq![header_record(defs)] + rows.map_values(|x: RowModel| row_record_spec(x))
}

/// Where no value is a `Per`, the records of a table are `table_records`.
proof fn lemma_table_records<F: Fn(u32) -> String>(
    recs: Seq<Seq<Seq<char>>>,
    defs: Seq<FieldDefModel>,
    rows: Seq<RowModel>,
    per_text: F,
)
    requires
        is_table_records(recs, defs, rows, per_text),
        no_per_values(rows),
    ensures
        recs == table_records(defs, rows),
{
    let t = table_records(defs, rows);
    assert forall|i: int| 0 <= i < recs.len() implies #[trigger] recs[i] == t[i] by {
        if i > 0 {
            let row = rows[i - 1];
            assert(is_record_of(recs[(i - 1) + 1], row, per_text));
            let rr = row_record_spec(row);
            assert(t[i] == rr);
            assert forall|j: int| 0 <= j < rr.len() implies recs[i][j] == rr[j] by {
                if j > 0 {
                    assert(is_cell_of(recs[i][(j - 1) + 1], row.values[j - 1], per_text));
                    assert(!(rows[i - 1].values[j - 1] is Per));
                }
            }
            assert(recs[i] =~= rr);
        }
    }
    assert(recs =~= t);
}

/// The CSV record of a row: its primary key, then the text of each value.
fn row_record<F: Fn(u32) -> String>(row: &Row, per_text: &F) -> (r: Vec<String>)
    requires
        forall|b: u32| per_text.requires((b,)),
    ensures
        is_record_of(record_view(r), row@, *per_text),
{
    let mut rec: Vec<String> = Vec::new();
    rec.push(i32_to_string(row.primary_key));
    let mut j: usize = 0;
    while j < row.values.len()
        invariant
            j <= row.values@.len(),
            forall|b: u32| per_text.requires((b,)),
            rec@.len() == j + 1,
            rec@[0]@ == spec_i32_text(row.primary_key),
            forall|k: int| 0 <= k < j ==> is_cell_of(#[trigger] rec@[k + 1]@, row.values@[k]@, *per_text),
        decreases row.values@.len() - j,
    {
        let cell = row.values[j].to_csv_string(per_text);
        let ghost cv = cell@;
        proof {
            if let ValueModel::Per(b) = row.values@[j as int]@ {
                assert(cell@ == cv && per_text.ensures((b,), cell));
            }
        }
        rec.push(cell);
        j = j + 1;
    }
    proof {
        let rv = record_view(rec);
        assert forall|k: int| 0 <= k < row@.values.len() implies is_cell_of(
            #[trigger] rv[k + 1],
            row@.values[k],
            *per_text,
        ) by {
            assert(rv[k + 1] == rec@[k + 1]@);
            assert(row@.values[k] == row.values@[k]@);
        }
    }
    rec
}

/// Writes a table as CSV: the header, then one record per row; a `Per`
/// value is written as the text `per_text` gives for its bits.  Fails where
/// a row has another number of values than there are fields.
pub fn export_to_csv<F: Fn(u32) -> String>(
    field_defs: &[FieldDef],
    rows: &[Row],
    per_text: F,
) -> (r: Result<Vec<u8>, CsvError>)
    requires
        forall|b: u32| per_text.requires((b,)),
    ensures
        r is Ok <==> rows_fit_defs(
            field_defs@.map_values(|d: FieldDef| d@),
            rows@.map_values(|x: Row| x@),
        ),
        r is Err ==> r == Err::<Vec<u8>, CsvError>(CsvError::UnequalRowLength),
        r matches Ok(b) ==> exists|recs: Seq<Seq<Seq<char>>>|
            is_table_records(
                recs,
                field_defs@.map_values(|d: FieldDef| d@),
                rows@.map_values(|x: Row| x@),
                per_text,
            ) && b@ == csv_bytes(recs),
        r matches Ok(b) ==> (no_per_values(rows@.map_values(|x: Row| x@)) ==> b@ == csv_bytes(
            table_records(field_defs@.map_values(|d: FieldDef| d@), rows@.map_values(|x: Row| x@)),
        )),
{
    let ghost defs = field_defs@.map_values(|d: FieldDef| d@);
    let ghost rs = rows@.map_values(|x: Row| x@);
    let mut header: Vec<String> = Vec::new();
    header.push(String::from_str(CSV_ID_COLUMN_HEADER));
    let mut i: usize = 0;
    while i < field_defs.len()
        invariant
            i <= field_defs@.len(),
            defs == field_defs@.map_values(|d: FieldDef| d@),
            record_view(header) == header_record(defs.take(i as int)),
        decreases field_defs@.len() - i,
    {
        let d = &field_defs[i];
        let cell = concat(concat(d.name.clone(), ":"), d.field_type.csv_type_name());
        let ghost before = record_view(header);
        header.push(cell);
        proof {
            assert(defs.take(i + 1) =~= defs.take(i as int).push(defs[i as int]));
            assert(record_view(header) =~= before.push(header_cell(defs[i as int])));
            assert(header_record(defs.take(i + 1)) =~= header_record(defs.take(i as int)).push(
                header_cell(defs[i as int]),
            ));
        }
        i = i + 1;
    }
    assert(defs.take(field_defs@.len() as int) =~= defs);
    let mut records: Vec<Vec<String>> = Vec::new();
    records.push(header);
    let mut k: usize = 0;
    while k < rows.len()
        invariant
            k <= rows@.len(),
            forall|b: u32| per_text.requires((b,)),
            rs == rows@.map_values(|x: Row| x@),
            defs == field_defs@.map_values(|d: FieldDef| d@),
            records@.len() == k + 1,
            record_view(records@[0]) == header_record(defs),
            forall|m: int| 0 <= m < k ==> is_record_of(record_view(#[trigger] records@[m + 1]), rs[m], per_text),
        decreases rows@.len() - k,
    {
        let rec = row_record(&rows[k], &per_text);
        records.push(rec);
        k = k + 1;
    }
    let ghost recs = records_view(records@);
    proof {
        assert(recs[0] == header_record(defs));
        assert forall|m: int| 0 <= m < rs.len() implies is_record_of(#[trigger] recs[m + 1], rs[m], per_text) by {
            assert(recs[m + 1] == record_view(records@[m + 1]));
        }
        assert(is_table_records(recs, defs, rs, per_text));
    }
    // A row of another length than the header is refused.
    let width = records[0].len();
    let mut m: usize = 1;
    while m < records.len()
        invariant
            1 <= m <= records@.len(),
            recs == records_view(records@),
            width == recs[0].len(),
            defs == field_defs@.map_values(|d: FieldDef| d@),
            rs == rows@.map_values(|x: Row| x@),
            is_table_records(recs, defs, rs, per_text),
            forall|j: int| 1 <= j < m ==> #[trigger] recs[j].len() == width,
        decreases records@.len() - m,
    {
        assert(recs[m as int].len() == records@[m as int]@.len());
        if records[m].len() != width {
            proof {
                assert(is_record_of(recs[(m - 1) + 1], rs[m - 1], per_text));
                assert(!rows_fit_defs(defs, rs));
            }
            return Err(CsvError::UnequalRowLength);
        }
        m = m + 1;
    }
    proof {
        assert forall|j: int| 0 <= j < rs.len() implies #[trigger] rs[j].values.len() == defs.len() by {
            assert(is_record_of(recs[j + 1], rs[j], per_text));
            assert(recs[j + 1].len() == width);
        }
    }
    let mut out: Vec<u8> = Vec::new();
    let mut k: usize = 0;
    assert(recs.take(0) =~= Seq::<Seq<Seq<char>>>::empty());
    while k < records.len()
        invariant
            k <= records@.len(),
            recs == records_view(records@),
            defs == field_defs@.map_values(|d: FieldDef| d@),
            rs == rows@.map_values(|x: Row| x@),
            rows_fit_defs(defs, rs),
            is_table_records(recs, defs, rs, per_text),
            out@ == csv_bytes(recs.take(k as int)),
        decreases records@.len() - k,
    {
        let piece = csv_record_bytes(&records[k]);
        let piece = match piece {
            Some(b) => b,
            None => return Err(CsvError::UnequalRowLength),
        };
        proof {
            assert(recs.take(k + 1).drop_last() =~= recs.take(k as int));
            assert(recs.take(k + 1).last() == record_view(records@[k as int]));
        }
        crate::bytes::push_all(&mut out, piece.as_slice());
        k = k + 1;
    }
    assert(recs.take(records@.len() as int) =~= recs);
    proof {
        if no_per_values(rs) {
            lemma_table_records(recs, defs, rs, per_text);
        }
    }
    Ok(out)
}

/// `k` is the position of the first `:` in `t`.
pub open spec fn is_first_colon(t: Seq<char>, k: int) -> bool {
    &&& 0 <= k < t.len()
    &&& t[k] == ':'
    &&& forall|j: int| 0 <= j < k ==> t[j] != ':'
}

/// The text before the first `:` (all of it where there is none).
pub open spec fn before_colon(t: Seq<char>) -> Seq<char> {
    if exists|k: int| is_first_colon(t, k) {
        t.take(choose|k: int| is_first_colon(t, k))
    } else {
        t
    }
}

/// The text after the first `:` (empty where there is none).
pub open spec fn after_colon(t: Seq<char>) -> Seq<char> {
    if exists|k: int| is_first_colon(t, k) {
        t.skip((choose|k: int| is_first_colon(t, k)) + 1)
    } else {
        Seq::empty()
    }
}

/// The field type that a CSV type name gives, ignoring case; NA for an
/// unknown name.
pub open spec fn type_of_csv_name(t: Seq<char>) -> FieldType {
    match field_type_of_lower_name(lower_text(t)) {
        Some(ty) => ty,
        None => FieldType::NA,
    }
}

/// The field that a header column `name:type` defines: the name is the
/// text before the first `:`, the type the text between the first and any
/// second `:`; a column without `:` has type NA.
pub open spec fn header_def(h: Seq<char>) -> FieldDefModel {
    FieldDefModel {
        name: before_colon(h),
        field_type: if exists|k: int| is_first_colon(h, k) {
            type_of_csv_name(before_colon(after_colon(h)))
        } else {
            FieldType::NA
        },
    }
}

/// The fields that a header record defines: one per column after the first.
pub open spec fn header_defs(h: Seq<Seq<char>>) -> Seq<FieldDefModel> {
    if h.len() == 0 {
        Seq::empty()
    } else {
        h.skip(1).map_values(|c: Seq<char>| header_def(c))
    }
}

/// Position of the first `:` in `s`, if any.
fn first_colon(s: &str) -> (r: Option<usize>)
    ensures
        r matches Some(k) ==> is_first_colon(s@, k as int),
        r is None ==> forall|j: int| 0 <= j < s@.len() ==> s@[j] != ':',
{
    let n = s.unicode_len();
    let mut i: usize = 0;
    while i < n
        invariant
            n == s@.len(),
            i <= n,
            forall|j: int| 0 <= j < i ==> s@[j] != ':',
        decreases n - i,
    {
        if s.get_char(i) == ':' {
            return Some(i);
        }
        i = i + 1;
    }
    None
}

/// The text before the first `:` and, where there is one, the text after it.
fn split_colon(s: &str) -> (r: (String, Option<String>))
    ensures
        r.0@ == before_colon(s@),
        r.1 is Some <==> exists|k: int| is_first_colon(s@, k),
        r.1 matches Some(t) ==> t@ == after_colon(s@),
{
    match first_colon(s) {
        Some(k) => {
            proof {
                assert forall|k2: int| is_first_colon(s@, k2) implies k2 == k by {
                    if k2 < k {
                        assert(s@[k2] != ':');
                    } else if k2 > k {
                        assert(s@[k as int] != ':');
                    }
                }
            }
            let n = s.unicode_len();
            assert(k < n);
            let name = s.substring_char(0, k);
            let rest = s.substring_char(k + 1, n);
            proof {
                assert(name@ =~= s@.take(k as int));
                assert(rest@ =~= s@.skip(k + 1));
            }
            (String::from_str(name), Some(String::from_str(rest)))
        },
        None => {
            proof {
                assert(!exists|k: int| is_first_colon(s@, k));
            }
            (String::from_str(s), None)
        },
    }
}

/// The field that a header column defines.
fn def_of_header(h: &str) -> (r: FieldDef)
    ensures
        r@ == header_def(h@),
{
    let (name, rest) = split_colon(h);
    let field_type = match rest {
        Some(t) => {
            let (ty_text, _) = split_colon(t.as_str());
            match FieldType::from_csv_type_name(ty_text.as_str()) {
                Some(ty) => ty,
                None => FieldType::NA,
            }
        },
        None => FieldType::NA,
    };
    FieldDef { name, field_type }
}

/// The records that hold at least one field, in order.
pub open spec fn nonempty_records(recs: Seq<Seq<Seq<char>>>) -> Seq<Seq<Seq<char>>>
    decreases recs.len(),
{
    if recs.len() == 0 {
        recs
    } else if recs.last().len() > 0 {
        nonempty_records(recs.drop_last()).push(recs.last())
    } else {
        nonempty_records(recs.drop_last())
    }
}

/// The type of field `j` (NA past the last field).
pub open spec fn type_at(defs: Seq<FieldDefModel>, j: int) -> FieldType {
    if 0 <= j < defs.len() {
        defs[j].field_type
    } else {
        FieldType::NA
    }
}

/// Whether `v` is the value that the CSV text `c` gives for a field of type
/// `ty`; the bits of a non-empty `Per` text are those `per_bits` gives.
pub open spec fn is_value_of<F: Fn(&str) -> u32>(v: ValueModel, c: Seq<char>, ty: FieldType, per_bits: F) -> bool {
    if ty == FieldType::Per && c.len() > 0 {
        exists|x: &str, b: u32| x@ == c && per_bits.ensures((x,), b) && v == ValueModel::Per(b)
    } else {
        v == value_of_csv(c, ty, 0)
    }
}

/// Whether `row` is what the record `rec` gives: its primary key parsed
/// from the first column, then one value per further column.
pub open spec fn is_row_of<F: Fn(&str) -> u32>(
    row: RowModel,
    rec: Seq<Seq<char>>,
    defs: Seq<FieldDefModel>,
    per_bits: F,
) -> bool {
    &&& rec.len() > 0
    &&& spec_parse_i32(rec[0]) == Some(row.primary_key)
    &&& row.values.len() == rec.len() - 1
    &&& forall|j: int|
        0 <= j < row.values.len() ==> is_value_of(
            #[trigger] row.values[j],
            rec[j + 1],
            type_at(defs, j),
            per_bits,
        )
}

/// Whether some non-empty record has a first column that is no `i32`.
pub open spec fn has_bad_key(ne: Seq<Seq<Seq<char>>>) -> bool {
    exists|i: int| 0 <= i < ne.len() && spec_parse_i32(#[trigger] ne[i][0]) is None
}

/// The non-empty records among the first `k` are the first ones among all.
proof fn lemma_nonempty_prefix(recs: Seq<Seq<Seq<char>>>, k: int, n: int)
    requires
        0 <= k <= n <= recs.len(),
    ensures
        nonempty_records(recs.take(k)).len() <= nonempty_records(recs.take(n)).len(),
        nonempty_records(recs.take(n)).take(nonempty_records(recs.take(k)).len() as int)
            == nonempty_records(recs.take(k)),
    decreases n - k,
{
    if k == n {
        assert(nonempty_records(recs.take(n)).take(nonempty_records(recs.take(k)).len() as int)
            =~= nonempty_records(recs.take(k)));
    } else {
        lemma_nonempty_prefix(recs, k, n - 1);
        assert(recs.take(n).drop_last() =~= recs.take(n - 1));
        let a = nonempty_records(recs.take(n - 1));
        let b = nonempty_records(recs.take(n));
        let c = nonempty_records(recs.take(k));
        assert(b.take(c.len() as int) =~= a.take(c.len() as int));
    }
}

/// The fields of the records read, with an empty record for each that
/// failed.
pub open spec fn unwrap_records(items: Seq<Option<Seq<Seq<char>>>>) -> Seq<Seq<Seq<char>>> {
    items.map_values(
        |o: Option<Seq<Seq<char>>>|
            match o {
                Some(r) => r,
                None => Seq::empty(),
            },
    )
}

/// Record `k` is the first that failed.
pub open spec fn is_first_failure(items: Seq<Option<Seq<Seq<char>>>>, k: int) -> bool {
    &&& 0 <= k < items.len()
    &&& items[k] is None
    &&& forall|j: int| 0 <= j < k ==> #[trigger] items[j] is Some
}

/// Whether some record failed.
pub open spec fn read_failed(items: Seq<Option<Seq<Seq<char>>>>) -> bool {
    exists|k: int| is_first_failure(items, k)
}

/// The records before the first that failed (all of them if none did).
pub open spec fn records_read(items: Seq<Option<Seq<Seq<char>>>>) -> Seq<Seq<Seq<char>>> {
    if read_failed(items) {
        unwrap_records(items).take(choose|k: int| is_first_failure(items, k))
    } else {
        unwrap_records(items)
    }
}

/// Where record `k` is the first that failed, the records read are those
/// before it.
proof fn lemma_first_failure(items: Seq<Option<Seq<Seq<char>>>>, k: int)
    requires
        0 <= k < items.len(),
        items[k] is None,
        forall|j: int| 0 <= j < k ==> #[trigger] items[j] is Some,
    ensures
        read_failed(items),
        records_read(items) == unwrap_records(items).take(k),
{
    assert(is_first_failure(items, k));
    assert forall|k2: int| is_first_failure(items, k2) implies k2 == k by {
        if k2 < k {
            assert(items[k2] is Some);
        } else if k2 > k {
            assert(items[k] is Some);
        }
    }
}

/// Where the first `k` records did not fail, the records read start with
/// them.
proof fn lemma_records_read_prefix(items: Seq<Option<Seq<Seq<char>>>>, k: int)
    requires
        0 <= k <= items.len(),
        forall|j: int| 0 <= j < k ==> #[trigger] items[j] is Some,
    ensures
        records_read(items).len() >= k,
        records_read(items).take(k) == unwrap_records(items).take(k),
{
    if read_failed(items) {
        let c = choose|c: int| is_first_failure(items, c);
        if c < k {
            assert(items[c] is Some);
        }
        assert(unwrap_records(items).take(c).take(k) =~= unwrap_records(items).take(k));
    }
}

/// Whether a text holds no `:`.
pub open spec fn no_colon(t: Seq<char>) -> bool {
    forall|k: int| 0 <= k < t.len() ==> t[k] != ':'
}

/// Whether a table's CSV reads back as the table: every row has one value
/// per field, each of its field's type or NA in a string field, no field is
/// `Per` and no field name holds `:`.
pub open spec fn is_plain_table(defs: Seq<FieldDefModel>, rows: Seq<RowModel>) -> bool {
    &&& rows_fit_defs(defs, rows)
    &&& forall|j: int|
        0 <= j < defs.len() ==> #[trigger] defs[j].field_type != FieldType::Per && no_colon(
            defs[j].name,
        )
    &&& forall|i: int, j: int|
        #![trigger rows[i].values[j]]
        0 <= i < rows.len() && 0 <= j < defs.len() ==> value_fits_column(
            rows[i].values[j],
            defs[j].field_type,
        )
}

/// Whether a value can stand in a column of type `ty` of a CSV table: it
/// has the column's type, or it is NA in a string column (whose empty cell
/// reads back as NA).
pub open spec fn value_fits_column(v: ValueModel, ty: FieldType) -> bool {
    value_type(v) == ty || (v is NA && ty == FieldType::String)
}

/// The CSV type name of a field type holds no `:` and reads back as the
/// type: `FieldType::from_csv_type_name` gives the type for it.
pub proof fn lemma_type_name(ty: FieldType)
    ensures
        no_colon(csv_type_name_spec(ty)),
        field_type_of_lower_name(lower_text(csv_type_name_spec(ty))) == Some(ty),
        type_of_csv_name(csv_type_name_spec(ty)) == ty,
{
    reveal_strlit("na");
    reveal_strlit("string");
    reveal_strlit("bool");
    reveal_strlit("int32");
    reveal_strlit("float32");
    reveal_strlit("fid");
    reveal_strlit("alias");
    reveal_strlit("int64");
    let t = csv_type_name_spec(ty);
    assert(is_ascii_text(t));
    assert(ascii_lowercase(t) =~= t);
    assert(lower_text(t) == t);
    match ty {
        FieldType::NA => assert(field_type_of_lower_name("na"@) == Some(FieldType::NA)),
        FieldType::String => assert(field_type_of_lower_name("string"@) == Some(FieldType::String)),
        FieldType::TF => assert(field_type_of_lower_name("bool"@) == Some(FieldType::TF)),
        FieldType::Num => assert(field_type_of_lower_name("int32"@) == Some(FieldType::Num)),
        FieldType::Per => assert(field_type_of_lower_name("float32"@) == Some(FieldType::Per)),
        FieldType::FID => assert(field_type_of_lower_name("fid"@) == Some(FieldType::FID)),
        FieldType::Alias => {
            assert("alias"@[0] != "int32"@[0]);
            assert(field_type_of_lower_name("alias"@) == Some(FieldType::Alias));
        },
        FieldType::Num64 => {
            assert("int64"@[3] != "int32"@[3]);
            assert("int64"@[0] != "alias"@[0]);
            assert(field_type_of_lower_name("int64"@) == Some(FieldType::Num64));
        },
    }
}

/// The first `:` of a text is at one place.
proof fn lemma_first_colon_unique(t: Seq<char>, k1: int, k2: int)
    requires
        is_first_colon(t, k1),
        is_first_colon(t, k2),
    ensures
        k1 == k2,
{
    if k1 < k2 {
        assert(t[k1] != ':');
    } else if k2 < k1 {
        assert(t[k2] != ':');
    }
}

/// The header column of a field whose name holds no `:` defines the field.
proof fn lemma_header_def(d: FieldDefModel)
    requires
        no_colon(d.name),
    ensures
        header_def(header_cell(d)) == d,
{
    reveal_strlit(":");
    let t = header_cell(d);
    let tn = csv_type_name_spec(d.field_type);
    let k0 = d.name.len() as int;
    assert(t[k0] == ':');
    assert forall|j: int| 0 <= j < k0 implies t[j] != ':' by {
        assert(t[j] == d.name[j]);
    }
    assert(is_first_colon(t, k0));
    let k = choose|k: int| is_first_colon(t, k);
    lemma_first_colon_unique(t, k, k0);
    assert(t.take(k0) =~= d.name);
    assert(t.skip(k0 + 1) =~= tn);
    lemma_type_name(d.field_type);
    if exists|k: int| is_first_colon(tn, k) {
        let k3 = choose|k: int| is_first_colon(tn, k);
        assert(tn[k3] != ':');
    }
}

/// The records of a plain table are read back by a CSV reader, and its
/// header record defines its fields.
proof fn lemma_plain_table_read_back(defs: Seq<FieldDefModel>, rows: Seq<RowModel>)
    requires
        is_plain_table(defs, rows),
    ensures
        csv_records_read_back(table_records(defs, rows)),
        header_defs(header_record(defs)) == defs,
{
    reveal_strlit("ID:int32");
    let recs = table_records(defs, rows);
    assert(recs[0] == header_record(defs));
    assert(recs[0][0] == CSV_ID_COLUMN_HEADER@);
    assert forall|i: int| 0 <= i < recs.len() implies #[trigger] recs[i].len() == recs[0].len() by {
        if i > 0 {
            assert(recs[i] == row_record_spec(rows[i - 1]));
            assert(rows[i - 1].values.len() == defs.len());
        }
    }
    let h = header_record(defs);
    assert forall|j: int| 0 <= j < defs.len() implies #[trigger] header_defs(h)[j] == defs[j] by {
        assert(h.skip(1)[j] == header_cell(defs[j]));
        assert(no_colon(defs[j].name));
        lemma_header_def(defs[j]);
    }
    assert(header_defs(h) =~= defs);
}

/// Records that each hold a field are all non-empty records.
proof fn lemma_all_nonempty(recs: Seq<Seq<Seq<char>>>)
    requires
        forall|i: int| 0 <= i < recs.len() ==> #[trigger] recs[i].len() > 0,
    ensures
        nonempty_records(recs) == recs,
    decreases recs.len(),
{
    if recs.len() > 0 {
        lemma_all_nonempty(recs.drop_last());
        assert(recs.drop_last().push(recs.last()) =~= recs);
    }
}

/// Where the CSV reader gave the records of a plain table, reading gives
/// the table back.
proof fn lemma_import_plain<F: Fn(&str) -> u32>(
    defs: Seq<FieldDefModel>,
    rows: Seq<RowModel>,
    r: Result<(i32, Vec<FieldDef>, Vec<Row>), CsvError>,
    per_bits: F,
)
    requires
        is_plain_table(defs, rows),
        import_result(
            (
                Some(header_record(defs)),
                rows.map_values(|x: RowModel| row_record_spec(x)).map_values(
                    |x: Seq<Seq<char>>| Some(x),
                ),
            ),
            r,
            per_bits,
        ),
    ensures
        table_read_back(r, defs, rows),
{
    let rr = rows.map_values(|x: RowModel| row_record_spec(x));
    let items = rr.map_values(|x: Seq<Seq<char>>| Some(x));
    lemma_plain_table_read_back(defs, rows);
    if read_failed(items) {
        let k = choose|k: int| is_first_failure(items, k);
        assert(items[k] is Some);
    }
    assert(unwrap_records(items) =~= rr);
    assert(records_read(items) == rr);
    assert forall|i: int| 0 <= i < rr.len() implies #[trigger] rr[i].len() > 0 by {
        assert(rr[i] == row_record_spec(rows[i]));
    }
    lemma_all_nonempty(rr);
    assert forall|i: int| 0 <= i < rr.len() implies spec_parse_i32(#[trigger] rr[i][0]) == Some(
        rows[i].primary_key,
    ) by {
        assert(rr[i][0] == spec_i32_text(rows[i].primary_key));
        lemma_int_text(rows[i].primary_key as int);
    }
    assert(!has_bad_key(rr));
    let out = r->Ok_0.2@;
    let want = rows.map_values(|x: RowModel| read_back_row(x));
    assert forall|i: int| 0 <= i < rows.len() implies #[trigger] out[i]@ == want[i] by {
        let row = rows[i];
        let got = out[i]@;
        assert(is_row_of(got, rr[i], defs, per_bits));
        assert(rr[i] == row_record_spec(row));
        assert(rr[i][0] == spec_i32_text(row.primary_key));
        lemma_int_text(row.primary_key as int);
        assert forall|j: int| 0 <= j < got.values.len() implies #[trigger] got.values[j]
            == csv_read_back(row.values[j]) by {
            assert(is_value_of(got.values[j], rr[i][j + 1], type_at(defs, j), per_bits));
            assert(rr[i][j + 1] == csv_text(row.values[j]));
            assert(value_fits_column(rows[i].values[j], defs[j].field_type));
            assert(defs[j].field_type != FieldType::Per);
            if value_type(row.values[j]) == defs[j].field_type {
                lemma_csv_text_reads_back(row.values[j]);
            } else {
                assert(row.values[j] is NA);
                assert(csv_text(row.values[j]) =~= Seq::<char>::empty());
            }
        }
        assert(got.values =~= read_back_row(row).values);
    }
    assert(r->Ok_0.2@.map_values(|x: Row| x@) =~= want);
}

/// Whether `r` is what reading a table gives where the CSV reader gave
/// `read`: the fields from the header (its first column, the primary key,
/// is not a field), then one row per non-empty record, or the first error;
/// the database id is always 0.
pub open spec fn import_result<F: Fn(&str) -> u32>(
    read: (Option<Seq<Seq<char>>>, Seq<Option<Seq<Seq<char>>>>),
    r: Result<(i32, Vec<FieldDef>, Vec<Row>), CsvError>,
    per_bits: F,
) -> bool {
    match read {
        (None, _) => r == Err::<(i32, Vec<FieldDef>, Vec<Row>), CsvError>(CsvError::ReadFailed),
        (Some(h), items) => {
            let ne = nonempty_records(records_read(items));
            if has_bad_key(ne) {
                r == Err::<(i32, Vec<FieldDef>, Vec<Row>), CsvError>(CsvError::InvalidPrimaryKey)
            } else if read_failed(items) {
                r == Err::<(i32, Vec<FieldDef>, Vec<Row>), CsvError>(CsvError::ReadFailed)
            } else {
                &&& r is Ok
                &&& r->Ok_0.0 == DEFAULT_DB_ID
                &&& r->Ok_0.1@.map_values(|d: FieldDef| d@) == header_defs(h)
                &&& r->Ok_0.2@.len() == ne.len()
                &&& forall|i: int|
                    0 <= i < ne.len() ==> is_row_of(
                        #[trigger] r->Ok_0.2@[i]@,
                        ne[i],
                        header_defs(h),
                        per_bits,
                    )
            }
        },
    }
}

/// What a row reads back as from its CSV record: the same primary key and
/// values, but an empty string reads back as NA.
pub open spec fn read_back_row(row: RowModel) -> RowModel {
    RowModel {
        primary_key: row.primary_key,
        values: row.values.map_values(|v: ValueModel| csv_read_back(v)),
    }
}

/// Whether reading gave the table back: database id 0, the fields, and
/// each row as `read_back_row` says.
pub open spec fn table_read_back(
    r: Result<(i32, Vec<FieldDef>, Vec<Row>), CsvError>,
    defs: Seq<FieldDefModel>,
    rows: Seq<RowModel>,
) -> bool {
    &&& r is Ok
    &&& r->Ok_0.0 == DEFAULT_DB_ID
    &&& r->Ok_0.1@.map_values(|d: FieldDef| d@) == defs
    &&& r->Ok_0.2@.map_values(|x: Row| x@) == rows.map_values(|x: RowModel| read_back_row(x))
}

/// Reads a table from CSV bytes: the fields from the header (its first
/// column, the primary key, is not a field), then one row per non-empty
/// record.  A non-empty `Per` text is given to `per_bits` for the bits of
/// its `f32`.  The database id is always 0.
///
/// A table that `export_to_csv` wrote reads back: where every row has one
/// value per field, of the field's type or NA in a string field, no field
/// is `Per` and no field name holds `:`, the bytes of its records give the
/// fields and the rows, an empty string coming back as NA and NA staying
/// NA.
pub fn import_from_csv<F: Fn(&str) -> u32>(data: &[u8], per_bits: F) -> (r: Result<
    (i32, Vec<FieldDef>, Vec<Row>),
    CsvError,
>)
    requires
        forall|x: &str| per_bits.requires((x,)),
    ensures
        import_result(spec_csv_read(data@), r, per_bits),
        forall|defs: Seq<FieldDefModel>, rows: Seq<RowModel>|
            #[trigger] csv_bytes(table_records(defs, rows)) == data@ && is_plain_table(defs, rows)
                ==> table_read_back(r, defs, rows),
{
    let read = csv_read(data);
    let ghost rd = read;
    let (header, records) = read;
    let r = table_from_csv_records(header, records, per_bits);
    proof {
        assert forall|defs: Seq<FieldDefModel>, rows: Seq<RowModel>|
            #[trigger] csv_bytes(table_records(defs, rows)) == data@ && is_plain_table(
                defs,
                rows,
            ) implies table_read_back(r, defs, rows) by {
            let recs = table_records(defs, rows);
            lemma_plain_table_read_back(defs, rows);
            assert(read_gives(rd, recs));
            assert(recs.drop_first() =~= rows.map_values(|x: RowModel| row_record_spec(x)));
            lemma_import_plain(defs, rows, r, per_bits);
        }
    }
    r
}

/// Reads a table from what the CSV reader gave: the header record, where
/// reading it did not fail, and each further record, `None` for one that
/// failed.
#[verifier::loop_isolation(false)]
pub fn table_from_csv_records<F: Fn(&str) -> u32>(
    header: Option<Vec<String>>,
    records: Vec<Option<Vec<String>>>,
    per_bits: F,
) -> (r: Result<(i32, Vec<FieldDef>, Vec<Row>), CsvError>)
    requires
        forall|x: &str| per_bits.requires((x,)),
    ensures
        import_result((header_view(header), read_records_view(records@)), r, per_bits),
{
    let ghost read = (header_view(header), read_records_view(records@));
    let header = match header {
        Some(h) => h,
        None => return Err(CsvError::ReadFailed),
    };
    let ghost hv = record_view(header);
    let ghost items = read_records_view(records@);
    let ghost recs = unwrap_records(items);
    assert(read == (Some(hv), items));
    let mut defs: Vec<FieldDef> = Vec::new();
    let mut i: usize = 1;
    while i < header.len()
        invariant
            1 <= i,
            i <= header@.len() || i == 1,
            hv == record_view(header),
            defs@.len() == i - 1,
            forall|m: int| 0 <= m < i - 1 ==> #[trigger] defs@[m]@ == header_def(hv[m + 1]),
        decreases header@.len() - i,
    {
        defs.push(def_of_header(header[i].as_str()));
        i = i + 1;
    }
    let ghost dv = defs@.map_values(|d: FieldDef| d@);
    proof {
        assert(hv.len() == header@.len());
        if hv.len() > 0 {
            assert(i == hv.len());
            assert(dv.len() == header_defs(hv).len());
            assert forall|m: int| 0 <= m < dv.len() implies #[trigger] dv[m] == header_defs(hv)[m] by {
                assert(dv[m] == defs@[m]@);
                assert(hv.skip(1)[m] == hv[m + 1]);
            }
        }
        assert(dv =~= header_defs(hv));
    }
    let mut rows: Vec<Row> = Vec::new();
    let mut k: usize = 0;
    assert(nonempty_records(recs.take(0)) =~= Seq::<Seq<Seq<char>>>::empty());
    while k < records.len()
        invariant
            k <= records@.len(),
            forall|x: &str| per_bits.requires((x,)),
            items == read_records_view(records@),
            recs == unwrap_records(items),
            read == (Some(hv), items),
            dv == defs@.map_values(|d: FieldDef| d@),
            dv == header_defs(hv),
            forall|j: int| 0 <= j < k ==> #[trigger] items[j] is Some,
            rows@.len() == nonempty_records(recs.take(k as int)).len(),
            forall|m: int|
                0 <= m < rows@.len() ==> is_row_of(
                    #[trigger] rows@[m]@,
                    nonempty_records(recs.take(k as int))[m],
                    dv,
                    per_bits,
                ),
            !has_bad_key(nonempty_records(recs.take(k as int))),
        decreases records@.len() - k,
    {
        let record = match &records[k] {
            Some(r) => r,
            None => {
                proof {
                    lemma_first_failure(items, k as int);
                }
                return Err(CsvError::ReadFailed);
            },
        };
        let ghost rv = recs[k as int];
        assert(rv == record_view(*record));
        assert(recs.take(k + 1).drop_last() =~= recs.take(k as int));
        assert(recs.take(k + 1).last() == rv);
        if record.len() == 0 {
            k = k + 1;
            continue;
        }
        let primary_key = match parse_i32(record[0].as_str()) {
            Some(v) => v,
            None => {
                proof {
                    let ne = nonempty_records(recs.take(k + 1));
                    assert(spec_parse_i32(ne[ne.len() - 1][0]) is None);
                    lemma_records_read_prefix(items, k + 1);
                    let rr = records_read(items);
                    lemma_nonempty_prefix(rr, k + 1, rr.len() as int);
                    assert(rr.take(rr.len() as int) =~= rr);
                    let full = nonempty_records(rr);
                    assert(full[ne.len() - 1] == ne[ne.len() - 1]);
                    assert(has_bad_key(full));
                }
                return Err(CsvError::InvalidPrimaryKey);
            },
        };
        let mut values: Vec<FieldValue> = Vec::new();
        let mut j: usize = 1;
        while j < record.len()
            invariant
                1 <= j <= record@.len(),
                forall|x: &str| per_bits.requires((x,)),
                rv == record_view(*record),
                dv == defs@.map_values(|d: FieldDef| d@),
                values@.len() == j - 1,
                forall|m: int|
                    0 <= m < j - 1 ==> is_value_of(
                        #[trigger] values@[m]@,
                        rv[m + 1],
                        type_at(dv, m),
                        per_bits,
                    ),
            decreases record@.len() - j,
        {
            let ty = if j - 1 < defs.len() {
                defs[j - 1].field_type
            } else {
                FieldType::NA
            };
            let cell = record[j].as_str();
            let v = FieldValue::from_csv_string(cell, ty, &per_bits);
            proof {
                assert(cell@ == rv[j as int]);
                if ty == FieldType::Per && cell@.len() > 0 {
                    let b = v@->Per_0;
                    assert(cell@ == rv[j as int] && per_bits.ensures((cell,), b) && v@ == ValueModel::Per(b));
                }
            }
            values.push(v);
            j = j + 1;
        }
        let row = Row { primary_key, values };
        proof {
            assert(row@.values =~= values@.map_values(|x: FieldValue| x@));
            assert forall|m: int| 0 <= m < row@.values.len() implies is_value_of(
                #[trigger] row@.values[m],
                rv[m + 1],
                type_at(dv, m),
                per_bits,
            ) by {
                assert(row@.values[m] == values@[m]@);
            }
        }
        rows.push(row);
        k = k + 1;
    }
    proof {
        assert(recs.take(records@.len() as int) =~= recs);
        assert(!read_failed(items));
    }
    Ok((DEFAULT_DB_ID, defs, rows))
}

} // verus!
