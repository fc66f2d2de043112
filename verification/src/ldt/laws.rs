//! What reading gives back of what the writer wrote.

use vstd::prelude::*;
use crate::bytes::{
    contains_at, lemma_contains_concat, lemma_contains_sub,
    i32_bytes, i32_le, i64_bytes, lemma_i32_roundtrip, lemma_i64_roundtrip, lemma_u16_roundtrip,
    lemma_u32_roundtrip, u16_bytes, u16_le, u32_bytes,
};
use crate::common::encoding::{spec_decode, spec_encode, TextEncoding};
use crate::ldt::reader::{
    open_result_spec, parse_row_spec, parse_rows_spec, parse_value_spec, parse_values_spec,
    read_rows_spec,
};
use crate::common::text::{ascii_lowercase, lemma_int_text};
use vstd::utf8::{
    decode_utf8, encode_scalar, encode_utf8, encode_utf8_decode_utf8, encode_utf8_valid_utf8,
    valid_utf8,
};
use crate::ldt::types::{
    csv_read_back, csv_text, is_true_text, lemma_fid_text, lemma_name_until_nul, name_until_nul,
    value_of_csv,
    field_type_code, field_type_of_code, fid_of_text, header_of_bytes, header_types,
    lemma_field_type_code_roundtrip, value_type, FieldDefModel, FieldType, LdtHeader, RowModel,
    ValueModel,
};
use crate::ldt::writer::{
    fid_text, footer_bytes, header_bytes, is_text_value, ldt_file_bytes, name_slot, name_slots, row_bytes,
    rows_bytes, type_slots, value_bytes, value_text, values_bytes, var_bytes,
};

verus! {

/// What a reader using `enc` gives back for a value that the writer wrote:
/// numbers, flags and float bits unchanged; text as the GBK bytes that the
/// writer stored, decoded with `enc`.
pub open spec fn read_back_value(v: ValueModel, enc: TextEncoding) -> ValueModel {
    match v {
        ValueModel::String(s) => ValueModel::String(
            spec_decode(enc, spec_encode(TextEncoding::Gbk, s).0).0,
        ),
        ValueModel::Alias(s) => ValueModel::Alias(
            spec_decode(enc, spec_encode(TextEncoding::Gbk, s).0).0,
        ),
        ValueModel::FID(a, b) => {
            let t = spec_decode(enc, spec_encode(TextEncoding::Gbk, fid_text(a, b)).0).0;
            ValueModel::FID(fid_of_text(t).0, fid_of_text(t).1)
        },
        _ => v,
    }
}

/// What a reader using `enc` gives back for a row that the writer wrote.
pub open spec fn read_back_row(r: RowModel, enc: TextEncoding) -> RowModel {
    RowModel {
        primary_key: r.primary_key,
        values: r.values.map_values(|v: ValueModel| read_back_value(v, enc)),
    }
}

/// Rows that match the field definitions: one value per field, each of the
/// field's type, and every stored text short enough for its 16-bit length.
pub open spec fn rows_match_fields(defs: Seq<FieldDefModel>, rows: Seq<RowModel>) -> bool {
    forall|i: int|
        0 <= i < rows.len() ==> {
            &&& #[trigger] rows[i].values.len() == defs.len()
            &&& forall|j: int|
                0 <= j < defs.len() ==> {
                    &&& value_type(#[trigger] rows[i].values[j]) == defs[j].field_type
                    &&& is_text_value(rows[i].values[j]) ==> spec_encode(
                        TextEncoding::Gbk,
                        value_text(rows[i].values[j]),
                    ).0.len() <= 0xffff
                }
        }
}

proof fn lemma_value(data: Seq<u8>, p: int, v: ValueModel, enc: TextEncoding)
    requires
        contains_at(data, p, value_bytes(v)),
        is_text_value(v) ==> spec_encode(TextEncoding::Gbk, value_text(v)).0.len() <= 0xffff,
    ensures
        parse_value_spec(data, p, value_type(v), enc) == Some(
            (read_back_value(v, enc), p + value_bytes(v).len()),
        ),
{
    match v {
        ValueModel::NA => {},
        ValueModel::Num(n) => {
            lemma_i32_roundtrip(n, data, p);
        },
        ValueModel::Per(b) => {
            lemma_u32_roundtrip(b, data, p);
        },
        ValueModel::TF(b) => {
            lemma_i32_roundtrip(if b { 1 } else { 0 }, data, p);
        },
        ValueModel::Num64(n) => {
            lemma_i64_roundtrip(n, data, p);
        },
        _ => {
            let e = spec_encode(TextEncoding::Gbk, value_text(v)).0;
            lemma_contains_concat(data, p, u16_bytes(e.len() as u16), e);
            lemma_u16_roundtrip(e.len() as u16, data, p);
            assert(u16_le(data, p) == e.len());
        },
    }
}

proof fn lemma_values(
    data: Seq<u8>,
    p: int,
    types: Seq<FieldType>,
    vs: Seq<ValueModel>,
    enc: TextEncoding,
)
    requires
        contains_at(data, p, values_bytes(vs)),
        vs.len() <= types.len(),
        forall|j: int| 0 <= j < vs.len() ==> value_type(#[trigger] vs[j]) == types[j],
        forall|j: int|
            0 <= j < vs.len() && is_text_value(#[trigger] vs[j]) ==> spec_encode(
                TextEncoding::Gbk,
                value_text(vs[j]),
            ).0.len() <= 0xffff,
    ensures
        parse_values_spec(data, p, types, enc, vs.len()) == Some(
            (
                vs.map_values(|v: ValueModel| read_back_value(v, enc)),
                p + values_bytes(vs).len(),
            ),
        ),
    decreases vs.len(),
{
    if vs.len() == 0 {
        assert(vs.map_values(|v: ValueModel| read_back_value(v, enc)) =~= Seq::<ValueModel>::empty());
    } else {
        let init = vs.drop_last();
        lemma_contains_concat(data, p, values_bytes(init), value_bytes(vs.last()));
        assert forall|j: int| 0 <= j < init.len() implies value_type(#[trigger] init[j])
            == types[j] by {
            assert(init[j] == vs[j]);
        }
        assert forall|j: int|
            0 <= j < init.len() && is_text_value(#[trigger] init[j]) implies spec_encode(
            TextEncoding::Gbk,
            value_text(init[j]),
        ).0.len() <= 0xffff by {
            assert(init[j] == vs[j]);
        }
        lemma_values(data, p, types, init, enc);
        assert(vs.last() == vs[vs.len() - 1]);
        lemma_value(data, p + values_bytes(init).len(), vs.last(), enc);
        assert(vs.map_values(|v: ValueModel| read_back_value(v, enc)) =~= init.map_values(
            |v: ValueModel| read_back_value(v, enc),
        ).push(read_back_value(vs.last(), enc)));
    }
}

proof fn lemma_rows(
    data: Seq<u8>,
    types: Seq<FieldType>,
    defs: Seq<FieldDefModel>,
    rs: Seq<RowModel>,
    enc: TextEncoding,
)
    requires
        contains_at(data, 8716, rows_bytes(rs)),
        types.len() == defs.len(),
        forall|j: int| 0 <= j < defs.len() ==> types[j] == #[trigger] defs[j].field_type,
        rows_match_fields(defs, rs),
    ensures
        parse_rows_spec(data, types, enc, rs.len()) == Some(
            (rs.map_values(|r: RowModel| read_back_row(r, enc)), 8716 + rows_bytes(rs).len() as int),
        ),
    decreases rs.len(),
{
    if rs.len() == 0 {
        assert(rs.map_values(|r: RowModel| read_back_row(r, enc)) =~= Seq::<RowModel>::empty());
    } else {
        let init = rs.drop_last();
        let last = rs.last();
        assert(last == rs[rs.len() - 1]);
        lemma_contains_concat(data, 8716, rows_bytes(init), row_bytes(last));
        assert(rows_match_fields(defs, init)) by {
            assert forall|i: int| 0 <= i < init.len() implies init[i] == rs[i] by {}
        }
        lemma_rows(data, types, defs, init, enc);
        let p: int = 8716 + rows_bytes(init).len() as int;
        lemma_contains_concat(data, p, i32_bytes(last.primary_key), values_bytes(last.values));
        lemma_i32_roundtrip(last.primary_key, data, p);
        assert(last.values.len() == defs.len());
        assert forall|j: int| 0 <= j < last.values.len() implies value_type(
            #[trigger] last.values[j],
        ) == types[j] by {
            assert(value_type(rs[rs.len() - 1].values[j]) == defs[j].field_type);
        }
        assert forall|j: int|
            0 <= j < last.values.len() && is_text_value(#[trigger] last.values[j]) implies spec_encode(
            TextEncoding::Gbk,
            value_text(last.values[j]),
        ).0.len() <= 0xffff by {
            assert(is_text_value(rs[rs.len() - 1].values[j]) ==> spec_encode(
                TextEncoding::Gbk,
                value_text(rs[rs.len() - 1].values[j]),
            ).0.len() <= 0xffff);
        }
        lemma_values(data, p + 4, types, last.values, enc);
        assert(parse_row_spec(data, p, types, enc) == Some(
            (read_back_row(last, enc), p + row_bytes(last).len()),
        ));
        assert(rs.map_values(|r: RowModel| read_back_row(r, enc)) =~= init.map_values(
            |r: RowModel| read_back_row(r, enc),
        ).push(read_back_row(last, enc)));
    }
}

proof fn lemma_type_slots(defs: Seq<FieldDefModel>, k: nat)
    ensures
        type_slots(defs, k).len() == 4 * k,
        forall|i: int|
            0 <= i < k ==> #[trigger] type_slots(defs, k).subrange(4 * i, 4 * i + 4) == i32_bytes(
                if i < defs.len() {
                    field_type_code(defs[i].field_type)
                } else {
                    0
                },
            ),
    decreases k,
{
    if k > 0 {
        lemma_type_slots(defs, (k - 1) as nat);
        let prev = type_slots(defs, (k - 1) as nat);
        let last = i32_bytes(
            if k - 1 < defs.len() {
                field_type_code(defs[k - 1].field_type)
            } else {
                0
            },
        );
        assert forall|i: int| 0 <= i < k implies #[trigger] type_slots(defs, k).subrange(
            4 * i,
            4 * i + 4,
        ) == i32_bytes(
            if i < defs.len() {
                field_type_code(defs[i].field_type)
            } else {
                0
            },
        ) by {
            if i < k - 1 {
                assert(type_slots(defs, k).subrange(4 * i, 4 * i + 4) =~= prev.subrange(
                    4 * i,
                    4 * i + 4,
                ));
            } else {
                assert(type_slots(defs, k).subrange(4 * i, 4 * i + 4) =~= last);
            }
        }
    }
}

proof fn lemma_name_slots_len(defs: Seq<FieldDefModel>, k: nat)
    ensures
        name_slots(defs, k).len() == 64 * k,
    decreases k,
{
    if k > 0 {
        lemma_name_slots_len(defs, (k - 1) as nat);
    }
}

/// Reading a file that the writer laid out gives back what was written.
///
/// For field definitions (1 to 128 of them) and rows that match them (one
/// value of the right type per field, text short enough for its 16-bit
/// length), and fewer than 2^31 rows: the header read from the written bytes
/// passes the reader's checks and holds the database ID, the number of fields
/// and rows, and the field types; and reading the rows with any encoding gives
/// each row back as `read_back_row` says: keys, numbers, flags and float bits
/// unchanged, text as the writer's GBK bytes decoded with that encoding.
pub proof fn lemma_ldt_write_then_read(
    db_id: i32,
    defs: Seq<FieldDefModel>,
    rows: Seq<RowModel>,
    enc: TextEncoding,
)
    requires
        1 <= defs.len() <= 128,
        rows.len() <= 0x7fff_ffff,
        rows_match_fields(defs, rows),
    ensures
        ({
            let data = ldt_file_bytes(db_id, defs, rows);
            &&& data.len() >= 8716
            &&& forall|h: LdtHeader|
                header_of_bytes(h, data) ==> {
                    &&& h.db_id == db_id
                    &&& h.num_fields == defs.len()
                    &&& h.num_rows == rows.len()
                    &&& open_result_spec(data, h) == Ok::<(), crate::ldt::reader::LdtError>(())
                    &&& header_types(h) == defs.map_values(|d: FieldDefModel| d.field_type)
                    &&& read_rows_spec(data, h, enc) == Some(
                        rows.map_values(|r: RowModel| read_back_row(r, enc)),
                    )
                }
        }),
{
    let data = ldt_file_bytes(db_id, defs, rows);
    let hb = header_bytes(db_id, defs, rows.len() as i32);
    lemma_type_slots(defs, 128);
    lemma_name_slots_len(defs, 128);
    assert(hb.len() == 8716);
    let a = i32_bytes(db_id);
    let b = i32_bytes(defs.len() as i32);
    let c = i32_bytes(rows.len() as i32);
    let names = name_slots(defs, 128);
    let tys = type_slots(defs, 128);
    assert(data =~= a + b + c + names + tys + (rows_bytes(rows) + footer_bytes()));
    assert(data.subrange(0, data.len() as int) =~= data);
    assert(contains_at(data, 0, data));
    lemma_contains_concat(data, 0, a + b + c + names + tys, rows_bytes(rows) + footer_bytes());
    lemma_contains_concat(data, 8716, rows_bytes(rows), footer_bytes());
    lemma_contains_concat(data, 0, a + b + c + names, tys);
    lemma_contains_concat(data, 0, a + b + c, names);
    lemma_contains_concat(data, 0, a + b, c);
    lemma_contains_concat(data, 0, a, b);
    lemma_i32_roundtrip(db_id, data, 0);
    lemma_i32_roundtrip(defs.len() as i32, data, 4);
    lemma_i32_roundtrip(rows.len() as i32, data, 8);
    let types = defs.map_values(|d: FieldDefModel| d.field_type);
    assert forall|h: LdtHeader| header_of_bytes(h, data) implies {
        &&& h.db_id == db_id
        &&& h.num_fields == defs.len()
        &&& h.num_rows == rows.len()
        &&& open_result_spec(data, h) == Ok::<(), crate::ldt::reader::LdtError>(())
        &&& header_types(h) == types
        &&& read_rows_spec(data, h, enc) == Some(
            rows.map_values(|r: RowModel| read_back_row(r, enc)),
        )
    } by {
        assert forall|i: int| 0 <= i < defs.len() implies #[trigger] header_types(h)[i]
            == types[i] by {
            lemma_contains_sub(data, 8204, tys, 4 * i, 4 * i + 4);
            lemma_i32_roundtrip(field_type_code(defs[i].field_type), data, 8204 + 4 * i);
            lemma_field_type_code_roundtrip(defs[i].field_type);
        }
        assert(header_types(h) =~= types);
        assert forall|j: int| 0 <= j < defs.len() implies types[j] == #[trigger] defs[j].field_type by {}
        lemma_rows(data, types, defs, rows, enc);
    }
}

/// No byte of the UTF-8 encoding of a character other than NUL is 0.
proof fn lemma_scalar_bytes_nonzero(s: u32)
    requires
        s != 0,
    ensures
        forall|j: int| 0 <= j < encode_scalar(s).len() ==> #[trigger] encode_scalar(s)[j] != 0,
{
    assert(s != 0 && s <= 0x7F ==> (s & 0x7F) as u8 != 0) by (bit_vector);
    assert(forall|x: u32| #![auto] (0xC0u8 | ((x >> 6) & 0x1F) as u8) != 0) by (bit_vector);
    assert(forall|x: u32| #![auto] (0xE0u8 | ((x >> 12) & 0x0F) as u8) != 0) by (bit_vector);
    assert(forall|x: u32| #![auto] (0xF0u8 | ((x >> 18) & 0x07) as u8) != 0) by (bit_vector);
    assert(forall|x: u32| #![auto] (0x80u8 | (x & 0x3F) as u8) != 0) by (bit_vector);
    assert(forall|x: u32| #![auto] (0x80u8 | ((x >> 6) & 0x3F) as u8) != 0) by (bit_vector);
    assert(forall|x: u32| #![auto] (0x80u8 | ((x >> 12) & 0x3F) as u8) != 0) by (bit_vector);
}

/// The UTF-8 encoding of text without NUL holds no 0 byte.
proof fn lemma_utf8_bytes_nonzero(t: Seq<char>)
    requires
        forall|i: int| 0 <= i < t.len() ==> (#[trigger] t[i] as u32) != 0,
    ensures
        forall|j: int| 0 <= j < encode_utf8(t).len() ==> #[trigger] encode_utf8(t)[j] != 0,
    decreases t.len(),
{
    if t.len() > 0 {
        let rest = t.drop_first();
        assert forall|i: int| 0 <= i < rest.len() implies (#[trigger] rest[i] as u32) != 0 by {
            assert(rest[i] == t[i + 1]);
        }
        lemma_utf8_bytes_nonzero(rest);
        lemma_scalar_bytes_nonzero(t[0] as u32);
        let a = encode_scalar(t[0] as u32);
        let b = encode_utf8(rest);
        assert(encode_utf8(t) == a + b);
        assert forall|j: int| 0 <= j < (a + b).len() implies #[trigger] (a + b)[j] != 0 by {
            if j >= a.len() {
                assert((a + b)[j] == b[j - a.len()]);
            }
        }
    }
}

/// A field's 64-byte name slot holds the name's UTF-8 bytes, cut to at most
/// 63, then a NUL, then spaces (0x20) to the end of the slot.
pub proof fn lemma_name_slot_bytes(name: Seq<char>)
    ensures
        ({
            let slot = name_slot(name);
            let b = encode_utf8(name);
            let n = if b.len() < 63 { b.len() as int } else { 63 };
            &&& slot.len() == 64
            &&& slot[n] == 0
            &&& forall|i: int| 0 <= i < n ==> #[trigger] slot[i] == b[i]
            &&& forall|i: int| n < i < 64 ==> #[trigger] slot[i] == 0x20
        }),
{
}

/// The file ends with "END" and 61 spaces.
pub proof fn lemma_footer_bytes()
    ensures
        footer_bytes().len() == 64,
        footer_bytes()[0] == 0x45 && footer_bytes()[1] == 0x4e && footer_bytes()[2] == 0x44,
        forall|i: int| 3 <= i < 64 ==> #[trigger] footer_bytes()[i] == 0x20,
{
}

/// Slot `i` of the first `k` name slots is the slot of field `i`.
proof fn lemma_name_slot_at(defs: Seq<FieldDefModel>, k: nat, i: int)
    requires
        0 <= i < k,
        i < defs.len(),
    ensures
        name_slots(defs, k).subrange(64 * i, 64 * i + 64) == name_slot(defs[i].name),
    decreases k,
{
    lemma_name_slots_len(defs, (k - 1) as nat);
    lemma_name_slot_len(defs[i].name);
    if i < k - 1 {
        lemma_name_slot_at(defs, (k - 1) as nat, i);
        let prev = name_slots(defs, (k - 1) as nat);
        assert(name_slots(defs, k).subrange(64 * i, 64 * i + 64) =~= prev.subrange(64 * i, 64 * i + 64));
    } else {
        let prev = name_slots(defs, (k - 1) as nat);
        assert(name_slots(defs, k).subrange(64 * i, 64 * i + 64) =~= name_slot(defs[i].name));
    }
}

proof fn lemma_name_slot_len(name: Seq<char>)
    ensures
        name_slot(name).len() == 64,
{
}

/// The field names that the writer stores read back: where every name is
/// at most 63 UTF-8 bytes and holds no NUL, the bytes of each name slot up
/// to its first NUL are the name's UTF-8 bytes, which decode to the name
/// (as `LdtHeader::field_name` then gives it).
pub proof fn lemma_ldt_names_read_back(db_id: i32, defs: Seq<FieldDefModel>, rows: Seq<RowModel>)
    requires
        defs.len() <= 128,
        forall|i: int| 0 <= i < defs.len() ==> encode_utf8(#[trigger] defs[i].name).len() <= 63,
        forall|i: int, j: int|
            0 <= i < defs.len() && 0 <= j < defs[i].name.len() ==> (#[trigger] defs[i].name[j] as u32)
                != 0,
    ensures
        forall|h: LdtHeader|
            header_of_bytes(h, ldt_file_bytes(db_id, defs, rows)) ==> forall|i: int|
                0 <= i < defs.len() ==> {
                    let b = name_until_nul(#[trigger] h.field_names@[i]@);
                    &&& b == encode_utf8(defs[i].name)
                    &&& valid_utf8(b)
                    &&& decode_utf8(b) == defs[i].name
                },
{
    let data = ldt_file_bytes(db_id, defs, rows);
    let names = name_slots(defs, 128);
    lemma_name_slots_len(defs, 128);
    lemma_type_slots(defs, 128);
    let pre = i32_bytes(db_id) + i32_bytes(defs.len() as i32) + i32_bytes(rows.len() as i32);
    assert(data =~= pre + names + (type_slots(defs, 128) + rows_bytes(rows) + footer_bytes()));
    assert forall|h: LdtHeader| header_of_bytes(h, data) implies forall|i: int|
        0 <= i < defs.len() ==> {
            let b = name_until_nul(#[trigger] h.field_names@[i]@);
            &&& b == encode_utf8(defs[i].name)
            &&& valid_utf8(b)
            &&& decode_utf8(b) == defs[i].name
        } by {
        assert forall|i: int| 0 <= i < defs.len() implies {
            let b = name_until_nul(#[trigger] h.field_names@[i]@);
            &&& b == encode_utf8(defs[i].name)
            &&& valid_utf8(b)
            &&& decode_utf8(b) == defs[i].name
        } by {
            let name = defs[i].name;
            let e = encode_utf8(name);
            lemma_name_slot_at(defs, 128, i);
            let slot = name_slot(name);
            assert forall|j: int| 0 <= j < 64 implies h.field_names@[i]@[j] == #[trigger] slot[j] by {
                assert(h.field_names@[i]@[j] == data[12 + 64 * i + j]);
                assert(data[12 + 64 * i + j] == names[64 * i + j]);
                assert(names.subrange(64 * i, 64 * i + 64)[j] == names[64 * i + j]);
            }
            assert(h.field_names@[i]@.len() == 64);
            assert(h.field_names@[i]@ =~= slot);
            assert forall|k: int| 0 <= k < name.len() implies (#[trigger] name[k] as u32) != 0 by {}
            lemma_utf8_bytes_nonzero(name);
            let pad = Seq::new((63 - e.len()) as nat, |q: int| 0x20u8);
            assert(e.take(e.len() as int) =~= e);
            assert(slot =~= e + seq![0u8] + pad);
            assert forall|k: int| 0 <= k < e.len() implies slot[k] != 0 by {
                assert(slot[k] == e[k]);
            }
            lemma_name_until_nul(slot, e.len() as int);
            assert(slot.take(e.len() as int) =~= e);
            encode_utf8_valid_utf8(name);
            encode_utf8_decode_utf8(name);
        }
    }
}

/// The CSV text of a value reads back, with the value's own field type, as
/// the value: numbers, flags, foreign keys, aliases, NA and strings, except
/// that an empty string reads back as NA.  (A `Per` value's text is that of
/// an `f32`, which this library does not compute.)
pub proof fn lemma_csv_text_reads_back(v: ValueModel)
    requires
        !(v is Per),
    ensures
        value_of_csv(csv_text(v), value_type(v), 0) == csv_read_back(v),
{
    match v {
        ValueModel::Num(n) => {
            lemma_int_text(n as int);
        },
        ValueModel::Num64(n) => {
            lemma_int_text(n as int);
        },
        ValueModel::FID(a, b) => {
            lemma_fid_text(a, b);
            lemma_int_text(a as int);
        },
        ValueModel::TF(b) => {
            reveal_strlit("true");
            reveal_strlit("false");
            reveal_strlit("1");
            reveal_strlit("yes");
            assert(ascii_lowercase("true"@) =~= "true"@);
            assert(ascii_lowercase("false"@) =~= "false"@);
            assert(is_true_text("true"@));
            assert(!is_true_text("false"@));
        },
        _ => {},
    }
}

} // verus!
