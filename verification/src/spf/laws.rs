//! What reading gives back of a pack that the writer laid out.

use vstd::prelude::*;
use crate::bytes::{
    contains_at, i32_bytes, i32_le, lemma_contains_concat, lemma_contains_sub, lemma_i32_roundtrip,
    lemma_u32_roundtrip, u32_bytes, u32_le,
};
use crate::common::encoding::TextEncoding;
use crate::spf::crypto::{lemma_xor_stream_involution, lemma_xor_stream_len, finfo_state_spec, resource_state_spec};
use crate::spf::reader::{
    file_count_spec, file_data_spec, header_area, index_start, is_encrypted_spec, issues_of,
    issues_spec, raw_version_spec, record_spec, version_spec, SpfIssue,
};
use crate::spf::types::{finfo_of_bytes, lemma_res_id_parts, res_id_spec, spf_header_of_bytes, FInfo, SpfHeader};
use crate::spf::writer::{
    data_area, data_offset, finfo_plain, finfo_table, name_field, raw_version_of, spf_file_bytes,
    stored_data, stored_record, MAX_FILES,
};

verus! {

proof fn lemma_name_field_len(enc: TextEncoding, name: Seq<char>)
    ensures
        name_field(enc, name).len() == 128,
{
}

proof fn lemma_finfo_plain_len(enc: TextEncoding, file_id: u8, files: Seq<(Seq<char>, Seq<u8>)>, i: nat)
    ensures
        finfo_plain(enc, file_id, files, i).len() == 140,
{
    lemma_name_field_len(enc, files[i as int].0);
}

proof fn lemma_stored_record_len(
    enc: TextEncoding,
    file_id: u8,
    files: Seq<(Seq<char>, Seq<u8>)>,
    i: nat,
    raw: u32,
)
    ensures
        stored_record(enc, file_id, files, i, raw).len() == 140,
{
    lemma_finfo_plain_len(enc, file_id, files, i);
    lemma_xor_stream_len(finfo_plain(enc, file_id, files, i), finfo_state_spec());
}

proof fn lemma_stored_data_len(files: Seq<(Seq<char>, Seq<u8>)>, i: nat, raw: u32)
    ensures
        stored_data(files, i, raw).len() == files[i as int].1.len(),
{
    lemma_xor_stream_len(
        files[i as int].1,
        resource_state_spec(data_offset(files, i) as i32, files[i as int].1.len() as i32, raw),
    );
}

proof fn lemma_data_area(files: Seq<(Seq<char>, Seq<u8>)>, n: nat, raw: u32)
    requires
        n <= files.len(),
    ensures
        data_area(files, n, raw).len() == data_offset(files, n),
        forall|i: nat|
            i < n ==> #[trigger] data_area(files, n, raw).subrange(
                data_offset(files, i) as int,
                (data_offset(files, i) + files[i as int].1.len()) as int,
            ) == stored_data(files, i, raw),
    decreases n,
{
    if n > 0 {
        let m = (n - 1) as nat;
        lemma_data_area(files, m, raw);
        lemma_stored_data_len(files, m, raw);
        let prev = data_area(files, m, raw);
        let last = stored_data(files, m, raw);
        assert forall|i: nat| i < n implies #[trigger] data_area(files, n, raw).subrange(
            data_offset(files, i) as int,
            (data_offset(files, i) + files[i as int].1.len()) as int,
        ) == stored_data(files, i, raw) by {
            if i < m {
                lemma_offset_le(files, (i + 1) as nat, m);
                assert(data_area(files, n, raw).subrange(
                    data_offset(files, i) as int,
                    (data_offset(files, i) + files[i as int].1.len()) as int,
                ) =~= prev.subrange(
                    data_offset(files, i) as int,
                    (data_offset(files, i) + files[i as int].1.len()) as int,
                ));
            } else {
                assert(data_area(files, n, raw).subrange(
                    data_offset(files, i) as int,
                    (data_offset(files, i) + files[i as int].1.len()) as int,
                ) =~= last);
            }
        }
    }
}

proof fn lemma_offset_le(files: Seq<(Seq<char>, Seq<u8>)>, i: nat, j: nat)
    requires
        i <= j,
    ensures
        data_offset(files, i) <= data_offset(files, j),
    decreases j - i,
{
    if i < j {
        lemma_offset_le(files, i, (j - 1) as nat);
    }
}

proof fn lemma_finfo_table(
    enc: TextEncoding,
    file_id: u8,
    files: Seq<(Seq<char>, Seq<u8>)>,
    n: nat,
    raw: u32,
)
    ensures
        finfo_table(enc, file_id, files, n, raw).len() == 140 * n,
        forall|i: int|
            0 <= i < n ==> #[trigger] finfo_table(enc, file_id, files, n, raw).subrange(
                140 * i,
                140 * i + 140,
            ) == stored_record(enc, file_id, files, i as nat, raw),
    decreases n,
{
    if n > 0 {
        let m = (n - 1) as nat;
        lemma_finfo_table(enc, file_id, files, m, raw);
        lemma_stored_record_len(enc, file_id, files, m, raw);
        let prev = finfo_table(enc, file_id, files, m, raw);
        let last = stored_record(enc, file_id, files, m, raw);
        assert forall|i: int| 0 <= i < n implies #[trigger] finfo_table(
            enc,
            file_id,
            files,
            n,
            raw,
        ).subrange(140 * i, 140 * i + 140) == stored_record(enc, file_id, files, i as nat, raw) by {
            if i < m {
                assert(finfo_table(enc, file_id, files, n, raw).subrange(140 * i, 140 * i + 140)
                    =~= prev.subrange(140 * i, 140 * i + 140));
            } else {
                assert(finfo_table(enc, file_id, files, n, raw).subrange(140 * i, 140 * i + 140)
                    =~= last);
            }
        }
    }
}

/// Reading a pack that the writer laid out gives back what was written.
///
/// For a non-negative version, at most `MAX_FILES` files of at most
/// 2^31 - 1 bytes in all, and a 128-byte description: the version word reads
/// back as the version and the encryption choice; the header passes the
/// reader's checks and holds the table size, the FILE_ID and the
/// description; the pack has one FINFO record per file, and record `i`
/// (decrypted when the pack is encrypted) is the plain record the writer
/// made: the encoded name, the file's offset and size, and the resource ID
/// of FILE_ID and `i + 1`.  The data that a record describes, decrypted,
/// is the file's data.  When no stored name starts with a NUL, verification
/// finds no problem.
pub proof fn lemma_spf_write_then_read(
    file_id: u8,
    version: i32,
    encrypted: bool,
    desc: Seq<u8>,
    enc: TextEncoding,
    files: Seq<(Seq<char>, Seq<u8>)>,
)
    requires
        version >= 0,
        files.len() <= MAX_FILES,
        data_offset(files, files.len()) <= 0x7fff_ffff,
        desc.len() == 128,
    ensures
        ({
            let b = spf_file_bytes(file_id, version, encrypted, desc, enc, files);
            let raw = raw_version_of(version, encrypted);
            let n = files.len();
            &&& b.len() >= 140
            &&& raw_version_spec(b) == raw
            &&& version_spec(raw) == version
            &&& is_encrypted_spec(raw) == encrypted
            &&& forall|h: SpfHeader|
                spf_header_of_bytes(h, header_area(b)) ==> {
                    &&& h.header_size == 140 * n
                    &&& h.file_id == file_id as i32
                    &&& h.desc@ == desc
                    &&& 0 <= h.header_size <= b.len() - 140
                    &&& file_count_spec(h) == n
                    &&& index_start(b, h) == data_offset(files, n)
                    &&& forall|i: int|
                        0 <= i < n ==> #[trigger] record_spec(b, h, i) == finfo_plain(
                            enc,
                            file_id,
                            files,
                            i as nat,
                        )
                    &&& forall|i: int, f: FInfo|
                        0 <= i < n && #[trigger] finfo_of_bytes(
                            f,
                            finfo_plain(enc, file_id, files, i as nat),
                        ) ==> {
                            &&& f.offset == data_offset(files, i as nat)
                            &&& f.size == files[i].1.len()
                            &&& f.res_id.0 == res_id_spec(file_id, (i + 1) as u32)
                            &&& f.file_name@ == name_field(enc, files[i].0)
                            &&& file_data_spec(b, f) == files[i].1
                        }
                    &&& forall|fs: Seq<FInfo>|
                        fs.len() == n && (forall|i: int|
                            0 <= i < n ==> finfo_of_bytes(#[trigger] fs[i], record_spec(b, h, i)))
                            && (forall|i: int|
                            0 <= i < n ==> #[trigger] name_field(enc, files[i].0)[0] != 0)
                            ==> issues_spec(fs, n, index_start(b, h), h.file_id) == Seq::<
                            SpfIssue,
                        >::empty()
                }
        }),
{
    let n = files.len();
    let raw = raw_version_of(version, encrypted);
    let total = data_offset(files, n);
    let da = data_area(files, n, raw);
    let ft = finfo_table(enc, file_id, files, n, raw);
    let hs_b = i32_bytes((140 * n) as i32);
    let id_b = i32_bytes(file_id as i32);
    let ver_b = u32_bytes(raw);
    let b = spf_file_bytes(file_id, version, encrypted, desc, enc, files);
    lemma_data_area(files, n, raw);
    lemma_finfo_table(enc, file_id, files, n, raw);
    assert(b =~= da + ft + hs_b + id_b + desc + ver_b);
    let len = b.len();
    assert(len == total + 140 * n + 140);
    assert(b.subrange(0, len as int) =~= b);
    assert(contains_at(b, 0, b));
    lemma_contains_concat(b, 0, da + ft + hs_b + id_b + desc, ver_b);
    lemma_u32_roundtrip(raw, b, len - 4);
    assert(raw & 0x7FFF_FFFFu32 == version as u32) by (bit_vector)
        requires
            raw == (version as u32) | (if encrypted { 0x8000_0000u32 } else { 0u32 }),
            version >= 0,
    ;
    assert(((version as u32) as i32) == version) by (bit_vector)
        requires
            version >= 0,
    ;
    assert((raw & 0x8000_0000u32 != 0) == encrypted) by (bit_vector)
        requires
            raw == (version as u32) | (if encrypted { 0x8000_0000u32 } else { 0u32 }),
            version >= 0,
    ;
    lemma_contains_concat(b, 0, da + ft + hs_b + id_b, desc);
    lemma_contains_concat(b, 0, da + ft + hs_b, id_b);
    lemma_contains_concat(b, 0, da + ft, hs_b);
    lemma_contains_concat(b, 0, da, ft);
    let area = header_area(b);
    assert(area =~= hs_b + id_b + desc);
    assert(area.subrange(0, area.len() as int) =~= area);
    assert(contains_at(area, 0, area));
    lemma_contains_concat(area, 0, hs_b + id_b, desc);
    lemma_contains_concat(area, 0, hs_b, id_b);
    lemma_i32_roundtrip((140 * n) as i32, area, 0);
    lemma_i32_roundtrip(file_id as i32, area, 4);
    assert forall|h: SpfHeader| spf_header_of_bytes(h, header_area(b)) implies {
        &&& h.header_size == 140 * n
        &&& h.file_id == file_id as i32
        &&& h.desc@ == desc
        &&& 0 <= h.header_size <= b.len() - 140
        &&& file_count_spec(h) == n
        &&& index_start(b, h) == data_offset(files, n)
        &&& forall|i: int|
            0 <= i < n ==> #[trigger] record_spec(b, h, i) == finfo_plain(enc, file_id, files, i as nat)
        &&& forall|i: int, f: FInfo|
            0 <= i < n && #[trigger] finfo_of_bytes(f, finfo_plain(enc, file_id, files, i as nat))
                ==> {
                &&& f.offset == data_offset(files, i as nat)
                &&& f.size == files[i].1.len()
                &&& f.res_id.0 == res_id_spec(file_id, (i + 1) as u32)
                &&& f.file_name@ == name_field(enc, files[i].0)
                &&& file_data_spec(b, f) == files[i].1
            }
        &&& forall|fs: Seq<FInfo>|
            fs.len() == n && (forall|i: int|
                0 <= i < n ==> finfo_of_bytes(#[trigger] fs[i], record_spec(b, h, i))) && (forall|
                i: int,
            |
                0 <= i < n ==> #[trigger] name_field(enc, files[i].0)[0] != 0)
                ==> issues_spec(fs, n, index_start(b, h), h.file_id) == Seq::<SpfIssue>::empty()
    } by {
        assert(h.header_size == 140 * n);
        assert((140 * n) / 140 == n) by (nonlinear_arith);
        assert forall|i: int| 0 <= i < n implies #[trigger] record_spec(b, h, i) == finfo_plain(
            enc,
            file_id,
            files,
            i as nat,
        ) by {
            lemma_contains_sub(b, total as int, ft, 140 * i, 140 * i + 140);
            lemma_finfo_plain_len(enc, file_id, files, i as nat);
            if encrypted {
                lemma_xor_stream_involution(
                    finfo_plain(enc, file_id, files, i as nat),
                    finfo_state_spec(),
                );
            }
        }
        assert forall|i: int, f: FInfo|
            0 <= i < n && #[trigger] finfo_of_bytes(f, finfo_plain(enc, file_id, files, i as nat))
                implies {
            &&& f.offset == data_offset(files, i as nat)
            &&& f.size == files[i].1.len()
            &&& f.res_id.0 == res_id_spec(file_id, (i + 1) as u32)
            &&& f.file_name@ == name_field(enc, files[i].0)
            &&& file_data_spec(b, f) == files[i].1
        } by {
            lemma_facts_of_record(enc, file_id, files, i as nat, f);
            lemma_offset_le(files, (i + 1) as nat, n);
            lemma_contains_sub(
                b,
                0,
                da,
                data_offset(files, i as nat) as int,
                (data_offset(files, i as nat) + files[i].1.len()) as int,
            );
            if encrypted {
                lemma_xor_stream_involution(
                    files[i].1,
                    resource_state_spec(
                        data_offset(files, i as nat) as i32,
                        files[i].1.len() as i32,
                        raw,
                    ),
                );
            }
        }
        assert forall|fs: Seq<FInfo>|
            fs.len() == n && (forall|i: int|
                0 <= i < n ==> finfo_of_bytes(#[trigger] fs[i], record_spec(b, h, i))) && (forall|
                i: int,
            |
                0 <= i < n ==> #[trigger] name_field(enc, files[i].0)[0] != 0) implies issues_spec(
            fs,
            n,
            index_start(b, h),
            h.file_id,
        ) == Seq::<SpfIssue>::empty() by {
            lemma_no_issues(enc, file_id, files, fs, n, b, h);
        }
    }
}

proof fn lemma_facts_of_record(
    enc: TextEncoding,
    file_id: u8,
    files: Seq<(Seq<char>, Seq<u8>)>,
    i: nat,
    f: FInfo,
)
    requires
        i < files.len(),
        data_offset(files, files.len()) <= 0x7fff_ffff,
        finfo_of_bytes(f, finfo_plain(enc, file_id, files, i)),
    ensures
        f.offset == data_offset(files, i),
        f.size == files[i as int].1.len(),
        f.res_id.0 == res_id_spec(file_id, (i + 1) as u32),
        f.file_name@ == name_field(enc, files[i as int].0),
{
    let rec = finfo_plain(enc, file_id, files, i);
    let nf = name_field(enc, files[i as int].0);
    let ob = i32_bytes(data_offset(files, i) as i32);
    let sb = i32_bytes(files[i as int].1.len() as i32);
    let rb = u32_bytes(res_id_spec(file_id, (i + 1) as u32));
    lemma_name_field_len(enc, files[i as int].0);
    assert(rec =~= nf + ob + sb + rb);
    assert(rec.subrange(0, 140) =~= rec);
    assert(contains_at(rec, 0, rec));
    lemma_contains_concat(rec, 0, nf + ob + sb, rb);
    lemma_contains_concat(rec, 0, nf + ob, sb);
    lemma_contains_concat(rec, 0, nf, ob);
    lemma_i32_roundtrip(data_offset(files, i) as i32, rec, 128);
    lemma_i32_roundtrip(files[i as int].1.len() as i32, rec, 132);
    lemma_u32_roundtrip(res_id_spec(file_id, (i + 1) as u32), rec, 136);
    lemma_offset_le(files, i, files.len());
    lemma_offset_le(files, (i + 1) as nat, files.len());
    assert(rec.take(128) =~= nf);
}

proof fn lemma_no_issues(
    enc: TextEncoding,
    file_id: u8,
    files: Seq<(Seq<char>, Seq<u8>)>,
    fs: Seq<FInfo>,
    k: nat,
    b: Seq<u8>,
    h: SpfHeader,
)
    requires
        k <= files.len(),
        fs.len() == files.len(),
        data_offset(files, files.len()) <= 0x7fff_ffff,
        index_start(b, h) == data_offset(files, files.len()),
        h.file_id == file_id as i32,
        forall|i: int|
            0 <= i < files.len() ==> finfo_of_bytes(
                #[trigger] fs[i],
                finfo_plain(enc, file_id, files, i as nat),
            ),
        forall|i: int| 0 <= i < files.len() ==> #[trigger] name_field(enc, files[i].0)[0] != 0,
    ensures
        issues_spec(fs, k, index_start(b, h), h.file_id) == Seq::<SpfIssue>::empty(),
    decreases k,
{
    if k > 0 {
        let i = (k - 1) as nat;
        lemma_no_issues(enc, file_id, files, fs, i, b, h);
        let f = fs[i as int];
        lemma_facts_of_record(enc, file_id, files, i, f);
        lemma_offset_le(files, k, files.len());
        lemma_res_id_parts(file_id, (i + 1) as u32);
        assert(name_field(enc, files[i as int].0)[0] != 0);
        assert(issues_of(i as usize, f, index_start(b, h), h.file_id) =~= Seq::<SpfIssue>::empty());
        assert(issues_spec(fs, k, index_start(b, h), h.file_id) =~= Seq::<SpfIssue>::empty());
    }
}

} // verus!
