//! The registry of known SPF packs: FILE_ID, name and inner path prefix.

use vstd::prelude::*;
use vstd::utf8::encode_utf8;
use crate::common::text::{bytes_eq_ignore_ascii_case, eq_ignore_ascii_case_spec};

verus! {

/// Registration of one SPF pack.
#[derive(Debug, Clone, Copy)]
pub struct SpfRegistry {
    /// FILE_ID of the pack
    pub file_id: u8,
    /// Name of the pack (without extension)
    pub name: &'static str,
    /// Directory under the data root that holds its files
    pub path_prefix: &'static str,
}

/// The registered packs, in registry order: (FILE_ID, name, main input
/// directory).
pub open spec fn registry_spec() -> Seq<(u8, Seq<char>, Seq<char>)> {
    seq![
        (1u8, "AJJIYA"@, "DATA/ANITABLE"@),
        (2u8, "HOSHIM"@, "DATA/FX"@),
        (3u8, "ROWID"@, "DATA/LDT"@),
        (4u8, "JINSSAGA"@, "DATA/BGFORMAT"@),
        (5u8, "MAKO1298"@, "DATA/BACKGROUND"@),
        (6u8, "METALGENI"@, "DATA/SOUND"@),
        (7u8, "DALBONG"@, "DATA/BGM"@),
        (8u8, "RYUMS"@, "DATA/TERRAIN"@),
        (9u8, "BANX"@, "DATA/GLOBALRES"@),
        (10u8, "BARY"@, "DATA/CURSOR"@),
        (11u8, "ZENNE"@, "DATA/CHAR"@),
        (12u8, "CLAIRE"@, "DATA/PROLOGUE"@),
        (13u8, "CVOICE"@, "DATA/CP_IMAGE"@),
    ]
}

/// The mathematical form of a registration.
pub open spec fn entry_view(e: SpfRegistry) -> (u8, Seq<char>, Seq<char>) {
    (e.file_id, e.name@, e.path_prefix@)
}

/// `b` with every trailing copy of `suf` removed (`str::trim_end_matches`).
pub open spec fn trim_end_all(b: Seq<u8>, suf: Seq<u8>) -> Seq<u8>
    decreases b.len(),
{
    if suf.len() > 0 && b.len() >= suf.len() && b.skip(b.len() - suf.len()) == suf {
        trim_end_all(b.take(b.len() - suf.len()), suf)
    } else {
        b
    }
}

/// The name bytes that a lookup compares: ".SPF" and then ".spf" trimmed
/// from the end.
pub open spec fn lookup_name(name: Seq<char>) -> Seq<u8> {
    trim_end_all(trim_end_all(encode_utf8(name), ".SPF"@.map_values(|c: char| c as u8)), ".spf"@.map_values(|c: char| c as u8))
}

/// Whether registration `i` is the first one satisfying `p`.
pub open spec fn is_first(entries: Seq<(u8, Seq<char>, Seq<char>)>, i: int, p: spec_fn((u8, Seq<char>, Seq<char>)) -> bool) -> bool {
    &&& 0 <= i < entries.len()
    &&& p(entries[i])
    &&& forall|j: int| 0 <= j < i ==> !p(#[trigger] entries[j])
}

/// The result of a lookup: the first registration satisfying `p`, if any.
pub open spec fn lookup_result(r: Option<SpfRegistry>, p: spec_fn((u8, Seq<char>, Seq<char>)) -> bool) -> bool {
    match r {
        Some(e) => exists|i: int| is_first(registry_spec(), i, p) && entry_view(e) == registry_spec()[i],
        None => forall|i: int| 0 <= i < registry_spec().len() ==> !p(#[trigger] registry_spec()[i]),
    }
}

/// The registered packs are the thirteen of the SPF guide, with FILE_IDs 1
/// to 13 in this order: AJJIYA (DATA/ANITABLE), HOSHIM (DATA/FX), ROWID
/// (DATA/LDT), JINSSAGA (DATA/BGFORMAT), MAKO1298 (DATA/BACKGROUND),
/// METALGENI (DATA/SOUND), DALBONG (DATA/BGM), RYUMS (DATA/TERRAIN), BANX
/// (DATA/GLOBALRES), BARY (DATA/CURSOR), ZENNE (DATA/CHAR), CLAIRE
/// (DATA/PROLOGUE) and CVOICE (DATA/CP_IMAGE).
pub proof fn lemma_registry_table()
    ensures
        registry_spec().len() == 13,
        forall|i: int| 0 <= i < 13 ==> #[trigger] registry_spec()[i].0 == i + 1,
        registry_spec()[0].1 == "AJJIYA"@ && registry_spec()[0].2 == "DATA/ANITABLE"@,
        registry_spec()[1].1 == "HOSHIM"@ && registry_spec()[1].2 == "DATA/FX"@,
        registry_spec()[2].1 == "ROWID"@ && registry_spec()[2].2 == "DATA/LDT"@,
        registry_spec()[3].1 == "JINSSAGA"@ && registry_spec()[3].2 == "DATA/BGFORMAT"@,
        registry_spec()[4].1 == "MAKO1298"@ && registry_spec()[4].2 == "DATA/BACKGROUND"@,
        registry_spec()[5].1 == "METALGENI"@ && registry_spec()[5].2 == "DATA/SOUND"@,
        registry_spec()[6].1 == "DALBONG"@ && registry_spec()[6].2 == "DATA/BGM"@,
        registry_spec()[7].1 == "RYUMS"@ && registry_spec()[7].2 == "DATA/TERRAIN"@,
        registry_spec()[8].1 == "BANX"@ && registry_spec()[8].2 == "DATA/GLOBALRES"@,
        registry_spec()[9].1 == "BARY"@ && registry_spec()[9].2 == "DATA/CURSOR"@,
        registry_spec()[10].1 == "ZENNE"@ && registry_spec()[10].2 == "DATA/CHAR"@,
        registry_spec()[11].1 == "CLAIRE"@ && registry_spec()[11].2 == "DATA/PROLOGUE"@,
        registry_spec()[12].1 == "CVOICE"@ && registry_spec()[12].2 == "DATA/CP_IMAGE"@,
{
}

/// No two registered packs share a FILE_ID, so a lookup by FILE_ID finds
/// the one pack registered with it.
pub proof fn lemma_registry_file_ids_distinct()
    ensures
        forall|i: int, j: int|
            0 <= i < j < registry_spec().len() ==> #[trigger] registry_spec()[i].0
                != #[trigger] registry_spec()[j].0,
        forall|i: int|
            0 <= i < registry_spec().len() ==> is_first(
                registry_spec(),
                i,
                |e: (u8, Seq<char>, Seq<char>)| e.0 == #[trigger] registry_spec()[i].0,
            ),
{
    let r = registry_spec();
    assert(r[0].0 == 1 && r[1].0 == 2 && r[2].0 == 3 && r[3].0 == 4 && r[4].0 == 5 && r[5].0 == 6 && r[6].0 == 7 && r[7].0 == 8 && r[8].0 == 9 && r[9].0 == 10 && r[10].0 == 11 && r[11].0 == 12 && r[12].0 == 13);
}

fn trim_end(b: &[u8], end: usize, suf: &[u8]) -> (r: usize)
    requires
        end <= b@.len(),
        suf@.len() > 0,
    ensures
        r <= end,
        b@.take(r as int) == trim_end_all(b@.take(end as int), suf@),
    decreases end,
{
    let n = suf.len();
    if end < n {
        return end;
    }
    let start = end - n;
    let mut i: usize = 0;
    while i < n
        invariant
            i <= n,
            n == suf@.len(),
            start + n == end,
            end <= b@.len(),
            forall|k: int| 0 <= k < i ==> b@[start + k] == suf@[k],
        decreases n - i,
    {
        if b[start + i] != suf[i] {
            proof {
                assert(b@.take(end as int).skip(start as int)[i as int] != suf@[i as int]);
            }
            return end;
        }
        i = i + 1;
    }
    proof {
        assert(b@.take(end as int).skip(start as int) =~= suf@);
        assert(b@.take(end as int).take(start as int) =~= b@.take(start as int));
    }
    trim_end(b, start, suf)
}

impl SpfRegistry {
    /// All registered packs, in registry order.
    pub fn all() -> (r: Vec<SpfRegistry>)
        ensures
            r@.map_values(|e: SpfRegistry| entry_view(e)) == registry_spec(),
    {
        let r = vec![
            SpfRegistry { file_id: 1, name: "AJJIYA", path_prefix: "DATA/ANITABLE" },
            SpfRegistry { file_id: 2, name: "HOSHIM", path_prefix: "DATA/FX" },
            SpfRegistry { file_id: 3, name: "ROWID", path_prefix: "DATA/LDT" },
            SpfRegistry { file_id: 4, name: "JINSSAGA", path_prefix: "DATA/BGFORMAT" },
            SpfRegistry { file_id: 5, name: "MAKO1298", path_prefix: "DATA/BACKGROUND" },
            SpfRegistry { file_id: 6, name: "METALGENI", path_prefix: "DATA/SOUND" },
            SpfRegistry { file_id: 7, name: "DALBONG", path_prefix: "DATA/BGM" },
            SpfRegistry { file_id: 8, name: "RYUMS", path_prefix: "DATA/TERRAIN" },
            SpfRegistry { file_id: 9, name: "BANX", path_prefix: "DATA/GLOBALRES" },
            SpfRegistry { file_id: 10, name: "BARY", path_prefix: "DATA/CURSOR" },
            SpfRegistry { file_id: 11, name: "ZENNE", path_prefix: "DATA/CHAR" },
            SpfRegistry { file_id: 12, name: "CLAIRE", path_prefix: "DATA/PROLOGUE" },
            SpfRegistry { file_id: 13, name: "CVOICE", path_prefix: "DATA/CP_IMAGE" },
        ];
        assert(r@.map_values(|e: SpfRegistry| entry_view(e)) =~= registry_spec());
        r
    }

    /// Finds the registration with the given name, ignoring ASCII case and
    /// trailing ".SPF"/".spf" extensions.
    pub fn find_by_name(name: &str) -> (r: Option<SpfRegistry>)
        ensures
            lookup_result(
                r,
                |e: (u8, Seq<char>, Seq<char>)| eq_ignore_ascii_case_spec(
                    encode_utf8(e.1),
                    lookup_name(name@),
                ),
            ),
            r matches Some(e) ==> 1 <= e.file_id <= 13 && entry_view(e) == registry_spec()[e.file_id
                - 1],
    {
        proof {
            lemma_registry_table();
        }
        let bytes = name.as_bytes();
        let upper_ext = ".SPF".as_bytes();
        let lower_ext = ".spf".as_bytes();
        proof {
            reveal_strlit(".SPF");
            reveal_strlit(".spf");
            vstd::utf8::is_ascii_chars_encode_utf8(".SPF"@);
            vstd::utf8::is_ascii_chars_encode_utf8(".spf"@);
            assert(upper_ext@ =~= ".SPF"@.map_values(|c: char| c as u8));
            assert(lower_ext@ =~= ".spf"@.map_values(|c: char| c as u8));
        }
        let end1 = trim_end(bytes, bytes.len(), upper_ext);
        proof {
            assert(bytes@.take(bytes@.len() as int) =~= bytes@);
        }
        let end2 = trim_end(bytes, end1, lower_ext);
        let key = vstd::slice::slice_subrange(bytes, 0, end2);
        proof {
            assert(key@ =~= bytes@.take(end2 as int));
        }
        let all = SpfRegistry::all();
        let ghost p = |e: (u8, Seq<char>, Seq<char>)| eq_ignore_ascii_case_spec(
            encode_utf8(e.1),
            lookup_name(name@),
        );
        let mut i: usize = 0;
        while i < all.len()
            invariant
                i <= all@.len(),
                all@.map_values(|e: SpfRegistry| entry_view(e)) == registry_spec(),
                key@ == lookup_name(name@),
                p == (|e: (u8, Seq<char>, Seq<char>)| eq_ignore_ascii_case_spec(
                    encode_utf8(e.1),
                    lookup_name(name@),
                )),
                forall|j: int| 0 <= j < i ==> !p(#[trigger] registry_spec()[j]),
            decreases all@.len() - i,
        {
            let e = all[i];
            assert(registry_spec()[i as int] == entry_view(e));
            if bytes_eq_ignore_ascii_case(e.name.as_bytes(), key) {
                assert(is_first(registry_spec(), i as int, p));
                return Some(e);
            }
            i = i + 1;
        }
        None
    }

    /// Finds the registration with the given FILE_ID.
    pub fn find_by_file_id(file_id: u8) -> (r: Option<SpfRegistry>)
        ensures
            lookup_result(r, |e: (u8, Seq<char>, Seq<char>)| e.0 == file_id),
            r is Some <==> 1 <= file_id <= 13,
            r matches Some(e) ==> e.file_id == file_id && entry_view(e) == registry_spec()[file_id - 1],
    {
        proof {
            lemma_registry_table();
        }
        let all = SpfRegistry::all();
        let ghost p = |e: (u8, Seq<char>, Seq<char>)| e.0 == file_id;
        let mut i: usize = 0;
        while i < all.len()
            invariant
                i <= all@.len(),
                all@.map_values(|e: SpfRegistry| entry_view(e)) == registry_spec(),
                p == (|e: (u8, Seq<char>, Seq<char>)| e.0 == file_id),
                forall|j: int| 0 <= j < i ==> !p(#[trigger] registry_spec()[j]),
            decreases all@.len() - i,
        {
            let e = all[i];
            assert(registry_spec()[i as int] == entry_view(e));
            if e.file_id == file_id {
                assert(is_first(registry_spec(), i as int, p));
                return Some(e);
            }
            i = i + 1;
        }
        None
    }
}

} // verus!
