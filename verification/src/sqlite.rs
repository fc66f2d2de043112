//! How LDT tables map onto SQLite: column types, column names and quoted
//! identifiers.

use vstd::prelude::*;
use crate::common::text::{
    ascii_lowercase, concat, escape_quotes, i64_to_string, is_ascii_text, lemma_int_text,
    lemma_nat_text, lower_text, nat_text, str_eq, to_ascii_lowercase, to_lowercase,
};
use crate::ldt::types::{FieldDef, FieldType, Row};

verus! {

/// The SQLite column type that holds values of a field type.
pub open spec fn sqlite_type_spec(t: FieldType) -> Seq<char> {
    match t {
        FieldType::TF | FieldType::Num | FieldType::Num64 => "INTEGER"@,
        FieldType::Per => "REAL"@,
        FieldType::NA | FieldType::String | FieldType::FID | FieldType::Alias => "TEXT"@,
    }
}

/// The SQLite column types: `INTEGER` for flags, `i32` and `i64` numbers,
/// `REAL` for floats, `TEXT` for NA, strings, foreign keys and aliases.
pub proof fn lemma_sqlite_type_table()
    ensures
        sqlite_type_spec(FieldType::TF) == "INTEGER"@,
        sqlite_type_spec(FieldType::Num) == "INTEGER"@,
        sqlite_type_spec(FieldType::Num64) == "INTEGER"@,
        sqlite_type_spec(FieldType::Per) == "REAL"@,
        sqlite_type_spec(FieldType::NA) == "TEXT"@,
        sqlite_type_spec(FieldType::String) == "TEXT"@,
        sqlite_type_spec(FieldType::FID) == "TEXT"@,
        sqlite_type_spec(FieldType::Alias) == "TEXT"@,
{
}

/// The SQLite column type that holds values of a field type: integers and
/// flags as `INTEGER`, floats as `REAL`, the rest as `TEXT`.
pub fn sqlite_type(field_type: FieldType) -> (r: &'static str)
    ensures
        r@ == sqlite_type_spec(field_type),
{
    match field_type {
        FieldType::TF | FieldType::Num | FieldType::Num64 => "INTEGER",
        FieldType::Per => "REAL",
        FieldType::NA | FieldType::String | FieldType::FID | FieldType::Alias => "TEXT",
    }
}

/// An identifier quoted for SQL: in double quotes, each `"` inside doubled.
pub fn quote_identifier(identifier: &str) -> (r: String)
    ensures
        r@ == seq!['"'] + escape_quotes(identifier@) + seq!['"'],
{
    let n = identifier.unicode_len();
    let mut out = String::from_str("\"");
    proof {
        reveal_strlit("\"");
        reveal_strlit("\"\"");
    }
    let mut i: usize = 0;
    assert(identifier@.take(0) =~= Seq::<char>::empty());
    while i < n
        invariant
            n == identifier@.len(),
            i <= n,
            out@ == seq!['"'] + escape_quotes(identifier@.take(i as int)),
            "\""@ == seq!['"'],
            "\"\""@ == seq!['"', '"'],
        decreases n - i,
    {
        let c = identifier.get_char(i);
        if c == '"' {
            out.append("\"\"");
        } else {
            out.append(identifier.substring_char(i, i + 1));
        }
        proof {
            let t = identifier@.take(i + 1);
            assert(t.drop_last() =~= identifier@.take(i as int));
            assert(t.last() == c);
            assert(identifier@.subrange(i as int, i + 1) =~= seq![c]);
        }
        i = i + 1;
    }
    assert(identifier@.take(n as int) =~= identifier@);
    out.append("\"");
    out
}

/// The text without its leading `_` characters.
pub open spec fn strip_underscores(s: Seq<char>) -> Seq<char>
    decreases s.len(),
{
    if s.len() > 0 && s[0] == '_' {
        strip_underscores(s.drop_first())
    } else {
        s
    }
}

/// The text without its NUL characters.
pub open spec fn without_nuls(s: Seq<char>) -> Seq<char>
    decreases s.len(),
{
    if s.len() == 0 {
        s
    } else {
        without_nuls(s.drop_last()) + if s.last() == '\0' {
            Seq::empty()
        } else {
            seq![s.last()]
        }
    }
}

/// The column name that a field starts from: its name without leading `_`
/// and without NULs; `FIELD_` and the field's number (from 1) where nothing
/// is left; `ID1` where that is `ID` in any ASCII case, as the table's own
/// `ID` column has that name.
pub open spec fn column_base(name: Seq<char>, index: nat) -> Seq<char> {
    let t = without_nuls(strip_underscores(name));
    if t.len() == 0 {
        "FIELD_"@ + nat_text(index + 1)
    } else if ascii_lowercase(t) == "id"@ {
        "ID1"@
    } else {
        t
    }
}

/// Candidate `k` for a column: the base itself, then the base with `_2`,
/// `_3` and so on.
pub open spec fn candidate(base: Seq<char>, k: nat) -> Seq<char> {
    if k == 0 {
        base
    } else {
        base + "_"@ + nat_text(k + 1)
    }
}

/// The first candidate from `k` to `limit` whose lower case is not in
/// `used`.
pub open spec fn first_free(base: Seq<char>, used: Seq<Seq<char>>, k: nat, limit: nat) -> Option<
    Seq<char>,
>
    decreases limit + 1 - k,
{
    if k > limit {
        None
    } else if !used.contains(lower_text(candidate(base, k))) {
        Some(candidate(base, k))
    } else {
        first_free(base, used, k + 1, limit)
    }
}

/// The lower-cased names taken before a column: `id`, then those of the
/// columns before it.
pub open spec fn used_names(prev: Seq<Seq<char>>) -> Seq<Seq<char>> {
    seq!["id"@] + prev.map_values(|c: Seq<char>| lower_text(c))
}

/// The column names of fields with the given names: each the first of its
/// candidates, among as many as there are names taken before it plus one,
/// whose lower case is not taken yet; `None` where none of them is free.
pub open spec fn column_names_spec(names: Seq<Seq<char>>) -> Option<Seq<Seq<char>>>
    decreases names.len(),
{
    if names.len() == 0 {
        Some(Seq::empty())
    } else {
        match column_names_spec(names.drop_last()) {
            None => None,
            Some(prev) => match first_free(
                column_base(names.last(), (names.len() - 1) as nat),
                used_names(prev),
                0,
                (names.len()) as nat,
            ) {
                None => None,
                Some(c) => Some(prev.push(c)),
            },
        }
    }
}

/// Where the names of some first fields have no column names, neither do
/// all of them.
proof fn lemma_names_none_stays(names: Seq<Seq<char>>, j: int)
    requires
        0 <= j <= names.len(),
        column_names_spec(names.take(j)) is None,
    ensures
        column_names_spec(names) is None,
    decreases names.len() - j,
{
    if j < names.len() {
        assert(names.take(j + 1).drop_last() =~= names.take(j));
        lemma_names_none_stays(names, j + 1);
    } else {
        assert(names.take(j) =~= names);
    }
}

/// Dropping leading `_` keeps text ASCII.
proof fn lemma_strip_ascii(s: Seq<char>)
    requires
        is_ascii_text(s),
    ensures
        is_ascii_text(strip_underscores(s)),
    decreases s.len(),
{
    if s.len() > 0 && s[0] == '_' {
        assert forall|i: int| 0 <= i < s.drop_first().len() implies (#[trigger] s.drop_first()[i] as u32) < 128 by {
            assert(s.drop_first()[i] == s[i + 1]);
        }
        lemma_strip_ascii(s.drop_first());
    }
}

/// Dropping NULs keeps text ASCII.
proof fn lemma_without_nuls_ascii(s: Seq<char>)
    requires
        is_ascii_text(s),
    ensures
        is_ascii_text(without_nuls(s)),
    decreases s.len(),
{
    if s.len() > 0 {
        assert forall|i: int| 0 <= i < s.drop_last().len() implies (#[trigger] s.drop_last()[i] as u32) < 128 by {
            assert(s.drop_last()[i] == s[i]);
        }
        lemma_without_nuls_ascii(s.drop_last());
        assert((s[s.len() - 1] as u32) < 128);
    }
}

/// The decimal text of a number is ASCII digits, which lower-casing keeps.
proof fn lemma_nat_text_ascii(n: nat)
    ensures
        is_ascii_text(nat_text(n)),
        ascii_lowercase(nat_text(n)) == nat_text(n),
{
    lemma_nat_text(n);
    let t = nat_text(n);
    assert forall|i: int| 0 <= i < t.len() implies (#[trigger] t[i] as u32) < 128 by {
        assert('0' <= t[i] <= '9');
    }
    assert(ascii_lowercase(t) =~= t);
}

/// The base of an ASCII field name is ASCII.
proof fn lemma_column_base_ascii(name: Seq<char>, index: nat)
    requires
        is_ascii_text(name),
    ensures
        is_ascii_text(column_base(name, index)),
{
    reveal_strlit("FIELD_");
    reveal_strlit("ID1");
    lemma_strip_ascii(name);
    lemma_without_nuls_ascii(strip_underscores(name));
    lemma_nat_text_ascii(index + 1);
    let f = "FIELD_"@ + nat_text(index + 1);
    assert forall|i: int| 0 <= i < f.len() implies (#[trigger] f[i] as u32) < 128 by {
        if i >= 6 {
            assert(f[i] == nat_text(index + 1)[i - 6]);
        }
    }
}

/// The lower cases of an ASCII base's candidates differ from one another.
proof fn lemma_candidates_distinct(base: Seq<char>, k1: nat, k2: nat)
    requires
        is_ascii_text(base),
        k1 < k2,
    ensures
        lower_text(candidate(base, k1)) != lower_text(candidate(base, k2)),
{
    reveal_strlit("_");
    let c1 = candidate(base, k1);
    let c2 = candidate(base, k2);
    let t2 = nat_text(k2 + 1);
    lemma_nat_text_ascii(k2 + 1);
    lemma_nat_text(k2 + 1);
    assert forall|i: int| 0 <= i < c2.len() implies (#[trigger] c2[i] as u32) < 128 by {
        if i > base.len() {
            assert(c2[i] == t2[i - base.len() - 1]);
        } else if i < base.len() {
            assert(c2[i] == base[i]);
        }
    }
    if k1 == 0 {
        assert(lower_text(c1).len() != lower_text(c2).len());
    } else {
        let t1 = nat_text(k1 + 1);
        lemma_nat_text_ascii(k1 + 1);
        lemma_nat_text(k1 + 1);
        assert forall|i: int| 0 <= i < c1.len() implies (#[trigger] c1[i] as u32) < 128 by {
            if i > base.len() {
                assert(c1[i] == t1[i - base.len() - 1]);
            } else if i < base.len() {
                assert(c1[i] == base[i]);
            }
        }
        assert(is_ascii_text(c1) && is_ascii_text(c2));
        assert(lower_text(c1).len() == c1.len());
        assert(lower_text(c2).len() == c2.len());
        assert(c1.len() == base.len() + 1 + t1.len());
        assert(c2.len() == base.len() + 1 + t2.len());
        if lower_text(c1) == lower_text(c2) {
            assert(t1.len() == t2.len());
            assert forall|i: int| 0 <= i < t1.len() implies t1[i] == t2[i] by {
                let j = base.len() + 1 + i;
                assert(lower_text(c1)[j] == lower_text(c2)[j]);
                assert(c1[j] == t1[i]);
                assert(c2[j] == t2[i]);
                assert('0' <= t1[i] <= '9');
                assert('0' <= t2[i] <= '9');
            }
            assert(t1 =~= t2);
        }
    }
}

/// Where some candidate from `k` to `limit` is free, `first_free` finds one.
proof fn lemma_first_free_found(base: Seq<char>, used: Seq<Seq<char>>, k: nat, limit: nat, free: nat)
    requires
        k <= free <= limit,
        !used.contains(lower_text(candidate(base, free))),
    ensures
        first_free(base, used, k, limit) is Some,
    decreases limit + 1 - k,
{
    if used.contains(lower_text(candidate(base, k))) {
        lemma_first_free_found(base, used, k + 1, limit, free);
    }
}

/// Every ASCII field name finds a column name: an ASCII base has more
/// candidates with distinct lower cases than names are taken.
proof fn lemma_ascii_names_have_columns(names: Seq<Seq<char>>)
    requires
        forall|i: int| 0 <= i < names.len() ==> is_ascii_text(#[trigger] names[i]),
    ensures
        column_names_spec(names) is Some,
        column_names_spec(names) matches Some(v) && v.len() == names.len(),
    decreases names.len(),
{
    if names.len() > 0 {
        let init = names.drop_last();
        assert forall|i: int| 0 <= i < init.len() implies is_ascii_text(#[trigger] init[i]) by {
            assert(init[i] == names[i]);
        }
        lemma_ascii_names_have_columns(init);
        let prev = column_names_spec(init)->Some_0;
        let limit = names.len() as nat;
        let base = column_base(names.last(), (names.len() - 1) as nat);
        let used = used_names(prev);
        lemma_column_base_ascii(names.last(), (names.len() - 1) as nat);
        let cs = Seq::new(limit + 1, |k: int| lower_text(candidate(base, k as nat)));
        assert forall|a: int, b: int| 0 <= a < cs.len() && 0 <= b < cs.len() && a != b implies cs[a]
            != cs[b] by {
            if a < b {
                lemma_candidates_distinct(base, a as nat, b as nat);
            } else {
                lemma_candidates_distinct(base, b as nat, a as nat);
            }
        }
        assert(cs.no_duplicates());
        if forall|k: int| 0 <= k < cs.len() ==> used.contains(#[trigger] cs[k]) {
            cs.unique_seq_to_set();
            used.lemma_cardinality_of_set();
            vstd::seq_lib::seq_to_set_is_finite(used);
            assert(cs.to_set().subset_of(used.to_set()));
            vstd::set_lib::lemma_len_subset(cs.to_set(), used.to_set());
            assert(false);
        }
        let free = choose|k: int| 0 <= k < cs.len() && !used.contains(#[trigger] cs[k]);
        lemma_first_free_found(base, used, 0, limit, free as nat);
    }
}

/// Column names never clash: the lower case of each differs from `id`
/// and from that of every other.
pub proof fn lemma_column_names_distinct(names: Seq<Seq<char>>)
    ensures
        column_names_spec(names) matches Some(v) ==> {
            &&& v.len() == names.len()
            &&& used_names(v).no_duplicates()
        },
    decreases names.len(),
{
    if names.len() > 0 {
        lemma_column_names_distinct(names.drop_last());
        if let Some(prev) = column_names_spec(names.drop_last()) {
            let base = column_base(names.last(), (names.len() - 1) as nat);
            if let Some(c) = first_free(base, used_names(prev), 0, names.len() as nat) {
                lemma_first_free_free(base, used_names(prev), 0, names.len() as nat);
                let v = prev.push(c);
                assert(used_names(v) =~= used_names(prev).push(lower_text(c)));
                let u = used_names(v);
                assert forall|a: int, b: int| 0 <= a < u.len() && 0 <= b < u.len() && a != b implies u[a]
                    != u[b] by {
                    if a == u.len() - 1 {
                        assert(used_names(prev)[b] == u[b]);
                    } else if b == u.len() - 1 {
                        assert(used_names(prev)[a] == u[a]);
                    } else {
                        assert(used_names(prev)[a] == u[a]);
                        assert(used_names(prev)[b] == u[b]);
                    }
                }
            }
        }
    }
}

/// What `first_free` finds is free.
proof fn lemma_first_free_free(base: Seq<char>, used: Seq<Seq<char>>, k: nat, limit: nat)
    ensures
        first_free(base, used, k, limit) matches Some(c) ==> !used.contains(lower_text(c)),
    decreases limit + 1 - k,
{
    if k <= limit && used.contains(lower_text(candidate(base, k))) {
        lemma_first_free_free(base, used, k + 1, limit);
    }
}

/// The text without its leading `_` characters.
fn strip_underscores_exec(s: &str) -> (r: String)
    ensures
        r@ == strip_underscores(s@),
{
    let n = s.unicode_len();
    let mut j: usize = 0;
    assert(s@.skip(0) =~= s@);
    while j < n && s.get_char(j) == '_'
        invariant
            n == s@.len(),
            j <= n,
            strip_underscores(s@) == strip_underscores(s@.skip(j as int)),
        decreases n - j,
    {
        proof {
            assert(s@.skip(j as int).drop_first() =~= s@.skip(j + 1));
        }
        j = j + 1;
    }
    let rest = s.substring_char(j, n);
    proof {
        assert(rest@ =~= s@.skip(j as int));
    }
    String::from_str(rest)
}

/// The text without its NUL characters.
fn without_nuls_exec(s: &str) -> (r: String)
    ensures
        r@ == without_nuls(s@),
{
    let n = s.unicode_len();
    let mut out = String::new();
    let mut i: usize = 0;
    assert(s@.take(0) =~= Seq::<char>::empty());
    while i < n
        invariant
            n == s@.len(),
            i <= n,
            out@ == without_nuls(s@.take(i as int)),
        decreases n - i,
    {
        let c = s.get_char(i);
        proof {
            let t = s@.take(i + 1);
            assert(t.drop_last() =~= s@.take(i as int));
            assert(t.last() == c);
        }
        if c != '\0' {
            let piece = s.substring_char(i, i + 1);
            proof {
                assert(piece@ =~= seq![c]);
            }
            out.append(piece);
        } else {
            assert(out@ =~= out@ + Seq::<char>::empty());
        }
        i = i + 1;
    }
    assert(s@.take(n as int) =~= s@);
    out
}

/// The column name that a field starts from, as `column_base` says.
fn column_base_exec(name: &str, index: usize) -> (r: String)
    requires
        index < i64::MAX,
    ensures
        r@ == column_base(name@, index as nat),
{
    let stripped = strip_underscores_exec(name);
    let t = without_nuls_exec(stripped.as_str());
    if t.unicode_len() == 0 {
        proof {
            lemma_int_text(index + 1);
        }
        concat(String::from_str("FIELD_"), i64_to_string(index as i64 + 1).as_str())
    } else {
        let lower = to_ascii_lowercase(t.as_str());
        if str_eq(lower.as_str(), "id") {
            String::from_str("ID1")
        } else {
            t
        }
    }
}

/// Candidate `k` for a column, as `candidate` says.
fn candidate_exec(base: &str, k: usize) -> (r: String)
    requires
        k < i64::MAX - 1,
    ensures
        r@ == candidate(base@, k as nat),
{
    if k == 0 {
        String::from_str(base)
    } else {
        concat(concat(String::from_str(base), "_"), i64_to_string(k as i64 + 1).as_str())
    }
}

/// Whether `used` holds `s`.
fn holds(used: &Vec<String>, s: &str) -> (r: bool)
    ensures
        r == used@.map_values(|u: String| u@).contains(s@),
{
    let ghost uv = used@.map_values(|u: String| u@);
    let mut i: usize = 0;
    while i < used.len()
        invariant
            i <= used@.len(),
            uv == used@.map_values(|u: String| u@),
            forall|j: int| 0 <= j < i ==> uv[j] != s@,
        decreases used@.len() - i,
    {
        if str_eq(used[i].as_str(), s) {
            assert(uv[i as int] == s@);
            return true;
        }
        i = i + 1;
    }
    false
}

/// The names of the SQLite columns that hold the fields: each field's name
/// without leading `_` and NULs (`FIELD_n` where nothing is left, `ID1` for
/// `ID` in any case), with `_2`, `_3` and so on added until its lower case
/// differs from `id` and from every column before it.  `None` where a field
/// finds no free name among as many candidates as there are names taken
/// before it plus one, which cannot happen where the names are ASCII.
pub fn sqlite_column_names(fields: &[FieldDef]) -> (r: Option<Vec<String>>)
    requires
        fields@.len() <= usize::MAX - 2,
        fields@.len() < i64::MAX - 2,
    ensures
        match column_names_spec(fields@.map_values(|d: FieldDef| d.name@)) {
            Some(names) => r matches Some(v) && v@.map_values(|s: String| s@) == names,
            None => r is None,
        },
        (forall|i: int| 0 <= i < fields@.len() ==> is_ascii_text(#[trigger] fields@[i].name@)) ==> r is Some,
        r matches Some(v) ==> v@.len() == fields@.len() && used_names(
            v@.map_values(|s: String| s@),
        ).no_duplicates(),
{
    let ghost names = fields@.map_values(|d: FieldDef| d.name@);
    proof {
        if forall|i: int| 0 <= i < fields@.len() ==> is_ascii_text(#[trigger] fields@[i].name@) {
            assert forall|i: int| 0 <= i < names.len() implies is_ascii_text(#[trigger] names[i]) by {
                assert(names[i] == fields@[i].name@);
            }
            lemma_ascii_names_have_columns(names);
        }
    }
    let mut used: Vec<String> = Vec::new();
    used.push(String::from_str("id"));
    let mut out: Vec<String> = Vec::new();
    let mut i: usize = 0;
    proof {
        reveal_strlit("id");
        assert(names.take(0) =~= Seq::<Seq<char>>::empty());
        assert(used@.map_values(|u: String| u@) =~= used_names(Seq::<Seq<char>>::empty()));
    }
    while i < fields.len()
        invariant
            i <= fields@.len(),
            fields@.len() <= usize::MAX - 2,
            fields@.len() < i64::MAX - 2,
            names == fields@.map_values(|d: FieldDef| d.name@),
            column_names_spec(names.take(i as int)) == Some(out@.map_values(|s: String| s@)),
            used@.map_values(|u: String| u@) == used_names(out@.map_values(|s: String| s@)),
            (forall|j: int| 0 <= j < fields@.len() ==> is_ascii_text(#[trigger] fields@[j].name@))
                ==> column_names_spec(names) is Some,
        decreases fields@.len() - i,
    {
        let base = column_base_exec(fields[i].name.as_str(), i);
        let ghost prev = out@.map_values(|s: String| s@);
        let ghost uv = used@.map_values(|u: String| u@);
        let limit: usize = i + 1;
        let mut k: usize = 0;
        let mut found: Option<(String, String)> = None;
        while k <= limit
            invariant_except_break
                found is None,
                k <= limit + 1,
                first_free(base@, uv, 0, limit as nat) == first_free(base@, uv, k as nat, limit as nat),
            invariant
                limit == i + 1,
                i < fields@.len(),
                fields@.len() <= usize::MAX - 2,
                fields@.len() < i64::MAX - 2,
                uv == used@.map_values(|u: String| u@),
            ensures
                match found {
                    Some((c, l)) => first_free(base@, uv, 0, limit as nat) == Some(c@) && l@
                        == lower_text(c@),
                    None => first_free(base@, uv, 0, limit as nat) is None,
                },
            decreases limit + 1 - k,
        {
            let c = candidate_exec(base.as_str(), k);
            let l = to_lowercase(c.as_str());
            if !holds(&used, l.as_str()) {
                found = Some((c, l));
                break;
            }
            k = k + 1;
        }
        let ghost names_i = names.take(i + 1);
        proof {
            assert(names_i.drop_last() =~= names.take(i as int));
            assert(names_i.last() == fields@[i as int].name@);
        }
        match found {
            None => {
                proof {
                    lemma_names_none_stays(names, i + 1);
                }
                return None;
            },
            Some((c, l)) => {
                out.push(c);
                used.push(l);
                proof {
                    assert(out@.map_values(|s: String| s@) =~= prev.push(c@));
                    assert(l@ == lower_text(c@));
                    assert(prev.push(c@).map_values(|x: Seq<char>| lower_text(x)) =~= prev.map_values(
                        |x: Seq<char>| lower_text(x),
                    ).push(lower_text(c@)));
                    assert(used@.map_values(|u: String| u@) =~= uv.push(l@));
                    assert(used@.map_values(|u: String| u@) =~= used_names(prev.push(c@)));
                }
            },
        }
        i = i + 1;
    }
    proof {
        assert(names.take(fields@.len() as int) =~= names);
        lemma_column_names_distinct(names);
    }
    Some(out)
}

/// The rows that go into a table, in order: those whose primary key is
/// not 0 (a row with key 0 is an empty slot and is skipped).
pub open spec fn imported_rows(rows: Seq<Row>) -> Seq<Row>
    decreases rows.len(),
{
    if rows.len() == 0 {
        rows
    } else {
        imported_rows(rows.drop_last()) + if rows.last().primary_key != 0 {
            seq![rows.last()]
        } else {
            Seq::empty()
        }
    }
}

/// Splits the rows of a table into those that go into the database, in
/// order, and the number of rows skipped (those whose primary key is 0).
pub fn split_imported_rows(rows: Vec<Row>) -> (r: (Vec<Row>, usize))
    ensures
        r.0@ == imported_rows(rows@),
        r.1 == rows@.len() - r.0@.len(),
{
    let ghost all = rows@;
    let total = rows.len();
    let mut rest = rows;
    let mut rev: Vec<Row> = Vec::new();
    let mut skipped: usize = 0;
    while rest.len() > 0
        invariant
            imported_rows(all) == imported_rows(rest@) + rev@.reverse(),
            skipped + rev@.len() + rest@.len() == all.len(),
            all.len() == total,
        decreases rest@.len(),
    {
        let ghost before = rest@;
        let row = rest.pop().unwrap();
        proof {
            assert(before.drop_last() =~= rest@);
            assert(before.last() == row);
        }
        if row.primary_key != 0 {
            let ghost old_rev = rev@;
            rev.push(row);
            assert(rev@.reverse() =~= seq![row] + old_rev.reverse());
            assert(imported_rows(all) =~= imported_rows(rest@) + rev@.reverse());
        } else {
            assert(imported_rows(before) =~= imported_rows(rest@));
            skipped = skipped + 1;
        }
    }
    let mut out: Vec<Row> = Vec::new();
    let ghost kept = rev@.len();
    assert(imported_rows(rest@) =~= Seq::<Row>::empty());
    assert(imported_rows(all) =~= rev@.reverse());
    while rev.len() > 0
        invariant
            imported_rows(all) == out@ + rev@.reverse(),
            out@.len() + rev@.len() == kept,
        decreases rev@.len(),
    {
        let ghost before = rev@;
        let row = rev.pop().unwrap();
        proof {
            assert(before =~= rev@.push(row));
            assert(before.reverse() =~= seq![row] + rev@.reverse());
        }
        out.push(row);
        assert(imported_rows(all) =~= out@ + rev@.reverse());
    }
    assert(rev@.reverse() =~= Seq::<Row>::empty());
    assert(out@ =~= imported_rows(all));
    (out, skipped)
}

} // verus!
