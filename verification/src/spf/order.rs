//! The order of file names inside a pack: the byte order of their UTF-8
//! text, the order of `String` comparison.

use vstd::prelude::*;
use vstd::utf8::encode_utf8;

verus! {

/// Lexicographic order on bytes: `a` comes no later than `b`.
pub open spec fn bytes_le(a: Seq<u8>, b: Seq<u8>) -> bool
    decreases a.len(),
{
    if a.len() == 0 {
        true
    } else if b.len() == 0 {
        false
    } else if a[0] != b[0] {
        a[0] < b[0]
    } else {
        bytes_le(a.drop_first(), b.drop_first())
    }
}

/// The order of two file names: that of their UTF-8 bytes.
pub open spec fn name_le(a: Seq<char>, b: Seq<char>) -> bool {
    bytes_le(encode_utf8(a), encode_utf8(b))
}

/// Files in order of their names.
pub open spec fn sorted_by_name(s: Seq<(Seq<char>, Seq<u8>)>) -> bool {
    forall|i: int, j: int| 0 <= i < j < s.len() ==> name_le(#[trigger] s[i].0, #[trigger] s[j].0)
}

/// The names and contents of files.
pub open spec fn files_view(s: Seq<(String, Vec<u8>)>) -> Seq<(Seq<char>, Seq<u8>)> {
    s.map_values(|f: (String, Vec<u8>)| (f.0@, f.1@))
}

/// Any two byte strings are ordered one way or the other.
pub proof fn lemma_bytes_le_total(a: Seq<u8>, b: Seq<u8>)
    ensures
        bytes_le(a, b) || bytes_le(b, a),
    decreases a.len(),
{
    if a.len() > 0 && b.len() > 0 && a[0] == b[0] {
        lemma_bytes_le_total(a.drop_first(), b.drop_first());
    }
}

/// The order on byte strings is transitive.
pub proof fn lemma_bytes_le_trans(a: Seq<u8>, b: Seq<u8>, c: Seq<u8>)
    requires
        bytes_le(a, b),
        bytes_le(b, c),
    ensures
        bytes_le(a, c),
    decreases a.len(),
{
    if a.len() > 0 && b.len() > 0 && c.len() > 0 && a[0] == b[0] && b[0] == c[0] {
        lemma_bytes_le_trans(a.drop_first(), b.drop_first(), c.drop_first());
    }
}

/// Compares two byte strings in lexicographic order.
pub fn bytes_le_exec(a: &[u8], b: &[u8]) -> (r: bool)
    ensures
        r == bytes_le(a@, b@),
{
    let mut i: usize = 0;
    assert(a@.skip(0) =~= a@ && b@.skip(0) =~= b@);
    while i < a.len() && i < b.len() && a[i] == b[i]
        invariant
            i <= a@.len(),
            i <= b@.len(),
            bytes_le(a@, b@) == bytes_le(a@.skip(i as int), b@.skip(i as int)),
        decreases a@.len() - i,
    {
        assert(a@.skip(i as int).drop_first() =~= a@.skip(i + 1));
        assert(b@.skip(i as int).drop_first() =~= b@.skip(i + 1));
        i = i + 1;
    }
    if i == a.len() {
        true
    } else if i == b.len() {
        false
    } else {
        assert(a@.skip(i as int)[0] == a@[i as int]);
        assert(b@.skip(i as int)[0] == b@[i as int]);
        a[i] < b[i]
    }
}

/// Sorts files by name.
pub fn sort_by_name(files: Vec<(String, Vec<u8>)>) -> (r: Vec<(String, Vec<u8>)>)
    ensures
        files_view(r@).to_multiset() == files_view(files@).to_multiset(),
        sorted_by_name(files_view(r@)),
{
    let ghost all = files_view(files@).to_multiset();
    let mut input = files;
    let mut out: Vec<(String, Vec<u8>)> = Vec::new();
    proof {
        assert(files_view(out@) =~= Seq::<(Seq<char>, Seq<u8>)>::empty());
        assert(files_view(out@).to_multiset() =~= vstd::multiset::Multiset::empty()) by {
            broadcast use vstd::seq_lib::group_to_multiset_ensures;
        }
    }
    while input.len() > 0
        invariant
            sorted_by_name(files_view(out@)),
            files_view(out@).to_multiset().add(files_view(input@).to_multiset()) == all,
        decreases input@.len(),
    {
        let ghost before_in = files_view(input@);
        let x = input.pop().unwrap();
        let ghost xv = (x.0@, x.1@);
        proof {
            assert(before_in =~= files_view(input@).push(xv));
            vstd::seq_lib::to_multiset_build(files_view(input@), xv);
        }
        let ghost ov = files_view(out@);
        let mut k: usize = 0;
        let mut found = false;
        while !found && k < out.len()
            invariant
                k <= out@.len(),
                ov == files_view(out@),
                xv.0 == x.0@,
                forall|i: int| 0 <= i < k ==> !name_le(xv.0, #[trigger] ov[i].0),
                found ==> k < out@.len() && name_le(xv.0, ov[k as int].0),
            decreases out@.len() - k, if found { 0int } else { 1int },
        {
            let le = bytes_le_exec(x.0.as_str().as_bytes(), out[k].0.as_str().as_bytes());
            assert(ov[k as int].0 == out@[k as int].0@);
            if le {
                found = true;
            } else {
                k = k + 1;
            }
        }
        out.insert(k, x);
        proof {
            let nv = files_view(out@);
            assert(nv =~= ov.insert(k as int, xv));
            vstd::seq_lib::to_multiset_insert(ov, k as int, xv);
            assert forall|i: int, j: int| 0 <= i < j < nv.len() implies name_le(
                #[trigger] nv[i].0,
                #[trigger] nv[j].0,
            ) by {
                if j < k {
                    assert(nv[i] == ov[i] && nv[j] == ov[j]);
                } else if j == k {
                    assert(nv[i] == ov[i]);
                    assert(!name_le(xv.0, ov[i].0));
                    lemma_bytes_le_total(encode_utf8(xv.0), encode_utf8(ov[i].0));
                } else if i > k {
                    assert(nv[i] == ov[i - 1] && nv[j] == ov[j - 1]);
                } else if i == k {
                    assert(nv[j] == ov[j - 1]);
                    assert(name_le(xv.0, ov[k as int].0));
                    if j - 1 > k {
                        lemma_bytes_le_trans(
                            encode_utf8(xv.0),
                            encode_utf8(ov[k as int].0),
                            encode_utf8(ov[j - 1].0),
                        );
                    }
                } else {
                    assert(nv[i] == ov[i] && nv[j] == ov[j - 1]);
                }
            }
        }
        proof {
            let nv = files_view(out@);
            assert(nv.to_multiset() == ov.to_multiset().insert(xv));
            assert(nv.to_multiset().add(files_view(input@).to_multiset()) =~= ov.to_multiset().add(
                before_in.to_multiset(),
            ));
        }
    }
    proof {
        assert(files_view(input@) =~= Seq::<(Seq<char>, Seq<u8>)>::empty());
        assert(files_view(input@).to_multiset() =~= vstd::multiset::Multiset::empty()) by {
            broadcast use vstd::seq_lib::group_to_multiset_ensures;
        }
        assert(files_view(out@).to_multiset().add(vstd::multiset::Multiset::empty()) =~= files_view(out@).to_multiset());
    }
    out
}

} // verus!
