//! SPF writer: lays out the resources, the FINFO table, the header and the
//! version word, encrypting the resources and the table when asked to.

use vstd::prelude::*;
use vstd::utf8::{encode_scalar, encode_utf8};
use crate::bytes::{i32_bytes, push_all, push_i32, push_u32, u32_bytes};
use crate::common::encoding::{encode, encoding_for_upper_name, encoding_from_name, spec_encode, TextEncoding};
use crate::common::text::{is_ascii_text, upper_text};
use crate::ldt::writer::MAX_TEXT_BYTES;
use crate::spf::crypto::{crypt_finfo, crypt_resource, finfo_state_spec, resource_state_spec, xor_stream};
use crate::spf::order::{files_view, sort_by_name, sorted_by_name};
use crate::spf::laws::lemma_spf_write_then_read;
use crate::spf::reader::{file_count_spec, header_area, index_start, issues_spec, record_spec, SpfError, SpfIssue};
use crate::spf::types::{finfo_of_bytes, res_id_spec, spf_header_of_bytes, FInfo, ResId, SpfHeader, DESC_SIZE, FINFO_SIZE};

verus! {

/// Largest number of files whose FINFO table size fits an i32.
pub const MAX_FILES: usize = 15_339_168;

/// The 128-byte name field: the encoded name cut to 127 bytes, then NULs.
pub open spec fn name_field(enc: TextEncoding, name: Seq<char>) -> Seq<u8> {
    let e = spec_encode(enc, name).0;
    let n = if e.len() < 127 { e.len() as int } else { 127 };
    e.take(n) + Seq::new((128 - n) as nat, |i: int| 0u8)
}

/// The offset of file `i`: the sizes of the files before it.
pub open spec fn data_offset(files: Seq<(Seq<char>, Seq<u8>)>, i: nat) -> nat
    decreases i,
{
    if i == 0 {
        0
    } else {
        data_offset(files, (i - 1) as nat) + files[i - 1].1.len()
    }
}

/// The raw version word: the version with the encryption flag.
pub open spec fn raw_version_of(version: i32, encrypted: bool) -> u32 {
    (version as u32) | (if encrypted { 0x8000_0000u32 } else { 0u32 })
}

/// The plain FINFO record of file `i`.
pub open spec fn finfo_plain(
    enc: TextEncoding,
    file_id: u8,
    files: Seq<(Seq<char>, Seq<u8>)>,
    i: nat,
) -> Seq<u8> {
    name_field(enc, files[i as int].0) + i32_bytes(data_offset(files, i) as i32) + i32_bytes(
        files[i as int].1.len() as i32,
    ) + u32_bytes(res_id_spec(file_id, (i + 1) as u32))
}

/// The stored data of file `i` (encrypted when the pack is).
pub open spec fn stored_data(files: Seq<(Seq<char>, Seq<u8>)>, i: nat, raw: u32) -> Seq<u8> {
    if raw & 0x8000_0000u32 != 0 {
        xor_stream(
            files[i as int].1,
            resource_state_spec(data_offset(files, i) as i32, files[i as int].1.len() as i32, raw),
        )
    } else {
        files[i as int].1
    }
}

/// The stored FINFO record of file `i` (encrypted when the pack is).
pub open spec fn stored_record(
    enc: TextEncoding,
    file_id: u8,
    files: Seq<(Seq<char>, Seq<u8>)>,
    i: nat,
    raw: u32,
) -> Seq<u8> {
    if raw & 0x8000_0000u32 != 0 {
        xor_stream(finfo_plain(enc, file_id, files, i), finfo_state_spec())
    } else {
        finfo_plain(enc, file_id, files, i)
    }
}

/// The data area: the stored data of the first `n` files.
pub open spec fn data_area(files: Seq<(Seq<char>, Seq<u8>)>, n: nat, raw: u32) -> Seq<u8>
    decreases n,
{
    if n == 0 {
        Seq::empty()
    } else {
        data_area(files, (n - 1) as nat, raw) + stored_data(files, (n - 1) as nat, raw)
    }
}

/// The FINFO table: the stored records of the first `n` files.
pub open spec fn finfo_table(
    enc: TextEncoding,
    file_id: u8,
    files: Seq<(Seq<char>, Seq<u8>)>,
    n: nat,
    raw: u32,
) -> Seq<u8>
    decreases n,
{
    if n == 0 {
        Seq::empty()
    } else {
        finfo_table(enc, file_id, files, (n - 1) as nat, raw) + stored_record(
            enc,
            file_id,
            files,
            (n - 1) as nat,
            raw,
        )
    }
}

/// The bytes of a whole pack.
pub open spec fn spf_file_bytes(
    file_id: u8,
    version: i32,
    encrypted: bool,
    desc: Seq<u8>,
    enc: TextEncoding,
    files: Seq<(Seq<char>, Seq<u8>)>,
) -> Seq<u8> {
    let raw = raw_version_of(version, encrypted);
    data_area(files, files.len(), raw) + finfo_table(enc, file_id, files, files.len(), raw)
        + i32_bytes((140 * files.len()) as i32) + i32_bytes(file_id as i32) + desc + u32_bytes(raw)
}

/// Whether every file name can be encoded.
pub open spec fn names_fit(files: Seq<(Seq<char>, Seq<u8>)>) -> bool {
    forall|i: int| 0 <= i < files.len() ==> encode_utf8(#[trigger] files[i].0).len() <= MAX_TEXT_BYTES
}

/// Whether every ASCII file name is encoded as its own bytes.
pub open spec fn ascii_names_stored_as_is(enc: TextEncoding, files: Seq<(Seq<char>, Seq<u8>)>) -> bool {
    forall|i: int|
        0 <= i < files.len() && is_ascii_text(#[trigger] files[i].0) ==> spec_encode(enc, files[i].0).0
            == encode_utf8(files[i].0)
}

/// Whether a file name is one that `verify` finds no fault with in any
/// encoding: ASCII, not empty and not starting with NUL.
pub open spec fn is_clean_name(name: Seq<char>) -> bool {
    &&& name.len() > 0
    &&& is_ascii_text(name)
    &&& name[0] as u32 != 0
}

/// Whether `verify` finds nothing in a pack's bytes: whatever header and
/// records are read from them, the issues of the records are none.
pub open spec fn verifies_clean(b: Seq<u8>) -> bool {
    forall|h: SpfHeader|
        spf_header_of_bytes(h, header_area(b)) ==> forall|fs: Seq<FInfo>|
            fs.len() == file_count_spec(h) && (forall|i: int|
                0 <= i < fs.len() ==> finfo_of_bytes(#[trigger] fs[i], record_spec(b, h, i)))
                ==> issues_spec(fs, fs.len(), index_start(b, h), h.file_id) == Seq::<SpfIssue>::empty()
}

/// What writing gives: `NegativeVersion`, `TooLarge` (more files than the
/// table size allows, or more than 2^31 - 1 bytes of data), `NameTooLong`,
/// or the pack's bytes.
pub open spec fn spf_write_result(
    file_id: u8,
    version: i32,
    encrypted: bool,
    desc: Seq<u8>,
    enc: TextEncoding,
    files: Seq<(Seq<char>, Seq<u8>)>,
) -> Result<Seq<u8>, SpfError> {
    if version < 0 {
        Err(SpfError::NegativeVersion)
    } else if files.len() > MAX_FILES || data_offset(files, files.len()) > 0x7fff_ffff {
        Err(SpfError::TooLarge)
    } else if !names_fit(files) {
        Err(SpfError::NameTooLong)
    } else {
        Ok(spf_file_bytes(file_id, version, encrypted, desc, enc, files))
    }
}

/// The description field that `set_desc` sets: the first 127 UTF-8 bytes
/// of the text, then NULs.
pub open spec fn desc_field(text: Seq<char>) -> Seq<u8> {
    let b = encode_utf8(text);
    let n = if b.len() < 127 { b.len() as int } else { 127 };
    b.take(n) + Seq::new((128 - n) as nat, |i: int| 0u8)
}

/// The 128-byte description field holds the text's UTF-8 bytes, cut to at
/// most 127, and NULs after them, so it always ends with a NUL.
pub proof fn lemma_desc_field_bytes(text: Seq<char>)
    ensures
        ({
            let d = desc_field(text);
            let b = encode_utf8(text);
            &&& d.len() == 128
            &&& d[127] == 0
            &&& forall|i: int| 0 <= i < 128 ==> #[trigger] d[i] == if i < b.len() && i < 127 {
                b[i]
            } else {
                0u8
            }
        }),
{
}

/// The 128-byte name field of a FINFO record holds the name's bytes in the
/// pack's encoding, cut to at most 127, and NULs after them.
pub proof fn lemma_name_field_bytes(enc: TextEncoding, name: Seq<char>)
    ensures
        ({
            let f = name_field(enc, name);
            let e = spec_encode(enc, name).0;
            &&& f.len() == 128
            &&& f[127] == 0
            &&& forall|i: int| 0 <= i < 128 ==> #[trigger] f[i] == if i < e.len() && i < 127 {
                e[i]
            } else {
                0u8
            }
        }),
{
}

/// SPF pack writer.
pub struct SpfWriter {
    file_id: u8,
    version: i32,
    encrypted: bool,
    desc: [u8; DESC_SIZE],
    encoding: TextEncoding,
    files: Vec<(String, Vec<u8>)>,
}

impl SpfWriter {
    /// The FILE_ID.
    pub closed spec fn spec_file_id(&self) -> u8 {
        self.file_id
    }

    /// The version number.
    pub closed spec fn spec_version(&self) -> i32 {
        self.version
    }

    /// Whether the pack will be encrypted.
    pub closed spec fn spec_encrypted(&self) -> bool {
        self.encrypted
    }

    /// The description field.
    pub closed spec fn spec_desc(&self) -> Seq<u8> {
        self.desc@
    }

    /// The encoding of file names.
    pub closed spec fn spec_encoding(&self) -> TextEncoding {
        self.encoding
    }

    /// The files: names and data, in insertion order.
    pub closed spec fn spec_files(&self) -> Seq<(Seq<char>, Seq<u8>)> {
        self.files@.map_values(|f: (String, Vec<u8>)| (f.0@, f.1@))
    }

    /// Creates a writer for a pack with this FILE_ID and version, and the
    /// named encoding for file names; not encrypted, empty description.
    pub fn new(file_id: u8, version: i32, encoding: &str) -> (r: SpfWriter)
        ensures
            r.spec_file_id() == file_id,
            r.spec_version() == version,
            !r.spec_encrypted(),
            r.spec_desc() == Seq::new(128, |i: int| 0u8),
            r.spec_encoding() == encoding_for_upper_name(upper_text(encoding@)),
            r.spec_files() == Seq::<(Seq<char>, Seq<u8>)>::empty(),
    {
        let w = SpfWriter {
            file_id,
            version,
            encrypted: false,
            desc: [0u8; DESC_SIZE],
            encoding: encoding_from_name(encoding),
            files: Vec::new(),
        };
        assert(w.spec_desc() =~= Seq::new(128, |i: int| 0u8));
        assert(w.spec_files() =~= Seq::<(Seq<char>, Seq<u8>)>::empty());
        w
    }

    /// Chooses whether to write an encrypted pack.
    pub fn set_encrypted(&mut self, encrypted: bool)
        ensures
            final(self).spec_encrypted() == encrypted,
            final(self).spec_file_id() == old(self).spec_file_id(),
            final(self).spec_version() == old(self).spec_version(),
            final(self).spec_desc() == old(self).spec_desc(),
            final(self).spec_encoding() == old(self).spec_encoding(),
            final(self).spec_files() == old(self).spec_files(),
    {
        self.encrypted = encrypted;
    }

    /// Sets the description: its first 127 UTF-8 bytes, then NULs.
    pub fn set_desc(&mut self, desc: &str)
        ensures
            final(self).spec_desc() == desc_field(desc@),
            final(self).spec_encrypted() == old(self).spec_encrypted(),
            final(self).spec_file_id() == old(self).spec_file_id(),
            final(self).spec_version() == old(self).spec_version(),
            final(self).spec_encoding() == old(self).spec_encoding(),
            final(self).spec_files() == old(self).spec_files(),
    {
        let bytes = desc.as_bytes();
        let len = if bytes.len() < DESC_SIZE - 1 { bytes.len() } else { DESC_SIZE - 1 };
        let mut i: usize = 0;
        while i < DESC_SIZE
            invariant
                i <= 128,
                len <= 127,
                len <= bytes@.len(),
                bytes@ == encode_utf8(desc@),
                forall|k: int| 0 <= k < i && k < len ==> self.desc@[k] == bytes@[k],
                forall|k: int| 0 <= k < i && k >= len ==> self.desc@[k] == 0,
                self.file_id == old(self).file_id,
                self.version == old(self).version,
                self.encrypted == old(self).encrypted,
                self.encoding == old(self).encoding,
                self.files == old(self).files,
            decreases 128 - i,
        {
            if i < len {
                self.desc[i] = bytes[i];
            } else {
                self.desc[i] = 0;
            }
            i = i + 1;
        }
        assert(self.desc@ =~= desc_field(desc@));
    }

    /// Adds a file (name kept as given, in insertion order).
    pub fn add_file(&mut self, name: String, data: Vec<u8>)
        ensures
            final(self).spec_files() == old(self).spec_files().push((name@, data@)),
            final(self).spec_encrypted() == old(self).spec_encrypted(),
            final(self).spec_file_id() == old(self).spec_file_id(),
            final(self).spec_version() == old(self).spec_version(),
            final(self).spec_desc() == old(self).spec_desc(),
            final(self).spec_encoding() == old(self).spec_encoding(),
    {
        let ghost before = self.files@;
        let ghost entry = (name@, data@);
        self.files.push((name, data));
        assert(self.files@.map_values(|f: (String, Vec<u8>)| (f.0@, f.1@)) =~= before.map_values(
            |f: (String, Vec<u8>)| (f.0@, f.1@),
        ).push(entry));
    }

    /// Adds files in order of their names (the files of a directory, which
    /// come in no particular order).
    pub fn add_files_sorted(&mut self, files: Vec<(String, Vec<u8>)>)
        ensures
            exists|s: Seq<(Seq<char>, Seq<u8>)>|
                #![trigger sorted_by_name(s)]
                s.to_multiset() == files_view(files@).to_multiset() && sorted_by_name(s)
                    && final(self).spec_files() == old(self).spec_files() + s,
            final(self).spec_encrypted() == old(self).spec_encrypted(),
            final(self).spec_file_id() == old(self).spec_file_id(),
            final(self).spec_version() == old(self).spec_version(),
            final(self).spec_desc() == old(self).spec_desc(),
            final(self).spec_encoding() == old(self).spec_encoding(),
    {
        let sorted = sort_by_name(files);
        let ghost sv = files_view(sorted@);
        let ghost start = self.spec_files();
        let mut rest = sorted;
        let n = rest.len();
        let mut i: usize = 0;
        while i < n
            invariant
                i <= n,
                n == sv.len(),
                files_view(rest@) == sv.skip(i as int),
                self.spec_files() == start + sv.take(i as int),
                self.encrypted == old(self).encrypted,
                self.file_id == old(self).file_id,
                self.version == old(self).version,
                self.desc == old(self).desc,
                self.encoding == old(self).encoding,
            decreases n - i,
        {
            let ghost rv = files_view(rest@);
            assert(rv.len() == rest@.len());
            assert(rv[0] == sv[i as int]);
            let (name, data) = rest.remove(0);
            proof {
                assert(rv[0] == (name@, data@));
                assert(files_view(rest@) =~= rv.drop_first());
                assert(sv.skip(i + 1) =~= sv.skip(i as int).drop_first());
                assert(sv.take(i + 1) =~= sv.take(i as int).push((name@, data@)));
            }
            self.add_file(name, data);
            i = i + 1;
        }
        proof {
            assert(sv.take(n as int) =~= sv);
        }
    }

    /// The number of files.
    pub fn file_count(&self) -> (r: usize)
        ensures
            r == self.spec_files().len(),
    {
        self.files.len()
    }

    /// The file names, in insertion order.
    pub fn file_names(&self) -> (r: Vec<String>)
        ensures
            r@.map_values(|s: String| s@) == self.spec_files().map_values(
                |f: (Seq<char>, Seq<u8>)| f.0,
            ),
    {
        let mut names: Vec<String> = Vec::new();
        let mut i: usize = 0;
        while i < self.files.len()
            invariant
                i <= self.files@.len(),
                names@.len() == i,
                forall|k: int| 0 <= k < i ==> #[trigger] names@[k]@ == self.files@[k].0@,
            decreases self.files@.len() - i,
        {
            names.push(self.files[i].0.clone());
            i = i + 1;
        }
        assert(names@.map_values(|s: String| s@) =~= self.spec_files().map_values(
            |f: (Seq<char>, Seq<u8>)| f.0,
        ));
        names
    }

    /// Lays out the whole pack.
    pub fn to_bytes(&self) -> (r: Result<Vec<u8>, SpfError>)
        ensures
            match spf_write_result(
                self.spec_file_id(),
                self.spec_version(),
                self.spec_encrypted(),
                self.spec_desc(),
                self.spec_encoding(),
                self.spec_files(),
            ) {
                Ok(b) => r matches Ok(v) && v@ == b,
                Err(e) => r == Err::<Vec<u8>, SpfError>(e),
            },
            r is Ok ==> ascii_names_stored_as_is(self.spec_encoding(), self.spec_files()),
            r matches Ok(v) ==> ((forall|i: int|
                0 <= i < self.spec_files().len() ==> is_clean_name(#[trigger] self.spec_files()[i].0))
                ==> verifies_clean(v@)),
    {
        let ghost files = self.spec_files();
        if self.version < 0 {
            return Err(SpfError::NegativeVersion);
        }
        let n = self.files.len();
        let total = match total_size(&self.files) {
            Some(t) => t,
            None => {
                return Err(SpfError::TooLarge);
            },
        };
        if n > MAX_FILES {
            return Err(SpfError::TooLarge);
        }
        if !names_fit_exec(&self.files) {
            return Err(SpfError::NameTooLong);
        }
        let raw = (self.version as u32) | (if self.encrypted { 0x8000_0000u32 } else { 0u32 });
        let mut out: Vec<u8> = Vec::new();
        write_data_area(&mut out, &self.files, raw);
        write_finfo_table(&mut out, &self.files, self.encoding, self.file_id, raw);
        push_i32(&mut out, (140 * n) as i32);
        push_i32(&mut out, self.file_id as i32);
        push_all(&mut out, self.desc.as_slice());
        push_u32(&mut out, raw);
        assert(out@ =~= spf_file_bytes(
            self.file_id,
            self.version,
            self.encrypted,
            self.desc@,
            self.encoding,
            files,
        ));
        proof {
            lemma_spf_write_then_read(
                self.file_id,
                self.version,
                self.encrypted,
                self.desc@,
                self.encoding,
                files,
            );
            if forall|i: int| 0 <= i < files.len() ==> is_clean_name(#[trigger] files[i].0) {
                assert forall|i: int| 0 <= i < files.len() implies #[trigger] name_field(
                    self.encoding,
                    files[i].0,
                )[0] != 0 by {
                    lemma_clean_name_field(self.encoding, files[i].0);
                }
            }
        }
        Ok(out)
    }
}

/// The stored name of a clean ASCII name starts with its first character,
/// which is not NUL.
proof fn lemma_clean_name_field(enc: TextEncoding, name: Seq<char>)
    requires
        is_clean_name(name),
        spec_encode(enc, name).0 == encode_utf8(name),
    ensures
        name_field(enc, name)[0] != 0,
{
    let c0 = name[0] as u32;
    assert(c0 < 128);
    assert(encode_utf8(name)[0] == encode_scalar(c0)[0]);
    assert((c0 & 0x7F) as u8 != 0) by (bit_vector)
        requires
            c0 < 128,
            c0 != 0,
    ;
}

proof fn lemma_data_offset_mono(files: Seq<(Seq<char>, Seq<u8>)>, i: nat, j: nat)
    requires
        i <= j,
    ensures
        data_offset(files, i) <= data_offset(files, j),
    decreases j - i,
{
    if i < j {
        lemma_data_offset_mono(files, i, (j - 1) as nat);
    }
}

fn total_size(files: &Vec<(String, Vec<u8>)>) -> (r: Option<usize>)
    ensures
        ({
            let fs = files@.map_values(|f: (String, Vec<u8>)| (f.0@, f.1@));
            match r {
                Some(t) => t == data_offset(fs, fs.len()) && t <= 0x7fff_ffff,
                None => data_offset(fs, fs.len()) > 0x7fff_ffff,
            }
        }),
{
    let ghost fs = files@.map_values(|f: (String, Vec<u8>)| (f.0@, f.1@));
    let mut t: usize = 0;
    let mut i: usize = 0;
    while i < files.len()
        invariant
            i <= files@.len(),
            fs == files@.map_values(|f: (String, Vec<u8>)| (f.0@, f.1@)),
            t == data_offset(fs, i as nat),
            t <= 0x7fff_ffff,
        decreases files@.len() - i,
    {
        let len = files[i].1.len();
        if len > 0x7fff_ffff - t {
            proof {
                assert(data_offset(fs, (i + 1) as nat) > 0x7fff_ffff);
                lemma_data_offset_mono(fs, (i + 1) as nat, fs.len());
            }
            return None;
        }
        t = t + len;
        i = i + 1;
    }
    Some(t)
}

fn names_fit_exec(files: &Vec<(String, Vec<u8>)>) -> (r: bool)
    ensures
        r == names_fit(files@.map_values(|f: (String, Vec<u8>)| (f.0@, f.1@))),
{
    let ghost fs = files@.map_values(|f: (String, Vec<u8>)| (f.0@, f.1@));
    let mut i: usize = 0;
    while i < files.len()
        invariant
            i <= files@.len(),
            fs == files@.map_values(|f: (String, Vec<u8>)| (f.0@, f.1@)),
            forall|k: int| 0 <= k < i ==> encode_utf8(#[trigger] fs[k].0).len() <= MAX_TEXT_BYTES,
        decreases files@.len() - i,
    {
        if files[i].0.as_str().as_bytes().len() > MAX_TEXT_BYTES {
            assert(encode_utf8(fs[i as int].0).len() > MAX_TEXT_BYTES);
            return false;
        }
        i = i + 1;
    }
    true
}

fn write_data_area(out: &mut Vec<u8>, files: &Vec<(String, Vec<u8>)>, raw: u32)
    requires
        data_offset(files@.map_values(|f: (String, Vec<u8>)| (f.0@, f.1@)), files@.len())
            <= 0x7fff_ffff,
    ensures
        final(out)@ == old(out)@ + data_area(
            files@.map_values(|f: (String, Vec<u8>)| (f.0@, f.1@)),
            files@.len(),
            raw,
        ),
{
    let ghost fs = files@.map_values(|f: (String, Vec<u8>)| (f.0@, f.1@));
    let mut cur: usize = 0;
    let mut i: usize = 0;
    while i < files.len()
        invariant
            i <= files@.len(),
            fs == files@.map_values(|f: (String, Vec<u8>)| (f.0@, f.1@)),
            data_offset(fs, fs.len()) <= 0x7fff_ffff,
            cur == data_offset(fs, i as nat),
            out@ == old(out)@ + data_area(fs, i as nat, raw),
        decreases files@.len() - i,
    {
        proof {
            lemma_data_offset_mono(fs, (i + 1) as nat, fs.len());
        }
        let d = &files[i].1;
        if raw & 0x8000_0000 != 0 {
            let mut buf = d.clone();
            crypt_resource(buf.as_mut_slice(), cur as i32, d.len() as i32, raw);
            push_all(out, buf.as_slice());
        } else {
            push_all(out, d.as_slice());
        }
        cur = cur + d.len();
        i = i + 1;
    }
}

fn write_finfo_table(
    out: &mut Vec<u8>,
    files: &Vec<(String, Vec<u8>)>,
    enc: TextEncoding,
    file_id: u8,
    raw: u32,
)
    requires
        ({
            let fs = files@.map_values(|f: (String, Vec<u8>)| (f.0@, f.1@));
            &&& data_offset(fs, fs.len()) <= 0x7fff_ffff
            &&& names_fit(fs)
            &&& fs.len() <= MAX_FILES
        }),
    ensures
        final(out)@ == old(out)@ + finfo_table(
            enc,
            file_id,
            files@.map_values(|f: (String, Vec<u8>)| (f.0@, f.1@)),
            files@.len(),
            raw,
        ),
        ascii_names_stored_as_is(enc, files@.map_values(|f: (String, Vec<u8>)| (f.0@, f.1@))),
{
    let ghost fs = files@.map_values(|f: (String, Vec<u8>)| (f.0@, f.1@));
    let mut cur: usize = 0;
    let mut i: usize = 0;
    while i < files.len()
        invariant
            i <= files@.len(),
            fs == files@.map_values(|f: (String, Vec<u8>)| (f.0@, f.1@)),
            data_offset(fs, fs.len()) <= 0x7fff_ffff,
            names_fit(fs),
            fs.len() <= MAX_FILES,
            cur == data_offset(fs, i as nat),
            out@ == old(out)@ + finfo_table(enc, file_id, fs, i as nat, raw),
            forall|q: int|
                0 <= q < i && is_ascii_text(#[trigger] fs[q].0) ==> spec_encode(enc, fs[q].0).0
                    == encode_utf8(fs[q].0),
        decreases files@.len() - i,
    {
        proof {
            lemma_data_offset_mono(fs, (i + 1) as nat, fs.len());
        }
        assert(encode_utf8(fs[i as int].0).len() <= MAX_TEXT_BYTES);
        let (name, _) = encode(enc, files[i].0.as_str());
        let mut rec: Vec<u8> = Vec::new();
        let n = if name.len() < 127 { name.len() } else { 127 };
        let mut k: usize = 0;
        while k < 128
            invariant
                k <= 128,
                n <= 127,
                n <= name@.len(),
                rec@ == name@.take(if k < n { k as int } else { n as int }) + Seq::new(
                    (if k < n { 0 } else { k - n }) as nat,
                    |j: int| 0u8,
                ),
            decreases 128 - k,
        {
            if k < n {
                rec.push(name[k]);
                assert(rec@ =~= name@.take(k + 1) + Seq::new(0, |j: int| 0u8));
            } else {
                rec.push(0);
                assert(rec@ =~= name@.take(n as int) + Seq::new((k + 1 - n) as nat, |j: int| 0u8));
            }
            k = k + 1;
        }
        push_i32(&mut rec, cur as i32);
        push_i32(&mut rec, files[i].1.len() as i32);
        let id = ResId::new(file_id, (i + 1) as u32);
        push_u32(&mut rec, id.0);
        assert(rec@ =~= finfo_plain(enc, file_id, fs, i as nat));
        let mut arr = [0u8; FINFO_SIZE];
        let mut j: usize = 0;
        while j < FINFO_SIZE
            invariant
                j <= 140,
                rec@.len() == 140,
                forall|q: int| 0 <= q < j ==> arr@[q] == rec@[q],
            decreases 140 - j,
        {
            arr[j] = rec[j];
            j = j + 1;
        }
        assert(arr@ =~= rec@);
        if raw & 0x8000_0000 != 0 {
            crypt_finfo(&mut arr);
        }
        push_all(out, arr.as_slice());
        cur = cur + files[i].1.len();
        i = i + 1;
    }
}

} // verus!
