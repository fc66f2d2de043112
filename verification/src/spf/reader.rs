//! SPF reader: a pack held in memory.
//!
//! Layout, from the start: the resource data, the FINFO table, the 136-byte
//! header, and the 4-byte version word.  When the version word's highest bit
//! is set, the FINFO records and the resources are ChaCha20-encrypted.

use vstd::prelude::*;
use crate::bytes::{copy_range, read_u32, u32_le};
use crate::common::encoding::TextEncoding;
use crate::spf::crypto::{crypt_finfo, crypt_resource, finfo_state_spec, resource_state_spec, xor_stream};
use crate::spf::types::{finfo_of_bytes, spf_header_of_bytes, FInfo, SpfHeader, FINFO_SIZE, SPF_HEADER_SIZE};

verus! {

/// Why an SPF pack could not be read or written.
#[derive(Debug, Clone, Copy, PartialEq, Eq, Structural)]
pub enum SpfError {
    /// The data is shorter than the header and the version word.
    FileTooSmall,
    /// The header's FINFO table size is negative or larger than the data
    /// before the header.
    InvalidHeaderSize,
    /// The writer was given a negative version.
    NegativeVersion,
    /// The pack would not fit the 32-bit offsets and sizes of the format.
    TooLarge,
    /// A file name is longer than the text encoder takes on this machine (a
    /// sixteenth of the address space).
    NameTooLong,
}

/// A problem that verification finds in one FINFO record.
#[derive(Debug, Clone, Copy, PartialEq, Eq, Structural)]
pub enum SpfIssue {
    /// The record's offset is negative.
    NegativeOffset { index: usize, offset: i32 },
    /// The record's size is negative.
    NegativeSize { index: usize, size: i32 },
    /// The record's data runs past the end of the data area.
    OutOfDataArea { index: usize, start: u64, end: u64, data_area_end: u64 },
    /// The FILE_ID in the record's resource ID is not the pack's.
    FileIdMismatch { index: usize, res_file_id: u8, spf_file_id: i32 },
    /// The record's file name is empty.
    EmptyName { index: usize },
}

/// Whether the raw version word marks an encrypted pack.
pub open spec fn is_encrypted_spec(raw: u32) -> bool {
    raw & 0x8000_0000u32 != 0
}

/// The version number: the raw word without the encryption flag.
pub open spec fn version_spec(raw: u32) -> i32 {
    (raw & 0x7FFF_FFFFu32) as i32
}

/// The bytes of the header inside the pack.
pub open spec fn header_area(data: Seq<u8>) -> Seq<u8> {
    data.subrange(data.len() - 140, data.len() - 4)
}

/// The raw version word: the pack's last four bytes.
pub open spec fn raw_version_spec(data: Seq<u8>) -> u32 {
    u32_le(data, data.len() - 4)
}

/// Where the FINFO table starts, which is where the data area ends.
pub open spec fn index_start(data: Seq<u8>, h: SpfHeader) -> int {
    data.len() - 140 - h.header_size
}

/// The number of FINFO records.
pub open spec fn file_count_spec(h: SpfHeader) -> int {
    h.header_size / 140
}

/// The plain bytes of FINFO record `i` (decrypted when the pack is
/// encrypted).
pub open spec fn record_spec(data: Seq<u8>, h: SpfHeader, i: int) -> Seq<u8> {
    let start = index_start(data, h) + 140 * i;
    let rec = data.subrange(start, start + 140);
    if is_encrypted_spec(raw_version_spec(data)) {
        xor_stream(rec, finfo_state_spec())
    } else {
        rec
    }
}

/// The plain bytes of the file that a record describes (decrypted when the
/// pack is encrypted).
pub open spec fn file_data_spec(data: Seq<u8>, f: FInfo) -> Seq<u8> {
    let raw = data.subrange(f.offset as int, f.offset + f.size);
    if is_encrypted_spec(raw_version_spec(data)) {
        xor_stream(raw, resource_state_spec(f.offset, f.size, raw_version_spec(data)))
    } else {
        raw
    }
}

/// The problems of record `index`, in the order they are checked.
pub open spec fn issues_of(index: usize, f: FInfo, data_area_end: int, spf_file_id: i32) -> Seq<SpfIssue> {
    if f.offset < 0 {
        seq![SpfIssue::NegativeOffset { index, offset: f.offset }]
    } else if f.size < 0 {
        seq![SpfIssue::NegativeSize { index, size: f.size }]
    } else {
        (if f.offset + f.size > data_area_end {
            seq![
                SpfIssue::OutOfDataArea {
                    index,
                    start: f.offset as u64,
                    end: (f.offset + f.size) as u64,
                    data_area_end: data_area_end as u64,
                },
            ]
        } else {
            Seq::empty()
        }) + (if (f.res_id.0 >> 24u32) as u8 as i32 != spf_file_id {
            seq![
                SpfIssue::FileIdMismatch {
                    index,
                    res_file_id: (f.res_id.0 >> 24u32) as u8,
                    spf_file_id,
                },
            ]
        } else {
            Seq::empty()
        }) + (if f.file_name@[0] == 0 {
            seq![SpfIssue::EmptyName { index }]
        } else {
            Seq::empty()
        })
    }
}

/// The problems of the first `n` records.
pub open spec fn issues_spec(fs: Seq<FInfo>, n: nat, data_area_end: int, spf_file_id: i32) -> Seq<SpfIssue>
    decreases n,
{
    if n == 0 {
        Seq::empty()
    } else {
        issues_spec(fs, (n - 1) as nat, data_area_end, spf_file_id) + issues_of(
            (n - 1) as usize,
            fs[n - 1],
            data_area_end,
            spf_file_id,
        )
    }
}

/// Whether `verify` finds nothing wrong with a record: its offset and size
/// are not negative, its data ends within the data area, its resource ID
/// holds the pack's FILE_ID and its name does not start with NUL.
pub open spec fn record_sound(f: FInfo, data_area_end: int, spf_file_id: i32) -> bool {
    &&& f.offset >= 0
    &&& f.size >= 0
    &&& f.offset + f.size <= data_area_end
    &&& (f.res_id.0 >> 24u32) as u8 as i32 == spf_file_id
    &&& f.file_name@[0] != 0
}

/// The first `n` records give no issue exactly when each is sound.
pub proof fn lemma_no_issues_iff_sound(fs: Seq<FInfo>, n: nat, data_area_end: int, spf_file_id: i32)
    requires
        n <= fs.len(),
    ensures
        issues_spec(fs, n, data_area_end, spf_file_id).len() == 0 <==> forall|i: int|
            0 <= i < n ==> record_sound(#[trigger] fs[i], data_area_end, spf_file_id),
    decreases n,
{
    if n > 0 {
        lemma_no_issues_iff_sound(fs, (n - 1) as nat, data_area_end, spf_file_id);
        let last = issues_of((n - 1) as usize, fs[n - 1], data_area_end, spf_file_id);
        assert(last.len() == 0 <==> record_sound(fs[n - 1], data_area_end, spf_file_id));
        if issues_spec(fs, n, data_area_end, spf_file_id).len() == 0 {
            assert forall|i: int| 0 <= i < n implies record_sound(#[trigger] fs[i], data_area_end, spf_file_id) by {
                if i < n - 1 {
                } else {
                    assert(i == n - 1);
                }
            }
        }
    }
}

/// An SPF pack held in memory.
pub struct SpfReader {
    data: Vec<u8>,
    header: SpfHeader,
    raw_version: u32,
    encoding: Option<TextEncoding>,
}

impl SpfReader {
    #[verifier::type_invariant]
    spec fn inv(&self) -> bool {
        &&& self.data@.len() >= 140
        &&& spf_header_of_bytes(self.header, header_area(self.data@))
        &&& self.raw_version == raw_version_spec(self.data@)
        &&& 0 <= self.header.header_size <= self.data@.len() - 140
    }

    /// The bytes of the pack.
    pub closed spec fn bytes(&self) -> Seq<u8> {
        self.data@
    }

    /// The header of the pack.
    pub closed spec fn spec_header(&self) -> SpfHeader {
        self.header
    }

    /// The encoding of file names, if one was chosen.
    pub closed spec fn spec_encoding(&self) -> Option<TextEncoding> {
        self.encoding
    }

    /// Opens a pack from its bytes: reads the version word and the header
    /// from the end, and checks that the header's FINFO table fits before it.
    pub fn from_bytes(data: Vec<u8>, encoding: Option<TextEncoding>) -> (r: Result<SpfReader, SpfError>)
        ensures
            data@.len() < 140 ==> r == Err::<SpfReader, SpfError>(SpfError::FileTooSmall),
            data@.len() >= 140 ==> forall|h: SpfHeader|
                spf_header_of_bytes(h, header_area(data@)) ==> if 0 <= h.header_size <= data@.len()
                    - 140 {
                    r matches Ok(reader) && reader.bytes() == data@ && reader.spec_header() == h
                        && reader.spec_encoding() == encoding
                } else {
                    r == Err::<SpfReader, SpfError>(SpfError::InvalidHeaderSize)
                },
    {
        let len = data.len();
        if len < 140 {
            return Err(SpfError::FileTooSmall);
        }
        let raw_version = read_u32(data.as_slice(), len - 4);
        let area = copy_range(data.as_slice(), len - 140, len - 4);
        let header = SpfHeader::from_bytes(area.as_slice());
        proof {
            lemma_spf_header_unique(header, header_area(data@));
        }
        if header.header_size < 0 || header.header_size as usize > len - 140 {
            return Err(SpfError::InvalidHeaderSize);
        }
        Ok(SpfReader { data, header, raw_version, encoding })
    }

    /// The version number (without the encryption flag).
    pub fn version(&self) -> (r: i32)
        ensures
            r == version_spec(raw_version_spec(self.bytes())),
    {
        proof {
            use_type_invariant(self);
        }
        (self.raw_version & 0x7FFF_FFFF) as i32
    }

    /// The version word as stored, encryption flag included.
    pub fn raw_version(&self) -> (r: u32)
        ensures
            r == raw_version_spec(self.bytes()),
    {
        proof {
            use_type_invariant(self);
        }
        self.raw_version
    }

    /// Whether the pack is encrypted.
    pub fn is_encrypted(&self) -> (r: bool)
        ensures
            r == is_encrypted_spec(raw_version_spec(self.bytes())),
    {
        proof {
            use_type_invariant(self);
        }
        self.raw_version & 0x8000_0000 != 0
    }

    /// The header.
    pub fn header(&self) -> (r: &SpfHeader)
        ensures
            *r == self.spec_header(),
            spf_header_of_bytes(*r, header_area(self.bytes())),
    {
        proof {
            use_type_invariant(self);
        }
        &self.header
    }

    /// The encoding of file names, if one was chosen.
    pub fn encoding(&self) -> (r: Option<TextEncoding>)
        ensures
            r == self.spec_encoding(),
    {
        self.encoding
    }

    /// The number of files (FINFO records).
    pub fn file_count(&self) -> (r: usize)
        ensures
            r == file_count_spec(self.spec_header()),
    {
        proof {
            use_type_invariant(self);
        }
        self.header.header_size as usize / FINFO_SIZE
    }

    /// The size of the pack in bytes.
    pub fn total_size(&self) -> (r: usize)
        ensures
            r == self.bytes().len(),
    {
        self.data.len()
    }

    /// All FINFO records, decrypted when the pack is encrypted.
    pub fn file_infos(&self) -> (r: Vec<FInfo>)
        ensures
            r@.len() == file_count_spec(self.spec_header()),
            forall|i: int|
                0 <= i < r@.len() ==> finfo_of_bytes(
                    #[trigger] r@[i],
                    record_spec(self.bytes(), self.spec_header(), i),
                ),
    {
        proof {
            use_type_invariant(self);
        }
        let len = self.data.len();
        let hs = self.header.header_size as usize;
        let count = hs / FINFO_SIZE;
        let start = len - 140 - hs;
        let encrypted = self.raw_version & 0x8000_0000 != 0;
        let mut out: Vec<FInfo> = Vec::new();
        let mut i: usize = 0;
        while i < count
            invariant
                i <= count,
                count == hs / 140,
                hs == self.header.header_size,
                start == len - 140 - hs,
                len == self.data@.len(),
                hs <= len - 140,
                encrypted == is_encrypted_spec(raw_version_spec(self.data@)),
                self.raw_version == raw_version_spec(self.data@),
                out@.len() == i,
                forall|k: int|
                    0 <= k < i ==> finfo_of_bytes(
                        #[trigger] out@[k],
                        record_spec(self.data@, self.header, k),
                    ),
            decreases count - i,
        {
            assert(140 * i + 140 <= hs) by (nonlinear_arith)
                requires
                    i < count,
                    count == hs / 140,
            ;
            let pos = start + 140 * i;
            let raw = copy_range(self.data.as_slice(), pos, pos + 140);
            let mut rec = [0u8; FINFO_SIZE];
            let mut j: usize = 0;
            while j < FINFO_SIZE
                invariant
                    j <= 140,
                    raw@.len() == 140,
                    forall|k: int| 0 <= k < j ==> rec@[k] == raw@[k],
                decreases 140 - j,
            {
                rec[j] = raw[j];
                j = j + 1;
            }
            assert(rec@ =~= raw@);
            if encrypted {
                crypt_finfo(&mut rec);
            }
            let f = FInfo::from_bytes(rec.as_slice());
            out.push(f);
            i = i + 1;
        }
        out
    }

    /// The plain data of the file that `finfo` describes (decrypted when the
    /// pack is encrypted).
    pub fn get_file_data(&self, finfo: &FInfo) -> (r: Vec<u8>)
        requires
            finfo.offset >= 0,
            finfo.size >= 0,
            finfo.offset + finfo.size <= self.bytes().len(),
        ensures
            r@ == file_data_spec(self.bytes(), *finfo),
    {
        proof {
            use_type_invariant(self);
        }
        let start = finfo.offset as usize;
        let end = start + finfo.size as usize;
        let mut buf = copy_range(self.data.as_slice(), start, end);
        if self.raw_version & 0x8000_0000 != 0 {
            crypt_resource(buf.as_mut_slice(), finfo.offset, finfo.size, self.raw_version);
        }
        buf
    }

    /// Checks every FINFO record: offset and size not negative, data within
    /// the data area, FILE_ID of its resource ID equal to the pack's, and a
    /// non-empty name.  Gives the problems found, in record order.
    pub fn verify(&self) -> (r: Vec<SpfIssue>)
        ensures
            exists|fs: Seq<FInfo>|
                {
                    &&& fs.len() == file_count_spec(self.spec_header())
                    &&& forall|i: int|
                        0 <= i < fs.len() ==> finfo_of_bytes(
                            #[trigger] fs[i],
                            record_spec(self.bytes(), self.spec_header(), i),
                        )
                    &&& r@ == issues_spec(
                        fs,
                        fs.len(),
                        index_start(self.bytes(), self.spec_header()),
                        self.spec_header().file_id,
                    )
                    &&& (r@.len() == 0 <==> forall|i: int|
                        0 <= i < fs.len() ==> record_sound(
                            #[trigger] fs[i],
                            index_start(self.bytes(), self.spec_header()),
                            self.spec_header().file_id,
                        ))
                },
    {
        proof {
            use_type_invariant(self);
        }
        let finfos = self.file_infos();
        let data_area_end: u64 = (self.data.len() - 140 - self.header.header_size as usize) as u64;
        let mut issues: Vec<SpfIssue> = Vec::new();
        let mut i: usize = 0;
        while i < finfos.len()
            invariant
                i <= finfos@.len(),
                data_area_end == index_start(self.data@, self.header),
                issues@ == issues_spec(finfos@, i as nat, data_area_end as int, self.header.file_id),
            decreases finfos@.len() - i,
        {
            let f = finfos[i];
            let ghost before = issues@;
            if f.offset < 0 {
                issues.push(SpfIssue::NegativeOffset { index: i, offset: f.offset });
            } else if f.size < 0 {
                issues.push(SpfIssue::NegativeSize { index: i, size: f.size });
            } else {
                let start = f.offset as u64;
                let end = start + f.size as u64;
                if end > data_area_end {
                    issues.push(SpfIssue::OutOfDataArea { index: i, start, end, data_area_end });
                }
                let ghost mid1 = issues@;
                if f.res_id.file_id() as i32 != self.header.file_id {
                    issues.push(
                        SpfIssue::FileIdMismatch {
                            index: i,
                            res_file_id: f.res_id.file_id(),
                            spf_file_id: self.header.file_id,
                        },
                    );
                }
                let ghost mid2 = issues@;
                if f.file_name[0] == 0 {
                    issues.push(SpfIssue::EmptyName { index: i });
                }
                assert(issues@ =~= before + issues_of(i, f, data_area_end as int, self.header.file_id));
            }
            assert(issues@ =~= issues_spec(finfos@, (i + 1) as nat, data_area_end as int, self.header.file_id));
            i = i + 1;
        }
        proof {
            lemma_no_issues_iff_sound(finfos@, finfos@.len(), data_area_end as int, self.header.file_id);
        }
        issues
    }
}

proof fn lemma_spf_header_unique(h: SpfHeader, rec: Seq<u8>)
    requires
        spf_header_of_bytes(h, rec),
    ensures
        forall|g: SpfHeader| spf_header_of_bytes(g, rec) ==> g == h,
{
    broadcast use vstd::array::group_array_axioms;

    assert forall|g: SpfHeader| spf_header_of_bytes(g, rec) implies g == h by {
        assert(g.desc =~= h.desc);
    }
}

} // verus!
