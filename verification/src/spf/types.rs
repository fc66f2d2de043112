//! SPF type definitions: resource IDs, FINFO records and the pack header.

use vstd::prelude::*;
use vstd::utf8::{decode_utf8, valid_utf8};
use crate::bytes::{i32_le, read_i32, read_u32, u32_le};
use crate::common::encoding::{decode, spec_decode, TextEncoding};
use crate::common::text::{concat, i64_to_string, spec_i64_text, str_from_utf8};
use crate::ldt::types::{lemma_name_until_nul, name_until_nul};

verus! {

/// Size of the file name field of a FINFO record.
pub const FILE_NAME_SIZE: usize = 128;

/// Maximum length of a file name (excluding the NUL terminator).
pub const FILE_NAME_MAX_LEN: usize = 127;

/// Total size of a FINFO record in bytes.
pub const FINFO_SIZE: usize = 140;

/// Total size of the SPF header in bytes.
pub const SPF_HEADER_SIZE: usize = 136;

/// Size of the description field of the SPF header.
pub const DESC_SIZE: usize = 128;

/// Bit shift of the FILE_ID in a resource ID.
pub const RESID_FILE_ID_SHIFT: u32 = 24;

/// Mask of the INSTANCE_ID in a resource ID (low 24 bits).
pub const INSTANCE_ID_MASK: u32 = 0x00FF_FFFF;

/// Starting value of INSTANCE_IDs.
pub const INSTANCE_ID_START: u32 = 1;

/// SPF file extension.
pub const SPF_EXTENSION: &'static str = ".SPF";

/// Encryption flag: the highest bit of the version word on disk.
pub const SPF_ENCRYPTED_FLAG: u32 = 0x8000_0000;

/// A 32-bit resource ID: FILE_ID in the high 8 bits, INSTANCE_ID in the
/// low 24.
#[derive(Clone, Copy, PartialEq, Eq, PartialOrd, Ord, Hash, Debug, Structural)]
pub struct ResId(pub u32);

/// The resource ID of a FILE_ID and an INSTANCE_ID (cut to 24 bits).
pub open spec fn res_id_spec(file_id: u8, instance_id: u32) -> u32 {
    ((file_id as u32) << 24u32) | (instance_id & 0x00FF_FFFFu32)
}

impl ResId {
    /// Creates a resource ID from a FILE_ID and an INSTANCE_ID.
    pub fn new(file_id: u8, instance_id: u32) -> (r: ResId)
        ensures
            r.0 == res_id_spec(file_id, instance_id),
    {
        ResId(((file_id as u32) << RESID_FILE_ID_SHIFT) | (instance_id & INSTANCE_ID_MASK))
    }

    /// The FILE_ID (high 8 bits).
    pub fn file_id(self) -> (r: u8)
        ensures
            r == (self.0 >> 24u32) as u8,
    {
        (self.0 >> RESID_FILE_ID_SHIFT) as u8
    }

    /// The INSTANCE_ID (low 24 bits).
    pub fn instance_id(self) -> (r: u32)
        ensures
            r == self.0 & 0x00FF_FFFFu32,
    {
        self.0 & INSTANCE_ID_MASK
    }

    /// The text that shows both parts, as
    /// `ResId { file_id: 3, instance_id: 42 }`.
    pub fn debug_text(self) -> (r: String)
        ensures
            r@ == "ResId { file_id: "@ + spec_i64_text((self.0 >> 24u32) as u8 as i64)
                + ", instance_id: "@ + spec_i64_text((self.0 & 0x00FF_FFFFu32) as i64) + " }"@,
    {
        let a = i64_to_string(self.file_id() as i64);
        let b = i64_to_string(self.instance_id() as i64);
        let t = concat(String::from_str("ResId { file_id: "), a.as_str());
        let t = concat(t, ", instance_id: ");
        let t = concat(t, b.as_str());
        concat(t, " }")
    }
}

/// A resource ID made of a FILE_ID and an INSTANCE_ID gives both back
/// (the INSTANCE_ID cut to its low 24 bits).
pub proof fn lemma_res_id_parts(file_id: u8, instance_id: u32)
    ensures
        (res_id_spec(file_id, instance_id) >> 24u32) as u8 == file_id,
        res_id_spec(file_id, instance_id) & 0x00FF_FFFFu32 == instance_id & 0x00FF_FFFFu32,
{
    assert((((file_id as u32) << 24u32) | (instance_id & 0x00FF_FFFFu32)) >> 24u32 == file_id as u32)
        by (bit_vector);
    assert((((file_id as u32) << 24u32) | (instance_id & 0x00FF_FFFFu32)) & 0x00FF_FFFFu32
        == instance_id & 0x00FF_FFFFu32) by (bit_vector);
}

/// A FINFO record (140 bytes): file name, offset, size, resource ID.
#[derive(Clone, Copy)]
pub struct FInfo {
    /// File name (C string, 128 bytes)
    pub file_name: [u8; FILE_NAME_SIZE],
    /// Offset of the file in the pack
    pub offset: i32,
    /// Size of the file in bytes
    pub size: i32,
    /// Resource ID
    pub res_id: ResId,
}

/// Whether `f` holds the record stored in `rec` (140 bytes).
pub open spec fn finfo_of_bytes(f: FInfo, rec: Seq<u8>) -> bool {
    &&& f.file_name@ == rec.take(128)
    &&& f.offset == i32_le(rec, 128)
    &&& f.size == i32_le(rec, 132)
    &&& f.res_id.0 == u32_le(rec, 136)
}

/// The bytes of a record's file name up to the first NUL.
pub open spec fn finfo_name_bytes(f: FInfo) -> Seq<u8> {
    name_until_nul(f.file_name@)
}

impl FInfo {
    /// Reads the record held in `rec`.
    pub fn from_bytes(rec: &[u8]) -> (f: FInfo)
        requires
            rec@.len() == FINFO_SIZE,
        ensures
            finfo_of_bytes(f, rec@),
    {
        let mut file_name = [0u8; FILE_NAME_SIZE];
        let mut i: usize = 0;
        while i < FILE_NAME_SIZE
            invariant
                i <= 128,
                rec@.len() == 140,
                forall|k: int| 0 <= k < i ==> file_name@[k] == rec@[k],
            decreases 128 - i,
        {
            file_name[i] = rec[i];
            i = i + 1;
        }
        assert(file_name@ =~= rec@.take(128));
        FInfo {
            file_name,
            offset: read_i32(rec, 128),
            size: read_i32(rec, 132),
            res_id: ResId(read_u32(rec, 136)),
        }
    }

    /// The raw bytes of the file name, without the trailing NULs.
    pub fn file_name_bytes(&self) -> (r: &[u8])
        ensures
            r@ == finfo_name_bytes(*self),
            r@.len() <= FILE_NAME_SIZE,
    {
        let s = self.file_name.as_slice();
        let mut end: usize = 0;
        while end < FILE_NAME_SIZE && s[end] != 0
            invariant
                end <= 128,
                s@ == self.file_name@,
                forall|k: int| 0 <= k < end ==> s@[k] != 0,
            decreases 128 - end,
        {
            end = end + 1;
        }
        proof {
            lemma_name_until_nul(s@, end as int);
        }
        vstd::slice::slice_subrange(s, 0, end)
    }

    /// The file name decoded as GBK.
    pub fn file_name_str(&self) -> (r: String)
        ensures
            r@ == spec_decode(TextEncoding::Gbk, finfo_name_bytes(*self)).0,
    {
        self.file_name_str_with_encoding(None)
    }

    /// The file name decoded with the given encoding, or GBK.
    pub fn file_name_str_with_encoding(&self, encoding: Option<TextEncoding>) -> (r: String)
        ensures
            r@ == spec_decode(
                match encoding {
                    Some(e) => e,
                    None => TextEncoding::Gbk,
                },
                finfo_name_bytes(*self),
            ).0,
    {
        let enc = match encoding {
            Some(e) => e,
            None => TextEncoding::Gbk,
        };
        let bytes = self.file_name_bytes();
        let (text, _) = decode(enc, bytes);
        text
    }
}

/// The SPF header (136 bytes): size of the FINFO table, FILE_ID, and a
/// description.
#[derive(Clone, Copy)]
pub struct SpfHeader {
    /// Total size of the FINFO table in bytes
    pub header_size: i32,
    /// FILE_ID of the pack
    pub file_id: i32,
    /// Description (C string)
    pub desc: [u8; DESC_SIZE],
}

/// Whether `h` holds the header stored in `rec` (136 bytes).
pub open spec fn spf_header_of_bytes(h: SpfHeader, rec: Seq<u8>) -> bool {
    &&& h.header_size == i32_le(rec, 0)
    &&& h.file_id == i32_le(rec, 4)
    &&& h.desc@ == rec.subrange(8, 136)
}

/// The description: its bytes up to the first NUL if they are valid UTF-8,
/// empty otherwise.
pub open spec fn desc_spec(h: SpfHeader) -> Seq<char> {
    let b = name_until_nul(h.desc@);
    if valid_utf8(b) {
        decode_utf8(b)
    } else {
        Seq::empty()
    }
}

impl SpfHeader {
    /// Reads the header held in `rec`.
    pub fn from_bytes(rec: &[u8]) -> (h: SpfHeader)
        requires
            rec@.len() == SPF_HEADER_SIZE,
        ensures
            spf_header_of_bytes(h, rec@),
    {
        let mut desc = [0u8; DESC_SIZE];
        let mut i: usize = 0;
        while i < DESC_SIZE
            invariant
                i <= 128,
                rec@.len() == 136,
                forall|k: int| 0 <= k < i ==> desc@[k] == rec@[8 + k],
            decreases 128 - i,
        {
            desc[i] = rec[8 + i];
            i = i + 1;
        }
        assert(desc@ =~= rec@.subrange(8, 136));
        SpfHeader { header_size: read_i32(rec, 0), file_id: read_i32(rec, 4), desc }
    }

    /// The description string (empty if it is not valid UTF-8).
    pub fn desc_str(&self) -> (r: &str)
        ensures
            r@ == desc_spec(*self),
    {
        let s = self.desc.as_slice();
        let mut end: usize = 0;
        while end < DESC_SIZE && s[end] != 0
            invariant
                end <= 128,
                s@ == self.desc@,
                forall|k: int| 0 <= k < end ==> s@[k] != 0,
            decreases 128 - end,
        {
            end = end + 1;
        }
        proof {
            lemma_name_until_nul(s@, end as int);
        }
        match str_from_utf8(vstd::slice::slice_subrange(s, 0, end)) {
            Some(text) => text,
            None => {
                proof {
                    reveal_strlit("");
                }
                ""
            },
        }
    }
}

} // verus!
