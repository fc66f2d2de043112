//! The text encodings of the regional LaTale clients.

use vstd::prelude::*;
use crate::common::text::{is_ascii_text, str_eq, to_uppercase, upper_text};

verus! {

/// An encoding of the strings inside LaTale files.
#[derive(Clone, Copy, Debug, PartialEq, Eq, Structural)]
pub enum TextEncoding {
    /// GBK (Chinese; the default).
    Gbk,
    /// Big5 (Taiwan).
    Big5,
    /// EUC-KR (Korean).
    EucKr,
    /// Shift_JIS (Japanese).
    ShiftJis,
    /// UTF-8.
    Utf8,
}

/// Name of the default encoding.
pub const DEFAULT_ENCODING: &'static str = "GBK";

/// Whether every byte is ASCII.
pub open spec fn is_ascii_bytes(b: Seq<u8>) -> bool {
    forall|i: int| 0 <= i < b.len() ==> #[trigger] b[i] < 128
}

/// What `Encoding::decode` of encoding_rs gives for some bytes: the decoded
/// characters (after BOM sniffing, with malformed sequences replaced by
/// U+FFFD) and whether there were malformed sequences.
pub uninterp spec fn spec_decode(enc: TextEncoding, bytes: Seq<u8>) -> (Seq<char>, bool);

/// What `Encoding::encode` of encoding_rs gives for a string: its bytes in
/// the output encoding (unmappable characters written as numeric character
/// references) and whether there were unmappable characters.
pub uninterp spec fn spec_encode(enc: TextEncoding, text: Seq<char>) -> (Seq<u8>, bool);

/// Calls `Encoding::decode` of encoding_rs with the encoding `enc`.  The
/// decoded text and the error flag are named by `spec_decode`; the encoding
/// actually used (which BOM sniffing may change) is dropped.  ASCII bytes
/// start with no byte order mark and are valid in every encoding here, so
/// the crate hands them back as they are, without errors.  The crate
/// panics where the size of its output buffer overflows `usize`; its
/// buffers take a few bytes per input byte, rounded up to a power of two,
/// so input of at most a sixteenth of `usize::MAX` bytes keeps them in
/// range.
#[verifier::external_body]
pub(crate) fn decode(enc: TextEncoding, bytes: &[u8]) -> (r: (String, bool))
    requires
        bytes@.len() <= usize::MAX / 16,
    ensures
        r.0@ == spec_decode(enc, bytes@).0,
        r.1 == spec_decode(enc, bytes@).1,
        is_ascii_bytes(bytes@) ==> r.0@ == bytes@.map_values(|b: u8| b as char) && !r.1,
{
    let e = match enc {
        TextEncoding::Gbk => encoding_rs::GBK,
        TextEncoding::Big5 => encoding_rs::BIG5,
        TextEncoding::EucKr => encoding_rs::EUC_KR,
        TextEncoding::ShiftJis => encoding_rs::SHIFT_JIS,
        TextEncoding::Utf8 => encoding_rs::UTF_8,
    };
    let (text, _, had_errors) = e.decode(bytes);
    (text.into_owned(), had_errors)
}

/// Calls `Encoding::encode` of encoding_rs with the encoding `enc`.  The
/// bytes and the error flag are named by `spec_encode`.  The crate panics
/// where the size of its output buffer overflows `usize`; its buffers take
/// a few bytes per input byte, rounded up to a power of two, so text of at
/// most a sixteenth of `usize::MAX` UTF-8 bytes keeps them in range.
/// ASCII text is valid in every encoding here, and for UTF-8 the crate
/// hands back the text's own bytes, so in both cases the bytes are those of
/// the text, without errors.
#[verifier::external_body]
pub(crate) fn encode(enc: TextEncoding, text: &str) -> (r: (Vec<u8>, bool))
    requires
        vstd::utf8::encode_utf8(text@).len() <= usize::MAX / 16,
    ensures
        r.0@ == spec_encode(enc, text@).0,
        r.1 == spec_encode(enc, text@).1,
        is_ascii_text(text@) ==> r.0@ == vstd::utf8::encode_utf8(text@) && !r.1,
        enc == TextEncoding::Utf8 ==> r.0@ == vstd::utf8::encode_utf8(text@) && !r.1,
{
    let e = match enc {
        TextEncoding::Gbk => encoding_rs::GBK,
        TextEncoding::Big5 => encoding_rs::BIG5,
        TextEncoding::EucKr => encoding_rs::EUC_KR,
        TextEncoding::ShiftJis => encoding_rs::SHIFT_JIS,
        TextEncoding::Utf8 => encoding_rs::UTF_8,
    };
    let (bytes, _, had_errors) = e.encode(text);
    (bytes.into_owned(), had_errors)
}

/// The encoding that an upper-cased encoding name selects: the names of
/// each encoding and its aliases; anything else selects GBK.
pub open spec fn encoding_for_upper_name(u: Seq<char>) -> TextEncoding {
    if u == "UTF-8"@ || u == "UTF8"@ {
        TextEncoding::Utf8
    } else if u == "BIG5"@ || u == "BIG-5"@ {
        TextEncoding::Big5
    } else if u == "EUC-KR"@ || u == "EUCKR"@ || u == "KOREAN"@ {
        TextEncoding::EucKr
    } else if u == "GBK"@ || u == "GB2312"@ || u == "GB18030"@ {
        TextEncoding::Gbk
    } else if u == "SHIFT_JIS"@ || u == "SHIFTJIS"@ || u == "SJIS"@ || u == "CP932"@
        || u == "JAPANESE"@ {
        TextEncoding::ShiftJis
    } else {
        TextEncoding::Gbk
    }
}

/// The encoding names, read in upper case: `UTF-8`/`UTF8` select UTF-8;
/// `BIG5`/`BIG-5` Big5; `EUC-KR`/`EUCKR`/`KOREAN` EUC-KR; `SHIFT_JIS`/
/// `SHIFTJIS`/`SJIS`/`CP932`/`JAPANESE` Shift_JIS; every other name,
/// `GBK`/`GB2312`/`GB18030` among them, selects GBK.
pub proof fn lemma_encoding_name_table(u: Seq<char>)
    ensures
        encoding_for_upper_name(u) == TextEncoding::Utf8 <==> (u == "UTF-8"@ || u == "UTF8"@),
        encoding_for_upper_name(u) == TextEncoding::Big5 <==> (u == "BIG5"@ || u == "BIG-5"@),
        encoding_for_upper_name(u) == TextEncoding::EucKr <==> (u == "EUC-KR"@ || u == "EUCKR"@
            || u == "KOREAN"@),
        encoding_for_upper_name(u) == TextEncoding::ShiftJis <==> (u == "SHIFT_JIS"@ || u
            == "SHIFTJIS"@ || u == "SJIS"@ || u == "CP932"@ || u == "JAPANESE"@),
        (u == "GBK"@ || u == "GB2312"@ || u == "GB18030"@) ==> encoding_for_upper_name(u)
            == TextEncoding::Gbk,
{
    reveal_strlit("UTF-8");
    reveal_strlit("UTF8");
    reveal_strlit("BIG5");
    reveal_strlit("BIG-5");
    reveal_strlit("EUC-KR");
    reveal_strlit("EUCKR");
    reveal_strlit("KOREAN");
    reveal_strlit("GBK");
    reveal_strlit("GB2312");
    reveal_strlit("GB18030");
    reveal_strlit("SHIFT_JIS");
    reveal_strlit("SHIFTJIS");
    reveal_strlit("SJIS");
    reveal_strlit("CP932");
    reveal_strlit("JAPANESE");
    assert("UTF8"@[0] != "BIG5"@[0]);
    assert("UTF8"@[0] != "SJIS"@[0]);
    assert("BIG5"@[0] != "SJIS"@[0]);
    assert("UTF-8"@[0] != "BIG-5"@[0]);
    assert("UTF-8"@[0] != "EUCKR"@[0]);
    assert("UTF-8"@[0] != "CP932"@[0]);
    assert("BIG-5"@[0] != "EUCKR"@[0]);
    assert("BIG-5"@[0] != "CP932"@[0]);
    assert("EUCKR"@[0] != "CP932"@[0]);
    assert("EUC-KR"@[0] != "KOREAN"@[0]);
    assert("EUC-KR"@[0] != "GB2312"@[0]);
    assert("KOREAN"@[0] != "GB2312"@[0]);
    assert("SHIFTJIS"@[0] != "JAPANESE"@[0]);
    assert("SHIFT_JIS"@.len() == 9);
    assert(encoding_for_upper_name("SHIFT_JIS"@) == TextEncoding::ShiftJis);
    assert(encoding_for_upper_name("SHIFTJIS"@) == TextEncoding::ShiftJis);
    assert(encoding_for_upper_name("SJIS"@) == TextEncoding::ShiftJis);
    assert(encoding_for_upper_name("CP932"@) == TextEncoding::ShiftJis);
    assert(encoding_for_upper_name("JAPANESE"@) == TextEncoding::ShiftJis);
}

/// Gets the encoding from its name, ignoring case:
/// `GBK`/`GB2312`/`GB18030`, `BIG5`/`BIG-5`, `EUC-KR`/`EUCKR`/`KOREAN`,
/// `SHIFT_JIS`/`SHIFTJIS`/`SJIS`/`CP932`/`JAPANESE`, `UTF-8`/`UTF8`.
/// Unknown names give GBK.
pub fn encoding_from_name(name: &str) -> (r: TextEncoding)
    ensures
        r == encoding_for_upper_name(upper_text(name@)),
{
    let upper = to_uppercase(name);
    encoding_for_upper(upper.as_str())
}

/// The encoding that an upper-cased encoding name selects (GBK for an
/// unknown one).
pub fn encoding_for_upper(u: &str) -> (r: TextEncoding)
    ensures
        r == encoding_for_upper_name(u@),
{
    if str_eq(u, "UTF-8") || str_eq(u, "UTF8") {
        TextEncoding::Utf8
    } else if str_eq(u, "BIG5") || str_eq(u, "BIG-5") {
        TextEncoding::Big5
    } else if str_eq(u, "EUC-KR") || str_eq(u, "EUCKR") || str_eq(u, "KOREAN") {
        TextEncoding::EucKr
    } else if str_eq(u, "GBK") || str_eq(u, "GB2312") || str_eq(u, "GB18030") {
        TextEncoding::Gbk
    } else if str_eq(u, "SHIFT_JIS") || str_eq(u, "SHIFTJIS") || str_eq(u, "SJIS") || str_eq(
        u,
        "CP932",
    ) || str_eq(u, "JAPANESE") {
        TextEncoding::ShiftJis
    } else {
        TextEncoding::Gbk
    }
}

impl TextEncoding {
    /// The canonical name of the encoding (as encoding_rs spells it).
    pub fn name(&self) -> (r: &'static str)
        ensures
            r@ == match *self {
                TextEncoding::Gbk => "GBK"@,
                TextEncoding::Big5 => "Big5"@,
                TextEncoding::EucKr => "EUC-KR"@,
                TextEncoding::ShiftJis => "Shift_JIS"@,
                TextEncoding::Utf8 => "UTF-8"@,
            },
    {
        match *self {
            TextEncoding::Gbk => "GBK",
            TextEncoding::Big5 => "Big5",
            TextEncoding::EucKr => "EUC-KR",
            TextEncoding::ShiftJis => "Shift_JIS",
            TextEncoding::Utf8 => "UTF-8",
        }
    }
}

} // verus!
