use latale_tools::common::encoding::encoding_for_upper;
use latale_tools::common::{encoding_from_name, TextEncoding};

fn rs(e: TextEncoding) -> &'static encoding_rs::Encoding {
    match e {
        TextEncoding::Gbk => encoding_rs::GBK,
        TextEncoding::Big5 => encoding_rs::BIG5,
        TextEncoding::EucKr => encoding_rs::EUC_KR,
        TextEncoding::ShiftJis => encoding_rs::SHIFT_JIS,
        TextEncoding::Utf8 => encoding_rs::UTF_8,
    }
}

#[test]
fn test_encoding_from_name_gbk() {
    assert_eq!(rs(encoding_from_name("GBK")), encoding_rs::GBK);
    assert_eq!(rs(encoding_from_name("gbk")), encoding_rs::GBK);
    assert_eq!(rs(encoding_from_name("GB2312")), encoding_rs::GBK);
    assert_eq!(rs(encoding_from_name("GB18030")), encoding_rs::GBK);
}

#[test]
fn test_encoding_from_name_big5() {
    assert_eq!(rs(encoding_from_name("BIG5")), encoding_rs::BIG5);
    assert_eq!(rs(encoding_from_name("big5")), encoding_rs::BIG5);
    assert_eq!(rs(encoding_from_name("BIG-5")), encoding_rs::BIG5);
}

#[test]
fn test_encoding_from_name_euc_kr() {
    assert_eq!(rs(encoding_from_name("EUC-KR")), encoding_rs::EUC_KR);
    assert_eq!(rs(encoding_from_name("euckr")), encoding_rs::EUC_KR);
    assert_eq!(rs(encoding_from_name("KOREAN")), encoding_rs::EUC_KR);
}

#[test]
fn test_encoding_from_name_shift_jis() {
    assert_eq!(rs(encoding_from_name("SHIFT_JIS")), encoding_rs::SHIFT_JIS);
    assert_eq!(rs(encoding_from_name("sjis")), encoding_rs::SHIFT_JIS);
    assert_eq!(rs(encoding_from_name("CP932")), encoding_rs::SHIFT_JIS);
    assert_eq!(rs(encoding_from_name("JAPANESE")), encoding_rs::SHIFT_JIS);
}

#[test]
fn test_encoding_from_name_utf8() {
    assert_eq!(rs(encoding_from_name("UTF-8")), encoding_rs::UTF_8);
    assert_eq!(rs(encoding_from_name("utf8")), encoding_rs::UTF_8);
}

#[test]
fn test_encoding_from_name_unknown_defaults_to_gbk() {
    assert_eq!(rs(encoding_from_name("unknown")), encoding_rs::GBK);
    assert_eq!(rs(encoding_from_name("")), encoding_rs::GBK);
}

#[test]
fn encoding_names_match_encoding_rs() {
    for e in [
        TextEncoding::Gbk,
        TextEncoding::Big5,
        TextEncoding::EucKr,
        TextEncoding::ShiftJis,
        TextEncoding::Utf8,
    ] {
        assert_eq!(e.name(), rs(e).name());
        assert_eq!(encoding_from_name(e.name()), e);
    }
}

#[test]
fn upper_case_names_select_encodings() {
    assert_eq!(encoding_for_upper("BIG-5"), TextEncoding::Big5);
    assert_eq!(encoding_for_upper("SJIS"), TextEncoding::ShiftJis);
    assert_eq!(encoding_for_upper("UTF8"), TextEncoding::Utf8);
    assert_eq!(encoding_for_upper("big5"), TextEncoding::Gbk);
    assert_eq!(encoding_from_name("big5"), TextEncoding::Big5);
    assert_eq!(encoding_from_name("Korean"), TextEncoding::EucKr);
}
