use latale_tools::common::TextEncoding;
use latale_tools::spf::{ResId, SpfError, SpfIssue, SpfReader, SpfRegistry, SpfWriter};

#[test]
fn reader_writer_roundtrip_supports_plain_and_encrypted_spf() {
    for encrypted in [false, true] {
        let mut writer = SpfWriter::new(3, 2_026_071_602, "GBK");
        writer.set_encrypted(encrypted);
        writer.add_file("DATA/LDT/FIRST.LDT".to_owned(), b"first resource".to_vec());
        writer.add_file("DATA/LDT/SECOND.LDT".to_owned(), (0..=255).collect());
        let bytes = writer.to_bytes().unwrap();

        let reader = SpfReader::from_bytes(bytes, None).unwrap();
        assert_eq!(reader.version(), 2_026_071_602);
        assert_eq!(reader.is_encrypted(), encrypted);
        assert!(reader.verify().is_empty());

        let finfos = reader.file_infos();
        assert_eq!(finfos.len(), 2);
        assert_eq!(reader.get_file_data(&finfos[0]), b"first resource".to_vec());
        assert_eq!(reader.get_file_data(&finfos[1]), (0..=255).collect::<Vec<u8>>());
    }
}

#[test]
fn spf_records_name_and_number_the_files() {
    let mut writer = SpfWriter::new(3, 7, "GBK");
    writer.set_desc("gui test");
    writer.add_file("DATA/LDT/GUI_TEST.LDT".to_owned(), vec![1, 2, 3]);
    let reader = SpfReader::from_bytes(writer.to_bytes().unwrap(), Some(TextEncoding::Gbk)).unwrap();
    assert_eq!(reader.header().file_id, 3);
    assert_eq!(reader.header().desc_str(), "gui test");
    assert_eq!(reader.file_count(), 1);
    let f = reader.file_infos()[0];
    assert_eq!(f.file_name_str(), "DATA/LDT/GUI_TEST.LDT");
    assert_eq!(f.file_name_bytes(), b"DATA/LDT/GUI_TEST.LDT");
    assert_eq!(f.res_id, ResId::new(3, 1));
    assert_eq!(f.offset, 0);
    assert_eq!(f.size, 3);
    assert_eq!(reader.encoding(), Some(TextEncoding::Gbk));
    assert_eq!(reader.raw_version(), 7);
}

#[test]
fn spf_writer_and_reader_errors() {
    assert!(matches!(SpfWriter::new(1, -1, "GBK").to_bytes(), Err(SpfError::NegativeVersion)));
    assert!(matches!(SpfReader::from_bytes(vec![0; 10], None), Err(SpfError::FileTooSmall)));
    let mut bad = SpfWriter::new(1, 1, "GBK").to_bytes().unwrap();
    let len = bad.len();
    bad[len - 140..len - 136].copy_from_slice(&1000i32.to_le_bytes());
    assert!(matches!(SpfReader::from_bytes(bad, None), Err(SpfError::InvalidHeaderSize)));
}

#[test]
fn spf_verify_reports_file_id_mismatch_and_empty_name() {
    let mut writer = SpfWriter::new(3, 1, "GBK");
    writer.add_file(String::new(), vec![9]);
    let mut bytes = writer.to_bytes().unwrap();
    // Change the FILE_ID in the header so that the record no longer matches.
    let len = bytes.len();
    bytes[len - 136..len - 132].copy_from_slice(&4i32.to_le_bytes());
    let reader = SpfReader::from_bytes(bytes, None).unwrap();
    let issues = reader.verify();
    assert_eq!(
        issues,
        vec![
            SpfIssue::FileIdMismatch { index: 0, res_file_id: 3, spf_file_id: 4 },
            SpfIssue::EmptyName { index: 0 },
        ]
    );
}

#[test]
fn res_id_parts() {
    let r = ResId::new(3, 0x0123_4567);
    assert_eq!(r.0, 0x0323_4567);
    assert_eq!(r.file_id(), 3);
    assert_eq!(r.instance_id(), 0x23_4567);
    assert_eq!(ResId::new(0xAB, 42).debug_text(), "ResId { file_id: 171, instance_id: 42 }");
}

#[test]
fn registry_lookups() {
    let rowid = SpfRegistry::find_by_name("rowid.SPF").unwrap();
    assert_eq!(rowid.file_id, 3);
    assert_eq!(rowid.name, "ROWID");
    assert_eq!(SpfRegistry::find_by_name("Hoshim").unwrap().file_id, 2);
    assert!(SpfRegistry::find_by_name("NOPE").is_none());
    assert_eq!(SpfRegistry::find_by_file_id(13).unwrap().name, "CVOICE");
    assert_eq!(SpfRegistry::find_by_name("AJJIYA").unwrap().file_id, 1);
    assert_eq!(SpfRegistry::find_by_name("jinssaga.spf").unwrap().file_id, 4);
    assert_eq!(SpfRegistry::find_by_name("ZENNE").unwrap().file_id, 11);
    assert_eq!(rowid.path_prefix, "DATA/LDT");
    assert!(SpfRegistry::find_by_file_id(0).is_none());
    assert!(SpfRegistry::find_by_file_id(14).is_none());
    assert_eq!(SpfRegistry::all().len(), 13);
}

#[test]
fn files_added_from_a_directory_are_sorted_by_name() {
    let mut writer = SpfWriter::new(3, 1, "GBK");
    writer.add_file("DATA/Z.LDT".to_owned(), vec![]);
    writer.add_files_sorted(vec![
        ("DATA/LDT/b.LDT".to_owned(), vec![2]),
        ("DATA/LDT/B.LDT".to_owned(), vec![1]),
        ("DATA/LDT/a.LDT".to_owned(), vec![3]),
    ]);
    assert_eq!(
        writer.file_names(),
        vec!["DATA/Z.LDT", "DATA/LDT/B.LDT", "DATA/LDT/a.LDT", "DATA/LDT/b.LDT"]
    );
    assert_eq!(writer.file_count(), 4);
}

#[test]
fn every_registered_pack_is_found_by_its_file_id() {
    for e in SpfRegistry::all() {
        let found = SpfRegistry::find_by_file_id(e.file_id).unwrap();
        assert_eq!(found.name, e.name);
        assert_eq!(found.path_prefix, e.path_prefix);
        assert_eq!(SpfRegistry::find_by_name(e.name).unwrap().file_id, e.file_id);
    }
}

#[test]
fn set_desc_replaces_the_whole_description() {
    let mut writer = SpfWriter::new(3, 1, "GBK");
    writer.set_desc("abc");
    writer.set_desc("x");
    let reader = SpfReader::from_bytes(writer.to_bytes().unwrap(), Some(TextEncoding::Gbk)).unwrap();
    assert_eq!(reader.header().desc_str(), "x");
    assert_eq!(reader.header().desc[0], b'x');
    assert!(reader.header().desc[1..].iter().all(|&b| b == 0));

    let mut long = SpfWriter::new(3, 1, "GBK");
    long.set_desc(&"d".repeat(200));
    let reader = SpfReader::from_bytes(long.to_bytes().unwrap(), Some(TextEncoding::Gbk)).unwrap();
    assert_eq!(reader.header().desc_str(), "d".repeat(127));
    assert_eq!(reader.header().desc[127], 0);
}

#[test]
fn packs_with_clean_ascii_names_verify_in_every_encoding() {
    for encoding in ["GBK", "Big5", "EUC-KR", "Shift_JIS", "UTF-8"] {
        for encrypted in [false, true] {
            let mut writer = SpfWriter::new(9, 3, encoding);
            writer.set_encrypted(encrypted);
            writer.add_file("DATA/GLOBALRES/A.TXT".to_owned(), vec![1, 2]);
            writer.add_file("x".repeat(300), vec![]);
            let reader = SpfReader::from_bytes(writer.to_bytes().unwrap(), None).unwrap();
            assert!(reader.verify().is_empty());
            let infos = reader.file_infos();
            assert_eq!(infos[0].file_name_bytes(), b"DATA/GLOBALRES/A.TXT");
            assert_eq!(infos[1].file_name_bytes(), "x".repeat(127).as_bytes());
        }
    }
    let mut writer = SpfWriter::new(9, 3, "GBK");
    writer.add_file("\0NAME".to_owned(), vec![1]);
    let reader = SpfReader::from_bytes(writer.to_bytes().unwrap(), None).unwrap();
    assert_eq!(reader.verify(), vec![SpfIssue::EmptyName { index: 0 }]);
}
