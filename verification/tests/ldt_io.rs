use latale_tools::common::TextEncoding;
use latale_tools::ldt::{FieldDef, FieldType, FieldValue, LdtError, LdtReader, LdtWriter, Row, HEADER_SIZE};

#[test]
fn test_writer_basic() {
    let mut writer = LdtWriter::new(1);
    writer.add_field("ID", FieldType::Num64);
    writer.add_field("Name", FieldType::String);
    writer.add_field("Price", FieldType::Num);
    writer.add_field("Rate", FieldType::Per);
    writer.add_field("Enabled", FieldType::TF);

    writer.add_row(Row {
        primary_key: 1,
        values: vec![
            FieldValue::Num64(1),
            FieldValue::String("Test Item".to_string()),
            FieldValue::Num(100),
            FieldValue::Per(1.5f32.to_bits()),
            FieldValue::TF(true),
        ],
    });

    assert_eq!(writer.field_count(), 5);
    assert_eq!(writer.row_count(), 1);
}

fn sample_writer() -> LdtWriter {
    let mut writer = LdtWriter::new(42);
    writer.set_field_defs(vec![
        FieldDef { name: "Name".to_owned(), field_type: FieldType::String },
        FieldDef { name: "Value".to_owned(), field_type: FieldType::Num },
        FieldDef { name: "Link".to_owned(), field_type: FieldType::FID },
        FieldDef { name: "Large".to_owned(), field_type: FieldType::Num64 },
        FieldDef { name: "Ratio".to_owned(), field_type: FieldType::Per },
        FieldDef { name: "On".to_owned(), field_type: FieldType::TF },
        FieldDef { name: "Alias".to_owned(), field_type: FieldType::Alias },
    ]);
    writer.set_rows(vec![
        Row {
            primary_key: 10,
            values: vec![
                FieldValue::String("Alpha".to_owned()),
                FieldValue::Num(-5),
                FieldValue::FID(3, 42),
                FieldValue::Num64(9_000_000_001),
                FieldValue::Per(0.25f32.to_bits()),
                FieldValue::TF(true),
                FieldValue::Alias("item_alias".to_owned()),
            ],
        },
        Row {
            primary_key: 20,
            values: vec![
                FieldValue::String("Beta".to_owned()),
                FieldValue::Num(7),
                FieldValue::FID(0, 0),
                FieldValue::Num64(-1),
                FieldValue::Per(0),
                FieldValue::TF(false),
                FieldValue::Alias(String::new()),
            ],
        },
    ]);
    writer
}

#[test]
fn ldt_write_then_read_gives_the_rows_back() {
    let writer = sample_writer();
    let bytes = writer.to_bytes().unwrap();
    let reader = LdtReader::from_bytes(bytes.clone(), TextEncoding::Gbk).unwrap();
    assert_eq!(reader.db_id(), 42);
    assert_eq!(reader.field_count(), 7);
    assert_eq!(reader.row_count(), 2);
    assert_eq!(reader.total_size(), bytes.len());
    let defs = reader.field_defs();
    assert_eq!(defs[0].name, "Name");
    assert_eq!(defs[2].field_type, FieldType::FID);
    let rows = reader.read_rows().unwrap();
    assert_eq!(rows.len(), 2);
    assert_eq!(rows[0].primary_key, 10);
    assert_eq!(rows[0].values[0], FieldValue::String("Alpha".to_owned()));
    assert_eq!(rows[0].values[2], FieldValue::FID(3, 42));
    assert_eq!(rows[0].values[3], FieldValue::Num64(9_000_000_001));
    assert_eq!(rows[0].values[4], FieldValue::Per(0.25f32.to_bits()));
    assert_eq!(rows[0].values[5], FieldValue::TF(true));
    assert_eq!(rows[0].values[6], FieldValue::Alias("item_alias".to_owned()));
    assert_eq!(rows[1].values[1], FieldValue::Num(7));
    assert_eq!(rows[1].values[3], FieldValue::Num64(-1));
    assert_eq!(reader.header().field_name(1), "Value");
    assert_eq!(reader.header().field_type(6), FieldType::Alias);
    assert_eq!(reader.header().field_name(200), "");
    assert_eq!(reader.header().field_type(200), FieldType::NA);
}

#[test]
fn ldt_writer_errors() {
    assert_eq!(LdtWriter::new(0).to_bytes(), Err(LdtError::NoFields));
    let mut w = LdtWriter::new(0);
    for i in 0..129 {
        w.add_field(&format!("F{i}"), FieldType::Num);
    }
    assert_eq!(w.field_count(), 128);
    assert!(w.to_bytes().is_ok());
    let defs: Vec<FieldDef> = (0..129)
        .map(|i| FieldDef { name: format!("F{i}"), field_type: FieldType::Num })
        .collect();
    w.set_field_defs(defs);
    assert_eq!(w.to_bytes(), Err(LdtError::TooManyFields));
}

#[test]
fn ldt_reader_errors() {
    assert!(matches!(LdtReader::from_bytes(vec![0; 10], TextEncoding::Gbk), Err(LdtError::FileTooSmall)));
    let bytes = sample_writer().to_bytes().unwrap();

    let mut bad_fields = bytes.clone();
    bad_fields[4..8].copy_from_slice(&200i32.to_le_bytes());
    assert!(matches!(LdtReader::from_bytes(bad_fields, TextEncoding::Gbk), Err(LdtError::InvalidFieldCount)));

    let mut bad_rows = bytes.clone();
    bad_rows[8..12].copy_from_slice(&(-3i32).to_le_bytes());
    assert!(matches!(LdtReader::from_bytes(bad_rows, TextEncoding::Gbk), Err(LdtError::InvalidRowCount)));

    let cut = bytes[..HEADER_SIZE + 10].to_vec();
    let reader = LdtReader::from_bytes(cut, TextEncoding::Gbk).unwrap();
    assert_eq!(reader.read_rows(), Err(LdtError::UnexpectedEof));
}

fn one_field_writer(field_type: FieldType, value: FieldValue) -> LdtWriter {
    let mut writer = LdtWriter::new(0);
    writer.add_field("F", field_type);
    writer.add_row(Row { primary_key: 1, values: vec![value] });
    writer
}

#[test]
fn ldt_writer_refuses_mismatched_types() {
    let w = one_field_writer(FieldType::String, FieldValue::Num(5));
    assert_eq!(w.to_bytes(), Err(LdtError::TypeMismatch));
    let w = one_field_writer(FieldType::Num, FieldValue::Num64(5));
    assert_eq!(w.to_bytes(), Err(LdtError::TypeMismatch));
    let w = one_field_writer(FieldType::String, FieldValue::NA);
    assert_eq!(w.to_bytes(), Err(LdtError::TypeMismatch));
    let w = one_field_writer(FieldType::NA, FieldValue::NA);
    assert!(w.to_bytes().is_ok());
}

#[test]
fn ldt_writer_refuses_over_long_text() {
    let w = one_field_writer(FieldType::String, FieldValue::String("a".repeat(8192)));
    assert!(w.to_bytes().is_ok());
    let w = one_field_writer(FieldType::String, FieldValue::String("a".repeat(8193)));
    assert_eq!(w.to_bytes(), Err(LdtError::StringTooLong));
    // Two GBK bytes per character: 4097 characters are 8194 bytes.
    let w = one_field_writer(FieldType::String, FieldValue::String("中".repeat(4097)));
    assert_eq!(w.to_bytes(), Err(LdtError::StringTooLong));
    let w = one_field_writer(FieldType::Alias, FieldValue::Alias("a".repeat(4096)));
    assert!(w.to_bytes().is_ok());
    let w = one_field_writer(FieldType::Alias, FieldValue::Alias("a".repeat(4097)));
    assert_eq!(w.to_bytes(), Err(LdtError::StringTooLong));
    // A type mismatch is reported before a length.
    let mut writer = LdtWriter::new(0);
    writer.add_field("S", FieldType::String);
    writer.add_field("N", FieldType::Num);
    writer.add_row(Row {
        primary_key: 1,
        values: vec![FieldValue::String("a".repeat(9000)), FieldValue::TF(true)],
    });
    assert_eq!(writer.to_bytes(), Err(LdtError::TypeMismatch));
}

#[test]
fn read_field_value_reads_each_stored_type() {
    let bytes = sample_writer().to_bytes().unwrap();
    let len = bytes.len();
    let reader = LdtReader::from_bytes(bytes, TextEncoding::Gbk).unwrap();
    let start = HEADER_SIZE + 4;
    let (v, p) = reader.read_field_value(start, FieldType::String).unwrap();
    assert_eq!(v, FieldValue::String("Alpha".to_owned()));
    assert_eq!(p, start + 2 + 5);
    let (v, p) = reader.read_field_value(p, FieldType::Num).unwrap();
    assert_eq!(v, FieldValue::Num(-5));
    let (v, p) = reader.read_field_value(p, FieldType::FID).unwrap();
    assert_eq!(v, FieldValue::FID(3, 42));
    let (v, p) = reader.read_field_value(p, FieldType::Num64).unwrap();
    assert_eq!(v, FieldValue::Num64(9_000_000_001));
    let (v, p) = reader.read_field_value(p, FieldType::Per).unwrap();
    assert_eq!(v, FieldValue::Per(0.25f32.to_bits()));
    let (v, p) = reader.read_field_value(p, FieldType::TF).unwrap();
    assert_eq!(v, FieldValue::TF(true));
    let (v, q) = reader.read_field_value(p, FieldType::NA).unwrap();
    assert_eq!((v, q), (FieldValue::NA, p));
    assert_eq!(reader.read_field_value(len - 2, FieldType::Num), Err(LdtError::UnexpectedEof));
    assert_eq!(reader.read_field_value(len + 5, FieldType::String), Err(LdtError::UnexpectedEof));
    assert_eq!(reader.read_field_value(len + 5, FieldType::NA), Ok((FieldValue::NA, len + 5)));
}

#[test]
fn writer_builders_chain() {
    let mut writer = LdtWriter::new(3);
    writer
        .add_field("A", FieldType::Num)
        .add_field("B", FieldType::TF)
        .add_row(Row { primary_key: 1, values: vec![FieldValue::Num(5), FieldValue::TF(true)] });
    assert_eq!(writer.field_count(), 2);
    assert_eq!(writer.row_count(), 1);
    writer.set_rows(vec![]).set_field_defs(vec![FieldDef { name: "C".to_owned(), field_type: FieldType::NA }]);
    assert_eq!(writer.field_count(), 1);
    assert_eq!(writer.row_count(), 0);
}

#[test]
fn field_names_read_back_from_the_header() {
    let long = "n".repeat(63);
    let mut writer = LdtWriter::new(0);
    writer.add_field("名前", FieldType::String).add_field(&long, FieldType::Num).add_field(&"m".repeat(70), FieldType::TF);
    let reader = LdtReader::from_bytes(writer.to_bytes().unwrap(), TextEncoding::Gbk).unwrap();
    let header = reader.header();
    assert_eq!(header.field_name(0), "名前");
    assert_eq!(header.field_name(1), long);
    assert_eq!(header.field_name(2), "m".repeat(63));
    assert_eq!(header.field_name(3), "");
    assert_eq!(header.field_name(500), "");
}
