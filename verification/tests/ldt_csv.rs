use latale_tools::ldt::batch::{conversion_kind, Direction, DirectionError};
use latale_tools::ldt::csv::table_from_csv_records;
use latale_tools::ldt::{
    export_to_csv, import_from_csv, CsvError, FieldDef, FieldType, FieldValue, Row, DEFAULT_DB_ID,
};

fn per_text(bits: u32) -> String {
    f32::from_bits(bits).to_string()
}

fn per_bits(text: &str) -> u32 {
    text.parse::<f32>().map(f32::to_bits).unwrap_or(0)
}

#[test]
fn test_export_import_roundtrip() {
    let field_defs = vec![
        FieldDef { name: "ID".to_string(), field_type: FieldType::Num64 },
        FieldDef { name: "Name".to_string(), field_type: FieldType::String },
        FieldDef { name: "Price".to_string(), field_type: FieldType::Num },
    ];

    let rows = vec![
        Row {
            primary_key: 1,
            values: vec![
                FieldValue::Num64(1),
                FieldValue::String("Test Item".to_string()),
                FieldValue::Num(100),
            ],
        },
        Row {
            primary_key: 2,
            values: vec![
                FieldValue::Num64(2),
                FieldValue::String("Another, Item".to_string()),
                FieldValue::Num(200),
            ],
        },
    ];

    let csv_output = export_to_csv(&field_defs, &rows, per_text).unwrap();
    let csv_string = String::from_utf8(csv_output).unwrap();
    let (db_id, imported_defs, imported_rows) =
        import_from_csv(csv_string.as_bytes(), per_bits).unwrap();

    assert_eq!(db_id, DEFAULT_DB_ID);
    assert_eq!(imported_defs.len(), 3);
    assert_eq!(imported_rows.len(), 2);
    assert_eq!(imported_rows[0].primary_key, 1);
    assert_eq!(imported_rows[1].primary_key, 2);
}

#[test]
fn test_export_handles_special_characters() {
    let field_defs = vec![FieldDef { name: "Text".to_string(), field_type: FieldType::String }];

    let rows = vec![Row {
        primary_key: 1,
        values: vec![FieldValue::String("Line1\nLine2,\"quoted\",".to_string())],
    }];

    let csv_output = export_to_csv(&field_defs, &rows, per_text).unwrap();
    let csv_string = String::from_utf8(csv_output).unwrap();
    let (_db_id, _imported_defs, imported_rows) =
        import_from_csv(csv_string.as_bytes(), per_bits).unwrap();

    assert_eq!(imported_rows.len(), 1);
    assert_eq!(
        imported_rows[0].values[0],
        FieldValue::String("Line1\nLine2,\"quoted\",".to_string())
    );
}

#[test]
fn test_export_handles_empty_values() {
    let field_defs = vec![
        FieldDef { name: "Name".to_string(), field_type: FieldType::String },
        FieldDef { name: "Count".to_string(), field_type: FieldType::Num },
    ];

    let rows = vec![Row { primary_key: 1, values: vec![FieldValue::NA, FieldValue::Num(0)] }];

    let csv_output = export_to_csv(&field_defs, &rows, per_text).unwrap();
    let csv_string = String::from_utf8(csv_output).unwrap();
    let (_db_id, _imported_defs, imported_rows) =
        import_from_csv(csv_string.as_bytes(), per_bits).unwrap();

    assert_eq!(imported_rows.len(), 1);
    // NA values are exported as empty strings and imported back as NA
    assert_eq!(imported_rows[0].values[0], FieldValue::NA);
    assert_eq!(imported_rows[0].values[1], FieldValue::Num(0));
}

#[test]
fn csv_header_and_record_text() {
    let field_defs = vec![
        FieldDef { name: "Name".to_string(), field_type: FieldType::String },
        FieldDef { name: "Ratio".to_string(), field_type: FieldType::Per },
        FieldDef { name: "Link".to_string(), field_type: FieldType::FID },
    ];
    let rows = vec![Row {
        primary_key: -4,
        values: vec![
            FieldValue::String("a".to_string()),
            FieldValue::Per(0.5f32.to_bits()),
            FieldValue::FID(3, 42),
        ],
    }];
    let text = String::from_utf8(export_to_csv(&field_defs, &rows, per_text).unwrap()).unwrap();
    assert_eq!(text, "ID:int32,Name:string,Ratio:float32,Link:fid\n-4,a,0.5,\"3,42\"\n");
    let (_, defs, back) = import_from_csv(text.as_bytes(), per_bits).unwrap();
    assert_eq!(defs, field_defs);
    assert_eq!(back, rows);
}

#[test]
fn csv_export_refuses_rows_of_the_wrong_length() {
    let field_defs = vec![FieldDef { name: "A".to_string(), field_type: FieldType::Num }];
    let rows = vec![Row { primary_key: 1, values: vec![] }];
    assert_eq!(export_to_csv(&field_defs, &rows, per_text), Err(CsvError::UnequalRowLength));
}

#[test]
fn csv_import_errors_and_header_forms() {
    assert_eq!(
        import_from_csv(b"ID:int32,A:int32\nx,1\n", per_bits).map(|_| ()),
        Err(CsvError::InvalidPrimaryKey)
    );
    assert_eq!(
        import_from_csv(b"ID:int32,A:int32\n1,2,3\n", per_bits).map(|_| ()),
        Err(CsvError::ReadFailed)
    );
    let (db, defs, rows) = import_from_csv(b"ID,Plain,Typed:INT64:extra,Odd:what\n5,x,9,y\n", per_bits).unwrap();
    assert_eq!(db, 0);
    assert_eq!(defs[0], FieldDef { name: "Plain".to_string(), field_type: FieldType::NA });
    assert_eq!(defs[1], FieldDef { name: "Typed".to_string(), field_type: FieldType::Num64 });
    assert_eq!(defs[2], FieldDef { name: "Odd".to_string(), field_type: FieldType::NA });
    assert_eq!(rows[0].values, vec![FieldValue::NA, FieldValue::Num64(9), FieldValue::NA]);
    let (_, defs, rows) = import_from_csv(b"", per_bits).unwrap();
    assert!(defs.is_empty() && rows.is_empty());
}

fn strings(v: &[&str]) -> Vec<String> {
    v.iter().map(|s| s.to_string()).collect()
}

#[test]
fn a_table_of_every_type_but_per_reads_back_from_its_csv() {
    let field_defs = vec![
        FieldDef { name: "Name".to_string(), field_type: FieldType::String },
        FieldDef { name: "Count".to_string(), field_type: FieldType::Num },
        FieldDef { name: "Big".to_string(), field_type: FieldType::Num64 },
        FieldDef { name: "On".to_string(), field_type: FieldType::TF },
        FieldDef { name: "Link".to_string(), field_type: FieldType::FID },
        FieldDef { name: "Other name".to_string(), field_type: FieldType::Alias },
        FieldDef { name: "Unused".to_string(), field_type: FieldType::NA },
    ];
    let rows = vec![
        Row {
            primary_key: i32::MIN,
            values: vec![
                FieldValue::String("a,\"b\"\r\nc ".to_string()),
                FieldValue::Num(-5),
                FieldValue::Num64(i64::MIN),
                FieldValue::TF(true),
                FieldValue::FID(3, -4),
                FieldValue::Alias(String::new()),
                FieldValue::NA,
            ],
        },
        Row {
            primary_key: 7,
            values: vec![
                FieldValue::String(String::new()),
                FieldValue::Num(0),
                FieldValue::Num64(i64::MAX),
                FieldValue::TF(false),
                FieldValue::FID(0, 0),
                FieldValue::Alias("中文".to_string()),
                FieldValue::NA,
            ],
        },
    ];
    let bytes = export_to_csv(&field_defs, &rows, per_text).unwrap();
    let (db, defs, back) = import_from_csv(&bytes, per_bits).unwrap();
    assert_eq!(db, DEFAULT_DB_ID);
    assert_eq!(defs, field_defs);
    assert_eq!(back[0], rows[0]);
    // An empty string comes back as NA.
    let mut second = rows[1].clone();
    second.values[0] = FieldValue::NA;
    assert_eq!(back[1], second);
    assert_eq!(back.len(), 2);
}

#[test]
fn a_table_is_read_from_the_records_a_csv_reader_gives() {
    let header = Some(strings(&["ID:int32", "A:INT32", "B:Bool"]));
    let (db, defs, rows) =
        table_from_csv_records(header.clone(), vec![Some(strings(&["4", "12", "YES"])), Some(vec![])], per_bits)
            .unwrap();
    assert_eq!(db, 0);
    assert_eq!(defs[0], FieldDef { name: "A".to_string(), field_type: FieldType::Num });
    assert_eq!(defs[1], FieldDef { name: "B".to_string(), field_type: FieldType::TF });
    assert_eq!(rows, vec![Row { primary_key: 4, values: vec![FieldValue::Num(12), FieldValue::TF(true)] }]);
    assert_eq!(
        table_from_csv_records(header.clone(), vec![Some(strings(&["1", "2", "no"])), None], per_bits).map(|_| ()),
        Err(CsvError::ReadFailed)
    );
    assert_eq!(
        table_from_csv_records(header.clone(), vec![Some(strings(&["one", "2", "no"])), None], per_bits).map(|_| ()),
        Err(CsvError::InvalidPrimaryKey)
    );
    assert_eq!(table_from_csv_records(None, vec![], per_bits).map(|_| ()), Err(CsvError::ReadFailed));
}

#[test]
fn a_directory_is_converted_one_way() {
    assert_eq!(conversion_kind(3, 0), Ok(Direction::LdtToCsv));
    assert_eq!(conversion_kind(0, 2), Ok(Direction::CsvToLdt));
    assert_eq!(conversion_kind(1, 1), Err(DirectionError::Mixed));
    assert_eq!(conversion_kind(0, 0), Err(DirectionError::Empty));
    assert_eq!(Direction::LdtToCsv.default_output_dir(), "DATA/CSV");
    assert_eq!(Direction::CsvToLdt.default_output_dir(), "DATA/LDT");
}

#[test]
fn csv_fields_are_quoted_only_where_needed() {
    let field_defs = vec![
        FieldDef { name: "S".to_string(), field_type: FieldType::String },
        FieldDef { name: "T".to_string(), field_type: FieldType::Alias },
    ];
    let rows = vec![
        Row {
            primary_key: 1,
            values: vec![FieldValue::String("say \"hi\"".to_string()), FieldValue::Alias(" x ".to_string())],
        },
        Row { primary_key: 2, values: vec![FieldValue::String("a\rb".to_string()), FieldValue::Alias(String::new())] },
    ];
    let text = String::from_utf8(export_to_csv(&field_defs, &rows, per_text).unwrap()).unwrap();
    assert_eq!(text, "ID:int32,S:string,T:alias\n1,\"say \"\"hi\"\"\", x \n2,\"a\rb\",\n");
    // A table without fields writes one column per record; an empty record is never written.
    let text = String::from_utf8(export_to_csv(&[], &[Row { primary_key: 5, values: vec![] }], per_text).unwrap()).unwrap();
    assert_eq!(text, "ID:int32\n5\n");
}

#[test]
fn na_in_a_string_column_reads_back_as_na() {
    let field_defs = vec![
        FieldDef { name: "Name".to_string(), field_type: FieldType::String },
        FieldDef { name: "Count".to_string(), field_type: FieldType::Num },
    ];
    let rows = vec![
        Row { primary_key: 1, values: vec![FieldValue::NA, FieldValue::Num(0)] },
        Row { primary_key: 2, values: vec![FieldValue::String("x".to_string()), FieldValue::Num(-1)] },
    ];
    let bytes = export_to_csv(&field_defs, &rows, per_text).unwrap();
    assert_eq!(bytes, b"ID:int32,Name:string,Count:int32\n1,,0\n2,x,-1\n".to_vec());
    let (_, defs, back) = import_from_csv(&bytes, per_bits).unwrap();
    assert_eq!(defs, field_defs);
    assert_eq!(back, rows);
}
