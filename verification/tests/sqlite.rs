use latale_tools::ldt::{FieldDef, FieldType, FieldValue, Row};
use latale_tools::sqlite::{quote_identifier, split_imported_rows, sqlite_column_names, sqlite_type};

#[test]
fn sqlite_types_of_fields() {
    assert_eq!(sqlite_type(FieldType::TF), "INTEGER");
    assert_eq!(sqlite_type(FieldType::Num), "INTEGER");
    assert_eq!(sqlite_type(FieldType::Num64), "INTEGER");
    assert_eq!(sqlite_type(FieldType::Per), "REAL");
    assert_eq!(sqlite_type(FieldType::NA), "TEXT");
    assert_eq!(sqlite_type(FieldType::String), "TEXT");
    assert_eq!(sqlite_type(FieldType::FID), "TEXT");
    assert_eq!(sqlite_type(FieldType::Alias), "TEXT");
}

#[test]
fn identifiers_are_quoted() {
    assert_eq!(quote_identifier("SQL_TEST"), "\"SQL_TEST\"");
    assert_eq!(quote_identifier("a\"b"), "\"a\"\"b\"");
    assert_eq!(quote_identifier(""), "\"\"");
    assert_eq!(quote_identifier("名前"), "\"名前\"");
}

fn defs(names: &[&str]) -> Vec<FieldDef> {
    names.iter().map(|n| FieldDef { name: n.to_string(), field_type: FieldType::Num }).collect()
}

#[test]
fn column_names_are_cleaned_and_made_distinct() {
    let names = sqlite_column_names(&defs(&["Name", "__Name", "name", "", "id", "_Id", "A\0B", "__", "ID1"])).unwrap();
    assert_eq!(
        names,
        vec!["Name", "Name_2", "name_3", "FIELD_4", "ID1", "ID1_2", "AB", "FIELD_8", "ID1_3"]
    );
    assert_eq!(sqlite_column_names(&[]).unwrap(), Vec::<String>::new());
    // Upper and lower case letters outside ASCII collide too.
    let names = sqlite_column_names(&defs(&["Ä", "ä"])).unwrap();
    assert_eq!(names, vec!["Ä", "ä_2"]);
}

#[test]
fn rows_with_key_zero_are_skipped() {
    let row = |k: i32| Row { primary_key: k, values: vec![FieldValue::Num(k)] };
    let (kept, skipped) = split_imported_rows(vec![row(0), row(3), row(-1), row(0), row(7)]);
    assert_eq!(kept, vec![row(3), row(-1), row(7)]);
    assert_eq!(skipped, 2);
    let (kept, skipped) = split_imported_rows(vec![]);
    assert!(kept.is_empty());
    assert_eq!(skipped, 0);
}
