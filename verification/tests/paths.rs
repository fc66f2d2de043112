use latale_tools::common::paths::{converted_path, converted_path_in};

#[test]
fn converted_files_go_next_to_the_input_or_where_asked() {
    assert_eq!(converted_path("data/STAGE.STG", None, ".json"), "data/STAGE.json");
    assert_eq!(converted_path("data/STAGE.STG", Some("out"), ".json"), "out/STAGE.json");
    assert_eq!(converted_path("data/STAGE.STG", Some("out/x.json"), ".json"), "out/x.json");
}

#[test]
fn converted_tables_go_to_the_default_directory() {
    assert_eq!(converted_path_in("in/ITEM.LDT", None, "DATA/CSV", ".csv"), "DATA/CSV/ITEM.csv");
    assert_eq!(converted_path_in("in/ITEM.LDT", Some("out"), "DATA/CSV", ".csv"), "out/ITEM.csv");
    assert_eq!(converted_path_in("in/ITEM.LDT", Some("a/b.csv"), "DATA/CSV", ".csv"), "a/b.csv");
    assert_eq!(converted_path_in("", None, "DATA/LDT", ".ldt"), "DATA/LDT/.ldt/.ldt");
}
