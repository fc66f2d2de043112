use latale_tools::launch::{containing_directory, extension_of, parse_open_requests};

#[test]
fn open_request_parser_keeps_context_menu_action() {
    let args = vec![
        "latale-tools.exe".to_owned(),
        "--action".to_owned(),
        "verify".to_owned(),
        r"C:\Game\ROWID.SPF".to_owned(),
    ];

    let requests = parse_open_requests(&args);
    assert_eq!(requests.len(), 1);
    assert_eq!(requests[0].action, "verify");
    assert_eq!(requests[0].path, r"C:\Game\ROWID.SPF");
}

#[test]
fn open_requests_reset_the_action_and_skip_other_files() {
    let args = vec![
        "tool".to_owned(),
        "--action".to_owned(),
        "unpack".to_owned(),
        "a.spf".to_owned(),
        "notes.txt".to_owned(),
        "b.LDT".to_owned(),
        "c.json".to_owned(),
        "--action".to_owned(),
    ];
    let requests = parse_open_requests(&args);
    assert_eq!(requests.len(), 3);
    assert_eq!((requests[0].action.as_str(), requests[0].path.as_str()), ("unpack", "a.spf"));
    assert_eq!((requests[1].action.as_str(), requests[1].path.as_str()), ("open", "b.LDT"));
    assert_eq!((requests[2].action.as_str(), requests[2].path.as_str()), ("open", "c.json"));
}

#[test]
fn open_requests_skip_the_program_name() {
    let args = vec!["stage.stg".to_owned()];
    assert!(parse_open_requests(&args).is_empty());
    assert!(parse_open_requests(&[]).is_empty());
}

#[test]
fn extensions_are_lower_cased() {
    assert_eq!(extension_of("DATA/STAGENEW.STG"), "stg");
    assert_eq!(extension_of("archive.tar.GZ"), "gz");
    assert_eq!(extension_of("README"), "");
    assert_eq!(extension_of(".hidden"), "");
}

#[test]
fn containing_directory_falls_back_to_dot() {
    assert_eq!(containing_directory("DATA/LDT/ITEM.LDT"), "DATA/LDT");
    assert_eq!(containing_directory("ITEM.LDT"), ".");
    assert_eq!(containing_directory("/"), ".");
}
