use latale_tools::common::TextEncoding;
use latale_tools::stg::types::{display_name, group_type_flags};
use latale_tools::stg::{
    MapGroup, MapInfo, MapLink, Stage, StageFile, StgError, StgReader, StgWriter,
    GROUP_TYPE_FIELD, GROUP_TYPE_SUMMON,
};

fn map(name: &str) -> MapInfo {
    MapInfo {
        bg_index: 7,
        map_name: name.to_owned(),
        form_file: "FORM.FRM".to_owned(),
        attribute_file: "ATTR.ATT".to_owned(),
        mini_map_file: "MINI.TGA".to_owned(),
    }
}

fn group(maps: Vec<MapInfo>) -> MapGroup {
    MapGroup {
        group_id: 11,
        map_link: 1,
        bg_id: 3,
        group_type: GROUP_TYPE_FIELD | GROUP_TYPE_SUMMON | 0x40,
        group_name: "森林".to_owned(),
        bg_file: "BG.BG".to_owned(),
        bgm_file: "BGM.OGG".to_owned(),
        sound_effect_type: 2,
        mini_map_icon_id: 5,
        mini_map_res_id: 6,
        gravity: 1500,
        max_drop_speed: -20,
        velocity_x: 300,
        jump_speed: 450,
        up_down_velocity: 120,
        hanging_velocity: 80,
        unknown_group_flag: 1,
        map_count: maps.len() as i32,
        map_list: maps,
    }
}

fn sample() -> StageFile {
    let stage = Stage {
        stage_id: 100,
        sync_region_width: 800,
        sync_region_height: 600,
        stage_name: "Stage One".to_owned(),
        palette_file: "PAL.PAL".to_owned(),
        unknown_stage_value: -1,
        group_count: 2,
        group_list: vec![group(vec![map("A"), map("B")]), group(vec![])],
    };
    StageFile { stage_count: 1, stage_list: vec![stage] }
}

fn bytes_of(f: &StageFile) -> Vec<u8> {
    StgWriter::new(f.clone(), TextEncoding::Gbk).to_bytes().unwrap()
}

#[test]
fn stg_write_then_read_gives_the_table_back() {
    let f = sample();
    let bytes = bytes_of(&f);
    assert_eq!(bytes.len(), 4 + 148 + 2 * 252 + 2 * 260);
    let reader = StgReader::from_bytes(bytes.clone(), TextEncoding::Gbk);
    assert_eq!(reader.total_size(), bytes.len());
    assert_eq!(reader.read().unwrap(), f);
}

#[test]
fn stg_counts() {
    let f = sample();
    assert_eq!(f.stage_count(), 1);
    assert_eq!(f.group_count(), 2);
    assert_eq!(f.map_count(), 2);
}

#[test]
fn stg_writer_refuses_count_mismatch() {
    let mut f = sample();
    f.stage_list[0].group_list[0].map_count = 3;
    let r = StgWriter::new(f, TextEncoding::Gbk).to_bytes();
    assert_eq!(r, Err(StgError::CountMismatch));
    let mut f = sample();
    f.stage_count = 2;
    assert_eq!(StgWriter::new(f, TextEncoding::Gbk).to_bytes(), Err(StgError::CountMismatch));
}

#[test]
fn stg_writer_refuses_long_and_unencodable_strings() {
    let mut f = sample();
    f.stage_list[0].stage_name = "x".repeat(64);
    assert_eq!(StgWriter::new(f, TextEncoding::Gbk).to_bytes(), Err(StgError::StringTooLong));
    let mut f = sample();
    f.stage_list[0].stage_name = "x".repeat(63);
    assert!(StgWriter::new(f, TextEncoding::Gbk).to_bytes().is_ok());
    let mut f = sample();
    f.stage_list[0].palette_file = "\u{1F600}".to_owned();
    assert_eq!(StgWriter::new(f, TextEncoding::Gbk).to_bytes(), Err(StgError::EncodeError));
}

#[test]
fn stg_reader_errors() {
    let good = bytes_of(&sample());
    let read = |b: Vec<u8>| StgReader::from_bytes(b, TextEncoding::Gbk).read();

    assert_eq!(read(vec![1, 2]), Err(StgError::UnexpectedEof));
    assert_eq!(read(good[..good.len() - 1].to_vec()), Err(StgError::UnexpectedEof));

    let mut extra = good.clone();
    extra.push(0);
    assert_eq!(read(extra), Err(StgError::TrailingData));

    let mut bad_count = good.clone();
    bad_count[0..4].copy_from_slice(&(-1i32).to_le_bytes());
    assert_eq!(read(bad_count), Err(StgError::InvalidCount(-1)));

    let mut bad_sync = good.clone();
    bad_sync[8..12].copy_from_slice(&0i32.to_le_bytes());
    assert_eq!(read(bad_sync), Err(StgError::InvalidSyncRegion { width: 0, height: 600 }));

    let mut bad_link = good.clone();
    let group_start = 4 + 148;
    bad_link[group_start + 4..group_start + 8].copy_from_slice(&5i32.to_le_bytes());
    assert_eq!(read(bad_link), Err(StgError::InvalidMapLink(5)));

    let mut bad_text = good.clone();
    bad_text[4 + 12] = 0x81;
    bad_text[4 + 13] = 0x20;
    assert_eq!(read(bad_text), Err(StgError::DecodeError));

    assert_eq!(read(0i32.to_le_bytes().to_vec()), Ok(StageFile { stage_count: 0, stage_list: vec![] }));
}

#[test]
fn map_link_kinds_and_names() {
    assert_eq!(MapLink::from_i32(0), MapLink::Null);
    assert_eq!(MapLink::from_i32(1), MapLink::Horizontal);
    assert_eq!(MapLink::from_i32(2), MapLink::Vertical);
    assert_eq!(MapLink::from_i32(9), MapLink::Unknown(9));
    assert_eq!(MapLink::Null.name(), "MAP_LINK_NULL");
    assert_eq!(MapLink::Horizontal.name(), "MAP_LINK_HORIZONTAL");
    assert_eq!(MapLink::Vertical.name(), "MAP_LINK_VERTICAL");
    assert_eq!(MapLink::Unknown(9).name(), "UNKNOWN");
    assert_eq!(group(vec![]).map_link_kind(), MapLink::Horizontal);
}

#[test]
fn group_type_flags_are_named() {
    let g = group(vec![]);
    assert_eq!(g.group_type_names(), vec!["GROUP_TYPE_FIELD", "GROUP_TYPE_SUMMON"]);
    assert_eq!(g.group_type_unknown_bits(), 0x40);
    assert_eq!(group_type_flags().len(), 10);
}

#[test]
fn display_names_fall_back_when_blank() {
    assert_eq!(display_name("  Forest ", "-"), "Forest");
    assert_eq!(display_name("   ", "-"), "-");
    assert_eq!(display_name("", "(none)"), "(none)");
}
