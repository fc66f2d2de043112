//! STG type definitions: stages, map groups and maps.

use vstd::prelude::*;
use crate::common::text::{trim, trim_end_spec, trim_start_spec};

verus! {

/// STG file extension.
pub const STG_EXTENSION: &'static str = "stg";
/// JSON file extension.
pub const JSON_EXTENSION: &'static str = "json";
/// STG output file extension.
pub const STG_OUTPUT_EXT: &'static str = ".STG";
/// JSON output file extension.
pub const JSON_OUTPUT_EXT: &'static str = ".JSON";
/// Default STG input.
pub const DEFAULT_STG_INPUT: &'static str = "cn/STAGENEW.STG";
/// Size of every fixed-length string field.
pub const FIXED_STRING_SIZE: usize = 64;

/// How the maps of a group are linked.
#[derive(Debug, Clone, Copy, PartialEq, Eq, Structural)]
pub enum MapLink {
    Null,
    Horizontal,
    Vertical,
    Unknown(i32),
}

/// The link kind of a stored code.
pub open spec fn map_link_of(value: i32) -> MapLink {
    if value == 0 {
        MapLink::Null
    } else if value == 1 {
        MapLink::Horizontal
    } else if value == 2 {
        MapLink::Vertical
    } else {
        MapLink::Unknown(value)
    }
}

/// The name of a link kind.
pub open spec fn map_link_name(m: MapLink) -> Seq<char> {
    match m {
        MapLink::Null => "MAP_LINK_NULL"@,
        MapLink::Horizontal => "MAP_LINK_HORIZONTAL"@,
        MapLink::Vertical => "MAP_LINK_VERTICAL"@,
        MapLink::Unknown(_) => "UNKNOWN"@,
    }
}

impl MapLink {
    /// The link kind of a stored code.
    pub fn from_i32(value: i32) -> (r: MapLink)
        ensures
            r == map_link_of(value),
    {
        match value {
            0 => MapLink::Null,
            1 => MapLink::Horizontal,
            2 => MapLink::Vertical,
            v => MapLink::Unknown(v),
        }
    }

    /// The name of the link kind.
    pub fn name(self) -> (r: &'static str)
        ensures
            r@ == map_link_name(self),
    {
        match self {
            MapLink::Null => "MAP_LINK_NULL",
            MapLink::Horizontal => "MAP_LINK_HORIZONTAL",
            MapLink::Vertical => "MAP_LINK_VERTICAL",
            MapLink::Unknown(_) => "UNKNOWN",
        }
    }
}

pub const GROUP_TYPE_FIELD: i32 = 0x001;
pub const GROUP_TYPE_MINIMAP: i32 = 0x002;
pub const GROUP_TYPE_EVENT: i32 = 0x004;
pub const GROUP_TYPE_MARKET: i32 = 0x008;
pub const GROUP_TYPE_EXP: i32 = 0x010;
pub const GROUP_TYPE_PVP: i32 = 0x020;
pub const GROUP_TYPE_CASH: i32 = 0x080;
pub const GROUP_TYPE_INDUN: i32 = 0x100;
pub const GROUP_TYPE_REVIVE: i32 = 0x200;
pub const GROUP_TYPE_SUMMON: i32 = 0x400;

/// The group type flags and their names, in order.
pub open spec fn group_type_flags_spec() -> Seq<(i32, Seq<char>)> {
    seq![
        (1i32, "GROUP_TYPE_FIELD"@),
        (2i32, "GROUP_TYPE_MINIMAP"@),
        (4i32, "GROUP_TYPE_EVENT"@),
        (8i32, "GROUP_TYPE_MARKET"@),
        (16i32, "GROUP_TYPE_EXP"@),
        (32i32, "GROUP_TYPE_PVP"@),
        (128i32, "GROUP_TYPE_CASH"@),
        (256i32, "GROUP_TYPE_INDUN"@),
        (512i32, "GROUP_TYPE_REVIVE"@),
        (1024i32, "GROUP_TYPE_SUMMON"@),
    ]
}

/// The group type flags and their names, in order.
pub fn group_type_flags() -> (r: Vec<(i32, &'static str)>)
    ensures
        r@.len() == 10,
        r@.map_values(|f: (i32, &'static str)| (f.0, f.1@)) == group_type_flags_spec(),
{
    let r = vec![
        (GROUP_TYPE_FIELD, "GROUP_TYPE_FIELD"),
        (GROUP_TYPE_MINIMAP, "GROUP_TYPE_MINIMAP"),
        (GROUP_TYPE_EVENT, "GROUP_TYPE_EVENT"),
        (GROUP_TYPE_MARKET, "GROUP_TYPE_MARKET"),
        (GROUP_TYPE_EXP, "GROUP_TYPE_EXP"),
        (GROUP_TYPE_PVP, "GROUP_TYPE_PVP"),
        (GROUP_TYPE_CASH, "GROUP_TYPE_CASH"),
        (GROUP_TYPE_INDUN, "GROUP_TYPE_INDUN"),
        (GROUP_TYPE_REVIVE, "GROUP_TYPE_REVIVE"),
        (GROUP_TYPE_SUMMON, "GROUP_TYPE_SUMMON"),
    ];
    assert(r@.map_values(|f: (i32, &'static str)| (f.0, f.1@)) =~= group_type_flags_spec());
    r
}

/// The names of the first `k` flags that are set in `t`, in flag order.
pub open spec fn group_type_names_spec(t: i32, k: nat) -> Seq<Seq<char>>
    decreases k,
{
    if k == 0 {
        Seq::empty()
    } else {
        let f = group_type_flags_spec()[k - 1];
        group_type_names_spec(t, (k - 1) as nat) + if t & f.0 != 0 {
            seq![f.1]
        } else {
            Seq::empty()
        }
    }
}

/// A whole STG file.
#[derive(Debug, Clone, PartialEq, Eq)]
pub struct StageFile {
    pub stage_count: i32,
    pub stage_list: Vec<Stage>,
}

/// A stage.
#[derive(Debug, Clone, PartialEq, Eq)]
pub struct Stage {
    pub stage_id: i32,
    pub sync_region_width: i32,
    pub sync_region_height: i32,
    pub stage_name: String,
    pub palette_file: String,
    pub unknown_stage_value: i32,
    pub group_count: i32,
    pub group_list: Vec<MapGroup>,
}

/// A map group.
#[derive(Debug, Clone, PartialEq, Eq)]
pub struct MapGroup {
    pub group_id: i32,
    pub map_link: i32,
    pub bg_id: i32,
    pub group_type: i32,
    pub group_name: String,
    pub bg_file: String,
    pub bgm_file: String,
    pub sound_effect_type: i32,
    pub mini_map_icon_id: i32,
    pub mini_map_res_id: i32,
    pub gravity: i32,
    pub max_drop_speed: i32,
    pub velocity_x: i32,
    pub jump_speed: i32,
    pub up_down_velocity: i32,
    pub hanging_velocity: i32,
    pub unknown_group_flag: i32,
    pub map_count: i32,
    pub map_list: Vec<MapInfo>,
}

/// A map.
#[derive(Debug, Clone, PartialEq, Eq)]
pub struct MapInfo {
    pub bg_index: i32,
    pub map_name: String,
    pub form_file: String,
    pub attribute_file: String,
    pub mini_map_file: String,
}

/// The mathematical form of a map.
pub struct MapInfoModel {
    pub bg_index: i32,
    pub map_name: Seq<char>,
    pub form_file: Seq<char>,
    pub attribute_file: Seq<char>,
    pub mini_map_file: Seq<char>,
}

/// The mathematical form of a map group.
pub struct MapGroupModel {
    pub group_id: i32,
    pub map_link: i32,
    pub bg_id: i32,
    pub group_type: i32,
    pub group_name: Seq<char>,
    pub bg_file: Seq<char>,
    pub bgm_file: Seq<char>,
    pub sound_effect_type: i32,
    pub mini_map_icon_id: i32,
    pub mini_map_res_id: i32,
    pub gravity: i32,
    pub max_drop_speed: i32,
    pub velocity_x: i32,
    pub jump_speed: i32,
    pub up_down_velocity: i32,
    pub hanging_velocity: i32,
    pub unknown_group_flag: i32,
    pub map_count: i32,
    pub map_list: Seq<MapInfoModel>,
}

/// The mathematical form of a stage.
pub struct StageModel {
    pub stage_id: i32,
    pub sync_region_width: i32,
    pub sync_region_height: i32,
    pub stage_name: Seq<char>,
    pub palette_file: Seq<char>,
    pub unknown_stage_value: i32,
    pub group_count: i32,
    pub group_list: Seq<MapGroupModel>,
}

/// The mathematical form of a whole STG file.
pub struct StageFileModel {
    pub stage_count: i32,
    pub stage_list: Seq<StageModel>,
}

impl View for MapInfo {
    type V = MapInfoModel;

    open spec fn view(&self) -> MapInfoModel {
        MapInfoModel {
            bg_index: self.bg_index,
            map_name: self.map_name@,
            form_file: self.form_file@,
            attribute_file: self.attribute_file@,
            mini_map_file: self.mini_map_file@,
        }
    }
}

impl View for MapGroup {
    type V = MapGroupModel;

    open spec fn view(&self) -> MapGroupModel {
        MapGroupModel {
            group_id: self.group_id,
            map_link: self.map_link,
            bg_id: self.bg_id,
            group_type: self.group_type,
            group_name: self.group_name@,
            bg_file: self.bg_file@,
            bgm_file: self.bgm_file@,
            sound_effect_type: self.sound_effect_type,
            mini_map_icon_id: self.mini_map_icon_id,
            mini_map_res_id: self.mini_map_res_id,
            gravity: self.gravity,
            max_drop_speed: self.max_drop_speed,
            velocity_x: self.velocity_x,
            jump_speed: self.jump_speed,
            up_down_velocity: self.up_down_velocity,
            hanging_velocity: self.hanging_velocity,
            unknown_group_flag: self.unknown_group_flag,
            map_count: self.map_count,
            map_list: self.map_list@.map_values(|m: MapInfo| m@),
        }
    }
}

impl View for Stage {
    type V = StageModel;

    open spec fn view(&self) -> StageModel {
        StageModel {
            stage_id: self.stage_id,
            sync_region_width: self.sync_region_width,
            sync_region_height: self.sync_region_height,
            stage_name: self.stage_name@,
            palette_file: self.palette_file@,
            unknown_stage_value: self.unknown_stage_value,
            group_count: self.group_count,
            group_list: self.group_list@.map_values(|g: MapGroup| g@),
        }
    }
}

impl View for StageFile {
    type V = StageFileModel;

    open spec fn view(&self) -> StageFileModel {
        StageFileModel {
            stage_count: self.stage_count,
            stage_list: self.stage_list@.map_values(|s: Stage| s@),
        }
    }
}

/// The number of groups in the first `k` stages.
pub open spec fn groups_in(stages: Seq<StageModel>, k: nat) -> nat
    decreases k,
{
    if k == 0 {
        0
    } else {
        groups_in(stages, (k - 1) as nat) + stages[k - 1].group_list.len()
    }
}

/// The number of maps in the first `k` groups.
pub open spec fn maps_in_groups(groups: Seq<MapGroupModel>, k: nat) -> nat
    decreases k,
{
    if k == 0 {
        0
    } else {
        maps_in_groups(groups, (k - 1) as nat) + groups[k - 1].map_list.len()
    }
}

/// The number of maps in the first `k` stages.
pub open spec fn maps_in(stages: Seq<StageModel>, k: nat) -> nat
    decreases k,
{
    if k == 0 {
        0
    } else {
        maps_in(stages, (k - 1) as nat) + maps_in_groups(
            stages[k - 1].group_list,
            stages[k - 1].group_list.len(),
        )
    }
}

impl StageFile {
    /// The number of stages in the list.
    pub fn stage_count(&self) -> (r: usize)
        ensures
            r == self@.stage_list.len(),
    {
        self.stage_list.len()
    }

    /// The number of groups over all stages.
    pub fn group_count(&self) -> (r: usize)
        requires
            groups_in(self@.stage_list, self@.stage_list.len()) <= usize::MAX,
        ensures
            r == groups_in(self@.stage_list, self@.stage_list.len()),
    {
        let ghost ss = self@.stage_list;
        let mut total: usize = 0;
        let mut i: usize = 0;
        while i < self.stage_list.len()
            invariant
                i <= self.stage_list@.len(),
                ss == self@.stage_list,
                groups_in(ss, ss.len()) <= usize::MAX,
                total == groups_in(ss, i as nat),
            decreases self.stage_list@.len() - i,
        {
            proof {
                lemma_groups_in_mono(ss, (i + 1) as nat, ss.len());
            }
            total = total + self.stage_list[i].group_list.len();
            i = i + 1;
        }
        total
    }

    /// The number of maps over all groups of all stages.
    pub fn map_count(&self) -> (r: usize)
        requires
            maps_in(self@.stage_list, self@.stage_list.len()) <= usize::MAX,
        ensures
            r == maps_in(self@.stage_list, self@.stage_list.len()),
    {
        let ghost ss = self@.stage_list;
        let mut total: usize = 0;
        let mut i: usize = 0;
        while i < self.stage_list.len()
            invariant
                i <= self.stage_list@.len(),
                ss == self@.stage_list,
                maps_in(ss, ss.len()) <= usize::MAX,
                total == maps_in(ss, i as nat),
            decreases self.stage_list@.len() - i,
        {
            proof {
                lemma_maps_in_mono(ss, (i + 1) as nat, ss.len());
            }
            let groups = &self.stage_list[i].group_list;
            let ghost gs = ss[i as int].group_list;
            let mut j: usize = 0;
            while j < groups.len()
                invariant
                    j <= groups@.len(),
                    gs == groups@.map_values(|g: MapGroup| g@),
                    maps_in(ss, i as nat) + maps_in_groups(gs, gs.len()) <= usize::MAX,
                    i < ss.len(),
                    gs == ss[i as int].group_list,
                    total == maps_in(ss, i as nat) + maps_in_groups(gs, j as nat),
                decreases groups@.len() - j,
            {
                proof {
                    lemma_maps_in_groups_mono(gs, (j + 1) as nat, gs.len());
                }
                total = total + groups[j].map_list.len();
                j = j + 1;
            }
            i = i + 1;
        }
        total
    }
}

proof fn lemma_groups_in_mono(ss: Seq<StageModel>, i: nat, j: nat)
    requires
        i <= j,
    ensures
        groups_in(ss, i) <= groups_in(ss, j),
    decreases j - i,
{
    if i < j {
        lemma_groups_in_mono(ss, i, (j - 1) as nat);
    }
}

proof fn lemma_maps_in_mono(ss: Seq<StageModel>, i: nat, j: nat)
    requires
        i <= j,
    ensures
        maps_in(ss, i) <= maps_in(ss, j),
    decreases j - i,
{
    if i < j {
        lemma_maps_in_mono(ss, i, (j - 1) as nat);
    }
}

proof fn lemma_maps_in_groups_mono(gs: Seq<MapGroupModel>, i: nat, j: nat)
    requires
        i <= j,
    ensures
        maps_in_groups(gs, i) <= maps_in_groups(gs, j),
    decreases j - i,
{
    if i < j {
        lemma_maps_in_groups_mono(gs, i, (j - 1) as nat);
    }
}

impl MapGroup {
    /// The link kind of this group.
    pub fn map_link_kind(&self) -> (r: MapLink)
        ensures
            r == map_link_of(self.map_link),
    {
        MapLink::from_i32(self.map_link)
    }

    /// The names of the group type flags that are set, in flag order.
    pub fn group_type_names(&self) -> (r: Vec<&'static str>)
        ensures
            r@.map_values(|s: &'static str| s@) == group_type_names_spec(self.group_type, 10),
    {
        let flags = group_type_flags();
        let mut names: Vec<&'static str> = Vec::new();
        let mut i: usize = 0;
        while i < flags.len()
            invariant
                i <= flags@.len(),
                flags@.len() == 10,
                flags@.map_values(|f: (i32, &'static str)| (f.0, f.1@)) == group_type_flags_spec(),
                names@.map_values(|s: &'static str| s@) == group_type_names_spec(
                    self.group_type,
                    i as nat,
                ),
            decreases flags@.len() - i,
        {
            let (flag, name) = flags[i];
            assert(group_type_flags_spec()[i as int] == (flag, name@));
            let ghost before = names@;
            if self.group_type & flag != 0 {
                names.push(name);
                assert(names@.map_values(|s: &'static str| s@) =~= before.map_values(
                    |s: &'static str| s@,
                ).push(name@));
            }
            assert(names@.map_values(|s: &'static str| s@) =~= group_type_names_spec(
                self.group_type,
                (i + 1) as nat,
            ));
            i = i + 1;
        }
        names
    }

    /// The bits of the group type that no known flag covers.
    pub fn group_type_unknown_bits(&self) -> (r: i32)
        ensures
            r == self.group_type & !known_flag_bits(10),
            r == self.group_type & !0x7BFi32,
    {
        let flags = group_type_flags();
        let mut known: i32 = 0;
        let mut i: usize = 0;
        while i < flags.len()
            invariant
                i <= flags@.len(),
                flags@.len() == 10,
                flags@.map_values(|f: (i32, &'static str)| (f.0, f.1@)) == group_type_flags_spec(),
                known == known_flag_bits(i as nat),
            decreases flags@.len() - i,
        {
            let (flag, _) = flags[i];
            assert(group_type_flags_spec()[i as int].0 == flag);
            known = known | flag;
            i = i + 1;
        }
        proof {
            lemma_known_flag_bits();
        }
        self.group_type & !known
    }
}

proof fn lemma_known_flag_bits()
    ensures
        known_flag_bits(10) == 0x7BFi32,
{
    reveal_with_fuel(known_flag_bits, 11);
    let f = group_type_flags_spec();
    assert(f[0].0 == 1 && f[1].0 == 2 && f[2].0 == 4 && f[3].0 == 8 && f[4].0 == 16);
    assert(f[5].0 == 32 && f[6].0 == 128 && f[7].0 == 256 && f[8].0 == 512 && f[9].0 == 1024);
    assert(0i32 | 1i32 | 2i32 | 4i32 | 8i32 | 16i32 | 32i32 | 128i32 | 256i32 | 512i32 | 1024i32
        == 0x7BFi32) by (bit_vector);
}

/// The union of the first `k` group type flags.
pub open spec fn known_flag_bits(k: nat) -> i32
    decreases k,
{
    if k == 0 {
        0
    } else {
        known_flag_bits((k - 1) as nat) | group_type_flags_spec()[k - 1].0
    }
}

/// The name to show for a stage, group or map: the name without surrounding
/// white space, or `fallback` where nothing else is left.
pub fn display_name<'a>(name: &'a str, fallback: &'a str) -> (r: &'a str)
    ensures
        r@ == if trim_end_spec(trim_start_spec(name@)).len() == 0 {
            fallback@
        } else {
            trim_end_spec(trim_start_spec(name@))
        },
{
    let t = trim(name);
    if t.unicode_len() == 0 {
        fallback
    } else {
        t
    }
}

} // verus!
