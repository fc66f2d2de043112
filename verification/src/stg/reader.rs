//! STG reader: the stage table of an STG file held in memory.
//!
//! Layout: the stage count (i32), then the stages.  A stage is a 148-byte
//! record (id, sync region width and height, name, palette file, an unknown
//! value, group count) followed by its groups; a group is a 252-byte record
//! followed by its maps; a map is a 260-byte record.  Strings take 64 bytes
//! each and end at the first NUL.

use vstd::prelude::*;
use crate::bytes::{i32_le, read_i32};
use crate::common::encoding::{decode, spec_decode, TextEncoding};
use crate::ldt::types::{name_until_nul, nul_position};
use crate::stg::types::{
    MapGroup, MapGroupModel, MapInfo, MapInfoModel, Stage, StageFile, StageFileModel, StageModel,
    FIXED_STRING_SIZE,
};

verus! {

/// Largest stage, group or map count that a reader accepts.
const MAX_STAGE_COUNT: i32 = 100_000;
const MAX_GROUP_COUNT: i32 = 100_000;
const MAX_MAP_COUNT: i32 = 100_000;

/// Bytes of a stage record.
pub const STAGE_RECORD_SIZE: usize = 148;
/// Bytes of a group record.
pub const GROUP_RECORD_SIZE: usize = 252;
/// Bytes of a map record.
pub const MAP_RECORD_SIZE: usize = 260;

/// Why an STG file could not be read or written.
#[derive(Debug, Clone, Copy, PartialEq, Eq, Structural)]
pub enum StgError {
    /// The data ends inside a record.
    UnexpectedEof,
    /// A stage, group or map count is negative or above 100000.
    InvalidCount(i32),
    /// A stage's sync region is not positive in both directions.
    InvalidSyncRegion { width: i32, height: i32 },
    /// A group's map link is not 0, 1 or 2.
    InvalidMapLink(i32),
    /// A string is not valid in the chosen encoding.
    DecodeError,
    /// Bytes follow the last stage.
    TrailingData,
    /// A stored count differs from the length of its list.
    CountMismatch,
    /// A string cannot be encoded in the chosen encoding.
    EncodeError,
    /// An encoded string does not fit its 64-byte field with a NUL after it.
    StringTooLong,
}

/// The string stored in the 64-byte field at `p`, and whether decoding it
/// had errors.
pub open spec fn str_at(enc: TextEncoding, d: Seq<u8>, p: int) -> (Seq<char>, bool) {
    spec_decode(enc, name_until_nul(d.subrange(p, p + 64)))
}

/// Whether a stored count is acceptable.
pub open spec fn count_ok(v: i32) -> bool {
    0 <= v <= 100_000
}

/// The first error met reading the stage record at `p`, if any.
pub open spec fn stage_record_error(enc: TextEncoding, d: Seq<u8>, p: int) -> Option<StgError> {
    if d.len() < p + 76 {
        Some(StgError::UnexpectedEof)
    } else if str_at(enc, d, p + 12).1 {
        Some(StgError::DecodeError)
    } else if d.len() < p + 140 {
        Some(StgError::UnexpectedEof)
    } else if str_at(enc, d, p + 76).1 {
        Some(StgError::DecodeError)
    } else if d.len() < p + 148 {
        Some(StgError::UnexpectedEof)
    } else {
        None
    }
}

/// The first error met reading the group record at `p`, if any.
pub open spec fn group_record_error(enc: TextEncoding, d: Seq<u8>, p: int) -> Option<StgError> {
    if d.len() < p + 80 {
        Some(StgError::UnexpectedEof)
    } else if str_at(enc, d, p + 16).1 {
        Some(StgError::DecodeError)
    } else if d.len() < p + 144 {
        Some(StgError::UnexpectedEof)
    } else if str_at(enc, d, p + 80).1 {
        Some(StgError::DecodeError)
    } else if d.len() < p + 208 {
        Some(StgError::UnexpectedEof)
    } else if str_at(enc, d, p + 144).1 {
        Some(StgError::DecodeError)
    } else if d.len() < p + 252 {
        Some(StgError::UnexpectedEof)
    } else {
        None
    }
}

/// The first error met reading the map record at `p`, if any.
pub open spec fn map_record_error(enc: TextEncoding, d: Seq<u8>, p: int) -> Option<StgError> {
    if d.len() < p + 68 {
        Some(StgError::UnexpectedEof)
    } else if str_at(enc, d, p + 4).1 {
        Some(StgError::DecodeError)
    } else if d.len() < p + 132 {
        Some(StgError::UnexpectedEof)
    } else if str_at(enc, d, p + 68).1 {
        Some(StgError::DecodeError)
    } else if d.len() < p + 196 {
        Some(StgError::UnexpectedEof)
    } else if str_at(enc, d, p + 132).1 {
        Some(StgError::DecodeError)
    } else if d.len() < p + 260 {
        Some(StgError::UnexpectedEof)
    } else if str_at(enc, d, p + 196).1 {
        Some(StgError::DecodeError)
    } else {
        None
    }
}

/// The map stored at `p`.
pub open spec fn map_at(enc: TextEncoding, d: Seq<u8>, p: int) -> MapInfoModel {
    MapInfoModel {
        bg_index: i32_le(d, p),
        map_name: str_at(enc, d, p + 4).0,
        form_file: str_at(enc, d, p + 68).0,
        attribute_file: str_at(enc, d, p + 132).0,
        mini_map_file: str_at(enc, d, p + 196).0,
    }
}

/// The group whose record is at `p`, with the given maps.
pub open spec fn group_at(
    enc: TextEncoding,
    d: Seq<u8>,
    p: int,
    maps: Seq<MapInfoModel>,
) -> MapGroupModel {
    MapGroupModel {
        group_id: i32_le(d, p),
        map_link: i32_le(d, p + 4),
        bg_id: i32_le(d, p + 8),
        group_type: i32_le(d, p + 12),
        group_name: str_at(enc, d, p + 16).0,
        bg_file: str_at(enc, d, p + 80).0,
        bgm_file: str_at(enc, d, p + 144).0,
        sound_effect_type: i32_le(d, p + 208),
        mini_map_icon_id: i32_le(d, p + 212),
        mini_map_res_id: i32_le(d, p + 216),
        gravity: i32_le(d, p + 220),
        max_drop_speed: i32_le(d, p + 224),
        velocity_x: i32_le(d, p + 228),
        jump_speed: i32_le(d, p + 232),
        up_down_velocity: i32_le(d, p + 236),
        hanging_velocity: i32_le(d, p + 240),
        unknown_group_flag: i32_le(d, p + 244),
        map_count: i32_le(d, p + 248),
        map_list: maps,
    }
}

/// The stage whose record is at `p`, with the given groups.
pub open spec fn stage_at(
    enc: TextEncoding,
    d: Seq<u8>,
    p: int,
    groups: Seq<MapGroupModel>,
) -> StageModel {
    StageModel {
        stage_id: i32_le(d, p),
        sync_region_width: i32_le(d, p + 4),
        sync_region_height: i32_le(d, p + 8),
        stage_name: str_at(enc, d, p + 12).0,
        palette_file: str_at(enc, d, p + 76).0,
        unknown_stage_value: i32_le(d, p + 140),
        group_count: i32_le(d, p + 144),
        group_list: groups,
    }
}

/// Reads `n` maps one after another from `p`: the maps and the position
/// after them, or the first error.
pub open spec fn parse_maps(enc: TextEncoding, d: Seq<u8>, p: int, n: nat) -> Result<
    (Seq<MapInfoModel>, int),
    StgError,
>
    decreases n,
{
    if n == 0 {
        Ok((Seq::empty(), p))
    } else {
        match parse_maps(enc, d, p, (n - 1) as nat) {
            Err(e) => Err(e),
            Ok((ms, q)) => match map_record_error(enc, d, q) {
                Some(e) => Err(e),
                None => Ok((ms.push(map_at(enc, d, q)), q + 260)),
            },
        }
    }
}

/// Reads the group at `p` with its maps: the group and the position after
/// it, or the first error.  The map count is checked before the map link.
pub open spec fn parse_group(enc: TextEncoding, d: Seq<u8>, p: int) -> Result<
    (MapGroupModel, int),
    StgError,
> {
    match group_record_error(enc, d, p) {
        Some(e) => Err(e),
        None => {
            let mc = i32_le(d, p + 248);
            let link = i32_le(d, p + 4);
            if !count_ok(mc) {
                Err(StgError::InvalidCount(mc))
            } else if !(0 <= link <= 2) {
                Err(StgError::InvalidMapLink(link))
            } else {
                match parse_maps(enc, d, p + 252, mc as nat) {
                    Err(e) => Err(e),
                    Ok((ms, q)) => Ok((group_at(enc, d, p, ms), q)),
                }
            }
        },
    }
}

/// Reads `n` groups one after another from `p`.
pub open spec fn parse_groups(enc: TextEncoding, d: Seq<u8>, p: int, n: nat) -> Result<
    (Seq<MapGroupModel>, int),
    StgError,
>
    decreases n,
{
    if n == 0 {
        Ok((Seq::empty(), p))
    } else {
        match parse_groups(enc, d, p, (n - 1) as nat) {
            Err(e) => Err(e),
            Ok((gs, q)) => match parse_group(enc, d, q) {
                Err(e) => Err(e),
                Ok((g, r)) => Ok((gs.push(g), r)),
            },
        }
    }
}

/// Reads the stage at `p` with its groups.  The group count is checked
/// before the sync region.
pub open spec fn parse_stage(enc: TextEncoding, d: Seq<u8>, p: int) -> Result<
    (StageModel, int),
    StgError,
> {
    match stage_record_error(enc, d, p) {
        Some(e) => Err(e),
        None => {
            let gc = i32_le(d, p + 144);
            let w = i32_le(d, p + 4);
            let h = i32_le(d, p + 8);
            if !count_ok(gc) {
                Err(StgError::InvalidCount(gc))
            } else if w <= 0 || h <= 0 {
                Err(StgError::InvalidSyncRegion { width: w, height: h })
            } else {
                match parse_groups(enc, d, p + 148, gc as nat) {
                    Err(e) => Err(e),
                    Ok((gs, q)) => Ok((stage_at(enc, d, p, gs), q)),
                }
            }
        },
    }
}

/// Reads `n` stages one after another from `p`.
pub open spec fn parse_stages(enc: TextEncoding, d: Seq<u8>, p: int, n: nat) -> Result<
    (Seq<StageModel>, int),
    StgError,
>
    decreases n,
{
    if n == 0 {
        Ok((Seq::empty(), p))
    } else {
        match parse_stages(enc, d, p, (n - 1) as nat) {
            Err(e) => Err(e),
            Ok((ss, q)) => match parse_stage(enc, d, q) {
                Err(e) => Err(e),
                Ok((s, r)) => Ok((ss.push(s), r)),
            },
        }
    }
}

/// What reading a whole STG file gives: its stage table, or the first
/// error; the stages must end exactly at the end of the data.
pub open spec fn parse_stage_file(enc: TextEncoding, d: Seq<u8>) -> Result<StageFileModel, StgError> {
    if d.len() < 4 {
        Err(StgError::UnexpectedEof)
    } else {
        let sc = i32_le(d, 0);
        if !count_ok(sc) {
            Err(StgError::InvalidCount(sc))
        } else {
            match parse_stages(enc, d, 4, sc as nat) {
                Err(e) => Err(e),
                Ok((ss, q)) => if q != d.len() {
                    Err(StgError::TrailingData)
                } else {
                    Ok(StageFileModel { stage_count: sc, stage_list: ss })
                },
            }
        }
    }
}

/// Reads the string field at `p`: the bytes before the first NUL of its 64
/// bytes, decoded with `enc`.
fn read_str(enc: TextEncoding, data: &[u8], p: usize) -> (r: Result<String, StgError>)
    requires
        p + 64 <= data@.len(),
    ensures
        match r {
            Ok(s) => !str_at(enc, data@, p as int).1 && s@ == str_at(enc, data@, p as int).0,
            Err(e) => str_at(enc, data@, p as int).1 && e == StgError::DecodeError,
        },
{
    assert(data@.len() == data.len());
    let field = vstd::slice::slice_subrange(data, p, p + FIXED_STRING_SIZE);
    let n = nul_position(field);
    let content = vstd::slice::slice_subrange(field, 0, n);
    assert(content@ == name_until_nul(data@.subrange(p as int, p + 64)));
    let (text, had_errors) = decode(enc, content);
    if had_errors {
        Err(StgError::DecodeError)
    } else {
        Ok(text)
    }
}

/// Reads the map record at `p`.
fn read_map(enc: TextEncoding, data: &[u8], p: usize) -> (r: Result<(MapInfo, usize), StgError>)
    requires
        p <= data@.len(),
    ensures
        match r {
            Ok((m, q)) => map_record_error(enc, data@, p as int) is None && m@ == map_at(
                enc,
                data@,
                p as int,
            ) && q == p + 260,
            Err(e) => map_record_error(enc, data@, p as int) == Some(e),
        },
{
    let len = data.len();
    if len - p < 68 {
        return Err(StgError::UnexpectedEof);
    }
    let bg_index = read_i32(data, p);
    let map_name = match read_str(enc, data, p + 4) {
        Ok(s) => s,
        Err(e) => return Err(e),
    };
    if len - p < 132 {
        return Err(StgError::UnexpectedEof);
    }
    let form_file = match read_str(enc, data, p + 68) {
        Ok(s) => s,
        Err(e) => return Err(e),
    };
    if len - p < 196 {
        return Err(StgError::UnexpectedEof);
    }
    let attribute_file = match read_str(enc, data, p + 132) {
        Ok(s) => s,
        Err(e) => return Err(e),
    };
    if len - p < 260 {
        return Err(StgError::UnexpectedEof);
    }
    let mini_map_file = match read_str(enc, data, p + 196) {
        Ok(s) => s,
        Err(e) => return Err(e),
    };
    Ok((MapInfo { bg_index, map_name, form_file, attribute_file, mini_map_file }, p + MAP_RECORD_SIZE))
}

/// Once reading maps fails, reading more of them fails the same way.
proof fn lemma_parse_maps_err(enc: TextEncoding, d: Seq<u8>, p: int, k: nat, n: nat)
    requires
        k <= n,
        parse_maps(enc, d, p, k) is Err,
    ensures
        parse_maps(enc, d, p, n) == parse_maps(enc, d, p, k),
    decreases n - k,
{
    if k < n {
        lemma_parse_maps_err(enc, d, p, k, (n - 1) as nat);
    }
}

/// Reads `n` maps from `p`.
fn read_maps(enc: TextEncoding, data: &[u8], p: usize, n: usize) -> (r: Result<
    (Vec<MapInfo>, usize),
    StgError,
>)
    requires
        p <= data@.len(),
    ensures
        match r {
            Ok((ms, q)) => parse_maps(enc, data@, p as int, n as nat) == Ok::<
                (Seq<MapInfoModel>, int),
                StgError,
            >((ms@.map_values(|m: MapInfo| m@), q as int)) && q <= data@.len(),
            Err(e) => parse_maps(enc, data@, p as int, n as nat) == Err::<
                (Seq<MapInfoModel>, int),
                StgError,
            >(e),
        },
{
    let mut maps: Vec<MapInfo> = Vec::new();
    let mut pos = p;
    let mut i: usize = 0;
    assert(maps@.map_values(|m: MapInfo| m@) =~= Seq::<MapInfoModel>::empty());
    while i < n
        invariant
            i <= n,
            pos <= data@.len(),
            parse_maps(enc, data@, p as int, i as nat) == Ok::<(Seq<MapInfoModel>, int), StgError>(
                (maps@.map_values(|m: MapInfo| m@), pos as int),
            ),
        decreases n - i,
    {
        match read_map(enc, data, pos) {
            Ok((m, q)) => {
                let ghost before = maps@;
                maps.push(m);
                assert(maps@.map_values(|m: MapInfo| m@) =~= before.map_values(|m: MapInfo| m@).push(
                    m@,
                ));
                pos = q;
            },
            Err(e) => {
                proof {
                    lemma_parse_maps_err(enc, data@, p as int, (i + 1) as nat, n as nat);
                }
                return Err(e);
            },
        }
        i = i + 1;
    }
    Ok((maps, pos))
}

/// Reads the group at `p` with its maps.
fn read_group(enc: TextEncoding, data: &[u8], p: usize) -> (r: Result<(MapGroup, usize), StgError>)
    requires
        p <= data@.len(),
    ensures
        match r {
            Ok((g, q)) => parse_group(enc, data@, p as int) == Ok::<(MapGroupModel, int), StgError>(
                (g@, q as int),
            ) && q <= data@.len(),
            Err(e) => parse_group(enc, data@, p as int) == Err::<(MapGroupModel, int), StgError>(e),
        },
{
    let len = data.len();
    if len - p < 80 {
        return Err(StgError::UnexpectedEof);
    }
    let group_id = read_i32(data, p);
    let map_link = read_i32(data, p + 4);
    let bg_id = read_i32(data, p + 8);
    let group_type = read_i32(data, p + 12);
    let group_name = match read_str(enc, data, p + 16) {
        Ok(s) => s,
        Err(e) => return Err(e),
    };
    if len - p < 144 {
        return Err(StgError::UnexpectedEof);
    }
    let bg_file = match read_str(enc, data, p + 80) {
        Ok(s) => s,
        Err(e) => return Err(e),
    };
    if len - p < 208 {
        return Err(StgError::UnexpectedEof);
    }
    let bgm_file = match read_str(enc, data, p + 144) {
        Ok(s) => s,
        Err(e) => return Err(e),
    };
    if len - p < 252 {
        return Err(StgError::UnexpectedEof);
    }
    let sound_effect_type = read_i32(data, p + 208);
    let mini_map_icon_id = read_i32(data, p + 212);
    let mini_map_res_id = read_i32(data, p + 216);
    let gravity = read_i32(data, p + 220);
    let max_drop_speed = read_i32(data, p + 224);
    let velocity_x = read_i32(data, p + 228);
    let jump_speed = read_i32(data, p + 232);
    let up_down_velocity = read_i32(data, p + 236);
    let hanging_velocity = read_i32(data, p + 240);
    let unknown_group_flag = read_i32(data, p + 244);
    let map_count = read_i32(data, p + 248);
    if map_count < 0 || map_count > MAX_MAP_COUNT {
        return Err(StgError::InvalidCount(map_count));
    }
    if map_link < 0 || map_link > 2 {
        return Err(StgError::InvalidMapLink(map_link));
    }
    let (map_list, q) = match read_maps(enc, data, p + GROUP_RECORD_SIZE, map_count as usize) {
        Ok(x) => x,
        Err(e) => return Err(e),
    };
    let g = MapGroup {
        group_id,
        map_link,
        bg_id,
        group_type,
        group_name,
        bg_file,
        bgm_file,
        sound_effect_type,
        mini_map_icon_id,
        mini_map_res_id,
        gravity,
        max_drop_speed,
        velocity_x,
        jump_speed,
        up_down_velocity,
        hanging_velocity,
        unknown_group_flag,
        map_count,
        map_list,
    };
    assert(g@ == group_at(enc, data@, p as int, g.map_list@.map_values(|m: MapInfo| m@)));
    Ok((g, q))
}

/// Once reading groups fails, reading more of them fails the same way.
proof fn lemma_parse_groups_err(enc: TextEncoding, d: Seq<u8>, p: int, k: nat, n: nat)
    requires
        k <= n,
        parse_groups(enc, d, p, k) is Err,
    ensures
        parse_groups(enc, d, p, n) == parse_groups(enc, d, p, k),
    decreases n - k,
{
    if k < n {
        lemma_parse_groups_err(enc, d, p, k, (n - 1) as nat);
    }
}

/// Reads `n` groups from `p`.
fn read_groups(enc: TextEncoding, data: &[u8], p: usize, n: usize) -> (r: Result<
    (Vec<MapGroup>, usize),
    StgError,
>)
    requires
        p <= data@.len(),
    ensures
        match r {
            Ok((gs, q)) => parse_groups(enc, data@, p as int, n as nat) == Ok::<
                (Seq<MapGroupModel>, int),
                StgError,
            >((gs@.map_values(|g: MapGroup| g@), q as int)) && q <= data@.len(),
            Err(e) => parse_groups(enc, data@, p as int, n as nat) == Err::<
                (Seq<MapGroupModel>, int),
                StgError,
            >(e),
        },
{
    let mut groups: Vec<MapGroup> = Vec::new();
    let mut pos = p;
    let mut i: usize = 0;
    assert(groups@.map_values(|g: MapGroup| g@) =~= Seq::<MapGroupModel>::empty());
    while i < n
        invariant
            i <= n,
            pos <= data@.len(),
            parse_groups(enc, data@, p as int, i as nat) == Ok::<
                (Seq<MapGroupModel>, int),
                StgError,
            >((groups@.map_values(|g: MapGroup| g@), pos as int)),
        decreases n - i,
    {
        match read_group(enc, data, pos) {
            Ok((g, q)) => {
                let ghost before = groups@;
                let ghost gv = g@;
                groups.push(g);
                assert(groups@.map_values(|g: MapGroup| g@) =~= before.map_values(
                    |g: MapGroup| g@,
                ).push(gv));
                pos = q;
            },
            Err(e) => {
                proof {
                    lemma_parse_groups_err(enc, data@, p as int, (i + 1) as nat, n as nat);
                }
                return Err(e);
            },
        }
        i = i + 1;
    }
    Ok((groups, pos))
}

/// Reads the stage at `p` with its groups.
fn read_stage(enc: TextEncoding, data: &[u8], p: usize) -> (r: Result<(Stage, usize), StgError>)
    requires
        p <= data@.len(),
    ensures
        match r {
            Ok((s, q)) => parse_stage(enc, data@, p as int) == Ok::<(StageModel, int), StgError>(
                (s@, q as int),
            ) && q <= data@.len(),
            Err(e) => parse_stage(enc, data@, p as int) == Err::<(StageModel, int), StgError>(e),
        },
{
    let len = data.len();
    if len - p < 76 {
        return Err(StgError::UnexpectedEof);
    }
    let stage_id = read_i32(data, p);
    let sync_region_width = read_i32(data, p + 4);
    let sync_region_height = read_i32(data, p + 8);
    let stage_name = match read_str(enc, data, p + 12) {
        Ok(s) => s,
        Err(e) => return Err(e),
    };
    if len - p < 140 {
        return Err(StgError::UnexpectedEof);
    }
    let palette_file = match read_str(enc, data, p + 76) {
        Ok(s) => s,
        Err(e) => return Err(e),
    };
    if len - p < 148 {
        return Err(StgError::UnexpectedEof);
    }
    let unknown_stage_value = read_i32(data, p + 140);
    let group_count = read_i32(data, p + 144);
    if group_count < 0 || group_count > MAX_GROUP_COUNT {
        return Err(StgError::InvalidCount(group_count));
    }
    if sync_region_width <= 0 || sync_region_height <= 0 {
        return Err(
            StgError::InvalidSyncRegion { width: sync_region_width, height: sync_region_height },
        );
    }
    let (group_list, q) = match read_groups(
        enc,
        data,
        p + STAGE_RECORD_SIZE,
        group_count as usize,
    ) {
        Ok(x) => x,
        Err(e) => return Err(e),
    };
    let s = Stage {
        stage_id,
        sync_region_width,
        sync_region_height,
        stage_name,
        palette_file,
        unknown_stage_value,
        group_count,
        group_list,
    };
    assert(s@ == stage_at(enc, data@, p as int, s.group_list@.map_values(|g: MapGroup| g@)));
    Ok((s, q))
}

/// Once reading stages fails, reading more of them fails the same way.
proof fn lemma_parse_stages_err(enc: TextEncoding, d: Seq<u8>, p: int, k: nat, n: nat)
    requires
        k <= n,
        parse_stages(enc, d, p, k) is Err,
    ensures
        parse_stages(enc, d, p, n) == parse_stages(enc, d, p, k),
    decreases n - k,
{
    if k < n {
        lemma_parse_stages_err(enc, d, p, k, (n - 1) as nat);
    }
}

/// Reads `n` stages from `p`.
fn read_stages(enc: TextEncoding, data: &[u8], p: usize, n: usize) -> (r: Result<
    (Vec<Stage>, usize),
    StgError,
>)
    requires
        p <= data@.len(),
    ensures
        match r {
            Ok((ss, q)) => parse_stages(enc, data@, p as int, n as nat) == Ok::<
                (Seq<StageModel>, int),
                StgError,
            >((ss@.map_values(|s: Stage| s@), q as int)) && q <= data@.len(),
            Err(e) => parse_stages(enc, data@, p as int, n as nat) == Err::<
                (Seq<StageModel>, int),
                StgError,
            >(e),
        },
{
    let mut stages: Vec<Stage> = Vec::new();
    let mut pos = p;
    let mut i: usize = 0;
    assert(stages@.map_values(|s: Stage| s@) =~= Seq::<StageModel>::empty());
    while i < n
        invariant
            i <= n,
            pos <= data@.len(),
            parse_stages(enc, data@, p as int, i as nat) == Ok::<(Seq<StageModel>, int), StgError>(
                (stages@.map_values(|s: Stage| s@), pos as int),
            ),
        decreases n - i,
    {
        match read_stage(enc, data, pos) {
            Ok((s, q)) => {
                let ghost before = stages@;
                let ghost sv = s@;
                stages.push(s);
                assert(stages@.map_values(|s: Stage| s@) =~= before.map_values(|s: Stage| s@).push(
                    sv,
                ));
                pos = q;
            },
            Err(e) => {
                proof {
                    lemma_parse_stages_err(enc, data@, p as int, (i + 1) as nat, n as nat);
                }
                return Err(e);
            },
        }
        i = i + 1;
    }
    Ok((stages, pos))
}

/// STG file reader over bytes held in memory.
pub struct StgReader {
    data: Vec<u8>,
    encoding: TextEncoding,
}

impl StgReader {
    /// The bytes being read.
    pub closed spec fn spec_data(&self) -> Seq<u8> {
        self.data@
    }

    /// The encoding of the strings.
    pub closed spec fn spec_encoding(&self) -> TextEncoding {
        self.encoding
    }

    /// A reader over the bytes of an STG file, whose strings are in
    /// `encoding`.
    pub fn from_bytes(data: Vec<u8>, encoding: TextEncoding) -> (r: StgReader)
        ensures
            r.spec_data() == data@,
            r.spec_encoding() == encoding,
    {
        StgReader { data, encoding }
    }

    /// Reads the whole stage table.
    pub fn read(&self) -> (r: Result<StageFile, StgError>)
        ensures
            stage_file_result(r) == parse_stage_file(self.spec_encoding(), self.spec_data()),
    {
        let data = self.data.as_slice();
        if data.len() < 4 {
            return Err(StgError::UnexpectedEof);
        }
        let stage_count = read_i32(data, 0);
        if stage_count < 0 || stage_count > MAX_STAGE_COUNT {
            return Err(StgError::InvalidCount(stage_count));
        }
        let (stage_list, q) = match read_stages(self.encoding, data, 4, stage_count as usize) {
            Ok(x) => x,
            Err(e) => return Err(e),
        };
        if q != data.len() {
            return Err(StgError::TrailingData);
        }
        Ok(StageFile { stage_count, stage_list })
    }

    /// The number of bytes being read.
    pub fn total_size(&self) -> (r: usize)
        ensures
            r == self.spec_data().len(),
    {
        self.data.len()
    }
}

/// The model of a read result.
pub open spec fn stage_file_result(r: Result<StageFile, StgError>) -> Result<StageFileModel, StgError> {
    match r {
        Ok(f) => Ok(f@),
        Err(e) => Err(e),
    }
}

} // verus!
