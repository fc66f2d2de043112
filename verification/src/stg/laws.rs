//! What reading gives back of what the writer wrote.

use vstd::prelude::*;
use crate::bytes::{contains_at, i32_bytes, lemma_contains_sub, lemma_i32_roundtrip};
use crate::common::encoding::{spec_decode, spec_encode, TextEncoding};
use crate::ldt::types::{lemma_name_until_nul, name_until_nul};
use crate::stg::reader::{
    count_ok, group_record_error, map_at, map_record_error, parse_group, parse_groups,
    parse_maps, parse_stage, parse_stage_file, parse_stages, stage_record_error, str_at,
};
use crate::stg::types::{MapGroupModel, MapInfoModel, StageFileModel, StageModel};
use crate::stg::writer::{
    chain_bytes, group_bytes, group_head_ints, group_tail_ints, groups_bytes, map_bytes,
    maps_bytes, stage_bytes, stage_file_bytes, stages_bytes, string_field, MAX_TEXT_BYTES,
};
use vstd::utf8::encode_utf8;

verus! {

/// Whether a map holds a string that cannot be stored: not encodable in
/// `enc`, or 64 bytes or more there.
pub open spec fn map_has_bad_string(enc: TextEncoding, m: MapInfoModel) -> bool {
    ||| string_field(enc, m.map_name) is Err
    ||| string_field(enc, m.form_file) is Err
    ||| string_field(enc, m.attribute_file) is Err
    ||| string_field(enc, m.mini_map_file) is Err
}

/// Whether a group cannot be stored: its map count differs from its number
/// of maps, one of its strings cannot be stored, or one of its maps cannot.
pub open spec fn group_is_bad(enc: TextEncoding, g: MapGroupModel) -> bool {
    ||| g.map_count != g.map_list.len()
    ||| string_field(enc, g.group_name) is Err
    ||| string_field(enc, g.bg_file) is Err
    ||| string_field(enc, g.bgm_file) is Err
    ||| exists|k: int| 0 <= k < g.map_list.len() && map_has_bad_string(enc, #[trigger] g.map_list[k])
}

/// Whether a stage cannot be stored: its group count differs from its
/// number of groups, one of its strings cannot be stored, or one of its
/// groups cannot.
pub open spec fn stage_is_bad(enc: TextEncoding, s: StageModel) -> bool {
    ||| s.group_count != s.group_list.len()
    ||| string_field(enc, s.stage_name) is Err
    ||| string_field(enc, s.palette_file) is Err
    ||| exists|k: int| 0 <= k < s.group_list.len() && group_is_bad(enc, #[trigger] s.group_list[k])
}

proof fn lemma_maps_err(enc: TextEncoding, ms: Seq<MapInfoModel>, k: int)
    requires
        0 <= k < ms.len(),
        map_bytes(enc, ms[k]) is Err,
    ensures
        maps_bytes(enc, ms) is Err,
    decreases ms.len(),
{
    if k < ms.len() - 1 {
        lemma_maps_err(enc, ms.drop_last(), k);
    }
}

proof fn lemma_groups_err(enc: TextEncoding, gs: Seq<MapGroupModel>, k: int)
    requires
        0 <= k < gs.len(),
        group_bytes(enc, gs[k]) is Err,
    ensures
        groups_bytes(enc, gs) is Err,
    decreases gs.len(),
{
    if k < gs.len() - 1 {
        lemma_groups_err(enc, gs.drop_last(), k);
    }
}

proof fn lemma_stages_err(enc: TextEncoding, ss: Seq<StageModel>, k: int)
    requires
        0 <= k < ss.len(),
        stage_bytes(enc, ss[k]) is Err,
    ensures
        stages_bytes(enc, ss) is Err,
    decreases ss.len(),
{
    if k < ss.len() - 1 {
        lemma_stages_err(enc, ss.drop_last(), k);
    }
}

proof fn lemma_group_err(enc: TextEncoding, g: MapGroupModel)
    requires
        group_is_bad(enc, g),
    ensures
        group_bytes(enc, g) is Err,
{
    if exists|k: int| 0 <= k < g.map_list.len() && map_has_bad_string(enc, #[trigger] g.map_list[k]) {
        let k = choose|k: int| 0 <= k < g.map_list.len() && map_has_bad_string(enc, #[trigger] g.map_list[k]);
        lemma_maps_err(enc, g.map_list, k);
    }
}

proof fn lemma_stage_err(enc: TextEncoding, s: StageModel)
    requires
        stage_is_bad(enc, s),
    ensures
        stage_bytes(enc, s) is Err,
{
    if exists|k: int| 0 <= k < s.group_list.len() && group_is_bad(enc, #[trigger] s.group_list[k]) {
        let k = choose|k: int| 0 <= k < s.group_list.len() && group_is_bad(enc, #[trigger] s.group_list[k]);
        lemma_group_err(enc, s.group_list[k]);
        lemma_groups_err(enc, s.group_list, k);
    }
}

/// The writer refuses a stage table with any stored count that differs
/// from the length of its list, or with any string that cannot be encoded
/// in `enc` or takes 64 bytes or more there.
pub proof fn lemma_stg_refuses_bad_tables(enc: TextEncoding, f: StageFileModel)
    requires
        f.stage_count != f.stage_list.len() || exists|k: int|
            0 <= k < f.stage_list.len() && stage_is_bad(enc, #[trigger] f.stage_list[k]),
    ensures
        stage_file_bytes(enc, f) is Err,
{
    if f.stage_count == f.stage_list.len() {
        let k = choose|k: int| 0 <= k < f.stage_list.len() && stage_is_bad(enc, #[trigger] f.stage_list[k]);
        lemma_stage_err(enc, f.stage_list[k]);
        lemma_stages_err(enc, f.stage_list, k);
    }
}

/// The text that reading gives back for a string the writer stored: its
/// bytes in `enc`, decoded with `enc`.
pub open spec fn stored_text(enc: TextEncoding, s: Seq<char>) -> Seq<char> {
    spec_decode(enc, spec_encode(enc, s).0).0
}

/// A string that the writer stores and the reader reads back without
/// error: it encodes without error to fewer than 64 bytes, none of them
/// NUL, and those bytes decode without error.
pub open spec fn text_storable(enc: TextEncoding, s: Seq<char>) -> bool {
    let b = spec_encode(enc, s).0;
    &&& encode_utf8(s).len() <= MAX_TEXT_BYTES
    &&& !spec_encode(enc, s).1
    &&& b.len() < 64
    &&& forall|i: int| 0 <= i < b.len() ==> b[i] != 0
    &&& !spec_decode(enc, b).1
}

/// A map whose strings are all storable.
pub open spec fn map_storable(enc: TextEncoding, m: MapInfoModel) -> bool {
    &&& text_storable(enc, m.map_name)
    &&& text_storable(enc, m.form_file)
    &&& text_storable(enc, m.attribute_file)
    &&& text_storable(enc, m.mini_map_file)
}

/// A group that the reader accepts back: storable strings, a map link of
/// 0, 1 or 2, and a map count that is its number of maps, at most 100000.
pub open spec fn group_storable(enc: TextEncoding, g: MapGroupModel) -> bool {
    &&& text_storable(enc, g.group_name)
    &&& text_storable(enc, g.bg_file)
    &&& text_storable(enc, g.bgm_file)
    &&& 0 <= g.map_link <= 2
    &&& g.map_count == g.map_list.len()
    &&& count_ok(g.map_count)
    &&& forall|i: int| 0 <= i < g.map_list.len() ==> map_storable(enc, #[trigger] g.map_list[i])
}

/// A stage that the reader accepts back: storable strings, a positive sync
/// region, and a group count that is its number of groups, at most 100000.
pub open spec fn stage_storable(enc: TextEncoding, s: StageModel) -> bool {
    &&& text_storable(enc, s.stage_name)
    &&& text_storable(enc, s.palette_file)
    &&& s.sync_region_width > 0
    &&& s.sync_region_height > 0
    &&& s.group_count == s.group_list.len()
    &&& count_ok(s.group_count)
    &&& forall|i: int|
        0 <= i < s.group_list.len() ==> group_storable(enc, #[trigger] s.group_list[i])
}

/// A stage table that the reader accepts back.
pub open spec fn stage_file_storable(enc: TextEncoding, f: StageFileModel) -> bool {
    &&& f.stage_count == f.stage_list.len()
    &&& count_ok(f.stage_count)
    &&& forall|i: int|
        0 <= i < f.stage_list.len() ==> stage_storable(enc, #[trigger] f.stage_list[i])
}

/// A map as reading gives it back.
pub open spec fn read_back_map(enc: TextEncoding, m: MapInfoModel) -> MapInfoModel {
    MapInfoModel {
        bg_index: m.bg_index,
        map_name: stored_text(enc, m.map_name),
        form_file: stored_text(enc, m.form_file),
        attribute_file: stored_text(enc, m.attribute_file),
        mini_map_file: stored_text(enc, m.mini_map_file),
    }
}

/// A group as reading gives it back.
pub open spec fn read_back_group(enc: TextEncoding, g: MapGroupModel) -> MapGroupModel {
    MapGroupModel {
        group_name: stored_text(enc, g.group_name),
        bg_file: stored_text(enc, g.bg_file),
        bgm_file: stored_text(enc, g.bgm_file),
        map_list: g.map_list.map_values(|m: MapInfoModel| read_back_map(enc, m)),
        ..g
    }
}

/// A stage as reading gives it back.
pub open spec fn read_back_stage(enc: TextEncoding, s: StageModel) -> StageModel {
    StageModel {
        stage_name: stored_text(enc, s.stage_name),
        palette_file: stored_text(enc, s.palette_file),
        group_list: s.group_list.map_values(|g: MapGroupModel| read_back_group(enc, g)),
        ..s
    }
}

/// A stage table as reading gives it back.
pub open spec fn read_back_file(enc: TextEncoding, f: StageFileModel) -> StageFileModel {
    StageFileModel {
        stage_count: f.stage_count,
        stage_list: f.stage_list.map_values(|s: StageModel| read_back_stage(enc, s)),
    }
}

/// An `i32` written inside a segment is read back.
proof fn lemma_i32_in(d: Seq<u8>, p: int, seg: Seq<u8>, i: int, x: i32)
    requires
        contains_at(d, p, seg),
        0 <= i,
        i + 4 <= seg.len(),
        seg.subrange(i, i + 4) == i32_bytes(x),
    ensures
        crate::bytes::i32_le(d, p + i) == x,
{
    lemma_contains_sub(d, p, seg, i, i + 4);
    lemma_i32_roundtrip(x, d, p + i);
}

/// A string field written inside a segment is read back as its stored text.
proof fn lemma_field_in(enc: TextEncoding, s: Seq<char>, d: Seq<u8>, p: int, seg: Seq<u8>, i: int)
    requires
        contains_at(d, p, seg),
        0 <= i,
        i + 64 <= seg.len(),
        text_storable(enc, s),
        string_field(enc, s) == Ok::<Seq<u8>, crate::stg::reader::StgError>(seg.subrange(i, i + 64)),
    ensures
        p + i + 64 <= d.len(),
        str_at(enc, d, p + i) == (stored_text(enc, s), false),
{
    let b = spec_encode(enc, s).0;
    lemma_contains_sub(d, p, seg, i, i + 64);
    let field = d.subrange(p + i, p + i + 64);
    assert(field == seg.subrange(i, i + 64));
    assert forall|k: int| 0 <= k < b.len() implies field[k] != 0 by {
        assert(field[k] == b[k]);
    }
    lemma_name_until_nul(field, b.len() as int);
    assert(field.take(b.len() as int) =~= b);
    assert(name_until_nul(field) == b);
}

/// A storable string has a 64-byte field.
proof fn lemma_field_ok(enc: TextEncoding, s: Seq<char>)
    requires
        text_storable(enc, s),
    ensures
        string_field(enc, s) is Ok,
        string_field(enc, s)->Ok_0.len() == 64,
{
}

/// Reading the map record that the writer wrote at `p` gives the map back.
proof fn lemma_map_back(enc: TextEncoding, m: MapInfoModel, d: Seq<u8>, p: int)
    requires
        map_storable(enc, m),
        contains_at(d, p, map_bytes(enc, m)->Ok_0),
    ensures
        map_bytes(enc, m) is Ok,
        map_bytes(enc, m)->Ok_0.len() == 260,
        map_record_error(enc, d, p) is None,
        map_at(enc, d, p) == read_back_map(enc, m),
{
    lemma_field_ok(enc, m.map_name);
    lemma_field_ok(enc, m.form_file);
    lemma_field_ok(enc, m.attribute_file);
    lemma_field_ok(enc, m.mini_map_file);
    let f1 = string_field(enc, m.map_name)->Ok_0;
    let f2 = string_field(enc, m.form_file)->Ok_0;
    let f3 = string_field(enc, m.attribute_file)->Ok_0;
    let f4 = string_field(enc, m.mini_map_file)->Ok_0;
    let b = i32_bytes(m.bg_index) + f1 + f2 + f3 + f4;
    assert(map_bytes(enc, m) == Ok::<Seq<u8>, crate::stg::reader::StgError>(b));
    assert(b.subrange(0, 4) =~= i32_bytes(m.bg_index));
    assert(b.subrange(4, 68) =~= f1);
    assert(b.subrange(68, 132) =~= f2);
    assert(b.subrange(132, 196) =~= f3);
    assert(b.subrange(196, 260) =~= f4);
    lemma_i32_in(d, p, b, 0, m.bg_index);
    lemma_field_in(enc, m.map_name, d, p, b, 4);
    lemma_field_in(enc, m.form_file, d, p, b, 68);
    lemma_field_in(enc, m.attribute_file, d, p, b, 132);
    lemma_field_in(enc, m.mini_map_file, d, p, b, 196);
}

/// Reading the maps that the writer wrote at `p` gives them back.
proof fn lemma_maps_back(enc: TextEncoding, ms: Seq<MapInfoModel>, d: Seq<u8>, p: int)
    requires
        forall|i: int| 0 <= i < ms.len() ==> map_storable(enc, #[trigger] ms[i]),
        contains_at(d, p, maps_bytes(enc, ms)->Ok_0),
    ensures
        maps_bytes(enc, ms) is Ok,
        maps_bytes(enc, ms)->Ok_0.len() == 260 * ms.len(),
        parse_maps(enc, d, p, ms.len()) == Ok::<(Seq<MapInfoModel>, int), crate::stg::reader::StgError>(
            (ms.map_values(|m: MapInfoModel| read_back_map(enc, m)), p + 260 * ms.len()),
        ),
    decreases ms.len(),
{
    if ms.len() == 0 {
        assert(ms.map_values(|m: MapInfoModel| read_back_map(enc, m)) =~= Seq::<MapInfoModel>::empty());
    } else {
        let init = ms.drop_last();
        let last = ms.last();
        assert(map_storable(enc, ms[ms.len() - 1]));
        lemma_map_ok(enc, last);
        lemma_maps_ok(enc, init);
        let a = maps_bytes(enc, init)->Ok_0;
        let b = map_bytes(enc, last)->Ok_0;
        assert(maps_bytes(enc, ms) == Ok::<Seq<u8>, crate::stg::reader::StgError>(a + b));
        crate::bytes::lemma_contains_concat(d, p, a, b);
        lemma_maps_back(enc, init, d, p);
        lemma_map_back(enc, last, d, p + a.len());
        assert(ms.map_values(|m: MapInfoModel| read_back_map(enc, m)) =~= init.map_values(
            |m: MapInfoModel| read_back_map(enc, m),
        ).push(read_back_map(enc, last)));
    }
}

/// A storable map has a record of 260 bytes.
proof fn lemma_map_ok(enc: TextEncoding, m: MapInfoModel)
    requires
        map_storable(enc, m),
    ensures
        map_bytes(enc, m) is Ok,
        map_bytes(enc, m)->Ok_0.len() == 260,
{
    lemma_field_ok(enc, m.map_name);
    lemma_field_ok(enc, m.form_file);
    lemma_field_ok(enc, m.attribute_file);
    lemma_field_ok(enc, m.mini_map_file);
}

/// Storable maps take 260 bytes each.
proof fn lemma_maps_ok(enc: TextEncoding, ms: Seq<MapInfoModel>)
    requires
        forall|i: int| 0 <= i < ms.len() ==> map_storable(enc, #[trigger] ms[i]),
    ensures
        maps_bytes(enc, ms) is Ok,
        maps_bytes(enc, ms)->Ok_0.len() == 260 * ms.len(),
    decreases ms.len(),
{
    if ms.len() > 0 {
        assert(map_storable(enc, ms[ms.len() - 1]));
        lemma_map_ok(enc, ms.last());
        lemma_maps_ok(enc, ms.drop_last());
    }
}

/// A storable group has bytes: its 252-byte record and its maps.
proof fn lemma_group_ok(enc: TextEncoding, g: MapGroupModel)
    requires
        group_storable(enc, g),
    ensures
        group_bytes(enc, g) is Ok,
        group_bytes(enc, g)->Ok_0.len() == 252 + 260 * g.map_list.len(),
{
    lemma_field_ok(enc, g.group_name);
    lemma_field_ok(enc, g.bg_file);
    lemma_field_ok(enc, g.bgm_file);
    lemma_maps_ok(enc, g.map_list);
}

/// Reading the group that the writer wrote at `p` gives it back.
#[verifier::rlimit(60)]
proof fn lemma_group_back(enc: TextEncoding, g: MapGroupModel, d: Seq<u8>, p: int)
    requires
        group_storable(enc, g),
        contains_at(d, p, group_bytes(enc, g)->Ok_0),
    ensures
        group_bytes(enc, g) is Ok,
        parse_group(enc, d, p) == Ok::<(MapGroupModel, int), crate::stg::reader::StgError>(
            (read_back_group(enc, g), p + group_bytes(enc, g)->Ok_0.len()),
        ),
{
    lemma_group_ok(enc, g);
    let f1 = string_field(enc, g.group_name)->Ok_0;
    let f2 = string_field(enc, g.bg_file)->Ok_0;
    let f3 = string_field(enc, g.bgm_file)->Ok_0;
    let ms = maps_bytes(enc, g.map_list)->Ok_0;
    let head = group_head_ints(g);
    let tail = group_tail_ints(g);
    let b = head + f1 + f2 + f3 + tail + ms;
    assert(group_bytes(enc, g) == Ok::<Seq<u8>, crate::stg::reader::StgError>(b));
    assert(b.subrange(0, 4) =~= i32_bytes(g.group_id));
    assert(b.subrange(4, 8) =~= i32_bytes(g.map_link));
    assert(b.subrange(8, 12) =~= i32_bytes(g.bg_id));
    assert(b.subrange(12, 16) =~= i32_bytes(g.group_type));
    assert(b.subrange(16, 80) =~= f1);
    assert(b.subrange(80, 144) =~= f2);
    assert(b.subrange(144, 208) =~= f3);
    assert(b.subrange(208, 212) =~= i32_bytes(g.sound_effect_type));
    assert(b.subrange(212, 216) =~= i32_bytes(g.mini_map_icon_id));
    assert(b.subrange(216, 220) =~= i32_bytes(g.mini_map_res_id));
    assert(b.subrange(220, 224) =~= i32_bytes(g.gravity));
    assert(b.subrange(224, 228) =~= i32_bytes(g.max_drop_speed));
    assert(b.subrange(228, 232) =~= i32_bytes(g.velocity_x));
    assert(b.subrange(232, 236) =~= i32_bytes(g.jump_speed));
    assert(b.subrange(236, 240) =~= i32_bytes(g.up_down_velocity));
    assert(b.subrange(240, 244) =~= i32_bytes(g.hanging_velocity));
    assert(b.subrange(244, 248) =~= i32_bytes(g.unknown_group_flag));
    assert(b.subrange(248, 252) =~= i32_bytes(g.map_count));
    assert(b.subrange(252, b.len() as int) =~= ms);
    lemma_i32_in(d, p, b, 0, g.group_id);
    lemma_i32_in(d, p, b, 4, g.map_link);
    lemma_i32_in(d, p, b, 8, g.bg_id);
    lemma_i32_in(d, p, b, 12, g.group_type);
    lemma_field_in(enc, g.group_name, d, p, b, 16);
    lemma_field_in(enc, g.bg_file, d, p, b, 80);
    lemma_field_in(enc, g.bgm_file, d, p, b, 144);
    lemma_i32_in(d, p, b, 208, g.sound_effect_type);
    lemma_i32_in(d, p, b, 212, g.mini_map_icon_id);
    lemma_i32_in(d, p, b, 216, g.mini_map_res_id);
    lemma_i32_in(d, p, b, 220, g.gravity);
    lemma_i32_in(d, p, b, 224, g.max_drop_speed);
    lemma_i32_in(d, p, b, 228, g.velocity_x);
    lemma_i32_in(d, p, b, 232, g.jump_speed);
    lemma_i32_in(d, p, b, 236, g.up_down_velocity);
    lemma_i32_in(d, p, b, 240, g.hanging_velocity);
    lemma_i32_in(d, p, b, 244, g.unknown_group_flag);
    lemma_i32_in(d, p, b, 248, g.map_count);
    lemma_contains_sub(d, p, b, 252, b.len() as int);
    lemma_maps_back(enc, g.map_list, d, p + 252);
    assert(group_record_error(enc, d, p) is None);
}

/// Storable groups have bytes.
proof fn lemma_groups_ok(enc: TextEncoding, gs: Seq<MapGroupModel>)
    requires
        forall|i: int| 0 <= i < gs.len() ==> group_storable(enc, #[trigger] gs[i]),
    ensures
        groups_bytes(enc, gs) is Ok,
    decreases gs.len(),
{
    if gs.len() > 0 {
        assert(group_storable(enc, gs[gs.len() - 1]));
        lemma_group_ok(enc, gs.last());
        lemma_groups_ok(enc, gs.drop_last());
    }
}

/// Reading the groups that the writer wrote at `p` gives them back.
#[verifier::rlimit(60)]
proof fn lemma_groups_back(enc: TextEncoding, gs: Seq<MapGroupModel>, d: Seq<u8>, p: int)
    requires
        forall|i: int| 0 <= i < gs.len() ==> group_storable(enc, #[trigger] gs[i]),
        contains_at(d, p, groups_bytes(enc, gs)->Ok_0),
    ensures
        groups_bytes(enc, gs) is Ok,
        parse_groups(enc, d, p, gs.len()) == Ok::<
            (Seq<MapGroupModel>, int),
            crate::stg::reader::StgError,
        >(
            (
                gs.map_values(|g: MapGroupModel| read_back_group(enc, g)),
                p + groups_bytes(enc, gs)->Ok_0.len(),
            ),
        ),
    decreases gs.len(),
{
    lemma_groups_ok(enc, gs);
    if gs.len() == 0 {
        assert(gs.map_values(|g: MapGroupModel| read_back_group(enc, g)) =~= Seq::<
            MapGroupModel,
        >::empty());
    } else {
        let init = gs.drop_last();
        let last = gs.last();
        assert(group_storable(enc, gs[gs.len() - 1]));
        lemma_group_ok(enc, last);
        lemma_groups_ok(enc, init);
        let a = groups_bytes(enc, init)->Ok_0;
        let b = group_bytes(enc, last)->Ok_0;
        assert(groups_bytes(enc, gs) == Ok::<Seq<u8>, crate::stg::reader::StgError>(a + b));
        crate::bytes::lemma_contains_concat(d, p, a, b);
        lemma_groups_back(enc, init, d, p);
        lemma_group_back(enc, last, d, p + a.len());
        assert(gs.map_values(|g: MapGroupModel| read_back_group(enc, g)) =~= init.map_values(
            |g: MapGroupModel| read_back_group(enc, g),
        ).push(read_back_group(enc, last)));
    }
}

/// A storable stage has bytes.
proof fn lemma_stage_ok(enc: TextEncoding, s: StageModel)
    requires
        stage_storable(enc, s),
    ensures
        stage_bytes(enc, s) is Ok,
{
    lemma_field_ok(enc, s.stage_name);
    lemma_field_ok(enc, s.palette_file);
    lemma_groups_ok(enc, s.group_list);
}

/// Reading the stage that the writer wrote at `p` gives it back.
proof fn lemma_stage_back(enc: TextEncoding, s: StageModel, d: Seq<u8>, p: int)
    requires
        stage_storable(enc, s),
        contains_at(d, p, stage_bytes(enc, s)->Ok_0),
    ensures
        stage_bytes(enc, s) is Ok,
        parse_stage(enc, d, p) == Ok::<(StageModel, int), crate::stg::reader::StgError>(
            (read_back_stage(enc, s), p + stage_bytes(enc, s)->Ok_0.len()),
        ),
{
    lemma_stage_ok(enc, s);
    let f1 = string_field(enc, s.stage_name)->Ok_0;
    let f2 = string_field(enc, s.palette_file)->Ok_0;
    let gsb = groups_bytes(enc, s.group_list)->Ok_0;
    let head = i32_bytes(s.stage_id) + i32_bytes(s.sync_region_width) + i32_bytes(
        s.sync_region_height,
    );
    let tail = i32_bytes(s.unknown_stage_value) + i32_bytes(s.group_count);
    let b = head + f1 + f2 + tail + gsb;
    assert(stage_bytes(enc, s) == Ok::<Seq<u8>, crate::stg::reader::StgError>(b));
    assert(b.subrange(0, 4) =~= i32_bytes(s.stage_id));
    assert(b.subrange(4, 8) =~= i32_bytes(s.sync_region_width));
    assert(b.subrange(8, 12) =~= i32_bytes(s.sync_region_height));
    assert(b.subrange(12, 76) =~= f1);
    assert(b.subrange(76, 140) =~= f2);
    assert(b.subrange(140, 144) =~= i32_bytes(s.unknown_stage_value));
    assert(b.subrange(144, 148) =~= i32_bytes(s.group_count));
    assert(b.subrange(148, b.len() as int) =~= gsb);
    lemma_i32_in(d, p, b, 0, s.stage_id);
    lemma_i32_in(d, p, b, 4, s.sync_region_width);
    lemma_i32_in(d, p, b, 8, s.sync_region_height);
    lemma_field_in(enc, s.stage_name, d, p, b, 12);
    lemma_field_in(enc, s.palette_file, d, p, b, 76);
    lemma_i32_in(d, p, b, 140, s.unknown_stage_value);
    lemma_i32_in(d, p, b, 144, s.group_count);
    lemma_contains_sub(d, p, b, 148, b.len() as int);
    lemma_groups_back(enc, s.group_list, d, p + 148);
    assert(stage_record_error(enc, d, p) is None);
}

/// Storable stages have bytes.
proof fn lemma_stages_ok(enc: TextEncoding, ss: Seq<StageModel>)
    requires
        forall|i: int| 0 <= i < ss.len() ==> stage_storable(enc, #[trigger] ss[i]),
    ensures
        stages_bytes(enc, ss) is Ok,
    decreases ss.len(),
{
    if ss.len() > 0 {
        assert(stage_storable(enc, ss[ss.len() - 1]));
        lemma_stage_ok(enc, ss.last());
        lemma_stages_ok(enc, ss.drop_last());
    }
}

/// Reading the stages that the writer wrote at `p` gives them back.
#[verifier::rlimit(60)]
proof fn lemma_stages_back(enc: TextEncoding, ss: Seq<StageModel>, d: Seq<u8>, p: int)
    requires
        forall|i: int| 0 <= i < ss.len() ==> stage_storable(enc, #[trigger] ss[i]),
        contains_at(d, p, stages_bytes(enc, ss)->Ok_0),
    ensures
        stages_bytes(enc, ss) is Ok,
        parse_stages(enc, d, p, ss.len()) == Ok::<
            (Seq<StageModel>, int),
            crate::stg::reader::StgError,
        >(
            (
                ss.map_values(|s: StageModel| read_back_stage(enc, s)),
                p + stages_bytes(enc, ss)->Ok_0.len(),
            ),
        ),
    decreases ss.len(),
{
    lemma_stages_ok(enc, ss);
    if ss.len() == 0 {
        assert(ss.map_values(|s: StageModel| read_back_stage(enc, s)) =~= Seq::<
            StageModel,
        >::empty());
    } else {
        let init = ss.drop_last();
        let last = ss.last();
        assert(stage_storable(enc, ss[ss.len() - 1]));
        lemma_stage_ok(enc, last);
        lemma_stages_ok(enc, init);
        let a = stages_bytes(enc, init)->Ok_0;
        let b = stage_bytes(enc, last)->Ok_0;
        assert(stages_bytes(enc, ss) == Ok::<Seq<u8>, crate::stg::reader::StgError>(a + b));
        crate::bytes::lemma_contains_concat(d, p, a, b);
        lemma_stages_back(enc, init, d, p);
        lemma_stage_back(enc, last, d, p + a.len());
        assert(ss.map_values(|s: StageModel| read_back_stage(enc, s)) =~= init.map_values(
            |s: StageModel| read_back_stage(enc, s),
        ).push(read_back_stage(enc, last)));
    }
}

/// Writing a stage table that the reader accepts back, then reading the
/// bytes with the same encoding, gives the table back, each string as its
/// bytes in the encoding decode.
#[verifier::rlimit(60)]
pub proof fn lemma_stg_write_then_read(enc: TextEncoding, f: StageFileModel)
    requires
        stage_file_storable(enc, f),
    ensures
        stage_file_bytes(enc, f) is Ok,
        parse_stage_file(enc, stage_file_bytes(enc, f)->Ok_0) == Ok::<
            StageFileModel,
            crate::stg::reader::StgError,
        >(read_back_file(enc, f)),
{
    lemma_stages_ok(enc, f.stage_list);
    let rest = stages_bytes(enc, f.stage_list)->Ok_0;
    let d = i32_bytes(f.stage_count) + rest;
    assert(stage_file_bytes(enc, f) == Ok::<Seq<u8>, crate::stg::reader::StgError>(d));
    assert(d.subrange(0, 4) =~= i32_bytes(f.stage_count));
    lemma_i32_roundtrip(f.stage_count, d, 0);
    assert(d.subrange(4, d.len() as int) =~= rest);
    lemma_stages_back(enc, f.stage_list, d, 4);
    let n = f.stage_list.len();
    assert(parse_stages(enc, d, 4, n) == Ok::<(Seq<StageModel>, int), crate::stg::reader::StgError>(
        (read_back_file(enc, f).stage_list, d.len() as int),
    ));
}

/// Where every string of the table reads back as itself, writing then
/// reading gives the table itself.
pub proof fn lemma_stg_write_then_read_exact(enc: TextEncoding, f: StageFileModel)
    requires
        stage_file_storable(enc, f),
        read_back_file(enc, f) == f,
    ensures
        parse_stage_file(enc, stage_file_bytes(enc, f)->Ok_0) == Ok::<
            StageFileModel,
            crate::stg::reader::StgError,
        >(f),
{
    lemma_stg_write_then_read(enc, f);
}

} // verus!
