//! STG writer: the bytes of a stage table, in the layout the reader reads.

use vstd::prelude::*;
use crate::bytes::{i32_bytes, push_all, push_i32};
use crate::common::encoding::{encode, spec_encode, TextEncoding};
use crate::stg::reader::StgError;
use crate::stg::types::{
    MapGroup, MapGroupModel, MapInfo, MapInfoModel, Stage, StageFile, StageFileModel, StageModel,
    FIXED_STRING_SIZE,
};
use vstd::utf8::encode_utf8;

verus! {

/// Largest number of UTF-8 bytes of a string that the writer encodes (the
/// text encoder's limit on this machine); a longer string is refused as too
/// long.
pub const MAX_TEXT_BYTES: usize = usize::MAX / 16;

/// The bytes of `a` followed by those of `b`, or the first error.
pub open spec fn chain_bytes(a: Result<Seq<u8>, StgError>, b: Result<Seq<u8>, StgError>) -> Result<
    Seq<u8>,
    StgError,
> {
    match a {
        Err(e) => Err(e),
        Ok(x) => match b {
            Err(e) => Err(e),
            Ok(y) => Ok(x + y),
        },
    }
}

/// The 64-byte field of a string: its bytes in `enc` padded with NULs, or
/// why it cannot be stored.
pub open spec fn string_field(enc: TextEncoding, s: Seq<char>) -> Result<Seq<u8>, StgError> {
    if encode_utf8(s).len() > MAX_TEXT_BYTES {
        Err(StgError::StringTooLong)
    } else if spec_encode(enc, s).1 {
        Err(StgError::EncodeError)
    } else if spec_encode(enc, s).0.len() >= 64 {
        Err(StgError::StringTooLong)
    } else {
        Ok(spec_encode(enc, s).0 + Seq::new((64 - spec_encode(enc, s).0.len()) as nat, |i: int| 0u8))
    }
}

/// A string is stored in a 64-byte field when it can be encoded in `enc`
/// without errors into at most 63 bytes: its bytes, then NULs to the end of
/// the field (so at least one NUL follows them).
pub proof fn lemma_string_field_bytes(enc: TextEncoding, s: Seq<char>)
    ensures
        ({
            let e = spec_encode(enc, s);
            &&& string_field(enc, s) is Ok <==> (encode_utf8(s).len() <= MAX_TEXT_BYTES && !e.1
                && e.0.len() < 64)
            &&& string_field(enc, s) matches Ok(f) ==> {
                &&& f.len() == 64
                &&& f[63] == 0
                &&& forall|i: int| 0 <= i < 64 ==> #[trigger] f[i] == if i < e.0.len() {
                    e.0[i]
                } else {
                    0u8
                }
            }
        }),
{
}

/// The bytes of a map record.
pub open spec fn map_bytes(enc: TextEncoding, m: MapInfoModel) -> Result<Seq<u8>, StgError> {
    chain_bytes(
        chain_bytes(
            chain_bytes(
                chain_bytes(Ok(i32_bytes(m.bg_index)), string_field(enc, m.map_name)),
                string_field(enc, m.form_file),
            ),
            string_field(enc, m.attribute_file),
        ),
        string_field(enc, m.mini_map_file),
    )
}

/// The bytes of the maps, one after another.
pub open spec fn maps_bytes(enc: TextEncoding, ms: Seq<MapInfoModel>) -> Result<Seq<u8>, StgError>
    decreases ms.len(),
{
    if ms.len() == 0 {
        Ok(Seq::empty())
    } else {
        chain_bytes(maps_bytes(enc, ms.drop_last()), map_bytes(enc, ms.last()))
    }
}

/// The leading integers of a group record.
pub open spec fn group_head_ints(g: MapGroupModel) -> Seq<u8> {
    i32_bytes(g.group_id) + i32_bytes(g.map_link) + i32_bytes(g.bg_id) + i32_bytes(g.group_type)
}

/// The trailing integers of a group record.
pub open spec fn group_tail_ints(g: MapGroupModel) -> Seq<u8> {
    i32_bytes(g.sound_effect_type) + i32_bytes(g.mini_map_icon_id) + i32_bytes(g.mini_map_res_id)
        + i32_bytes(g.gravity) + i32_bytes(g.max_drop_speed) + i32_bytes(g.velocity_x) + i32_bytes(
        g.jump_speed,
    ) + i32_bytes(g.up_down_velocity) + i32_bytes(g.hanging_velocity) + i32_bytes(
        g.unknown_group_flag,
    ) + i32_bytes(g.map_count)
}

/// The bytes of a group record and its maps; its map count must be the
/// number of its maps.
pub open spec fn group_bytes(enc: TextEncoding, g: MapGroupModel) -> Result<Seq<u8>, StgError> {
    if g.map_count != g.map_list.len() {
        Err(StgError::CountMismatch)
    } else {
        chain_bytes(
            chain_bytes(
                chain_bytes(
                    chain_bytes(
                        chain_bytes(Ok(group_head_ints(g)), string_field(enc, g.group_name)),
                        string_field(enc, g.bg_file),
                    ),
                    string_field(enc, g.bgm_file),
                ),
                Ok(group_tail_ints(g)),
            ),
            maps_bytes(enc, g.map_list),
        )
    }
}

/// The bytes of the groups, one after another.
pub open spec fn groups_bytes(enc: TextEncoding, gs: Seq<MapGroupModel>) -> Result<Seq<u8>, StgError>
    decreases gs.len(),
{
    if gs.len() == 0 {
        Ok(Seq::empty())
    } else {
        chain_bytes(groups_bytes(enc, gs.drop_last()), group_bytes(enc, gs.last()))
    }
}

/// The bytes of a stage record and its groups; its group count must be the
/// number of its groups.
pub open spec fn stage_bytes(enc: TextEncoding, s: StageModel) -> Result<Seq<u8>, StgError> {
    if s.group_count != s.group_list.len() {
        Err(StgError::CountMismatch)
    } else {
        chain_bytes(
            chain_bytes(
                chain_bytes(
                    chain_bytes(
                        Ok(
                            i32_bytes(s.stage_id) + i32_bytes(s.sync_region_width) + i32_bytes(
                                s.sync_region_height,
                            ),
                        ),
                        string_field(enc, s.stage_name),
                    ),
                    string_field(enc, s.palette_file),
                ),
                Ok(i32_bytes(s.unknown_stage_value) + i32_bytes(s.group_count)),
            ),
            groups_bytes(enc, s.group_list),
        )
    }
}

/// The bytes of the stages, one after another.
pub open spec fn stages_bytes(enc: TextEncoding, ss: Seq<StageModel>) -> Result<Seq<u8>, StgError>
    decreases ss.len(),
{
    if ss.len() == 0 {
        Ok(Seq::empty())
    } else {
        chain_bytes(stages_bytes(enc, ss.drop_last()), stage_bytes(enc, ss.last()))
    }
}

/// What writing a stage table gives: the bytes of an STG file, or the
/// first error met in file order.
pub open spec fn stage_file_bytes(enc: TextEncoding, f: StageFileModel) -> Result<Seq<u8>, StgError> {
    if f.stage_count != f.stage_list.len() {
        Err(StgError::CountMismatch)
    } else {
        chain_bytes(Ok(i32_bytes(f.stage_count)), stages_bytes(enc, f.stage_list))
    }
}

/// The model of a write result.
pub open spec fn bytes_result(r: Result<Vec<u8>, StgError>) -> Result<Seq<u8>, StgError> {
    match r {
        Ok(v) => Ok(v@),
        Err(e) => Err(e),
    }
}

/// What appending a piece gives: on success the output grew by the piece.
pub open spec fn appended(
    r: Result<(), StgError>,
    piece: Result<Seq<u8>, StgError>,
    before: Seq<u8>,
    after: Seq<u8>,
) -> bool {
    match piece {
        Ok(b) => r is Ok && after == before + b,
        Err(e) => r == Err::<(), StgError>(e),
    }
}

/// What was appended to `a` to give `b`.
proof fn lemma_grown(a: Seq<u8>, b: Seq<u8>)
    ensures
        forall|x: Seq<u8>| b == a + x ==> x == b.skip(a.len() as int),
{
    assert forall|x: Seq<u8>| b == a + x implies x == b.skip(a.len() as int) by {
        assert(x =~= b.skip(a.len() as int));
    }
}

/// Appends the 64-byte field of `s`.
fn write_str(out: &mut Vec<u8>, enc: TextEncoding, s: &String) -> (r: Result<(), StgError>)
    ensures
        appended(r, string_field(enc, s@), old(out)@, final(out)@),
{
    let text = s.as_str();
    if text.as_bytes().len() > MAX_TEXT_BYTES {
        return Err(StgError::StringTooLong);
    }
    let (encoded, had_errors) = encode(enc, text);
    if had_errors {
        return Err(StgError::EncodeError);
    }
    if encoded.len() >= FIXED_STRING_SIZE {
        return Err(StgError::StringTooLong);
    }
    let ghost start = out@;
    push_all(out, encoded.as_slice());
    let mut k: usize = encoded.len();
    while k < FIXED_STRING_SIZE
        invariant
            encoded.len() <= k <= 64,
            out@ == start + encoded@ + Seq::new((k - encoded@.len()) as nat, |i: int| 0u8),
        decreases 64 - k,
    {
        out.push(0u8);
        assert(out@ =~= start + encoded@ + Seq::new(
            (k + 1 - encoded@.len()) as nat,
            |i: int| 0u8,
        ));
        k = k + 1;
    }
    assert(out@ =~= start + (encoded@ + Seq::new((64 - encoded@.len()) as nat, |i: int| 0u8)));
    Ok(())
}

/// Appends a map record.
fn write_map(out: &mut Vec<u8>, enc: TextEncoding, m: &MapInfo) -> (r: Result<(), StgError>)
    ensures
        appended(r, map_bytes(enc, m@), old(out)@, final(out)@),
{
    let ghost s0 = out@;
    push_i32(out, m.bg_index);
    let ghost s1 = out@;
    match write_str(out, enc, &m.map_name) {
        Ok(()) => {},
        Err(e) => return Err(e),
    }
    let ghost s2 = out@;
    match write_str(out, enc, &m.form_file) {
        Ok(()) => {},
        Err(e) => return Err(e),
    }
    let ghost s3 = out@;
    match write_str(out, enc, &m.attribute_file) {
        Ok(()) => {},
        Err(e) => return Err(e),
    }
    let ghost s4 = out@;
    match write_str(out, enc, &m.mini_map_file) {
        Ok(()) => {},
        Err(e) => return Err(e),
    }
    proof {
        lemma_grown(s1, s2);
        lemma_grown(s2, s3);
        lemma_grown(s3, s4);
        lemma_grown(s4, out@);
        assert(out@ =~= s0 + (i32_bytes(m.bg_index) + s2.skip(s1.len() as int) + s3.skip(
            s2.len() as int,
        ) + s4.skip(s3.len() as int) + out@.skip(s4.len() as int)));
    }
    Ok(())
}

/// Once the bytes of a prefix of the maps fail, those of all of them fail
/// the same way.
proof fn lemma_maps_bytes_err(enc: TextEncoding, xs: Seq<MapInfoModel>, k: int)
    requires
        0 <= k <= xs.len(),
        maps_bytes(enc, xs.take(k)) is Err,
    ensures
        maps_bytes(enc, xs) == maps_bytes(enc, xs.take(k)),
    decreases xs.len() - k,
{
    if k == xs.len() {
        assert(xs.take(k) =~= xs);
    } else {
        assert(xs.take(k + 1).drop_last() =~= xs.take(k));
        lemma_maps_bytes_err(enc, xs, k + 1);
    }
}

/// Appends the maps, one after another.
fn write_maps(out: &mut Vec<u8>, enc: TextEncoding, xs: &Vec<MapInfo>) -> (r: Result<(), StgError>)
    ensures
        appended(r, maps_bytes(enc, xs@.map_values(|x: MapInfo| x@)), old(out)@, final(out)@),
{
    let ghost ms = xs@.map_values(|x: MapInfo| x@);
    let ghost start = out@;
    let ghost mut w: Seq<u8> = Seq::empty();
    let mut i: usize = 0;
    assert(ms.take(0) =~= Seq::<MapInfoModel>::empty());
    assert(out@ =~= start + w);
    while i < xs.len()
        invariant
            i <= xs@.len(),
            ms == xs@.map_values(|x: MapInfo| x@),
            out@ == start + w,
            maps_bytes(enc, ms.take(i as int)) == Ok::<Seq<u8>, StgError>(w),
        decreases xs@.len() - i,
    {
        let ghost before = out@;
        let res = write_map(out, enc, &xs[i]);
        proof {
            assert(ms.take(i + 1).drop_last() =~= ms.take(i as int));
            assert(ms.take(i + 1).last() == ms[i as int]);
        }
        match res {
            Ok(()) => {},
            Err(e) => {
                proof {
                    lemma_maps_bytes_err(enc, ms, i + 1);
                }
                return Err(e);
            },
        }
        proof {
            lemma_grown(before, out@);
            w = w + out@.skip(before.len() as int);
            assert(out@ =~= start + w);
        }
        i = i + 1;
    }
    assert(ms.take(xs@.len() as int) =~= ms);
    Ok(())
}

/// Once the bytes of a prefix of the groups fail, those of all of them fail
/// the same way.
proof fn lemma_groups_bytes_err(enc: TextEncoding, xs: Seq<MapGroupModel>, k: int)
    requires
        0 <= k <= xs.len(),
        groups_bytes(enc, xs.take(k)) is Err,
    ensures
        groups_bytes(enc, xs) == groups_bytes(enc, xs.take(k)),
    decreases xs.len() - k,
{
    if k == xs.len() {
        assert(xs.take(k) =~= xs);
    } else {
        assert(xs.take(k + 1).drop_last() =~= xs.take(k));
        lemma_groups_bytes_err(enc, xs, k + 1);
    }
}

/// Appends the groups, one after another.
fn write_groups(out: &mut Vec<u8>, enc: TextEncoding, xs: &Vec<MapGroup>) -> (r: Result<(), StgError>)
    ensures
        appended(r, groups_bytes(enc, xs@.map_values(|x: MapGroup| x@)), old(out)@, final(out)@),
{
    let ghost ms = xs@.map_values(|x: MapGroup| x@);
    let ghost start = out@;
    let ghost mut w: Seq<u8> = Seq::empty();
    let mut i: usize = 0;
    assert(ms.take(0) =~= Seq::<MapGroupModel>::empty());
    assert(out@ =~= start + w);
    while i < xs.len()
        invariant
            i <= xs@.len(),
            ms == xs@.map_values(|x: MapGroup| x@),
            out@ == start + w,
            groups_bytes(enc, ms.take(i as int)) == Ok::<Seq<u8>, StgError>(w),
        decreases xs@.len() - i,
    {
        let ghost before = out@;
        let res = write_group(out, enc, &xs[i]);
        proof {
            assert(ms.take(i + 1).drop_last() =~= ms.take(i as int));
            assert(ms.take(i + 1).last() == ms[i as int]);
        }
        match res {
            Ok(()) => {},
            Err(e) => {
                proof {
                    lemma_groups_bytes_err(enc, ms, i + 1);
                }
                return Err(e);
            },
        }
        proof {
            lemma_grown(before, out@);
            w = w + out@.skip(before.len() as int);
            assert(out@ =~= start + w);
        }
        i = i + 1;
    }
    assert(ms.take(xs@.len() as int) =~= ms);
    Ok(())
}

/// Once the bytes of a prefix of the stages fail, those of all of them fail
/// the same way.
proof fn lemma_stages_bytes_err(enc: TextEncoding, xs: Seq<StageModel>, k: int)
    requires
        0 <= k <= xs.len(),
        stages_bytes(enc, xs.take(k)) is Err,
    ensures
        stages_bytes(enc, xs) == stages_bytes(enc, xs.take(k)),
    decreases xs.len() - k,
{
    if k == xs.len() {
        assert(xs.take(k) =~= xs);
    } else {
        assert(xs.take(k + 1).drop_last() =~= xs.take(k));
        lemma_stages_bytes_err(enc, xs, k + 1);
    }
}

/// Appends the stages, one after another.
fn write_stages(out: &mut Vec<u8>, enc: TextEncoding, xs: &Vec<Stage>) -> (r: Result<(), StgError>)
    ensures
        appended(r, stages_bytes(enc, xs@.map_values(|x: Stage| x@)), old(out)@, final(out)@),
{
    let ghost ms = xs@.map_values(|x: Stage| x@);
    let ghost start = out@;
    let ghost mut w: Seq<u8> = Seq::empty();
    let mut i: usize = 0;
    assert(ms.take(0) =~= Seq::<StageModel>::empty());
    assert(out@ =~= start + w);
    while i < xs.len()
        invariant
            i <= xs@.len(),
            ms == xs@.map_values(|x: Stage| x@),
            out@ == start + w,
            stages_bytes(enc, ms.take(i as int)) == Ok::<Seq<u8>, StgError>(w),
        decreases xs@.len() - i,
    {
        let ghost before = out@;
        let res = write_stage(out, enc, &xs[i]);
        proof {
            assert(ms.take(i + 1).drop_last() =~= ms.take(i as int));
            assert(ms.take(i + 1).last() == ms[i as int]);
        }
        match res {
            Ok(()) => {},
            Err(e) => {
                proof {
                    lemma_stages_bytes_err(enc, ms, i + 1);
                }
                return Err(e);
            },
        }
        proof {
            lemma_grown(before, out@);
            w = w + out@.skip(before.len() as int);
            assert(out@ =~= start + w);
        }
        i = i + 1;
    }
    assert(ms.take(xs@.len() as int) =~= ms);
    Ok(())
}

/// Appends a group record and its maps.
#[verifier::rlimit(40)]
fn write_group(out: &mut Vec<u8>, enc: TextEncoding, g: &MapGroup) -> (r: Result<(), StgError>)
    ensures
        appended(r, group_bytes(enc, g@), old(out)@, final(out)@),
{
    if !count_matches(g.map_count, g.map_list.len()) {
        return Err(StgError::CountMismatch);
    }
    let ghost s0 = out@;
    push_i32(out, g.group_id);
    push_i32(out, g.map_link);
    push_i32(out, g.bg_id);
    push_i32(out, g.group_type);
    let ghost s1 = out@;
    match write_str(out, enc, &g.group_name) {
        Ok(()) => {},
        Err(e) => return Err(e),
    }
    let ghost s2 = out@;
    match write_str(out, enc, &g.bg_file) {
        Ok(()) => {},
        Err(e) => return Err(e),
    }
    let ghost s3 = out@;
    match write_str(out, enc, &g.bgm_file) {
        Ok(()) => {},
        Err(e) => return Err(e),
    }
    let ghost s4 = out@;
    push_i32(out, g.sound_effect_type);
    push_i32(out, g.mini_map_icon_id);
    push_i32(out, g.mini_map_res_id);
    push_i32(out, g.gravity);
    push_i32(out, g.max_drop_speed);
    push_i32(out, g.velocity_x);
    push_i32(out, g.jump_speed);
    push_i32(out, g.up_down_velocity);
    push_i32(out, g.hanging_velocity);
    push_i32(out, g.unknown_group_flag);
    push_i32(out, g.map_count);
    let ghost s5 = out@;
    proof {
        assert(s1 =~= s0 + group_head_ints(g@));
        assert(s5 =~= s4 + group_tail_ints(g@));
        lemma_grown(s1, s2);
        lemma_grown(s2, s3);
        lemma_grown(s3, s4);
    }
    match write_maps(out, enc, &g.map_list) {
        Ok(()) => {},
        Err(e) => return Err(e),
    }
    proof {
        lemma_grown(s5, out@);
        assert(out@ =~= s0 + (group_head_ints(g@) + s2.skip(s1.len() as int) + s3.skip(
            s2.len() as int,
        ) + s4.skip(s3.len() as int) + group_tail_ints(g@) + out@.skip(s5.len() as int)));
    }
    Ok(())
}

/// Appends a stage record and its groups.
fn write_stage(out: &mut Vec<u8>, enc: TextEncoding, s: &Stage) -> (r: Result<(), StgError>)
    ensures
        appended(r, stage_bytes(enc, s@), old(out)@, final(out)@),
{
    if !count_matches(s.group_count, s.group_list.len()) {
        return Err(StgError::CountMismatch);
    }
    let ghost s0 = out@;
    push_i32(out, s.stage_id);
    push_i32(out, s.sync_region_width);
    push_i32(out, s.sync_region_height);
    let ghost s1 = out@;
    match write_str(out, enc, &s.stage_name) {
        Ok(()) => {},
        Err(e) => return Err(e),
    }
    let ghost s2 = out@;
    match write_str(out, enc, &s.palette_file) {
        Ok(()) => {},
        Err(e) => return Err(e),
    }
    let ghost s3 = out@;
    push_i32(out, s.unknown_stage_value);
    push_i32(out, s.group_count);
    let ghost s4 = out@;
    let ghost head = i32_bytes(s.stage_id) + i32_bytes(s.sync_region_width) + i32_bytes(
        s.sync_region_height,
    );
    let ghost tail = i32_bytes(s.unknown_stage_value) + i32_bytes(s.group_count);
    proof {
        assert(s1 =~= s0 + head);
        assert(s4 =~= s3 + tail);
        lemma_grown(s1, s2);
        lemma_grown(s2, s3);
    }
    match write_groups(out, enc, &s.group_list) {
        Ok(()) => {},
        Err(e) => return Err(e),
    }
    proof {
        lemma_grown(s4, out@);
        assert(out@ =~= s0 + (head + s2.skip(s1.len() as int) + s3.skip(s2.len() as int) + tail
            + out@.skip(s4.len() as int)));
    }
    Ok(())
}

/// Whether a stored count equals a list's length.
fn count_matches(stored: i32, actual: usize) -> (r: bool)
    ensures
        r == (stored == actual),
{
    stored >= 0 && (stored as usize) == actual
}

/// STG file writer.
pub struct StgWriter {
    stage_file: StageFile,
    encoding: TextEncoding,
}

impl StgWriter {
    /// The stage table to write.
    pub closed spec fn spec_stage_file(&self) -> StageFileModel {
        self.stage_file@
    }

    /// The encoding of the strings.
    pub closed spec fn spec_encoding(&self) -> TextEncoding {
        self.encoding
    }

    /// A writer of `stage_file` with strings in `encoding`.
    pub fn new(stage_file: StageFile, encoding: TextEncoding) -> (r: StgWriter)
        ensures
            r.spec_stage_file() == stage_file@,
            r.spec_encoding() == encoding,
    {
        StgWriter { stage_file, encoding }
    }

    /// The bytes of the STG file, or the first error met in file order:
    /// a count that differs from its list's length, or a string that
    /// cannot be encoded or does not fit its field.
    pub fn to_bytes(&self) -> (r: Result<Vec<u8>, StgError>)
        ensures
            bytes_result(r) == stage_file_bytes(self.spec_encoding(), self.spec_stage_file()),
    {
        let f = &self.stage_file;
        if !count_matches(f.stage_count, f.stage_list.len()) {
            return Err(StgError::CountMismatch);
        }
        let mut out: Vec<u8> = Vec::new();
        push_i32(&mut out, f.stage_count);
        let ghost s1 = out@;
        match write_stages(&mut out, self.encoding, &f.stage_list) {
            Ok(()) => {},
            Err(e) => return Err(e),
        }
        proof {
            lemma_grown(s1, out@);
            assert(out@ =~= i32_bytes(f.stage_count) + out@.skip(s1.len() as int));
        }
        Ok(out)
    }
}

} // verus!
