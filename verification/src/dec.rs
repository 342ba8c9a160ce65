use vstd::prelude::*;
use vstd::bytes::{spec_u16_from_le_bytes, spec_u32_from_le_bytes, spec_u64_from_le_bytes};
use vstd::bytes::{u16_from_le_bytes, u32_from_le_bytes, u64_from_le_bytes};
use vstd::slice::{slice_index_get, slice_subrange, slice_to_vec};
use crate::error::CodecError;
use crate::model::{
    AchievementContent, AchievementHeader, AchievementsDat, ContentV, FileV, HeaderSubobject,
    HeaderV, SpaceOptimizedString, SubobjectV, wf_content, wf_file, wf_header, wf_string,
    wf_subobject, wf_progress,
};
use crate::progress::{AchievementProgress, ProgressV};
use crate::tags::{
    ProgressKind, kind_of_tag, match_tag, payload_len, reserved_tag, tag_bytes, tag_is_reserved, lemma_kind_of_tag_sound,
};

verus! {

// ---------------------------------------------------------------------------
// The grammar, as spec functions: what each part of the file means, read at
// a position. Every parser returns the parsed value and the position after
// it, or the error the format prescribes.
// ---------------------------------------------------------------------------

/// One byte.
pub open spec fn parse_u8(b: Seq<u8>, i: int) -> Result<(u8, int), CodecError> {
    if 0 <= i && i + 1 <= b.len() {
        Ok((b[i], i + 1))
    } else {
        Err(CodecError::Truncated)
    }
}

/// A 16-bit value, little-endian.
pub open spec fn parse_u16(b: Seq<u8>, i: int) -> Result<(u16, int), CodecError> {
    if 0 <= i && i + 2 <= b.len() {
        Ok((spec_u16_from_le_bytes(b.subrange(i, i + 2)), i + 2))
    } else {
        Err(CodecError::Truncated)
    }
}

/// A 16-bit signed value: the bit pattern of the 16-bit value.
pub open spec fn parse_i16(b: Seq<u8>, i: int) -> Result<(i16, int), CodecError> {
    match parse_u16(b, i) {
        Ok((x, j)) => Ok((x as i16, j)),
        Err(e) => Err(e),
    }
}

/// A 32-bit value, little-endian.
pub open spec fn parse_u32(b: Seq<u8>, i: int) -> Result<(u32, int), CodecError> {
    if 0 <= i && i + 4 <= b.len() {
        Ok((spec_u32_from_le_bytes(b.subrange(i, i + 4)), i + 4))
    } else {
        Err(CodecError::Truncated)
    }
}

/// A run of exactly `n` bytes.
pub open spec fn parse_bytes(b: Seq<u8>, i: int, n: int) -> Result<(Seq<u8>, int), CodecError> {
    if 0 <= i && 0 <= n && i + n <= b.len() {
        Ok((b.subrange(i, i + n), i + n))
    } else {
        Err(CodecError::Truncated)
    }
}

/// A space-optimized byte string: a length byte, or a 255 marker followed by
/// the 4-byte length; then the bytes themselves.
pub open spec fn parse_str(b: Seq<u8>, i: int) -> Result<(Seq<u8>, int), CodecError> {
    match parse_u8(b, i) {
        Err(e) => Err(e),
        Ok((s0, i1)) => if s0 == 255 {
            match parse_u32(b, i1) {
                Err(e) => Err(e),
                Ok((n, i2)) => parse_bytes(b, i2, n as int),
            }
        } else {
            parse_bytes(b, i1, s0 as int)
        },
    }
}

/// A subobject: an id, then a 16-bit index.
pub open spec fn parse_subobject(b: Seq<u8>, i: int) -> Result<(SubobjectV, int), CodecError> {
    match parse_str(b, i) {
        Err(e) => Err(e),
        Ok((id, i1)) => match parse_i16(b, i1) {
            Err(e) => Err(e),
            Ok((index, i2)) => Ok((SubobjectV { id, index }, i2)),
        },
    }
}

/// Exactly `n` subobjects, in order.
pub open spec fn parse_subobjects(b: Seq<u8>, i: int, n: nat) -> Result<
    (Seq<SubobjectV>, int),
    CodecError,
>
    decreases n,
{
    if n == 0 {
        Ok((Seq::empty(), i))
    } else {
        match parse_subobject(b, i) {
            Err(e) => Err(e),
            Ok((s, i1)) => match parse_subobjects(b, i1, (n - 1) as nat) {
                Err(e) => Err(e),
                Ok((ss, i2)) => Ok((seq![s] + ss, i2)),
            },
        }
    }
}

/// A header: a tag, a 16-bit count, then that many subobjects.
pub open spec fn parse_header(b: Seq<u8>, i: int) -> Result<(HeaderV, int), CodecError> {
    match parse_str(b, i) {
        Err(e) => Err(e),
        Ok((tag, i1)) => match parse_u16(b, i1) {
            Err(e) => Err(e),
            Ok((n, i2)) => match parse_subobjects(b, i2, n as nat) {
                Err(e) => Err(e),
                Ok((subobjects, i3)) => Ok((HeaderV { tag, subobjects }, i3)),
            },
        },
    }
}

/// Exactly `n` headers, in order.
pub open spec fn parse_headers(b: Seq<u8>, i: int, n: nat) -> Result<
    (Seq<HeaderV>, int),
    CodecError,
>
    decreases n,
{
    if n == 0 {
        Ok((Seq::empty(), i))
    } else {
        match parse_header(b, i) {
            Err(e) => Err(e),
            Ok((h, i1)) => match parse_headers(b, i1, (n - 1) as nat) {
                Err(e) => Err(e),
                Ok((hs, i2)) => Ok((seq![h] + hs, i2)),
            },
        }
    }
}

/// The progress payload selected by a tag: the variant's fixed run of bytes
/// for a tag in the table; `UnknownPayloadLayout` for a reserved tag;
/// `UnknownTag` for any other.
pub open spec fn parse_progress(b: Seq<u8>, i: int, tag: Seq<u8>) -> Result<
    (ProgressV, int),
    CodecError,
> {
    match kind_of_tag(tag) {
        Some(k) => match parse_bytes(b, i, payload_len(k) as int) {
            Err(e) => Err(e),
            Ok((payload, i1)) => Ok((ProgressV { kind: k, payload }, i1)),
        },
        None => if reserved_tag(tag) {
            Err(CodecError::UnknownPayloadLayout)
        } else {
            Err(CodecError::UnknownTag)
        },
    }
}

/// A content: a tag, an id, then the payload the tag selects.
pub open spec fn parse_content(b: Seq<u8>, i: int) -> Result<(ContentV, int), CodecError> {
    match parse_str(b, i) {
        Err(e) => Err(e),
        Ok((tag, i1)) => match parse_str(b, i1) {
            Err(e) => Err(e),
            Ok((id, i2)) => match parse_progress(b, i2, tag) {
                Err(e) => Err(e),
                Ok((progress, i3)) => Ok((ContentV { tag, id, progress }, i3)),
            },
        },
    }
}

/// Exactly `n` contents, in order.
pub open spec fn parse_contents(b: Seq<u8>, i: int, n: nat) -> Result<
    (Seq<ContentV>, int),
    CodecError,
>
    decreases n,
{
    if n == 0 {
        Ok((Seq::empty(), i))
    } else {
        match parse_content(b, i) {
            Err(e) => Err(e),
            Ok((c, i1)) => match parse_contents(b, i1, (n - 1) as nat) {
                Err(e) => Err(e),
                Ok((cs, i2)) => Ok((seq![c] + cs, i2)),
            },
        }
    }
}

/// 16-bit values until the end of the input; a trailing odd byte is
/// `TrailingGarbage`.
pub open spec fn parse_tracked(b: Seq<u8>, i: int) -> Result<(Seq<i16>, int), CodecError>
    decreases b.len() - i,
{
    if i == b.len() {
        Ok((Seq::empty(), i))
    } else if 0 <= i && i + 2 <= b.len() {
        match parse_tracked(b, i + 2) {
            Err(e) => Err(e),
            Ok((ts, i2)) => Ok((
                seq![spec_u16_from_le_bytes(b.subrange(i, i + 2)) as i16] + ts,
                i2,
            )),
        }
    } else {
        Err(CodecError::TrailingGarbage)
    }
}

/// A whole file: the version quad, the reserved byte, the counted headers
/// and contents, then tracked values to the end of the input.
pub open spec fn parse_file(b: Seq<u8>) -> Result<FileV, CodecError> {
    match parse_i16(b, 0) {
        Err(e) => Err(e),
        Ok((v0, i1)) => match parse_i16(b, i1) {
            Err(e) => Err(e),
            Ok((v1, i2)) => match parse_i16(b, i2) {
                Err(e) => Err(e),
                Ok((v2, i3)) => match parse_i16(b, i3) {
                    Err(e) => Err(e),
                    Ok((v3, i4)) => match parse_u8(b, i4) {
                        Err(e) => Err(e),
                        Ok((unused, i5)) => match parse_u16(b, i5) {
                            Err(e) => Err(e),
                            Ok((hn, i6)) => match parse_headers(b, i6, hn as nat) {
                                Err(e) => Err(e),
                                Ok((headers, i7)) => match parse_u32(b, i7) {
                                    Err(e) => Err(e),
                                    Ok((cn, i8)) => match parse_contents(b, i8, cn as nat) {
                                        Err(e) => Err(e),
                                        Ok((contents, i9)) => match parse_tracked(b, i9) {
                                            Err(e) => Err(e),
                                            Ok((tracked_entries, _i10)) => Ok(FileV {
                                                version: seq![v0, v1, v2, v3],
                                                unused,
                                                headers,
                                                contents,
                                                tracked_entries,
                                            }),
                                        },
                                    },
                                },
                            },
                        },
                    },
                },
            },
        },
    }
}

// ---------------------------------------------------------------------------
// The executable decoder: each function returns exactly what the grammar
// above prescribes at its position.
// ---------------------------------------------------------------------------

/// Prefix the parsed row of a partial parse with already-parsed elements.
pub open spec fn prepend_row<T>(pre: Seq<T>, r: Result<(Seq<T>, int), CodecError>) -> Result<
    (Seq<T>, int),
    CodecError,
> {
    match r {
        Ok((ss, e)) => Ok((pre + ss, e)),
        Err(e) => Err(e),
    }
}

/// One parsed element moves from the remaining row to the prefix.
proof fn lemma_parse_subobjects_step(b: Seq<u8>, i: int, n: nat, pre: Seq<SubobjectV>)
    requires
        n > 0,
        parse_subobject(b, i) is Ok,
    ensures
        ({
            let (s, i1) = parse_subobject(b, i)->Ok_0;
            prepend_row(pre, parse_subobjects(b, i, n)) == prepend_row(
                pre.push(s),
                parse_subobjects(b, i1, (n - 1) as nat),
            )
        }),
{
    let (s, i1) = parse_subobject(b, i)->Ok_0;
    let rest = parse_subobjects(b, i1, (n - 1) as nat);
    if rest is Ok {
        let (ss, i2) = rest->Ok_0;
        assert(pre + (seq![s] + ss) =~= pre.push(s) + ss);
    }
}

/// One parsed element moves from the remaining row to the prefix.
proof fn lemma_parse_headers_step(b: Seq<u8>, i: int, n: nat, pre: Seq<HeaderV>)
    requires
        n > 0,
        parse_header(b, i) is Ok,
    ensures
        ({
            let (h, i1) = parse_header(b, i)->Ok_0;
            prepend_row(pre, parse_headers(b, i, n)) == prepend_row(
                pre.push(h),
                parse_headers(b, i1, (n - 1) as nat),
            )
        }),
{
    let (h, i1) = parse_header(b, i)->Ok_0;
    let rest = parse_headers(b, i1, (n - 1) as nat);
    if rest is Ok {
        let (hs, i2) = rest->Ok_0;
        assert(pre + (seq![h] + hs) =~= pre.push(h) + hs);
    }
}

/// One parsed element moves from the remaining row to the prefix.
proof fn lemma_parse_contents_step(b: Seq<u8>, i: int, n: nat, pre: Seq<ContentV>)
    requires
        n > 0,
        parse_content(b, i) is Ok,
    ensures
        ({
            let (c, i1) = parse_content(b, i)->Ok_0;
            prepend_row(pre, parse_contents(b, i, n)) == prepend_row(
                pre.push(c),
                parse_contents(b, i1, (n - 1) as nat),
            )
        }),
{
    let (c, i1) = parse_content(b, i)->Ok_0;
    let rest = parse_contents(b, i1, (n - 1) as nat);
    if rest is Ok {
        let (cs, i2) = rest->Ok_0;
        assert(pre + (seq![c] + cs) =~= pre.push(c) + cs);
    }
}

/// One parsed value moves from the remaining tracked row to the prefix.
proof fn lemma_parse_tracked_step(b: Seq<u8>, i: int, pre: Seq<i16>)
    requires
        0 <= i,
        i + 2 <= b.len(),
        i != b.len(),
    ensures
        prepend_row(pre, parse_tracked(b, i)) == prepend_row(
            pre.push(spec_u16_from_le_bytes(b.subrange(i, i + 2)) as i16),
            parse_tracked(b, i + 2),
        ),
{
    let v = spec_u16_from_le_bytes(b.subrange(i, i + 2)) as i16;
    let rest = parse_tracked(b, i + 2);
    if rest is Ok {
        let (ts, i2) = rest->Ok_0;
        assert(pre + (seq![v] + ts) =~= pre.push(v) + ts);
    }
}

/// One byte.
fn read_u8(input: &[u8], pos: usize) -> (r: Result<(u8, usize), CodecError>)
    requires
        pos <= input@.len(),
    ensures
        r matches Ok(v) ==> parse_u8(input@, pos as int) == Ok::<(u8, int), CodecError>(
            (v.0, v.1 as int),
        ) && pos < v.1 <= input@.len(),
        r matches Err(e) ==> parse_u8(input@, pos as int) == Err::<(u8, int), CodecError>(e),
{
    if pos < input.len() {
        Ok((*slice_index_get(input, pos), pos + 1))
    } else {
        Err(CodecError::Truncated)
    }
}

/// A 16-bit value, little-endian.
fn read_u16(input: &[u8], pos: usize) -> (r: Result<(u16, usize), CodecError>)
    requires
        pos <= input@.len(),
    ensures
        r matches Ok(v) ==> parse_u16(input@, pos as int) == Ok::<(u16, int), CodecError>(
            (v.0, v.1 as int),
        ) && pos < v.1 <= input@.len(),
        r matches Err(e) ==> parse_u16(input@, pos as int) == Err::<(u16, int), CodecError>(e),
{
    if input.len() - pos >= 2 {
        let s = slice_subrange(input, pos, pos + 2);
        Ok((u16_from_le_bytes(s), pos + 2))
    } else {
        Err(CodecError::Truncated)
    }
}

/// A 16-bit signed value.
fn read_i16(input: &[u8], pos: usize) -> (r: Result<(i16, usize), CodecError>)
    requires
        pos <= input@.len(),
    ensures
        r matches Ok(v) ==> parse_i16(input@, pos as int) == Ok::<(i16, int), CodecError>(
            (v.0, v.1 as int),
        ) && pos < v.1 <= input@.len(),
        r matches Err(e) ==> parse_i16(input@, pos as int) == Err::<(i16, int), CodecError>(e),
{
    match read_u16(input, pos) {
        Ok((x, p)) => Ok((x as i16, p)),
        Err(e) => Err(e),
    }
}

/// A 32-bit value, little-endian.
fn read_u32(input: &[u8], pos: usize) -> (r: Result<(u32, usize), CodecError>)
    requires
        pos <= input@.len(),
    ensures
        r matches Ok(v) ==> parse_u32(input@, pos as int) == Ok::<(u32, int), CodecError>(
            (v.0, v.1 as int),
        ) && pos < v.1 <= input@.len(),
        r matches Err(e) ==> parse_u32(input@, pos as int) == Err::<(u32, int), CodecError>(e),
{
    if input.len() - pos >= 4 {
        let s = slice_subrange(input, pos, pos + 4);
        Ok((u32_from_le_bytes(s), pos + 4))
    } else {
        Err(CodecError::Truncated)
    }
}

/// A space-optimized byte string.
fn read_str(input: &[u8], pos: usize) -> (r: Result<(SpaceOptimizedString, usize), CodecError>)
    requires
        pos <= input@.len(),
    ensures
        r matches Ok(v) ==> parse_str(input@, pos as int) == Ok::<(Seq<u8>, int), CodecError>(
            (v.0@, v.1 as int),
        ) && pos < v.1 <= input@.len() && wf_string(v.0@),
        r matches Err(e) ==> parse_str(input@, pos as int) == Err::<(Seq<u8>, int), CodecError>(e),
{
    let (s0, p1) = read_u8(input, pos)?;
    if s0 == 255 {
        let (n, p2) = read_u32(input, p1)?;
        let count = n as usize;
        if input.len() - p2 >= count {
            let sl = slice_subrange(input, p2, p2 + count);
            let v = slice_to_vec(sl);
            Ok((SpaceOptimizedString { value: v }, p2 + count))
        } else {
            Err(CodecError::Truncated)
        }
    } else {
        let count = s0 as usize;
        if input.len() - p1 >= count {
            let sl = slice_subrange(input, p1, p1 + count);
            let v = slice_to_vec(sl);
            Ok((SpaceOptimizedString { value: v }, p1 + count))
        } else {
            Err(CodecError::Truncated)
        }
    }
}

/// The first byte of a slice, as a one-byte array.
fn arr1(b: &[u8]) -> (r: [u8; 1])
    requires
        b@.len() == 1,
    ensures
        r@ == b@,
{
    let r = [*slice_index_get(b, 0)];
    proof {
        assert(r@ =~= b@);
    }
    r
}

/// The four bytes of a slice, as an array.
fn arr4(b: &[u8]) -> (r: [u8; 4])
    requires
        b@.len() == 4,
    ensures
        r@ == b@,
{
    let r = [
        *slice_index_get(b, 0),
        *slice_index_get(b, 1),
        *slice_index_get(b, 2),
        *slice_index_get(b, 3),
    ];
    proof {
        assert(r@ =~= b@);
    }
    r
}

/// The five bytes of a slice, as an array.
fn arr5(b: &[u8]) -> (r: [u8; 5])
    requires
        b@.len() == 5,
    ensures
        r@ == b@,
{
    let r = [
        *slice_index_get(b, 0),
        *slice_index_get(b, 1),
        *slice_index_get(b, 2),
        *slice_index_get(b, 3),
        *slice_index_get(b, 4),
    ];
    proof {
        assert(r@ =~= b@);
    }
    r
}

/// The fixed payload length of a variant, as a machine value.
pub fn payload_len_of(k: ProgressKind) -> (n: usize)
    ensures
        n == payload_len(k),
{
    match k {
        ProgressKind::Achievement => 0,
        ProgressKind::BuildEntity => 4,
        ProgressKind::ChangeSurface => 1,
        ProgressKind::CombatRobotCount => 4,
        ProgressKind::CompleteObjective => 0,
        ProgressKind::ConstructWithRobots => 8,
        ProgressKind::CreatePlatform => 4,
        ProgressKind::DeconstructWithRobots => 4,
        ProgressKind::DeliverByRobots => 4,
        ProgressKind::DepleteResource => 4,
        ProgressKind::DestroyCliff => 4,
        ProgressKind::DontBuildEntity => 5,
        ProgressKind::DontCraftManually => 4,
        ProgressKind::DontUseEntityInEnergyProduction => 8,
        ProgressKind::EquipArmor => 4,
        ProgressKind::FinishTheGame => 4,
        ProgressKind::GroupAttack => 4,
        ProgressKind::Kill => 8,
        ProgressKind::ModuleTransfer => 4,
        ProgressKind::PlaceEquipment => 4,
        ProgressKind::PlayerDamaged => 5,
        ProgressKind::Produce => 8,
        ProgressKind::ProducePerHour => 8,
        ProgressKind::Research => 0,
        ProgressKind::ResearchWithSciencePack => 4,
        ProgressKind::Shoot => 4,
        ProgressKind::SpaceConnectionDistanceTraveled => 4,
        ProgressKind::TrainPath => 8,
        ProgressKind::UseEntityInEnergyProduction => 5,
        ProgressKind::UseItem => 4,
    }
}

/// Rebuild the progress variant selected by `k` from its payload bytes.
fn progress_from_payload(k: ProgressKind, b: &[u8]) -> (p: AchievementProgress)
    requires
        b@.len() == payload_len(k),
    ensures
        p@ == (ProgressV { kind: k, payload: b@ }),
{
    proof {
        vstd::bytes::lemma_auto_spec_u32_to_from_le_bytes();
        vstd::bytes::lemma_auto_spec_u64_to_from_le_bytes();
    }
    match k {
        ProgressKind::Achievement => {
            proof {
                assert(b@ =~= Seq::<u8>::empty());
            }
            AchievementProgress::Achievement
        },
        ProgressKind::BuildEntity => AchievementProgress::BuildEntity(arr4(b)),
        ProgressKind::ChangeSurface => AchievementProgress::ChangeSurface(arr1(b)),
        ProgressKind::CombatRobotCount => {
            let x = u32_from_le_bytes(b);
            proof {
                assert((x as i32) as u32 == x) by (bit_vector);
            }
            AchievementProgress::CombatRobotCount(#[verifier::truncate] (x as i32))
        },
        ProgressKind::CompleteObjective => {
            proof {
                assert(b@ =~= Seq::<u8>::empty());
            }
            AchievementProgress::CompleteObjective
        },
        ProgressKind::ConstructWithRobots => {
            let x = u32_from_le_bytes(slice_subrange(b, 0, 4));
            let u = arr4(slice_subrange(b, 4, 8));
            proof {
                assert((x as i32) as u32 == x) by (bit_vector);
                assert(b@.subrange(0, 4) + b@.subrange(4, 8) =~= b@);
            }
            AchievementProgress::ConstructWithRobots { constructed: #[verifier::truncate] (x as i32), unknown: u }
        },
        ProgressKind::CreatePlatform => AchievementProgress::CreatePlatform(arr4(b)),
        ProgressKind::DeconstructWithRobots => {
            let x = u32_from_le_bytes(b);
            proof {
                assert((x as i32) as u32 == x) by (bit_vector);
            }
            AchievementProgress::DeconstructWithRobots { deconstructed: #[verifier::truncate] (x as i32) }
        },
        ProgressKind::DeliverByRobots => AchievementProgress::DeliverByRobots(arr4(b)),
        ProgressKind::DepleteResource => AchievementProgress::DepleteResource(arr4(b)),
        ProgressKind::DestroyCliff => AchievementProgress::DestroyCliff(arr4(b)),
        ProgressKind::DontBuildEntity => AchievementProgress::DontBuildEntity(arr5(b)),
        ProgressKind::DontCraftManually => AchievementProgress::DontCraftManually(arr4(b)),
        ProgressKind::DontUseEntityInEnergyProduction => {
            let x = u64_from_le_bytes(b);
            AchievementProgress::DontUseEntityInEnergyProduction { max_j_per_h: x }
        },
        ProgressKind::EquipArmor => AchievementProgress::EquipArmor(arr4(b)),
        ProgressKind::FinishTheGame => AchievementProgress::FinishTheGame(arr4(b)),
        ProgressKind::GroupAttack => AchievementProgress::GroupAttack(arr4(b)),
        ProgressKind::Kill => {
            let x = u64_from_le_bytes(b);
            AchievementProgress::Kill { max_killed: x }
        },
        ProgressKind::ModuleTransfer => AchievementProgress::ModuleTransfer(arr4(b)),
        ProgressKind::PlaceEquipment => AchievementProgress::PlaceEquipment(arr4(b)),
        ProgressKind::PlayerDamaged => {
            let d = u32_from_le_bytes(slice_subrange(b, 0, 4));
            let s = *slice_index_get(b, 4);
            proof {
                assert(b@.subrange(0, 4) + seq![b@[4]] =~= b@);
            }
            AchievementProgress::PlayerDamaged { max_damage: d, survived: s }
        },
        ProgressKind::Produce => {
            let x = u64_from_le_bytes(b);
            AchievementProgress::Produce { produced: x }
        },
        ProgressKind::ProducePerHour => {
            let x = u64_from_le_bytes(b);
            AchievementProgress::ProducePerHour { max_per_h: x }
        },
        ProgressKind::Research => {
            proof {
                assert(b@ =~= Seq::<u8>::empty());
            }
            AchievementProgress::Research
        },
        ProgressKind::ResearchWithSciencePack => AchievementProgress::ResearchWithSciencePack(arr4(b)),
        ProgressKind::Shoot => AchievementProgress::Shoot(arr4(b)),
        ProgressKind::SpaceConnectionDistanceTraveled => AchievementProgress::SpaceConnectionDistanceTraveled(arr4(b)),
        ProgressKind::TrainPath => {
            let x = u64_from_le_bytes(b);
            AchievementProgress::TrainPath { longest_path: x }
        },
        ProgressKind::UseEntityInEnergyProduction => AchievementProgress::UseEntityInEnergyProduction(arr5(b)),
        ProgressKind::UseItem => AchievementProgress::UseItem(arr4(b)),
    }
}


/// One subobject.
fn read_subobject(input: &[u8], pos: usize) -> (r: Result<(HeaderSubobject, usize), CodecError>)
    requires
        pos <= input@.len(),
    ensures
        r matches Ok(v) ==> parse_subobject(input@, pos as int) == Ok::<
            (SubobjectV, int),
            CodecError,
        >((v.0@, v.1 as int)) && pos < v.1 <= input@.len() && wf_subobject(v.0@),
        r matches Err(e) ==> parse_subobject(input@, pos as int) == Err::<
            (SubobjectV, int),
            CodecError,
        >(e),
{
    let (id, p1) = read_str(input, pos)?;
    let (index, p2) = read_i16(input, p1)?;
    Ok((HeaderSubobject { id, index }, p2))
}

/// One header: a tag, a 16-bit count, then that many subobjects.
#[verifier::loop_isolation(false)]
fn read_header(input: &[u8], pos: usize) -> (r: Result<(AchievementHeader, usize), CodecError>)
    requires
        pos <= input@.len(),
    ensures
        r matches Ok(v) ==> parse_header(input@, pos as int) == Ok::<(HeaderV, int), CodecError>(
            (v.0@, v.1 as int),
        ) && pos < v.1 <= input@.len() && wf_header(v.0@),
        r matches Err(e) ==> parse_header(input@, pos as int) == Err::<(HeaderV, int), CodecError>(
            e,
        ),
{
    let (typ, p1) = read_str(input, pos)?;
    let (n, p2) = read_u16(input, p1)?;
    let count = n as usize;
    let mut subobjects: Vec<HeaderSubobject> = Vec::new();
    let mut cur = p2;
    let mut k: usize = 0;
    while k < count
        invariant
            0 <= k <= count,
            count <= u16::MAX,
            pos < cur <= input@.len(),
            subobjects@.len() == k,
            forall|j: int| 0 <= j < k ==> wf_subobject(#[trigger] subobjects@[j]@),
            prepend_row(
                subobjects@.map_values(|s: HeaderSubobject| s@),
                parse_subobjects(input@, cur as int, (count - k) as nat),
            ) == parse_subobjects(input@, p2 as int, count as nat),
        decreases count - k,
    {
        let ghost pre = subobjects@.map_values(|s: HeaderSubobject| s@);
        let res = read_subobject(input, cur);
        match res {
            Err(e) => {
                proof {
}
                return Err(e);
            },
            Ok((s, p)) => {
                proof {
                    lemma_parse_subobjects_step(input@, cur as int, (count - k) as nat, pre);
                    assert(subobjects@.push(s).map_values(|x: HeaderSubobject| x@) =~= pre.push(
                        s@,
                    ));
                }
                subobjects.push(s);
                cur = p;
            },
        }
        k = k + 1;
    }
    proof {
        let views = subobjects@.map_values(|s: HeaderSubobject| s@);
        assert(parse_subobjects(input@, cur as int, 0) == Ok::<(Seq<SubobjectV>, int), CodecError>(
            (Seq::empty(), cur as int),
        ));
        assert(views + Seq::<SubobjectV>::empty() =~= views);
    }
    Ok((AchievementHeader { typ, subobjects }, cur))
}

/// One content: a tag, an id, then the payload the tag selects.
fn read_content(input: &[u8], pos: usize) -> (r: Result<(AchievementContent, usize), CodecError>)
    requires
        pos <= input@.len(),
    ensures
        r matches Ok(v) ==> parse_content(input@, pos as int) == Ok::<(ContentV, int), CodecError>(
            (v.0@, v.1 as int),
        ) && pos < v.1 <= input@.len() && wf_content(v.0@),
        r matches Err(e) ==> parse_content(input@, pos as int) == Err::<
            (ContentV, int),
            CodecError,
        >(e),
{
    let (typ, p1) = read_str(input, pos)?;
    let (id, p2) = read_str(input, p1)?;
    match match_tag(typ.bytes().as_slice()) {
        None => {
            if tag_is_reserved(typ.bytes().as_slice()) {
                Err(CodecError::UnknownPayloadLayout)
            } else {
                Err(CodecError::UnknownTag)
            }
        },
        Some(k) => {
            proof {
                lemma_kind_of_tag_sound(typ@);
            }
            let plen = payload_len_of(k);
            if input.len() - p2 >= plen {
                let pb = slice_subrange(input, p2, p2 + plen);
                let progress = progress_from_payload(k, pb);
                Ok((AchievementContent { typ, id, progress }, p2 + plen))
            } else {
                Err(CodecError::Truncated)
            }
        },
    }
}

/// Exactly `n` headers.
#[verifier::loop_isolation(false)]
fn read_headers(input: &[u8], pos: usize, n: u16) -> (r: Result<
    (Vec<AchievementHeader>, usize),
    CodecError,
>)
    requires
        pos <= input@.len(),
    ensures
        r matches Ok(v) ==> parse_headers(input@, pos as int, n as nat) == Ok::<
            (Seq<HeaderV>, int),
            CodecError,
        >((v.0@.map_values(|h: AchievementHeader| h@), v.1 as int)) && pos <= v.1 <= input@.len()
            && v.0@.len() == n && (forall|j: int|
            0 <= j < v.0@.len() ==> wf_header(#[trigger] v.0@[j]@)),
        r matches Err(e) ==> parse_headers(input@, pos as int, n as nat) == Err::<
            (Seq<HeaderV>, int),
            CodecError,
        >(e),
{
    let count = n as usize;
    let mut headers: Vec<AchievementHeader> = Vec::new();
    let mut cur = pos;
    let mut k: usize = 0;
    while k < count
        invariant
            0 <= k <= count,
            pos <= cur <= input@.len(),
            headers@.len() == k,
            forall|j: int| 0 <= j < k ==> wf_header(#[trigger] headers@[j]@),
            prepend_row(
                headers@.map_values(|h: AchievementHeader| h@),
                parse_headers(input@, cur as int, (count - k) as nat),
            ) == parse_headers(input@, pos as int, count as nat),
        decreases count - k,
    {
        let ghost pre = headers@.map_values(|h: AchievementHeader| h@);
        let res = read_header(input, cur);
        match res {
            Err(e) => {
                return Err(e);
            },
            Ok((h, p)) => {
                proof {
                    lemma_parse_headers_step(input@, cur as int, (count - k) as nat, pre);
                    assert(headers@.push(h).map_values(|x: AchievementHeader| x@) =~= pre.push(h@));
                }
                headers.push(h);
                cur = p;
            },
        }
        k = k + 1;
    }
    proof {
        let views = headers@.map_values(|h: AchievementHeader| h@);
        assert(parse_headers(input@, cur as int, 0) == Ok::<(Seq<HeaderV>, int), CodecError>(
            (Seq::empty(), cur as int),
        ));
        assert(views + Seq::<HeaderV>::empty() =~= views);
    }
    Ok((headers, cur))
}

/// Exactly `n` contents.
#[verifier::loop_isolation(false)]
fn read_contents(input: &[u8], pos: usize, n: u32) -> (r: Result<
    (Vec<AchievementContent>, usize),
    CodecError,
>)
    requires
        pos <= input@.len(),
    ensures
        r matches Ok(v) ==> parse_contents(input@, pos as int, n as nat) == Ok::<
            (Seq<ContentV>, int),
            CodecError,
        >((v.0@.map_values(|c: AchievementContent| c@), v.1 as int)) && pos <= v.1 <= input@.len()
            && v.0@.len() == n && (forall|j: int|
            0 <= j < v.0@.len() ==> wf_content(#[trigger] v.0@[j]@)),
        r matches Err(e) ==> parse_contents(input@, pos as int, n as nat) == Err::<
            (Seq<ContentV>, int),
            CodecError,
        >(e),
{
    let count = n as usize;
    let mut contents: Vec<AchievementContent> = Vec::new();
    let mut cur = pos;
    let mut k: usize = 0;
    while k < count
        invariant
            0 <= k <= count,
            pos <= cur <= input@.len(),
            contents@.len() == k,
            forall|j: int| 0 <= j < k ==> wf_content(#[trigger] contents@[j]@),
            prepend_row(
                contents@.map_values(|c: AchievementContent| c@),
                parse_contents(input@, cur as int, (count - k) as nat),
            ) == parse_contents(input@, pos as int, count as nat),
        decreases count - k,
    {
        let ghost pre = contents@.map_values(|c: AchievementContent| c@);
        let res = read_content(input, cur);
        match res {
            Err(e) => {
                return Err(e);
            },
            Ok((c, p)) => {
                proof {
                    lemma_parse_contents_step(input@, cur as int, (count - k) as nat, pre);
                    assert(contents@.push(c).map_values(|x: AchievementContent| x@) =~= pre.push(
                        c@,
                    ));
                }
                contents.push(c);
                cur = p;
            },
        }
        k = k + 1;
    }
    proof {
        let views = contents@.map_values(|c: AchievementContent| c@);
        assert(parse_contents(input@, cur as int, 0) == Ok::<(Seq<ContentV>, int), CodecError>(
            (Seq::empty(), cur as int),
        ));
        assert(views + Seq::<ContentV>::empty() =~= views);
    }
    Ok((contents, cur))
}

/// 16-bit values until the end of the input.
#[verifier::loop_isolation(false)]
fn read_tracked(input: &[u8], pos: usize) -> (r: Result<(Vec<i16>, usize), CodecError>)
    requires
        pos <= input@.len(),
    ensures
        r matches Ok(v) ==> parse_tracked(input@, pos as int) == Ok::<
            (Seq<i16>, int),
            CodecError,
        >((v.0@, v.1 as int)) && v.1 == input@.len(),
        r matches Err(e) ==> parse_tracked(input@, pos as int) == Err::<
            (Seq<i16>, int),
            CodecError,
        >(e),
{
    let mut acc: Vec<i16> = Vec::new();
    let mut cur = pos;
    while input.len() - cur >= 2
        invariant
            pos <= cur <= input@.len(),
            prepend_row(acc@, parse_tracked(input@, cur as int)) == parse_tracked(
                input@,
                pos as int,
            ),
        decreases input@.len() - cur,
    {
        let x = u16_from_le_bytes(slice_subrange(input, cur, cur + 2));
        proof {
            lemma_parse_tracked_step(input@, cur as int, acc@);
        }
        acc.push(x as i16);
        cur = cur + 2;
    }
    if cur == input.len() {
        proof {
            assert(parse_tracked(input@, cur as int) == Ok::<(Seq<i16>, int), CodecError>(
                (Seq::empty(), cur as int),
            ));
            assert(acc@ + Seq::<i16>::empty() =~= acc@);
        }
        Ok((acc, cur))
    } else {
        Err(CodecError::TrailingGarbage)
    }
}

impl AchievementsDat {
    /// Decode a whole achievements file from bytes.
    ///
    /// Returns exactly what the file grammar prescribes: the decoded tree,
    /// which is always well-formed, or the error the first ill-formed part
    /// of the input calls for.
    pub fn parse(input: &[u8]) -> (r: Result<AchievementsDat, CodecError>)
        ensures
            r matches Ok(d) ==> parse_file(input@) == Ok::<FileV, CodecError>(d@) && wf_file(d@),
            r matches Err(e) ==> parse_file(input@) == Err::<FileV, CodecError>(e),
    {
        let (v0, p1) = read_i16(input, 0)?;
        let (v1, p2) = read_i16(input, p1)?;
        let (v2, p3) = read_i16(input, p2)?;
        let (v3, p4) = read_i16(input, p3)?;
        let (unused, p5) = read_u8(input, p4)?;
        let (hn, p6) = read_u16(input, p5)?;
        let (headers, p7) = read_headers(input, p6, hn)?;
        let (cn, p8) = read_u32(input, p7)?;
        let (contents, p9) = read_contents(input, p8, cn)?;
        let (tracked_entries, _p10) = read_tracked(input, p9)?;
        let version = [v0, v1, v2, v3];
        let d = AchievementsDat { version, unused, headers, contents, tracked_entries };
        proof {
            assert(version@ =~= seq![v0, v1, v2, v3]);
        }
        Ok(d)
    }
}

} // verus!

