use vstd::prelude::*;
use vstd::bytes::{spec_u16_to_le_bytes, spec_u32_to_le_bytes, spec_u64_to_le_bytes};
use vstd::bytes::{u16_to_le_bytes, u32_to_le_bytes, u64_to_le_bytes};
use crate::error::CodecError;
use crate::model::{
    AchievementContent, AchievementHeader, AchievementsDat, ContentV, FileV, HeaderSubobject,
    HeaderV, SpaceOptimizedString, SubobjectV, wf_content, wf_file, wf_header, wf_string,
    wf_subobject, wf_progress,
};
use crate::progress::{AchievementProgress, lemma_progress_payload_len};
use crate::tags::{ProgressKind, bytes_eq, tag_bytes, lemma_tag_table};

verus! {

// ---------------------------------------------------------------------------
// The encoding, as spec functions: what each part of the tree looks like on
// disk. `enc_file` is the reference the executable encoder and decoder are
// both held to.
// ---------------------------------------------------------------------------

/// A 16-bit value, little-endian.
pub open spec fn enc_u16(x: u16) -> Seq<u8> {
    spec_u16_to_le_bytes(x)
}

/// A 16-bit signed value: its bit pattern, little-endian.
pub open spec fn enc_i16(x: i16) -> Seq<u8> {
    spec_u16_to_le_bytes(x as u16)
}

/// A 32-bit value, little-endian.
pub open spec fn enc_u32(x: u32) -> Seq<u8> {
    spec_u32_to_le_bytes(x)
}

/// A byte string with the space-optimized length prefix: lengths below 255
/// use one length byte, all others a 255 marker and the 4-byte length.
pub open spec fn enc_str(s: Seq<u8>) -> Seq<u8> {
    if s.len() < 255 {
        seq![s.len() as u8] + s
    } else {
        seq![255u8] + spec_u32_to_le_bytes(s.len() as u32) + s
    }
}

/// A subobject: its id, then its 16-bit index.
pub open spec fn enc_subobject(s: SubobjectV) -> Seq<u8> {
    enc_str(s.id) + enc_i16(s.index)
}

/// A row of subobjects, in order.
pub open spec fn enc_subobjects(ss: Seq<SubobjectV>) -> Seq<u8>
    decreases ss.len(),
{
    if ss.len() == 0 {
        Seq::empty()
    } else {
        enc_subobject(ss[0]) + enc_subobjects(ss.drop_first())
    }
}

/// A header: its tag, a 16-bit subobject count, then the subobjects.
pub open spec fn enc_header(h: HeaderV) -> Seq<u8> {
    enc_str(h.tag) + enc_u16(h.subobjects.len() as u16) + enc_subobjects(h.subobjects)
}

/// A row of headers, in order.
pub open spec fn enc_headers(hs: Seq<HeaderV>) -> Seq<u8>
    decreases hs.len(),
{
    if hs.len() == 0 {
        Seq::empty()
    } else {
        enc_header(hs[0]) + enc_headers(hs.drop_first())
    }
}

/// A content: its tag, its id, then the progress payload bytes.
pub open spec fn enc_content(c: ContentV) -> Seq<u8> {
    enc_str(c.tag) + enc_str(c.id) + c.progress.payload
}

/// A row of contents, in order.
pub open spec fn enc_contents(cs: Seq<ContentV>) -> Seq<u8>
    decreases cs.len(),
{
    if cs.len() == 0 {
        Seq::empty()
    } else {
        enc_content(cs[0]) + enc_contents(cs.drop_first())
    }
}

/// A row of 16-bit values, in order, with no count prefix.
pub open spec fn enc_i16s(ts: Seq<i16>) -> Seq<u8>
    decreases ts.len(),
{
    if ts.len() == 0 {
        Seq::empty()
    } else {
        enc_i16(ts[0]) + enc_i16s(ts.drop_first())
    }
}

/// A whole file: the version quad, the reserved byte, the 16-bit-counted
/// headers, the 32-bit-counted contents, and the tracked values to the end.
pub open spec fn enc_file(f: FileV) -> Seq<u8> {
    enc_i16s(f.version) + seq![f.unused] + enc_u16(f.headers.len() as u16) + enc_headers(f.headers)
        + enc_u32(f.contents.len() as u32) + enc_contents(f.contents) + enc_i16s(f.tracked_entries)
}

// ---------------------------------------------------------------------------
// Which error, if any, encoding a tree reports: the first failure in stream
// order. Every length failure is `LengthOverflow`; a content whose tag does
// not name its progress variant is `InternalConsistency`.
// ---------------------------------------------------------------------------

/// The first encode error of a subobject.
pub open spec fn enc_err_subobject(s: SubobjectV) -> Option<CodecError> {
    if !wf_string(s.id) {
        Some(CodecError::LengthOverflow)
    } else {
        None
    }
}

/// The first encode error among a row of subobjects.
pub open spec fn enc_err_subobjects(ss: Seq<SubobjectV>) -> Option<CodecError>
    decreases ss.len(),
{
    if ss.len() == 0 {
        None
    } else if enc_err_subobject(ss[0]) is Some {
        enc_err_subobject(ss[0])
    } else {
        enc_err_subobjects(ss.drop_first())
    }
}

/// The first encode error of a header.
pub open spec fn enc_err_header(h: HeaderV) -> Option<CodecError> {
    if !wf_string(h.tag) {
        Some(CodecError::LengthOverflow)
    } else if h.subobjects.len() > u16::MAX {
        Some(CodecError::LengthOverflow)
    } else {
        enc_err_subobjects(h.subobjects)
    }
}

/// The first encode error among a row of headers.
pub open spec fn enc_err_headers(hs: Seq<HeaderV>) -> Option<CodecError>
    decreases hs.len(),
{
    if hs.len() == 0 {
        None
    } else if enc_err_header(hs[0]) is Some {
        enc_err_header(hs[0])
    } else {
        enc_err_headers(hs.drop_first())
    }
}

/// The first encode error of a content.
pub open spec fn enc_err_content(c: ContentV) -> Option<CodecError> {
    if !wf_string(c.tag) {
        Some(CodecError::LengthOverflow)
    } else if !wf_string(c.id) {
        Some(CodecError::LengthOverflow)
    } else if c.tag != tag_bytes(c.progress.kind) {
        Some(CodecError::InternalConsistency)
    } else {
        None
    }
}

/// The first encode error among a row of contents.
pub open spec fn enc_err_contents(cs: Seq<ContentV>) -> Option<CodecError>
    decreases cs.len(),
{
    if cs.len() == 0 {
        None
    } else if enc_err_content(cs[0]) is Some {
        enc_err_content(cs[0])
    } else {
        enc_err_contents(cs.drop_first())
    }
}

/// The first encode error of a whole tree, in stream order.
pub open spec fn enc_err_file(f: FileV) -> Option<CodecError> {
    if f.headers.len() > u16::MAX {
        Some(CodecError::LengthOverflow)
    } else if enc_err_headers(f.headers) is Some {
        enc_err_headers(f.headers)
    } else if f.contents.len() > u32::MAX {
        Some(CodecError::LengthOverflow)
    } else {
        enc_err_contents(f.contents)
    }
}

// ---------------------------------------------------------------------------
// The executable encoder.
// ---------------------------------------------------------------------------

/// Append a slice of bytes.
fn write_bytes(out: &mut Vec<u8>, b: &[u8])
    ensures
        final(out)@ == old(out)@ + b@,
{
    let mut i: usize = 0;
    while i < b.len()
        invariant
            0 <= i <= b@.len(),
            out@ == old(out)@ + b@.subrange(0, i as int),
        decreases b@.len() - i,
    {
        out.push(*vstd::slice::slice_index_get(b, i));
        i = i + 1;
        proof {
            assert(out@ =~= old(out)@ + b@.subrange(0, i as int));
        }
    }
    proof {
        assert(old(out)@ + b@.subrange(0, b@.len() as int) =~= old(out)@ + b@);
    }
}

/// Append a 16-bit value, little-endian.
fn write_u16(out: &mut Vec<u8>, x: u16)
    ensures
        final(out)@ == old(out)@ + enc_u16(x),
{
    let mut b = u16_to_le_bytes(x);
    out.append(&mut b);
}

/// Append a 16-bit signed value.
fn write_i16(out: &mut Vec<u8>, x: i16)
    ensures
        final(out)@ == old(out)@ + enc_i16(x),
{
    write_u16(out, x as u16);
}

/// Append a 32-bit value, little-endian.
fn write_u32(out: &mut Vec<u8>, x: u32)
    ensures
        final(out)@ == old(out)@ + enc_u32(x),
{
    let mut b = u32_to_le_bytes(x);
    out.append(&mut b);
}

/// Append a 64-bit value, little-endian.
fn write_u64(out: &mut Vec<u8>, x: u64)
    ensures
        final(out)@ == old(out)@ + spec_u64_to_le_bytes(x),
{
    let mut b = u64_to_le_bytes(x);
    out.append(&mut b);
}

/// Append a byte string behind its compact/long length prefix; fail if the
/// length does not fit the 4-byte long form.
fn write_str(out: &mut Vec<u8>, s: &SpaceOptimizedString) -> (r: Result<(), CodecError>)
    ensures
        wf_string(s@) ==> r is Ok && final(out)@ == old(out)@ + enc_str(s@),
        !wf_string(s@) ==> r == Err::<(), CodecError>(CodecError::LengthOverflow) && final(out)@
            == old(out)@,
{
    let n = s.bytes().len();
    if n < 255 {
        out.push(n as u8);
        write_bytes(out, s.bytes().as_slice());
        proof {
            assert(final(out)@ =~= old(out)@ + enc_str(s@));
        }
        Ok(())
    } else if n <= 0xFFFF_FFFFusize {
        out.push(255u8);
        write_u32(out, n as u32);
        write_bytes(out, s.bytes().as_slice());
        proof {
            assert(final(out)@ =~= old(out)@ + enc_str(s@));
        }
        Ok(())
    } else {
        Err(CodecError::LengthOverflow)
    }
}

/// Append the payload bytes of a progress value.
fn write_progress(out: &mut Vec<u8>, p: &AchievementProgress)
    ensures
        final(out)@ == old(out)@ + p@.payload,
{
    match p {
        AchievementProgress::Achievement => (),
        AchievementProgress::BuildEntity(b) => write_bytes(out, b.as_slice()),
        AchievementProgress::ChangeSurface(b) => write_bytes(out, b.as_slice()),
        AchievementProgress::CombatRobotCount(n) => write_u32(out, *n as u32),
        AchievementProgress::CompleteObjective => (),
        AchievementProgress::ConstructWithRobots { constructed, unknown } => {
            write_u32(out, *constructed as u32);
            write_bytes(out, unknown.as_slice());
        },
        AchievementProgress::CreatePlatform(b) => write_bytes(out, b.as_slice()),
        AchievementProgress::DeconstructWithRobots { deconstructed } => {
            write_u32(out, *deconstructed as u32);
        },
        AchievementProgress::DeliverByRobots(b) => write_bytes(out, b.as_slice()),
        AchievementProgress::DepleteResource(b) => write_bytes(out, b.as_slice()),
        AchievementProgress::DestroyCliff(b) => write_bytes(out, b.as_slice()),
        AchievementProgress::DontBuildEntity(b) => write_bytes(out, b.as_slice()),
        AchievementProgress::DontCraftManually(b) => write_bytes(out, b.as_slice()),
        AchievementProgress::DontUseEntityInEnergyProduction { max_j_per_h } => {
            write_u64(out, *max_j_per_h);
        },
        AchievementProgress::EquipArmor(b) => write_bytes(out, b.as_slice()),
        AchievementProgress::FinishTheGame(b) => write_bytes(out, b.as_slice()),
        AchievementProgress::GroupAttack(b) => write_bytes(out, b.as_slice()),
        AchievementProgress::Kill { max_killed } => write_u64(out, *max_killed),
        AchievementProgress::ModuleTransfer(b) => write_bytes(out, b.as_slice()),
        AchievementProgress::PlaceEquipment(b) => write_bytes(out, b.as_slice()),
        AchievementProgress::PlayerDamaged { max_damage, survived } => {
            write_u32(out, *max_damage);
            out.push(*survived);
        },
        AchievementProgress::Produce { produced } => write_u64(out, *produced),
        AchievementProgress::ProducePerHour { max_per_h } => write_u64(out, *max_per_h),
        AchievementProgress::Research => (),
        AchievementProgress::ResearchWithSciencePack(b) => write_bytes(out, b.as_slice()),
        AchievementProgress::Shoot(b) => write_bytes(out, b.as_slice()),
        AchievementProgress::SpaceConnectionDistanceTraveled(b) => write_bytes(out, b.as_slice()),
        AchievementProgress::TrainPath { longest_path } => write_u64(out, *longest_path),
        AchievementProgress::UseEntityInEnergyProduction(b) => write_bytes(out, b.as_slice()),
        AchievementProgress::UseItem(b) => write_bytes(out, b.as_slice()),
    }
    proof {
        assert(final(out)@ =~= old(out)@ + p@.payload);
    }
}

/// The tag bytes that name a variant, as a static slice.
pub fn tag_of_kind(k: ProgressKind) -> (r: &'static [u8])
    ensures
        r@ == tag_bytes(k),
{
    match k {
        ProgressKind::Achievement => "achievement".as_bytes(),
        ProgressKind::BuildEntity => "build-entity-achievement".as_bytes(),
        ProgressKind::ChangeSurface => "change-surface-achievement".as_bytes(),
        ProgressKind::CombatRobotCount => "combat-robot-count-achievement".as_bytes(),
        ProgressKind::CompleteObjective => "complete-objective-achievement".as_bytes(),
        ProgressKind::ConstructWithRobots => "construct-with-robots-achievement".as_bytes(),
        ProgressKind::CreatePlatform => "create-platform-achievement".as_bytes(),
        ProgressKind::DeconstructWithRobots => "deconstruct-with-robots-achievement".as_bytes(),
        ProgressKind::DeliverByRobots => "deliver-by-robots-achievement".as_bytes(),
        ProgressKind::DepleteResource => "deplete-resource-achievement".as_bytes(),
        ProgressKind::DestroyCliff => "destroy-cliff-achievement".as_bytes(),
        ProgressKind::DontBuildEntity => "dont-build-entity-achievement".as_bytes(),
        ProgressKind::DontCraftManually => "dont-craft-manually-achievement".as_bytes(),
        ProgressKind::DontUseEntityInEnergyProduction => "dont-use-entity-in-energy-production-achievement".as_bytes(),
        ProgressKind::EquipArmor => "equip-armor-achievement".as_bytes(),
        ProgressKind::FinishTheGame => "finish-the-game-achievement".as_bytes(),
        ProgressKind::GroupAttack => "group-attack-achievement".as_bytes(),
        ProgressKind::Kill => "kill-achievement".as_bytes(),
        ProgressKind::ModuleTransfer => "module-transfer-achievement".as_bytes(),
        ProgressKind::PlaceEquipment => "place-equipment-achievement".as_bytes(),
        ProgressKind::PlayerDamaged => "player-damaged-achievement".as_bytes(),
        ProgressKind::Produce => "produce-achievement".as_bytes(),
        ProgressKind::ProducePerHour => "produce-per-hour-achievement".as_bytes(),
        ProgressKind::Research => "research-achievement".as_bytes(),
        ProgressKind::ResearchWithSciencePack => "research-with-science-pack-achievement".as_bytes(),
        ProgressKind::Shoot => "shoot-achievement".as_bytes(),
        ProgressKind::SpaceConnectionDistanceTraveled => "space-connection-distance-traveled-achievement".as_bytes(),
        ProgressKind::TrainPath => "train-path-achievement".as_bytes(),
        ProgressKind::UseEntityInEnergyProduction => "use-entity-in-energy-production-achievement".as_bytes(),
        ProgressKind::UseItem => "use-item-achievement".as_bytes(),
    }
}

impl AchievementProgress {
    /// Which variant this progress value is.
    pub fn variant_kind(&self) -> (k: ProgressKind)
        ensures
            k == self@.kind,
    {
        match self {
            AchievementProgress::Achievement => ProgressKind::Achievement,
            AchievementProgress::BuildEntity(..) => ProgressKind::BuildEntity,
            AchievementProgress::ChangeSurface(..) => ProgressKind::ChangeSurface,
            AchievementProgress::CombatRobotCount(..) => ProgressKind::CombatRobotCount,
            AchievementProgress::CompleteObjective => ProgressKind::CompleteObjective,
            AchievementProgress::ConstructWithRobots { .. } => ProgressKind::ConstructWithRobots,
            AchievementProgress::CreatePlatform(..) => ProgressKind::CreatePlatform,
            AchievementProgress::DeconstructWithRobots { .. } => ProgressKind::DeconstructWithRobots,
            AchievementProgress::DeliverByRobots(..) => ProgressKind::DeliverByRobots,
            AchievementProgress::DepleteResource(..) => ProgressKind::DepleteResource,
            AchievementProgress::DestroyCliff(..) => ProgressKind::DestroyCliff,
            AchievementProgress::DontBuildEntity(..) => ProgressKind::DontBuildEntity,
            AchievementProgress::DontCraftManually(..) => ProgressKind::DontCraftManually,
            AchievementProgress::DontUseEntityInEnergyProduction { .. } => ProgressKind::DontUseEntityInEnergyProduction,
            AchievementProgress::EquipArmor(..) => ProgressKind::EquipArmor,
            AchievementProgress::FinishTheGame(..) => ProgressKind::FinishTheGame,
            AchievementProgress::GroupAttack(..) => ProgressKind::GroupAttack,
            AchievementProgress::Kill { .. } => ProgressKind::Kill,
            AchievementProgress::ModuleTransfer(..) => ProgressKind::ModuleTransfer,
            AchievementProgress::PlaceEquipment(..) => ProgressKind::PlaceEquipment,
            AchievementProgress::PlayerDamaged { .. } => ProgressKind::PlayerDamaged,
            AchievementProgress::Produce { .. } => ProgressKind::Produce,
            AchievementProgress::ProducePerHour { .. } => ProgressKind::ProducePerHour,
            AchievementProgress::Research => ProgressKind::Research,
            AchievementProgress::ResearchWithSciencePack(..) => ProgressKind::ResearchWithSciencePack,
            AchievementProgress::Shoot(..) => ProgressKind::Shoot,
            AchievementProgress::SpaceConnectionDistanceTraveled(..) => ProgressKind::SpaceConnectionDistanceTraveled,
            AchievementProgress::TrainPath { .. } => ProgressKind::TrainPath,
            AchievementProgress::UseEntityInEnergyProduction(..) => ProgressKind::UseEntityInEnergyProduction,
            AchievementProgress::UseItem(..) => ProgressKind::UseItem,
        }
    }
}

/// Splitting one more element off an encoded prefix of a row.
pub proof fn lemma_subobjects_take_succ(ss: Seq<SubobjectV>, i: int)
    requires
        0 <= i < ss.len(),
    ensures
        enc_subobjects(ss.take(i + 1)) == enc_subobjects(ss.take(i)) + enc_subobject(ss[i]),
    decreases i,
{
    if i == 0 {
        assert(ss.take(1).drop_first() =~= Seq::<SubobjectV>::empty());
        assert(ss.take(1)[0] == ss[0]);
        assert(ss.take(0) =~= Seq::<SubobjectV>::empty());
        assert(enc_subobjects(ss.take(1)) =~= enc_subobjects(ss.take(0)) + enc_subobject(ss[0]));
    } else {
        lemma_subobjects_take_succ(ss.drop_first(), i - 1);
        assert(ss.take(i + 1).drop_first() =~= ss.drop_first().take(i));
        assert(ss.take(i).drop_first() =~= ss.drop_first().take(i - 1));
        assert(ss.take(i + 1)[0] == ss[0]);
        assert(ss.take(i)[0] == ss[0]);
        assert(ss.drop_first()[i - 1] == ss[i]);
        assert(enc_subobjects(ss.take(i + 1)) =~= enc_subobjects(ss.take(i)) + enc_subobject(ss[i]));
    }
}

/// A row's first encode error is its first failing element's error.
pub proof fn lemma_err_subobjects_first(ss: Seq<SubobjectV>, i: int)
    requires
        0 <= i < ss.len(),
        forall|j: int| 0 <= j < i ==> enc_err_subobject(#[trigger] ss[j]) is None,
        enc_err_subobject(ss[i]) is Some,
    ensures
        enc_err_subobjects(ss) == enc_err_subobject(ss[i]),
    decreases i,
{
    if i == 0 {
    } else {
        assert(enc_err_subobject(ss[0]) is None);
        assert forall|j: int| 0 <= j < i - 1 implies enc_err_subobject(
            #[trigger] ss.drop_first()[j],
        ) is None by {
            assert(ss.drop_first()[j] == ss[j + 1]);
        }
        assert(ss.drop_first()[i - 1] == ss[i]);
        lemma_err_subobjects_first(ss.drop_first(), i - 1);
    }
}

/// A row encodes exactly when every element does.
pub proof fn lemma_err_subobjects_none(ss: Seq<SubobjectV>)
    ensures
        enc_err_subobjects(ss) is None <==> (forall|j: int|
            0 <= j < ss.len() ==> enc_err_subobject(#[trigger] ss[j]) is None),
    decreases ss.len(),
{
    if ss.len() > 0 {
        lemma_err_subobjects_none(ss.drop_first());
        assert(forall|j: int|
            0 <= j < ss.drop_first().len() ==> #[trigger] ss.drop_first()[j] == ss[j + 1]);
        if forall|j: int| 0 <= j < ss.len() ==> enc_err_subobject(#[trigger] ss[j]) is None {
            assert(enc_err_subobject(ss[0]) is None);
        }
        if enc_err_subobjects(ss) is None {
            assert forall|j: int| 0 <= j < ss.len() implies enc_err_subobject(
                #[trigger] ss[j],
            ) is None by {
                if j > 0 {
                    assert(ss.drop_first()[j - 1] == ss[j]);
                }
            }
        }
    }
}

/// Splitting one more element off an encoded prefix of a row.
pub proof fn lemma_headers_take_succ(ss: Seq<HeaderV>, i: int)
    requires
        0 <= i < ss.len(),
    ensures
        enc_headers(ss.take(i + 1)) == enc_headers(ss.take(i)) + enc_header(ss[i]),
    decreases i,
{
    if i == 0 {
        assert(ss.take(1).drop_first() =~= Seq::<HeaderV>::empty());
        assert(ss.take(1)[0] == ss[0]);
        assert(ss.take(0) =~= Seq::<HeaderV>::empty());
        assert(enc_headers(ss.take(1)) =~= enc_headers(ss.take(0)) + enc_header(ss[0]));
    } else {
        lemma_headers_take_succ(ss.drop_first(), i - 1);
        assert(ss.take(i + 1).drop_first() =~= ss.drop_first().take(i));
        assert(ss.take(i).drop_first() =~= ss.drop_first().take(i - 1));
        assert(ss.take(i + 1)[0] == ss[0]);
        assert(ss.take(i)[0] == ss[0]);
        assert(ss.drop_first()[i - 1] == ss[i]);
        assert(enc_headers(ss.take(i + 1)) =~= enc_headers(ss.take(i)) + enc_header(ss[i]));
    }
}

/// A row's first encode error is its first failing element's error.
pub proof fn lemma_err_headers_first(ss: Seq<HeaderV>, i: int)
    requires
        0 <= i < ss.len(),
        forall|j: int| 0 <= j < i ==> enc_err_header(#[trigger] ss[j]) is None,
        enc_err_header(ss[i]) is Some,
    ensures
        enc_err_headers(ss) == enc_err_header(ss[i]),
    decreases i,
{
    if i == 0 {
    } else {
        assert(enc_err_header(ss[0]) is None);
        assert forall|j: int| 0 <= j < i - 1 implies enc_err_header(
            #[trigger] ss.drop_first()[j],
        ) is None by {
            assert(ss.drop_first()[j] == ss[j + 1]);
        }
        assert(ss.drop_first()[i - 1] == ss[i]);
        lemma_err_headers_first(ss.drop_first(), i - 1);
    }
}

/// A row encodes exactly when every element does.
pub proof fn lemma_err_headers_none(ss: Seq<HeaderV>)
    ensures
        enc_err_headers(ss) is None <==> (forall|j: int|
            0 <= j < ss.len() ==> enc_err_header(#[trigger] ss[j]) is None),
    decreases ss.len(),
{
    if ss.len() > 0 {
        lemma_err_headers_none(ss.drop_first());
        assert(forall|j: int|
            0 <= j < ss.drop_first().len() ==> #[trigger] ss.drop_first()[j] == ss[j + 1]);
        if forall|j: int| 0 <= j < ss.len() ==> enc_err_header(#[trigger] ss[j]) is None {
            assert(enc_err_header(ss[0]) is None);
        }
        if enc_err_headers(ss) is None {
            assert forall|j: int| 0 <= j < ss.len() implies enc_err_header(
                #[trigger] ss[j],
            ) is None by {
                if j > 0 {
                    assert(ss.drop_first()[j - 1] == ss[j]);
                }
            }
        }
    }
}

/// Splitting one more element off an encoded prefix of a row.
pub proof fn lemma_contents_take_succ(ss: Seq<ContentV>, i: int)
    requires
        0 <= i < ss.len(),
    ensures
        enc_contents(ss.take(i + 1)) == enc_contents(ss.take(i)) + enc_content(ss[i]),
    decreases i,
{
    if i == 0 {
        assert(ss.take(1).drop_first() =~= Seq::<ContentV>::empty());
        assert(ss.take(1)[0] == ss[0]);
        assert(ss.take(0) =~= Seq::<ContentV>::empty());
        assert(enc_contents(ss.take(1)) =~= enc_contents(ss.take(0)) + enc_content(ss[0]));
    } else {
        lemma_contents_take_succ(ss.drop_first(), i - 1);
        assert(ss.take(i + 1).drop_first() =~= ss.drop_first().take(i));
        assert(ss.take(i).drop_first() =~= ss.drop_first().take(i - 1));
        assert(ss.take(i + 1)[0] == ss[0]);
        assert(ss.take(i)[0] == ss[0]);
        assert(ss.drop_first()[i - 1] == ss[i]);
        assert(enc_contents(ss.take(i + 1)) =~= enc_contents(ss.take(i)) + enc_content(ss[i]));
    }
}

/// A row's first encode error is its first failing element's error.
pub proof fn lemma_err_contents_first(ss: Seq<ContentV>, i: int)
    requires
        0 <= i < ss.len(),
        forall|j: int| 0 <= j < i ==> enc_err_content(#[trigger] ss[j]) is None,
        enc_err_content(ss[i]) is Some,
    ensures
        enc_err_contents(ss) == enc_err_content(ss[i]),
    decreases i,
{
    if i == 0 {
    } else {
        assert(enc_err_content(ss[0]) is None);
        assert forall|j: int| 0 <= j < i - 1 implies enc_err_content(
            #[trigger] ss.drop_first()[j],
        ) is None by {
            assert(ss.drop_first()[j] == ss[j + 1]);
        }
        assert(ss.drop_first()[i - 1] == ss[i]);
        lemma_err_contents_first(ss.drop_first(), i - 1);
    }
}

/// A row encodes exactly when every element does.
pub proof fn lemma_err_contents_none(ss: Seq<ContentV>)
    ensures
        enc_err_contents(ss) is None <==> (forall|j: int|
            0 <= j < ss.len() ==> enc_err_content(#[trigger] ss[j]) is None),
    decreases ss.len(),
{
    if ss.len() > 0 {
        lemma_err_contents_none(ss.drop_first());
        assert(forall|j: int|
            0 <= j < ss.drop_first().len() ==> #[trigger] ss.drop_first()[j] == ss[j + 1]);
        if forall|j: int| 0 <= j < ss.len() ==> enc_err_content(#[trigger] ss[j]) is None {
            assert(enc_err_content(ss[0]) is None);
        }
        if enc_err_contents(ss) is None {
            assert forall|j: int| 0 <= j < ss.len() implies enc_err_content(
                #[trigger] ss[j],
            ) is None by {
                if j > 0 {
                    assert(ss.drop_first()[j - 1] == ss[j]);
                }
            }
        }
    }
}

/// Splitting one more element off an encoded prefix of a row.
pub proof fn lemma_i16s_take_succ(ss: Seq<i16>, i: int)
    requires
        0 <= i < ss.len(),
    ensures
        enc_i16s(ss.take(i + 1)) == enc_i16s(ss.take(i)) + enc_i16(ss[i]),
    decreases i,
{
    if i == 0 {
        assert(ss.take(1).drop_first() =~= Seq::<i16>::empty());
        assert(ss.take(1)[0] == ss[0]);
        assert(ss.take(0) =~= Seq::<i16>::empty());
        assert(enc_i16s(ss.take(1)) =~= enc_i16s(ss.take(0)) + enc_i16(ss[0]));
    } else {
        lemma_i16s_take_succ(ss.drop_first(), i - 1);
        assert(ss.take(i + 1).drop_first() =~= ss.drop_first().take(i));
        assert(ss.take(i).drop_first() =~= ss.drop_first().take(i - 1));
        assert(ss.take(i + 1)[0] == ss[0]);
        assert(ss.take(i)[0] == ss[0]);
        assert(ss.drop_first()[i - 1] == ss[i]);
        assert(enc_i16s(ss.take(i + 1)) =~= enc_i16s(ss.take(i)) + enc_i16(ss[i]));
    }
}


/// Append one content record; fail with the content's first encode error.
fn write_content(out: &mut Vec<u8>, c: &AchievementContent) -> (r: Result<(), CodecError>)
    ensures
        enc_err_content(c@) is None ==> r is Ok && final(out)@ == old(out)@ + enc_content(c@),
        enc_err_content(c@) matches Some(e) ==> r == Err::<(), CodecError>(e),
{
    write_str(out, &c.typ)?;
    write_str(out, &c.id)?;
    let expected = tag_of_kind(c.progress.variant_kind());
    if !bytes_eq(c.typ.bytes().as_slice(), expected) {
        return Err(CodecError::InternalConsistency);
    }
    write_progress(out, &c.progress);
    proof {
        assert(final(out)@ =~= old(out)@ + enc_content(c@));
    }
    Ok(())
}

/// Append one subobject; fail with its first encode error.
fn write_subobject(out: &mut Vec<u8>, s: &HeaderSubobject) -> (r: Result<(), CodecError>)
    ensures
        enc_err_subobject(s@) is None ==> r is Ok && final(out)@ == old(out)@ + enc_subobject(s@),
        enc_err_subobject(s@) matches Some(e) ==> r == Err::<(), CodecError>(e),
{
    write_str(out, &s.id)?;
    write_i16(out, s.index);
    proof {
        assert(final(out)@ =~= old(out)@ + enc_subobject(s@));
    }
    Ok(())
}

/// Append one header record; fail with the header's first encode error.
fn write_header(out: &mut Vec<u8>, h: &AchievementHeader) -> (r: Result<(), CodecError>)
    ensures
        enc_err_header(h@) is None ==> r is Ok && final(out)@ == old(out)@ + enc_header(h@),
        enc_err_header(h@) matches Some(e) ==> r == Err::<(), CodecError>(e),
{
    let ghost subs = h@.subobjects;
    write_str(out, &h.typ)?;
    if h.subobjects.len() > 0xFFFFusize {
        return Err(CodecError::LengthOverflow);
    }
    write_u16(out, h.subobjects.len() as u16);
    let ghost mid = out@;
    let mut i: usize = 0;
    while i < h.subobjects.len()
        invariant
            0 <= i <= h.subobjects.len(),
            subs == h@.subobjects,
            h.subobjects@.len() == subs.len(),
            forall|j: int| 0 <= j < subs.len() ==> h.subobjects@[j]@ == subs[j],
            forall|j: int| 0 <= j < i ==> enc_err_subobject(#[trigger] subs[j]) is None,
            out@ == mid + enc_subobjects(subs.take(i as int)),
        decreases h.subobjects.len() - i,
    {
        let res = write_subobject(out, &h.subobjects[i]);
        if let Err(e) = res {
            proof {
                lemma_err_subobjects_first(subs, i as int);
            }
            return Err(e);
        }
        proof {
            lemma_subobjects_take_succ(subs, i as int);
        }
        i = i + 1;
    }
    proof {
        lemma_err_subobjects_none(subs);
        assert(subs.take(subs.len() as int) =~= subs);
        assert(final(out)@ =~= old(out)@ + enc_header(h@));
    }
    Ok(())
}

/// A header encodes exactly when it is well-formed.
pub proof fn lemma_wf_header_err(h: HeaderV)
    ensures
        enc_err_header(h) is None <==> wf_header(h),
{
    lemma_err_subobjects_none(h.subobjects);
}

/// A content whose payload has its variant's shape encodes exactly when it
/// is well-formed.
pub proof fn lemma_wf_content_err(c: ContentV)
    requires
        wf_progress(c.progress),
    ensures
        enc_err_content(c) is None <==> wf_content(c),
{
    lemma_tag_table(c.progress.kind);
}

impl AchievementsDat {
    /// Encode this file tree to bytes.
    ///
    /// Succeeds exactly on well-formed trees, returning the file's on-disk
    /// form; otherwise reports the first failure in stream order, and no
    /// partial output escapes.
    pub fn serialize(&self) -> (r: Result<Vec<u8>, CodecError>)
        ensures
            r is Ok <==> wf_file(self@),
            r matches Ok(v) ==> v@ == enc_file(self@),
            r matches Err(e) ==> Some(e) == enc_err_file(self@),
    {
        let ghost f = self@;
        proof {
            assert forall|j: int| 0 <= j < f.contents.len() implies wf_progress(
                #[trigger] f.contents[j].progress,
            ) by {
                crate::progress::lemma_progress_payload_len(self.contents@[j].progress);
                assert(f.contents[j] == self.contents@[j]@);
            }
        }
        let mut out: Vec<u8> = Vec::new();
        let mut i: usize = 0;
        while i < 4
            invariant
                0 <= i <= 4,
                f == self@,
                out@ == enc_i16s(f.version.take(i as int)),
            decreases 4 - i,
        {
            write_i16(&mut out, self.version[i]);
            proof {
                lemma_i16s_take_succ(f.version, i as int);
            }
            i = i + 1;
        }
        proof {
            assert(f.version.take(4) =~= f.version);
        }
        out.push(self.unused);
        if self.headers.len() > 0xFFFFusize {
            return Err(CodecError::LengthOverflow);
        }
        write_u16(&mut out, self.headers.len() as u16);
        let ghost pre_headers = out@;
        let mut i: usize = 0;
        while i < self.headers.len()
            invariant
                0 <= i <= self.headers.len(),
                f == self@,
                self.headers@.len() == f.headers.len(),
                forall|j: int| 0 <= j < f.headers.len() ==> self.headers@[j]@ == f.headers[j],
                forall|j: int| 0 <= j < i ==> enc_err_header(#[trigger] f.headers[j]) is None,
                out@ == pre_headers + enc_headers(f.headers.take(i as int)),
                f.headers.len() <= u16::MAX,
            decreases self.headers.len() - i,
        {
            let res = write_header(&mut out, &self.headers[i]);
            if let Err(e) = res {
                proof {
                    lemma_err_headers_first(f.headers, i as int);
                    lemma_wf_header_err(f.headers[i as int]);
                }
                return Err(e);
            }
            proof {
                lemma_headers_take_succ(f.headers, i as int);
            }
            i = i + 1;
        }
        proof {
            lemma_err_headers_none(f.headers);
            assert(f.headers.take(f.headers.len() as int) =~= f.headers);
            assert forall|j: int| 0 <= j < f.headers.len() implies wf_header(
                #[trigger] f.headers[j],
            ) by {
                lemma_wf_header_err(f.headers[j]);
            }
        }

        if self.contents.len() > 0xFFFF_FFFFusize {
            return Err(CodecError::LengthOverflow);
        }
        write_u32(&mut out, self.contents.len() as u32);
        let ghost pre_contents = out@;
        let mut i: usize = 0;
        while i < self.contents.len()
            invariant
                0 <= i <= self.contents.len(),
                f == self@,
                self.contents@.len() == f.contents.len(),
                forall|j: int| 0 <= j < f.contents.len() ==> self.contents@[j]@ == f.contents[j],
                forall|j: int| 0 <= j < i ==> enc_err_content(#[trigger] f.contents[j]) is None,
                out@ == pre_contents + enc_contents(f.contents.take(i as int)),
                enc_err_headers(f.headers) is None,
                f.headers.len() <= u16::MAX,
                f.contents.len() <= u32::MAX,
                forall|j: int| 0 <= j < f.contents.len() ==> wf_progress(
                    #[trigger] f.contents[j].progress,
                ),
            decreases self.contents.len() - i,
        {
            let res = write_content(&mut out, &self.contents[i]);
            if let Err(e) = res {
                proof {
                    lemma_err_contents_first(f.contents, i as int);
                    lemma_wf_content_err(f.contents[i as int]);
                }
                return Err(e);
            }
            proof {
                lemma_contents_take_succ(f.contents, i as int);
            }
            i = i + 1;
        }
        proof {
            lemma_err_contents_none(f.contents);
            assert(f.contents.take(f.contents.len() as int) =~= f.contents);
            assert forall|j: int| 0 <= j < f.contents.len() implies wf_content(
                #[trigger] f.contents[j],
            ) by {
                lemma_wf_content_err(f.contents[j]);
            }
        }
        let ghost pre_tail = out@;
        let mut i: usize = 0;
        while i < self.tracked_entries.len()
            invariant
                0 <= i <= self.tracked_entries.len(),
                f == self@,
                self.tracked_entries@.len() == f.tracked_entries.len(),
                forall|j: int| 0 <= j < f.tracked_entries.len() ==> self.tracked_entries@[j]
                    == f.tracked_entries[j],
                out@ == pre_tail + enc_i16s(f.tracked_entries.take(i as int)),
            decreases self.tracked_entries.len() - i,
        {
            write_i16(&mut out, self.tracked_entries[i]);
            proof {
                lemma_i16s_take_succ(f.tracked_entries, i as int);
            }
            i = i + 1;
        }
        proof {
            assert(f.tracked_entries.take(f.tracked_entries.len() as int) =~= f.tracked_entries);
            assert(out@ =~= enc_file(f));
        }
        Ok(out)
    }
}


} // verus!
