use vstd::prelude::*;
use vstd::bytes::{spec_u32_to_le_bytes, spec_u64_to_le_bytes};
use vstd::bytes::{lemma_auto_spec_u32_to_from_le_bytes, lemma_auto_spec_u64_to_from_le_bytes};
use crate::tags::{ProgressKind, payload_len};

verus! {

/// The progress payload of a content record, one variant per known tag.
///
/// The codec never interprets progress values, so fields the game reads as
/// floating-point numbers are held as raw little-endian IEEE-754 bit patterns
/// (`u32` for 32-bit, `u64` for 64-bit values), and opaque payloads as byte
/// arrays: a decode/encode round trip preserves every byte.
#[derive(Clone, Copy, Debug, PartialEq)]
pub enum AchievementProgress {
    Achievement,
    BuildEntity([u8; 4]),
    ChangeSurface([u8; 1]),
    CombatRobotCount(i32),
    CompleteObjective,
    ConstructWithRobots { constructed: i32, unknown: [u8; 4] },
    CreatePlatform([u8; 4]),
    DeconstructWithRobots { deconstructed: i32 },
    DeliverByRobots([u8; 4]),
    DepleteResource([u8; 4]),
    DestroyCliff([u8; 4]),
    DontBuildEntity([u8; 5]),
    DontCraftManually([u8; 4]),
    DontUseEntityInEnergyProduction { max_j_per_h: u64 },
    EquipArmor([u8; 4]),
    FinishTheGame([u8; 4]),
    GroupAttack([u8; 4]),
    Kill { max_killed: u64 },
    ModuleTransfer([u8; 4]),
    PlaceEquipment([u8; 4]),
    PlayerDamaged { max_damage: u32, survived: u8 },
    Produce { produced: u64 },
    ProducePerHour { max_per_h: u64 },
    Research,
    ResearchWithSciencePack([u8; 4]),
    Shoot([u8; 4]),
    SpaceConnectionDistanceTraveled([u8; 4]),
    TrainPath { longest_path: u64 },
    UseEntityInEnergyProduction([u8; 5]),
    UseItem([u8; 4]),
}

/// The mathematical model of a progress value: its variant and the exact
/// payload bytes it encodes to.
pub struct ProgressV {
    pub kind: ProgressKind,
    pub payload: Seq<u8>,
}

/// A sequence of `n` zero bytes.
pub open spec fn zero_bytes(n: nat) -> Seq<u8> {
    Seq::new(n, |i: int| 0u8)
}

impl AchievementProgress {
    /// Which variant this progress value is.
    pub open spec fn kind(self) -> ProgressKind {
        match self {
            AchievementProgress::Achievement => ProgressKind::Achievement,
            AchievementProgress::BuildEntity(..) => ProgressKind::BuildEntity,
            AchievementProgress::ChangeSurface(..) => ProgressKind::ChangeSurface,
            AchievementProgress::CombatRobotCount(..) => ProgressKind::CombatRobotCount,
            AchievementProgress::CompleteObjective => ProgressKind::CompleteObjective,
            AchievementProgress::ConstructWithRobots { .. } => ProgressKind::ConstructWithRobots,
            AchievementProgress::CreatePlatform(..) => ProgressKind::CreatePlatform,
            AchievementProgress::DeconstructWithRobots { .. } => ProgressKind::DeconstructWithRobots,
            AchievementProgress::DeliverByRobots(..) => ProgressKind::DeliverByRobots,
            AchievementProgress::DepleteResource(..) => ProgressKind::DepleteResource,
            AchievementProgress::DestroyCliff(..) => ProgressKind::DestroyCliff,
            AchievementProgress::DontBuildEntity(..) => ProgressKind::DontBuildEntity,
            AchievementProgress::DontCraftManually(..) => ProgressKind::DontCraftManually,
            AchievementProgress::DontUseEntityInEnergyProduction { .. } => ProgressKind::DontUseEntityInEnergyProduction,
            AchievementProgress::EquipArmor(..) => ProgressKind::EquipArmor,
            AchievementProgress::FinishTheGame(..) => ProgressKind::FinishTheGame,
            AchievementProgress::GroupAttack(..) => ProgressKind::GroupAttack,
            AchievementProgress::Kill { .. } => ProgressKind::Kill,
            AchievementProgress::ModuleTransfer(..) => ProgressKind::ModuleTransfer,
            AchievementProgress::PlaceEquipment(..) => ProgressKind::PlaceEquipment,
            AchievementProgress::PlayerDamaged { .. } => ProgressKind::PlayerDamaged,
            AchievementProgress::Produce { .. } => ProgressKind::Produce,
            AchievementProgress::ProducePerHour { .. } => ProgressKind::ProducePerHour,
            AchievementProgress::Research => ProgressKind::Research,
            AchievementProgress::ResearchWithSciencePack(..) => ProgressKind::ResearchWithSciencePack,
            AchievementProgress::Shoot(..) => ProgressKind::Shoot,
            AchievementProgress::SpaceConnectionDistanceTraveled(..) => ProgressKind::SpaceConnectionDistanceTraveled,
            AchievementProgress::TrainPath { .. } => ProgressKind::TrainPath,
            AchievementProgress::UseEntityInEnergyProduction(..) => ProgressKind::UseEntityInEnergyProduction,
            AchievementProgress::UseItem(..) => ProgressKind::UseItem,
        }
    }

    /// The payload bytes this progress value encodes to.
    pub open spec fn payload(self) -> Seq<u8> {
        match self {
            AchievementProgress::Achievement => Seq::empty(),
            AchievementProgress::BuildEntity(b) => b@,
            AchievementProgress::ChangeSurface(b) => b@,
            AchievementProgress::CombatRobotCount(n) => spec_u32_to_le_bytes(n as u32),
            AchievementProgress::CompleteObjective => Seq::empty(),
            AchievementProgress::ConstructWithRobots { constructed, unknown } => (
                spec_u32_to_le_bytes(constructed as u32) + unknown@
            ),
            AchievementProgress::CreatePlatform(b) => b@,
            AchievementProgress::DeconstructWithRobots { deconstructed } => (
                spec_u32_to_le_bytes(deconstructed as u32)
            ),
            AchievementProgress::DeliverByRobots(b) => b@,
            AchievementProgress::DepleteResource(b) => b@,
            AchievementProgress::DestroyCliff(b) => b@,
            AchievementProgress::DontBuildEntity(b) => b@,
            AchievementProgress::DontCraftManually(b) => b@,
            AchievementProgress::DontUseEntityInEnergyProduction { max_j_per_h } => (
                spec_u64_to_le_bytes(max_j_per_h)
            ),
            AchievementProgress::EquipArmor(b) => b@,
            AchievementProgress::FinishTheGame(b) => b@,
            AchievementProgress::GroupAttack(b) => b@,
            AchievementProgress::Kill { max_killed } => spec_u64_to_le_bytes(max_killed),
            AchievementProgress::ModuleTransfer(b) => b@,
            AchievementProgress::PlaceEquipment(b) => b@,
            AchievementProgress::PlayerDamaged { max_damage, survived } => (
                spec_u32_to_le_bytes(max_damage) + seq![survived]
            ),
            AchievementProgress::Produce { produced } => spec_u64_to_le_bytes(produced),
            AchievementProgress::ProducePerHour { max_per_h } => spec_u64_to_le_bytes(max_per_h),
            AchievementProgress::Research => Seq::empty(),
            AchievementProgress::ResearchWithSciencePack(b) => b@,
            AchievementProgress::Shoot(b) => b@,
            AchievementProgress::SpaceConnectionDistanceTraveled(b) => b@,
            AchievementProgress::TrainPath { longest_path } => spec_u64_to_le_bytes(longest_path),
            AchievementProgress::UseEntityInEnergyProduction(b) => b@,
            AchievementProgress::UseItem(b) => b@,
        }
    }
}

impl View for AchievementProgress {
    type V = ProgressV;

    open spec fn view(&self) -> ProgressV {
        ProgressV { kind: self.kind(), payload: self.payload() }
    }
}

/// The payload of a variant's default value: every numeric field zero and
/// every opaque byte zero-filled.
pub open spec fn default_payload(k: ProgressKind) -> Seq<u8> {
    match k {
        ProgressKind::Achievement => Seq::empty(),
        ProgressKind::BuildEntity => zero_bytes(4),
        ProgressKind::ChangeSurface => zero_bytes(1),
        ProgressKind::CombatRobotCount => spec_u32_to_le_bytes(0u32),
        ProgressKind::CompleteObjective => Seq::empty(),
        ProgressKind::ConstructWithRobots => spec_u32_to_le_bytes(0u32) + zero_bytes(4),
        ProgressKind::CreatePlatform => zero_bytes(4),
        ProgressKind::DeconstructWithRobots => spec_u32_to_le_bytes(0u32),
        ProgressKind::DeliverByRobots => zero_bytes(4),
        ProgressKind::DepleteResource => zero_bytes(4),
        ProgressKind::DestroyCliff => zero_bytes(4),
        ProgressKind::DontBuildEntity => zero_bytes(5),
        ProgressKind::DontCraftManually => zero_bytes(4),
        ProgressKind::DontUseEntityInEnergyProduction => spec_u64_to_le_bytes(0u64),
        ProgressKind::EquipArmor => zero_bytes(4),
        ProgressKind::FinishTheGame => zero_bytes(4),
        ProgressKind::GroupAttack => zero_bytes(4),
        ProgressKind::Kill => spec_u64_to_le_bytes(0u64),
        ProgressKind::ModuleTransfer => zero_bytes(4),
        ProgressKind::PlaceEquipment => zero_bytes(4),
        ProgressKind::PlayerDamaged => spec_u32_to_le_bytes(0u32) + seq![0u8],
        ProgressKind::Produce => spec_u64_to_le_bytes(0u64),
        ProgressKind::ProducePerHour => spec_u64_to_le_bytes(0u64),
        ProgressKind::Research => Seq::empty(),
        ProgressKind::ResearchWithSciencePack => zero_bytes(4),
        ProgressKind::Shoot => zero_bytes(4),
        ProgressKind::SpaceConnectionDistanceTraveled => zero_bytes(4),
        ProgressKind::TrainPath => spec_u64_to_le_bytes(0u64),
        ProgressKind::UseEntityInEnergyProduction => zero_bytes(5),
        ProgressKind::UseItem => zero_bytes(4),
    }
}

/// What `reset` does to a progress value: the variant is kept, the payload
/// becomes the variant's default.
pub open spec fn reset_progress(p: ProgressV) -> ProgressV {
    ProgressV { kind: p.kind, payload: default_payload(p.kind) }
}

/// Every progress value's payload has exactly the fixed length of its variant.
pub proof fn lemma_progress_payload_len(p: AchievementProgress)
    ensures
        p.payload().len() == payload_len(p.kind()),
{
    lemma_auto_spec_u32_to_from_le_bytes();
    lemma_auto_spec_u64_to_from_le_bytes();
}

/// A default payload has the fixed length of its variant.
pub proof fn lemma_default_payload_len(k: ProgressKind)
    ensures
        default_payload(k).len() == payload_len(k),
{
    lemma_auto_spec_u32_to_from_le_bytes();
    lemma_auto_spec_u64_to_from_le_bytes();
}

impl AchievementProgress {
    /// Replace this progress with the default value of its variant: all
    /// numeric fields zero, all opaque byte payloads zero-filled, the variant
    /// itself preserved.
    pub fn reset(&mut self)
        ensures
            final(self)@ == reset_progress(old(self)@),
    {
        let next = match *self {
            AchievementProgress::Achievement => AchievementProgress::Achievement,
            AchievementProgress::BuildEntity(..) => AchievementProgress::BuildEntity([0u8; 4]),
            AchievementProgress::ChangeSurface(..) => AchievementProgress::ChangeSurface([0u8; 1]),
            AchievementProgress::CombatRobotCount(..) => AchievementProgress::CombatRobotCount(0),
            AchievementProgress::CompleteObjective => AchievementProgress::CompleteObjective,
            AchievementProgress::ConstructWithRobots { .. } => AchievementProgress::ConstructWithRobots {
                constructed: 0,
                unknown: [0u8; 4],
            },
            AchievementProgress::CreatePlatform(..) => AchievementProgress::CreatePlatform([0u8; 4]),
            AchievementProgress::DeconstructWithRobots { .. } => AchievementProgress::DeconstructWithRobots {
                deconstructed: 0,
            },
            AchievementProgress::DeliverByRobots(..) => AchievementProgress::DeliverByRobots([0u8; 4]),
            AchievementProgress::DepleteResource(..) => AchievementProgress::DepleteResource([0u8; 4]),
            AchievementProgress::DestroyCliff(..) => AchievementProgress::DestroyCliff([0u8; 4]),
            AchievementProgress::DontBuildEntity(..) => AchievementProgress::DontBuildEntity([0u8; 5]),
            AchievementProgress::DontCraftManually(..) => AchievementProgress::DontCraftManually([0u8; 4]),
            AchievementProgress::DontUseEntityInEnergyProduction { .. } => AchievementProgress::DontUseEntityInEnergyProduction {
                max_j_per_h: 0,
            },
            AchievementProgress::EquipArmor(..) => AchievementProgress::EquipArmor([0u8; 4]),
            AchievementProgress::FinishTheGame(..) => AchievementProgress::FinishTheGame([0u8; 4]),
            AchievementProgress::GroupAttack(..) => AchievementProgress::GroupAttack([0u8; 4]),
            AchievementProgress::Kill { .. } => AchievementProgress::Kill { max_killed: 0 },
            AchievementProgress::ModuleTransfer(..) => AchievementProgress::ModuleTransfer([0u8; 4]),
            AchievementProgress::PlaceEquipment(..) => AchievementProgress::PlaceEquipment([0u8; 4]),
            AchievementProgress::PlayerDamaged { .. } => AchievementProgress::PlayerDamaged {
                max_damage: 0,
                survived: 0,
            },
            AchievementProgress::Produce { .. } => AchievementProgress::Produce { produced: 0 },
            AchievementProgress::ProducePerHour { .. } => AchievementProgress::ProducePerHour {
                max_per_h: 0,
            },
            AchievementProgress::Research => AchievementProgress::Research,
            AchievementProgress::ResearchWithSciencePack(..) => AchievementProgress::ResearchWithSciencePack(
                [0u8; 4],
            ),
            AchievementProgress::Shoot(..) => AchievementProgress::Shoot([0u8; 4]),
            AchievementProgress::SpaceConnectionDistanceTraveled(..) => AchievementProgress::SpaceConnectionDistanceTraveled(
                [0u8; 4],
            ),
            AchievementProgress::TrainPath { .. } => AchievementProgress::TrainPath { longest_path: 0 },
            AchievementProgress::UseEntityInEnergyProduction(..) => AchievementProgress::UseEntityInEnergyProduction(
                [0u8; 5],
            ),
            AchievementProgress::UseItem(..) => AchievementProgress::UseItem([0u8; 4]),
        };
        *self = next;
        proof {
            assert(final(self).payload() =~= default_payload(old(self)@.kind));
        }
    }
}

} // verus!
