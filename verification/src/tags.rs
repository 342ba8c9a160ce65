use vstd::prelude::*;
use vstd::string::StringSliceAdditionalSpecFns;

verus! {

/// The variant selector of a progress payload: one value for each tag in the
/// variant table. The two reserved tags (`dont-kill-manually-achievement`,
/// `dont-research-before-researching-achievement`) have no kind: their payload
/// layout is unknown, so no progress value can carry them.
#[derive(Clone, Copy, Debug, PartialEq, Eq, Structural)]
pub enum ProgressKind {
    Achievement,
    BuildEntity,
    ChangeSurface,
    CombatRobotCount,
    CompleteObjective,
    ConstructWithRobots,
    CreatePlatform,
    DeconstructWithRobots,
    DeliverByRobots,
    DepleteResource,
    DestroyCliff,
    DontBuildEntity,
    DontCraftManually,
    DontUseEntityInEnergyProduction,
    EquipArmor,
    FinishTheGame,
    GroupAttack,
    Kill,
    ModuleTransfer,
    PlaceEquipment,
    PlayerDamaged,
    Produce,
    ProducePerHour,
    Research,
    ResearchWithSciencePack,
    Shoot,
    SpaceConnectionDistanceTraveled,
    TrainPath,
    UseEntityInEnergyProduction,
    UseItem,
}

/// The tag bytes that name each variant on disk.
pub open spec fn tag_bytes(k: ProgressKind) -> Seq<u8> {
    match k {
        ProgressKind::Achievement => "achievement".spec_bytes(),
        ProgressKind::BuildEntity => "build-entity-achievement".spec_bytes(),
        ProgressKind::ChangeSurface => "change-surface-achievement".spec_bytes(),
        ProgressKind::CombatRobotCount => "combat-robot-count-achievement".spec_bytes(),
        ProgressKind::CompleteObjective => "complete-objective-achievement".spec_bytes(),
        ProgressKind::ConstructWithRobots => "construct-with-robots-achievement".spec_bytes(),
        ProgressKind::CreatePlatform => "create-platform-achievement".spec_bytes(),
        ProgressKind::DeconstructWithRobots => "deconstruct-with-robots-achievement".spec_bytes(),
        ProgressKind::DeliverByRobots => "deliver-by-robots-achievement".spec_bytes(),
        ProgressKind::DepleteResource => "deplete-resource-achievement".spec_bytes(),
        ProgressKind::DestroyCliff => "destroy-cliff-achievement".spec_bytes(),
        ProgressKind::DontBuildEntity => "dont-build-entity-achievement".spec_bytes(),
        ProgressKind::DontCraftManually => "dont-craft-manually-achievement".spec_bytes(),
        ProgressKind::DontUseEntityInEnergyProduction => "dont-use-entity-in-energy-production-achievement".spec_bytes(),
        ProgressKind::EquipArmor => "equip-armor-achievement".spec_bytes(),
        ProgressKind::FinishTheGame => "finish-the-game-achievement".spec_bytes(),
        ProgressKind::GroupAttack => "group-attack-achievement".spec_bytes(),
        ProgressKind::Kill => "kill-achievement".spec_bytes(),
        ProgressKind::ModuleTransfer => "module-transfer-achievement".spec_bytes(),
        ProgressKind::PlaceEquipment => "place-equipment-achievement".spec_bytes(),
        ProgressKind::PlayerDamaged => "player-damaged-achievement".spec_bytes(),
        ProgressKind::Produce => "produce-achievement".spec_bytes(),
        ProgressKind::ProducePerHour => "produce-per-hour-achievement".spec_bytes(),
        ProgressKind::Research => "research-achievement".spec_bytes(),
        ProgressKind::ResearchWithSciencePack => "research-with-science-pack-achievement".spec_bytes(),
        ProgressKind::Shoot => "shoot-achievement".spec_bytes(),
        ProgressKind::SpaceConnectionDistanceTraveled => "space-connection-distance-traveled-achievement".spec_bytes(),
        ProgressKind::TrainPath => "train-path-achievement".spec_bytes(),
        ProgressKind::UseEntityInEnergyProduction => "use-entity-in-energy-production-achievement".spec_bytes(),
        ProgressKind::UseItem => "use-item-achievement".spec_bytes(),
    }
}

/// The fixed byte length of each variant's payload.
pub open spec fn payload_len(k: ProgressKind) -> nat {
    match k {
        ProgressKind::Achievement => 0,
        ProgressKind::BuildEntity => 4,
        ProgressKind::ChangeSurface => 1,
        ProgressKind::CombatRobotCount => 4,
        ProgressKind::CompleteObjective => 0,
        ProgressKind::ConstructWithRobots => 8,
        ProgressKind::CreatePlatform => 4,
        ProgressKind::DeconstructWithRobots => 4,
        ProgressKind::DeliverByRobots => 4,
        ProgressKind::DepleteResource => 4,
        ProgressKind::DestroyCliff => 4,
        ProgressKind::DontBuildEntity => 5,
        ProgressKind::DontCraftManually => 4,
        ProgressKind::DontUseEntityInEnergyProduction => 8,
        ProgressKind::EquipArmor => 4,
        ProgressKind::FinishTheGame => 4,
        ProgressKind::GroupAttack => 4,
        ProgressKind::Kill => 8,
        ProgressKind::ModuleTransfer => 4,
        ProgressKind::PlaceEquipment => 4,
        ProgressKind::PlayerDamaged => 5,
        ProgressKind::Produce => 8,
        ProgressKind::ProducePerHour => 8,
        ProgressKind::Research => 0,
        ProgressKind::ResearchWithSciencePack => 4,
        ProgressKind::Shoot => 4,
        ProgressKind::SpaceConnectionDistanceTraveled => 4,
        ProgressKind::TrainPath => 8,
        ProgressKind::UseEntityInEnergyProduction => 5,
        ProgressKind::UseItem => 4,
    }
}

/// The reserved tags: known by name, payload layout unknown.
pub open spec fn reserved_tag(t: Seq<u8>) -> bool {
    ||| t == "dont-kill-manually-achievement".spec_bytes()
    ||| t == "dont-research-before-researching-achievement".spec_bytes()
}

/// The closed tag lookup: which variant a tag selects, `None` for a tag
/// outside the table (reserved tags included).
pub open spec fn kind_of_tag(t: Seq<u8>) -> Option<ProgressKind> {
    if t == tag_bytes(ProgressKind::Achievement) {
        Some(ProgressKind::Achievement)
    } else if t == tag_bytes(ProgressKind::BuildEntity) {
        Some(ProgressKind::BuildEntity)
    } else if t == tag_bytes(ProgressKind::ChangeSurface) {
        Some(ProgressKind::ChangeSurface)
    } else if t == tag_bytes(ProgressKind::CombatRobotCount) {
        Some(ProgressKind::CombatRobotCount)
    } else if t == tag_bytes(ProgressKind::CompleteObjective) {
        Some(ProgressKind::CompleteObjective)
    } else if t == tag_bytes(ProgressKind::ConstructWithRobots) {
        Some(ProgressKind::ConstructWithRobots)
    } else if t == tag_bytes(ProgressKind::CreatePlatform) {
        Some(ProgressKind::CreatePlatform)
    } else if t == tag_bytes(ProgressKind::DeconstructWithRobots) {
        Some(ProgressKind::DeconstructWithRobots)
    } else if t == tag_bytes(ProgressKind::DeliverByRobots) {
        Some(ProgressKind::DeliverByRobots)
    } else if t == tag_bytes(ProgressKind::DepleteResource) {
        Some(ProgressKind::DepleteResource)
    } else if t == tag_bytes(ProgressKind::DestroyCliff) {
        Some(ProgressKind::DestroyCliff)
    } else if t == tag_bytes(ProgressKind::DontBuildEntity) {
        Some(ProgressKind::DontBuildEntity)
    } else if t == tag_bytes(ProgressKind::DontCraftManually) {
        Some(ProgressKind::DontCraftManually)
    } else if t == tag_bytes(ProgressKind::DontUseEntityInEnergyProduction) {
        Some(ProgressKind::DontUseEntityInEnergyProduction)
    } else if t == tag_bytes(ProgressKind::EquipArmor) {
        Some(ProgressKind::EquipArmor)
    } else if t == tag_bytes(ProgressKind::FinishTheGame) {
        Some(ProgressKind::FinishTheGame)
    } else if t == tag_bytes(ProgressKind::GroupAttack) {
        Some(ProgressKind::GroupAttack)
    } else if t == tag_bytes(ProgressKind::Kill) {
        Some(ProgressKind::Kill)
    } else if t == tag_bytes(ProgressKind::ModuleTransfer) {
        Some(ProgressKind::ModuleTransfer)
    } else if t == tag_bytes(ProgressKind::PlaceEquipment) {
        Some(ProgressKind::PlaceEquipment)
    } else if t == tag_bytes(ProgressKind::PlayerDamaged) {
        Some(ProgressKind::PlayerDamaged)
    } else if t == tag_bytes(ProgressKind::Produce) {
        Some(ProgressKind::Produce)
    } else if t == tag_bytes(ProgressKind::ProducePerHour) {
        Some(ProgressKind::ProducePerHour)
    } else if t == tag_bytes(ProgressKind::Research) {
        Some(ProgressKind::Research)
    } else if t == tag_bytes(ProgressKind::ResearchWithSciencePack) {
        Some(ProgressKind::ResearchWithSciencePack)
    } else if t == tag_bytes(ProgressKind::Shoot) {
        Some(ProgressKind::Shoot)
    } else if t == tag_bytes(ProgressKind::SpaceConnectionDistanceTraveled) {
        Some(ProgressKind::SpaceConnectionDistanceTraveled)
    } else if t == tag_bytes(ProgressKind::TrainPath) {
        Some(ProgressKind::TrainPath)
    } else if t == tag_bytes(ProgressKind::UseEntityInEnergyProduction) {
        Some(ProgressKind::UseEntityInEnergyProduction)
    } else if t == tag_bytes(ProgressKind::UseItem) {
        Some(ProgressKind::UseItem)
    } else {
        None
    }
}

/// Byte-for-byte equality of two byte slices.
pub fn bytes_eq(a: &[u8], b: &[u8]) -> (r: bool)
    ensures
        r == (a@ == b@),
{
    if a.len() != b.len() {
        return false;
    }
    let mut i: usize = 0;
    while i < a.len()
        invariant
            a@.len() == b@.len(),
            0 <= i <= a@.len(),
            forall|j: int| 0 <= j < i ==> a@[j] == b@[j],
        decreases a@.len() - i,
    {
        if *vstd::slice::slice_index_get(a, i) != *vstd::slice::slice_index_get(b, i) {
            return false;
        }
        i = i + 1;
    }
    proof {
        assert(a@ =~= b@);
    }
    true
}

/// Which variant, if any, the given tag selects.
pub fn match_tag(t: &[u8]) -> (r: Option<ProgressKind>)
    ensures
        r == kind_of_tag(t@),
{
    if bytes_eq(t, "achievement".as_bytes()) {
        Some(ProgressKind::Achievement)
    } else if bytes_eq(t, "build-entity-achievement".as_bytes()) {
        Some(ProgressKind::BuildEntity)
    } else if bytes_eq(t, "change-surface-achievement".as_bytes()) {
        Some(ProgressKind::ChangeSurface)
    } else if bytes_eq(t, "combat-robot-count-achievement".as_bytes()) {
        Some(ProgressKind::CombatRobotCount)
    } else if bytes_eq(t, "complete-objective-achievement".as_bytes()) {
        Some(ProgressKind::CompleteObjective)
    } else if bytes_eq(t, "construct-with-robots-achievement".as_bytes()) {
        Some(ProgressKind::ConstructWithRobots)
    } else if bytes_eq(t, "create-platform-achievement".as_bytes()) {
        Some(ProgressKind::CreatePlatform)
    } else if bytes_eq(t, "deconstruct-with-robots-achievement".as_bytes()) {
        Some(ProgressKind::DeconstructWithRobots)
    } else if bytes_eq(t, "deliver-by-robots-achievement".as_bytes()) {
        Some(ProgressKind::DeliverByRobots)
    } else if bytes_eq(t, "deplete-resource-achievement".as_bytes()) {
        Some(ProgressKind::DepleteResource)
    } else if bytes_eq(t, "destroy-cliff-achievement".as_bytes()) {
        Some(ProgressKind::DestroyCliff)
    } else if bytes_eq(t, "dont-build-entity-achievement".as_bytes()) {
        Some(ProgressKind::DontBuildEntity)
    } else if bytes_eq(t, "dont-craft-manually-achievement".as_bytes()) {
        Some(ProgressKind::DontCraftManually)
    } else if bytes_eq(t, "dont-use-entity-in-energy-production-achievement".as_bytes()) {
        Some(ProgressKind::DontUseEntityInEnergyProduction)
    } else if bytes_eq(t, "equip-armor-achievement".as_bytes()) {
        Some(ProgressKind::EquipArmor)
    } else if bytes_eq(t, "finish-the-game-achievement".as_bytes()) {
        Some(ProgressKind::FinishTheGame)
    } else if bytes_eq(t, "group-attack-achievement".as_bytes()) {
        Some(ProgressKind::GroupAttack)
    } else if bytes_eq(t, "kill-achievement".as_bytes()) {
        Some(ProgressKind::Kill)
    } else if bytes_eq(t, "module-transfer-achievement".as_bytes()) {
        Some(ProgressKind::ModuleTransfer)
    } else if bytes_eq(t, "place-equipment-achievement".as_bytes()) {
        Some(ProgressKind::PlaceEquipment)
    } else if bytes_eq(t, "player-damaged-achievement".as_bytes()) {
        Some(ProgressKind::PlayerDamaged)
    } else if bytes_eq(t, "produce-achievement".as_bytes()) {
        Some(ProgressKind::Produce)
    } else if bytes_eq(t, "produce-per-hour-achievement".as_bytes()) {
        Some(ProgressKind::ProducePerHour)
    } else if bytes_eq(t, "research-achievement".as_bytes()) {
        Some(ProgressKind::Research)
    } else if bytes_eq(t, "research-with-science-pack-achievement".as_bytes()) {
        Some(ProgressKind::ResearchWithSciencePack)
    } else if bytes_eq(t, "shoot-achievement".as_bytes()) {
        Some(ProgressKind::Shoot)
    } else if bytes_eq(t, "space-connection-distance-traveled-achievement".as_bytes()) {
        Some(ProgressKind::SpaceConnectionDistanceTraveled)
    } else if bytes_eq(t, "train-path-achievement".as_bytes()) {
        Some(ProgressKind::TrainPath)
    } else if bytes_eq(t, "use-entity-in-energy-production-achievement".as_bytes()) {
        Some(ProgressKind::UseEntityInEnergyProduction)
    } else if bytes_eq(t, "use-item-achievement".as_bytes()) {
        Some(ProgressKind::UseItem)
    } else {
        None
    }
}

/// Whether the given tag is one of the two reserved tags.
pub fn tag_is_reserved(t: &[u8]) -> (r: bool)
    ensures
        r == reserved_tag(t@),
{
    bytes_eq(t, "dont-kill-manually-achievement".as_bytes()) || bytes_eq(
        t,
        "dont-research-before-researching-achievement".as_bytes(),
    )
}

/// The tag table is a closed, unambiguous lookup: the tag bytes of each
/// variant select exactly that variant, are not reserved, and are short
/// enough for the compact string form.
pub proof fn lemma_tag_table(k: ProgressKind)
    ensures
        kind_of_tag(tag_bytes(k)) == Some(k),
        !reserved_tag(tag_bytes(k)),
        0 < tag_bytes(k).len() < 255,
{
    broadcast use vstd::string::is_ascii_spec_bytes;

    reveal_strlit("achievement");
    reveal_strlit("build-entity-achievement");
    reveal_strlit("change-surface-achievement");
    reveal_strlit("combat-robot-count-achievement");
    reveal_strlit("complete-objective-achievement");
    reveal_strlit("construct-with-robots-achievement");
    reveal_strlit("create-platform-achievement");
    reveal_strlit("deconstruct-with-robots-achievement");
    reveal_strlit("deliver-by-robots-achievement");
    reveal_strlit("deplete-resource-achievement");
    reveal_strlit("destroy-cliff-achievement");
    reveal_strlit("dont-build-entity-achievement");
    reveal_strlit("dont-craft-manually-achievement");
    reveal_strlit("dont-use-entity-in-energy-production-achievement");
    reveal_strlit("equip-armor-achievement");
    reveal_strlit("finish-the-game-achievement");
    reveal_strlit("group-attack-achievement");
    reveal_strlit("kill-achievement");
    reveal_strlit("module-transfer-achievement");
    reveal_strlit("place-equipment-achievement");
    reveal_strlit("player-damaged-achievement");
    reveal_strlit("produce-achievement");
    reveal_strlit("produce-per-hour-achievement");
    reveal_strlit("research-achievement");
    reveal_strlit("research-with-science-pack-achievement");
    reveal_strlit("shoot-achievement");
    reveal_strlit("space-connection-distance-traveled-achievement");
    reveal_strlit("train-path-achievement");
    reveal_strlit("use-entity-in-energy-production-achievement");
    reveal_strlit("use-item-achievement");
    reveal_strlit("dont-kill-manually-achievement");
    reveal_strlit("dont-research-before-researching-achievement");

    assert(vstd::string::is_ascii("achievement"));
    assert(vstd::string::is_ascii("build-entity-achievement"));
    assert(vstd::string::is_ascii("change-surface-achievement"));
    assert(vstd::string::is_ascii("combat-robot-count-achievement"));
    assert(vstd::string::is_ascii("complete-objective-achievement"));
    assert(vstd::string::is_ascii("construct-with-robots-achievement"));
    assert(vstd::string::is_ascii("create-platform-achievement"));
    assert(vstd::string::is_ascii("deconstruct-with-robots-achievement"));
    assert(vstd::string::is_ascii("deliver-by-robots-achievement"));
    assert(vstd::string::is_ascii("deplete-resource-achievement"));
    assert(vstd::string::is_ascii("destroy-cliff-achievement"));
    assert(vstd::string::is_ascii("dont-build-entity-achievement"));
    assert(vstd::string::is_ascii("dont-craft-manually-achievement"));
    assert(vstd::string::is_ascii("dont-use-entity-in-energy-production-achievement"));
    assert(vstd::string::is_ascii("equip-armor-achievement"));
    assert(vstd::string::is_ascii("finish-the-game-achievement"));
    assert(vstd::string::is_ascii("group-attack-achievement"));
    assert(vstd::string::is_ascii("kill-achievement"));
    assert(vstd::string::is_ascii("module-transfer-achievement"));
    assert(vstd::string::is_ascii("place-equipment-achievement"));
    assert(vstd::string::is_ascii("player-damaged-achievement"));
    assert(vstd::string::is_ascii("produce-achievement"));
    assert(vstd::string::is_ascii("produce-per-hour-achievement"));
    assert(vstd::string::is_ascii("research-achievement"));
    assert(vstd::string::is_ascii("research-with-science-pack-achievement"));
    assert(vstd::string::is_ascii("shoot-achievement"));
    assert(vstd::string::is_ascii("space-connection-distance-traveled-achievement"));
    assert(vstd::string::is_ascii("train-path-achievement"));
    assert(vstd::string::is_ascii("use-entity-in-energy-production-achievement"));
    assert(vstd::string::is_ascii("use-item-achievement"));
    assert(vstd::string::is_ascii("dont-kill-manually-achievement"));
    assert(vstd::string::is_ascii("dont-research-before-researching-achievement"));

    assert("achievement".spec_bytes().len() == 11);
    assert("achievement".spec_bytes()[0] == 97u8);
    assert("build-entity-achievement".spec_bytes().len() == 24);
    assert("build-entity-achievement".spec_bytes()[0] == 98u8);
    assert("change-surface-achievement".spec_bytes().len() == 26);
    assert("change-surface-achievement".spec_bytes()[0] == 99u8);
    assert("combat-robot-count-achievement".spec_bytes().len() == 30);
    assert("combat-robot-count-achievement".spec_bytes()[0] == 99u8);
    assert("combat-robot-count-achievement".spec_bytes()[3] == 98u8);
    assert("complete-objective-achievement".spec_bytes().len() == 30);
    assert("complete-objective-achievement".spec_bytes()[0] == 99u8);
    assert("complete-objective-achievement".spec_bytes()[3] == 112u8);
    assert("construct-with-robots-achievement".spec_bytes().len() == 33);
    assert("construct-with-robots-achievement".spec_bytes()[0] == 99u8);
    assert("create-platform-achievement".spec_bytes().len() == 27);
    assert("create-platform-achievement".spec_bytes()[0] == 99u8);
    assert("deconstruct-with-robots-achievement".spec_bytes().len() == 35);
    assert("deconstruct-with-robots-achievement".spec_bytes()[0] == 100u8);
    assert("deliver-by-robots-achievement".spec_bytes().len() == 29);
    assert("deliver-by-robots-achievement".spec_bytes()[0] == 100u8);
    assert("deliver-by-robots-achievement".spec_bytes()[2] == 108u8);
    assert("deplete-resource-achievement".spec_bytes().len() == 28);
    assert("deplete-resource-achievement".spec_bytes()[0] == 100u8);
    assert("destroy-cliff-achievement".spec_bytes().len() == 25);
    assert("destroy-cliff-achievement".spec_bytes()[0] == 100u8);
    assert("dont-build-entity-achievement".spec_bytes().len() == 29);
    assert("dont-build-entity-achievement".spec_bytes()[0] == 100u8);
    assert("dont-build-entity-achievement".spec_bytes()[2] == 110u8);
    assert("dont-craft-manually-achievement".spec_bytes().len() == 31);
    assert("dont-craft-manually-achievement".spec_bytes()[0] == 100u8);
    assert("dont-use-entity-in-energy-production-achievement".spec_bytes().len() == 48);
    assert("dont-use-entity-in-energy-production-achievement".spec_bytes()[0] == 100u8);
    assert("equip-armor-achievement".spec_bytes().len() == 23);
    assert("equip-armor-achievement".spec_bytes()[0] == 101u8);
    assert("finish-the-game-achievement".spec_bytes().len() == 27);
    assert("finish-the-game-achievement".spec_bytes()[0] == 102u8);
    assert("group-attack-achievement".spec_bytes().len() == 24);
    assert("group-attack-achievement".spec_bytes()[0] == 103u8);
    assert("kill-achievement".spec_bytes().len() == 16);
    assert("kill-achievement".spec_bytes()[0] == 107u8);
    assert("module-transfer-achievement".spec_bytes().len() == 27);
    assert("module-transfer-achievement".spec_bytes()[0] == 109u8);
    assert("place-equipment-achievement".spec_bytes().len() == 27);
    assert("place-equipment-achievement".spec_bytes()[0] == 112u8);
    assert("player-damaged-achievement".spec_bytes().len() == 26);
    assert("player-damaged-achievement".spec_bytes()[0] == 112u8);
    assert("produce-achievement".spec_bytes().len() == 19);
    assert("produce-achievement".spec_bytes()[0] == 112u8);
    assert("produce-per-hour-achievement".spec_bytes().len() == 28);
    assert("produce-per-hour-achievement".spec_bytes()[0] == 112u8);
    assert("research-achievement".spec_bytes().len() == 20);
    assert("research-achievement".spec_bytes()[0] == 114u8);
    assert("research-with-science-pack-achievement".spec_bytes().len() == 38);
    assert("research-with-science-pack-achievement".spec_bytes()[0] == 114u8);
    assert("shoot-achievement".spec_bytes().len() == 17);
    assert("shoot-achievement".spec_bytes()[0] == 115u8);
    assert("space-connection-distance-traveled-achievement".spec_bytes().len() == 46);
    assert("space-connection-distance-traveled-achievement".spec_bytes()[0] == 115u8);
    assert("train-path-achievement".spec_bytes().len() == 22);
    assert("train-path-achievement".spec_bytes()[0] == 116u8);
    assert("use-entity-in-energy-production-achievement".spec_bytes().len() == 43);
    assert("use-entity-in-energy-production-achievement".spec_bytes()[0] == 117u8);
    assert("use-item-achievement".spec_bytes().len() == 20);
    assert("use-item-achievement".spec_bytes()[0] == 117u8);
    assert("dont-kill-manually-achievement".spec_bytes().len() == 30);
    assert("dont-kill-manually-achievement".spec_bytes()[0] == 100u8);
    assert("dont-research-before-researching-achievement".spec_bytes().len() == 44);
    assert("dont-research-before-researching-achievement".spec_bytes()[0] == 100u8);
}

/// A tag the lookup accepts is exactly the selected variant's tag bytes.
pub proof fn lemma_kind_of_tag_sound(t: Seq<u8>)
    ensures
        kind_of_tag(t) matches Some(k) ==> t == tag_bytes(k),
{
}

} // verus!
