use factorio_achievements_editor::{
    AchievementContent, AchievementHeader, AchievementProgress, AchievementsDat, HeaderSubobject,
    SpaceOptimizedString,
};

fn sos(bytes: &[u8]) -> SpaceOptimizedString {
    SpaceOptimizedString::new(bytes.to_vec())
}

fn produce(id: &[u8], produced: f64) -> AchievementContent {
    AchievementContent::new(sos(b"produce-achievement"), sos(id), AchievementProgress::Produce {
        produced: produced.to_bits(),
    })
}

fn file_of(contents: Vec<AchievementContent>) -> AchievementsDat {
    AchievementsDat::new([0, 0, 0, 0], 0, Vec::new(), contents, Vec::new())
}

#[test]
fn delete_resets_matching_contents_only() {
    let file = file_of(vec![
        produce(b"ach1", 42.0),
        produce(b"ach1", 7.5),
        produce(b"other", 3.0),
    ]);
    let deleted = file.delete(b"ach1");
    let reparsed = AchievementsDat::parse(&deleted.serialize().unwrap()).unwrap();
    let values: Vec<f64> = reparsed
        .contents
        .iter()
        .map(|c| match c.progress {
            AchievementProgress::Produce { produced } => f64::from_bits(produced),
            _ => panic!("variant changed"),
        })
        .collect();
    assert_eq!(values, vec![0.0, 0.0, 3.0]);
}

#[test]
fn delete_with_no_match_is_identity() {
    let file = file_of(vec![produce(b"ach1", 42.0)]);
    let before = file.serialize().unwrap();
    let after = file.delete(b"missing").serialize().unwrap();
    assert_eq!(before, after);
}

#[test]
fn delete_twice_equals_delete_once() {
    let file = file_of(vec![
        produce(b"ach1", 42.0),
        produce(b"other", 3.0),
    ]);
    let once = file.delete(b"ach1").serialize().unwrap();
    let twice = AchievementsDat::parse(&once).unwrap().delete(b"ach1").serialize().unwrap();
    assert_eq!(once, twice);
}

#[test]
fn delete_preserves_headers_and_tracked() {
    let file = AchievementsDat::new(
        [9, 9, 9, 9],
        0x7F,
        vec![AchievementHeader::new(
            sos(b"produce-achievement"),
            vec![HeaderSubobject::new(sos(b"ach1"), 5)],
        )],
        vec![produce(b"ach1", 1.0)],
        vec![11, 12],
    );
    let before = file.serialize().unwrap();
    let after = file.delete(b"ach1").serialize().unwrap();
    let n = before.len();
    assert_eq!(n, after.len());
    // only the eight payload bytes, just before the four tracked bytes, may differ
    assert_eq!(before[..n - 12], after[..n - 12]);
    assert_eq!(&after[n - 12..n - 4], &[0u8; 8]);
    assert_eq!(before[n - 4..], after[n - 4..]);
}

#[test]
fn list_is_sorted_and_deduplicated() {
    let file = file_of(vec![
        produce(b"zeta", 1.0),
        produce(b"alpha", 2.0),
        produce(b"mu", 3.0),
        produce(b"alpha", 4.0),
    ]);
    let ids: Vec<Vec<u8>> = file.list().iter().map(|s| s.bytes().clone()).collect();
    assert_eq!(ids, vec![b"alpha".to_vec(), b"mu".to_vec(), b"zeta".to_vec()]);
}

#[test]
fn list_orders_by_byte_value_and_prefix_first() {
    let file = file_of(vec![
        produce(b"b", 0.0),
        produce(b"aa", 0.0),
        produce(b"a", 0.0),
        produce(b"", 0.0),
        produce(b"a\xFF", 0.0),
    ]);
    let ids: Vec<Vec<u8>> = file.list().iter().map(|s| s.bytes().clone()).collect();
    assert_eq!(
        ids,
        vec![
            b"".to_vec(),
            b"a".to_vec(),
            b"aa".to_vec(),
            b"a\xFF".to_vec(),
            b"b".to_vec(),
        ]
    );
}

#[test]
fn reset_zeroes_every_variant_payload() {
    let cases: Vec<(&[u8], AchievementProgress)> = vec![
        (b"achievement", AchievementProgress::Achievement),
        (b"build-entity-achievement", AchievementProgress::BuildEntity([9, 9, 9, 9])),
        (b"change-surface-achievement", AchievementProgress::ChangeSurface([3])),
        (b"combat-robot-count-achievement", AchievementProgress::CombatRobotCount(-5)),
        (
            b"construct-with-robots-achievement",
            AchievementProgress::ConstructWithRobots { constructed: 7, unknown: [1, 2, 3, 4] },
        ),
        (
            b"dont-use-entity-in-energy-production-achievement",
            AchievementProgress::DontUseEntityInEnergyProduction {
                max_j_per_h: 5.5f64.to_bits(),
            },
        ),
        (
            b"player-damaged-achievement",
            AchievementProgress::PlayerDamaged { max_damage: 1.5f32.to_bits(), survived: 1 },
        ),
        (b"train-path-achievement", AchievementProgress::TrainPath {
            longest_path: 2.5f64.to_bits(),
        }),
    ];
    for (tag, progress) in cases {
        let file = file_of(vec![AchievementContent::new(sos(tag), sos(b"i"), progress)]);
        let bytes = file.serialize().unwrap();
        let plen = bytes.len() - 15 - 1 - tag.len() - 2;
        let after = file.delete(b"i").serialize().unwrap();
        assert_eq!(bytes.len(), after.len());
        assert_eq!(
            &after[after.len() - plen..],
            vec![0u8; plen].as_slice(),
            "{}",
            String::from_utf8_lossy(tag)
        );
    }
}
