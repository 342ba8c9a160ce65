use factorio_achievements_editor::{
    AchievementContent, AchievementHeader, AchievementProgress, AchievementsDat, CodecError,
    HeaderSubobject, SpaceOptimizedString,
};

fn sos(bytes: &[u8]) -> SpaceOptimizedString {
    SpaceOptimizedString::new(bytes.to_vec())
}

fn empty_file_bytes() -> Vec<u8> {
    // version quad (4 x i16 zero), reserved byte, u16 zero headers, u32 zero contents
    let mut b = vec![0u8; 8];
    b.push(0x00);
    b.extend_from_slice(&[0, 0]);
    b.extend_from_slice(&[0, 0, 0, 0]);
    b
}

fn one_content_file(typ: &[u8], id: &[u8], progress: AchievementProgress) -> AchievementsDat {
    AchievementsDat::new(
        [0, 0, 0, 0],
        0,
        Vec::new(),
        vec![AchievementContent::new(sos(typ), sos(id), progress)],
        Vec::new(),
    )
}

#[test]
fn empty_file_tree_decodes_and_round_trips() {
    let bytes = empty_file_bytes();
    assert_eq!(bytes.len(), 15);
    let parsed = AchievementsDat::parse(&bytes).unwrap();
    assert!(parsed.list().is_empty());
    let deleted = parsed.delete(b"anything");
    assert_eq!(deleted.serialize().unwrap(), bytes);
}

#[test]
fn short_string_round_trip() {
    let file = one_content_file(b"kill-achievement", b"x", AchievementProgress::Kill {
        max_killed: 0.0f64.to_bits(),
    });
    let bytes = file.serialize().unwrap();
    let mut expected = empty_file_bytes();
    // one content
    expected[11] = 1;
    expected.push(16);
    expected.extend_from_slice(b"kill-achievement");
    expected.push(1);
    expected.push(b'x');
    expected.extend_from_slice(&[0u8; 8]);
    assert_eq!(bytes, expected);
    let parsed = AchievementsDat::parse(&bytes).unwrap();
    assert_eq!(parsed.serialize().unwrap(), bytes);
}

#[test]
fn long_string_boundary_uses_four_byte_length() {
    let id = vec![b'a'; 300];
    let file = one_content_file(b"kill-achievement", &id, AchievementProgress::Kill {
        max_killed: 0,
    });
    let bytes = file.serialize().unwrap();
    // the id is encoded as 0xFF, then 300 little-endian in four bytes, then the bytes
    let id_region = &bytes[15 + 1 + 16..bytes.len() - 8];
    assert_eq!(id_region.len(), 305);
    assert_eq!(id_region[0], 0xFF);
    assert_eq!(&id_region[1..5], &[44, 1, 0, 0]);
    assert_eq!(&id_region[5..], &id[..]);
    let parsed = AchievementsDat::parse(&bytes).unwrap();
    assert_eq!(parsed.serialize().unwrap(), bytes);
}

#[test]
fn bytestring_boundary_lengths() {
    for len in [0usize, 1, 254, 255, 256, 65535, 65536] {
        let id = vec![b'i'; len];
        let file = one_content_file(b"kill-achievement", &id, AchievementProgress::Kill {
            max_killed: 0,
        });
        let bytes = file.serialize().unwrap();
        // strip the fixed surroundings: 15 envelope bytes, 17 tag bytes, 8 payload bytes
        let id_encoded = bytes.len() - 15 - 17 - 8;
        let expected = if len < 255 { len + 1 } else { len + 5 };
        assert_eq!(id_encoded, expected, "length {len}");
        let parsed = AchievementsDat::parse(&bytes).unwrap();
        assert_eq!(parsed.list()[0].bytes().as_slice(), &id[..]);
        assert_eq!(parsed.serialize().unwrap(), bytes);
    }
}

#[test]
fn full_tree_round_trip() {
    let headers = vec![
        AchievementHeader::new(
            sos(b"produce-achievement"),
            vec![
                HeaderSubobject::new(sos(b"iron"), 3),
                HeaderSubobject::new(sos(b"copper"), -1),
            ],
        ),
        AchievementHeader::new(sos(b"kill-achievement"), Vec::new()),
    ];
    let contents = vec![
        AchievementContent::new(
            sos(b"produce-achievement"),
            sos(b"iron"),
            AchievementProgress::Produce { produced: 42.5f64.to_bits() },
        ),
        AchievementContent::new(
            sos(b"player-damaged-achievement"),
            sos(b"tough"),
            AchievementProgress::PlayerDamaged { max_damage: 9.25f32.to_bits(), survived: 1 },
        ),
        AchievementContent::new(
            sos(b"build-entity-achievement"),
            sos(b"belts"),
            AchievementProgress::BuildEntity([1, 2, 3, 4]),
        ),
        AchievementContent::new(
            sos(b"combat-robot-count-achievement"),
            sos(b"bots"),
            AchievementProgress::CombatRobotCount(-5),
        ),
        AchievementContent::new(
            sos(b"construct-with-robots-achievement"),
            sos(b"walls"),
            AchievementProgress::ConstructWithRobots { constructed: -1, unknown: [5, 6, 7, 8] },
        ),
        AchievementContent::new(
            sos(b"dont-build-entity-achievement"),
            sos(b"lazy"),
            AchievementProgress::DontBuildEntity([1, 2, 3, 4, 5]),
        ),
        AchievementContent::new(
            sos(b"change-surface-achievement"),
            sos(b"moon"),
            AchievementProgress::ChangeSurface([9]),
        ),
        AchievementContent::new(sos(b"research-achievement"), sos(b"lab"), AchievementProgress::Research),
    ];
    let file = AchievementsDat::new([1, 2, -3, 4], 0xAB, headers, contents, vec![7, -8, 9]);
    let bytes = file.serialize().unwrap();
    let parsed = AchievementsDat::parse(&bytes).unwrap();
    assert_eq!(parsed.serialize().unwrap(), bytes);
}

#[test]
fn unknown_tag_fails_to_decode() {
    let mut bytes = empty_file_bytes();
    bytes[11] = 1;
    bytes.push(22);
    bytes.extend_from_slice(b"not-a-real-achievement");
    bytes.push(1);
    bytes.push(b'x');
    assert_eq!(AchievementsDat::parse(&bytes).err(), Some(CodecError::UnknownTag));
}

#[test]
fn reserved_layout_fails_to_decode() {
    for tag in [
        b"dont-kill-manually-achievement" as &[u8],
        b"dont-research-before-researching-achievement",
    ] {
        let mut bytes = empty_file_bytes();
        bytes[11] = 1;
        bytes.push(tag.len() as u8);
        bytes.extend_from_slice(tag);
        bytes.push(1);
        bytes.push(b'x');
        assert_eq!(
            AchievementsDat::parse(&bytes).err(),
            Some(CodecError::UnknownPayloadLayout),
            "{}",
            String::from_utf8_lossy(tag)
        );
    }
}

#[test]
fn odd_trailing_bytes_fail_to_decode() {
    let mut bytes = empty_file_bytes();
    bytes.extend_from_slice(&[5, 6]);
    assert!(AchievementsDat::parse(&bytes).is_ok());
    bytes.push(7);
    assert_eq!(AchievementsDat::parse(&bytes).err(), Some(CodecError::TrailingGarbage));
}

#[test]
fn truncated_input_fails_to_decode() {
    let file = one_content_file(b"kill-achievement", b"x", AchievementProgress::Kill {
        max_killed: 0,
    });
    let bytes = file.serialize().unwrap();
    for cut in [0, 5, 9, 14, 16, bytes.len() - 1] {
        assert_eq!(
            AchievementsDat::parse(&bytes[..cut]).err(),
            Some(CodecError::Truncated),
            "cut at {cut}"
        );
    }
}

#[test]
fn mismatched_tag_fails_to_encode() {
    let file = one_content_file(b"achievement", b"x", AchievementProgress::Kill {
        max_killed: 0,
    });
    assert_eq!(file.serialize().err(), Some(CodecError::InternalConsistency));
}
