use livesplit_plugin::encode::{encode_for_chat, MAX_LINE_CP};
use livesplit_plugin::fixture::loadtest;
use livesplit_plugin::geometry::{CheckpointKind, Trigger};

#[test]
fn loadtest_has_expected_kind_sequence() {
    let t = loadtest();
    let kinds: Vec<_> = t.checkpoints.iter().map(|c| c.kind).collect();
    assert_eq!(
        kinds,
        vec![
            CheckpointKind::Start,
            CheckpointKind::Split,
            CheckpointKind::Split,
            CheckpointKind::Split,
            CheckpointKind::Split,
            CheckpointKind::Split,
            CheckpointKind::End,
        ]
    );
}

#[test]
fn loadtest_labels_are_populated() {
    let t = loadtest();
    for cp in &t.checkpoints {
        assert!(!cp.label.is_empty());
    }
}

#[test]
fn loadtest_has_map_loaded_trigger() {
    let t = loadtest();
    let map_triggers: Vec<&str> = t
        .checkpoints
        .iter()
        .filter_map(|c| match &c.trigger {
            Trigger::MapLoaded(name) => Some(name.as_str()),
            Trigger::Aabb(_) => None,
        })
        .collect();
    assert_eq!(map_triggers, vec!["mapname"]);
}

#[test]
fn loadtest_name_and_boxes() {
    let t = loadtest();
    assert_eq!(t.name, "Load Test");
    assert_eq!(t.checkpoints.len(), 7);
    match &t.checkpoints[1].trigger {
        Trigger::Aabb(b) => {
            assert_eq!(b.min, (10, 0, 0));
            assert_eq!(b.max, (12, 4, 2));
        }
        Trigger::MapLoaded(_) => panic!("expected a box"),
    }
    assert_eq!(t.checkpoints[0].label, "Start CheckPoint");
    assert_eq!(t.checkpoints[3].label, "Map Name");
    assert_eq!(t.checkpoints[6].label, "Split E");
}

// A map checkpoint's label goes on an `LS label` line of its own: the
// receiver reads a map name up to the end of its line.
#[test]
fn loadtest_encodes_with_every_line_within_cap() {
    let lines = encode_for_chat(&loadtest()).unwrap();
    assert_eq!(
        lines,
        vec![
            "LS title Load Test",
            "LS cp 0,0,0 2,4,2 Start CheckPoint",
            "LS cp 10,0,0 2,4,2 Split A",
            "LS cp 20,0,0 2,4,2 Split B",
            "LS map mapname",
            "LS label Map Name",
            "LS cp 0,0,0 2,4,2 Split C",
            "LS cp 10,0,0 2,4,2 Split D",
            "LS cp 20,0,0 2,4,2 Split E",
            "LS end",
        ]
    );
    for l in &lines {
        assert!(l.chars().count() <= MAX_LINE_CP);
    }
}
