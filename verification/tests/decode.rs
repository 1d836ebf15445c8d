use livesplit_plugin::decode::{feed_chat_line, FrameOutcome, State};
use livesplit_plugin::geometry::{CheckpointKind, Trigger};

fn feed(state: &mut State, line: &str) -> FrameOutcome {
    feed_chat_line(state, line)
}

fn error_of(out: FrameOutcome) -> String {
    match out {
        FrameOutcome::ParseError(e) => e,
        other => panic!("expected a parse error, got {other:?}"),
    }
}

#[test]
fn receives_a_whole_track() {
    let mut st = State::Idle;
    assert!(matches!(feed(&mut st, "LS title My Track"), FrameOutcome::Buffered));
    assert!(matches!(feed(&mut st, "&7LS start 0,0,0 2,4,2 go"), FrameOutcome::Buffered));
    assert!(matches!(feed(&mut st, "LS cp 10,20,30 1,1,1"), FrameOutcome::Buffered));
    assert!(matches!(feed(&mut st, "LS label split  one"), FrameOutcome::Buffered));
    assert!(matches!(feed(&mut st, "LS map some map"), FrameOutcome::Buffered));
    assert!(matches!(feed(&mut st, "LS label on the map"), FrameOutcome::Buffered));
    let track = match feed(&mut st, "LS endcp +7,0,65535 255,0,1 the end") {
        FrameOutcome::Loaded(t) => t,
        other => panic!("expected Loaded, got {other:?}"),
    };
    assert!(matches!(st, State::Idle));
    assert_eq!(track.name, "My Track");
    let kinds: Vec<_> = track.checkpoints.iter().map(|c| c.kind).collect();
    assert_eq!(
        kinds,
        vec![
            CheckpointKind::Start,
            CheckpointKind::Split,
            CheckpointKind::Split,
            CheckpointKind::End
        ]
    );
    let labels: Vec<&str> = track.checkpoints.iter().map(|c| c.label.as_str()).collect();
    assert_eq!(labels, vec!["go", "split  one", "on the map", "the end"]);
    match &track.checkpoints[3].trigger {
        Trigger::Aabb(b) => {
            assert_eq!(b.min, (7, 0, 65535));
            assert_eq!(b.max, (262, 0, 65536));
        }
        Trigger::MapLoaded(_) => panic!("expected a box"),
    }
    match &track.checkpoints[2].trigger {
        Trigger::MapLoaded(m) => assert_eq!(m, "some map"),
        Trigger::Aabb(_) => panic!("expected a map"),
    }
}

#[test]
fn map_start_and_endmap_need_labels() {
    let mut st = State::Idle;
    feed(&mut st, "LS title M");
    assert!(matches!(feed(&mut st, "LS map spawn"), FrameOutcome::Buffered));
    assert!(matches!(st, State::NeedLabel { awaiting_kind: CheckpointKind::Start, .. }));
    assert!(matches!(feed(&mut st, "LS label s"), FrameOutcome::Buffered));
    assert!(matches!(feed(&mut st, "LS endmap goal"), FrameOutcome::Buffered));
    match feed(&mut st, "LS label e") {
        FrameOutcome::Loaded(t) => {
            assert_eq!(t.checkpoints.len(), 2);
            assert_eq!(t.checkpoints[1].kind, CheckpointKind::End);
        }
        other => panic!("expected Loaded, got {other:?}"),
    }
}

#[test]
fn lines_that_are_not_ours() {
    let mut st = State::Idle;
    assert!(matches!(feed(&mut st, "hello"), FrameOutcome::NotOurs));
    assert!(matches!(feed(&mut st, "LS"), FrameOutcome::NotOurs));
    assert!(matches!(feed(&mut st, "ls title x"), FrameOutcome::NotOurs));
    assert!(matches!(feed(&mut st, "&&LS title x"), FrameOutcome::NotOurs));
    assert!(matches!(feed(&mut st, "&7&aLS title x"), FrameOutcome::NotOurs));
    assert!(matches!(st, State::Idle));
}

#[test]
fn colour_code_is_stripped_once() {
    let mut st = State::Idle;
    assert!(matches!(feed(&mut st, "&SLS title x"), FrameOutcome::Buffered));
    assert!(matches!(st, State::NeedStart { .. }));
}

#[test]
fn title_resets_from_any_state() {
    let mut st = State::Idle;
    feed(&mut st, "LS title A");
    feed(&mut st, "LS start 0,0,0 1,1,1");
    assert!(matches!(st, State::NeedLabel { .. }));
    assert!(matches!(feed(&mut st, "LS title B"), FrameOutcome::Buffered));
    match &st {
        State::NeedStart { name } => assert_eq!(name, "B"),
        other => panic!("expected NeedStart, got {other:?}"),
    }
}

#[test]
fn parse_diagnostics() {
    let mut st = State::Idle;
    assert_eq!(error_of(feed(&mut st, "LS title")), "title name is empty");
    assert_eq!(error_of(feed(&mut st, "LS title   ")), "title name is empty");
    assert_eq!(error_of(feed(&mut st, "LS map ")), "map name is empty");
    assert_eq!(error_of(feed(&mut st, "LS endmap")), "endmap name is empty");
    assert_eq!(error_of(feed(&mut st, "LS label \t")), "label text is empty");
    assert_eq!(error_of(feed(&mut st, "LS bogus x")), "unknown keyword `bogus`");
    assert_eq!(error_of(feed(&mut st, "LS  title x")), "unknown keyword ``");
    assert_eq!(error_of(feed(&mut st, "LS cp")), "missing min triple");
    assert_eq!(error_of(feed(&mut st, "LS cp 1,2,3")), "missing size triple");
    assert_eq!(error_of(feed(&mut st, "LS cp 1,2,3 ")), "missing size triple");
    assert_eq!(
        error_of(feed(&mut st, "LS cp 1,2 3,4,5")),
        "expected 3 comma-separated min values, got 2"
    );
    assert_eq!(
        error_of(feed(&mut st, "LS cp 1,2,3 1,1,1,1,1,1,1,1,1,1,1,1")),
        "expected 3 comma-separated size values, got 12"
    );
    assert_eq!(
        error_of(feed(&mut st, "LS cp 1,x,3 1,1,1")),
        "min[1] `x`: invalid digit found in string"
    );
    assert_eq!(
        error_of(feed(&mut st, "LS cp ,1,2 1,1,1")),
        "min[0] ``: cannot parse integer from empty string"
    );
    assert_eq!(
        error_of(feed(&mut st, "LS cp 1,2,3 1,1,256")),
        "size[2] `256`: number too large to fit in target type"
    );
    assert_eq!(
        error_of(feed(&mut st, "LS cp 65536,0,0 1,1,1")),
        "min[0] `65536`: number too large to fit in target type"
    );
    assert_eq!(
        error_of(feed(&mut st, "LS cp -1,0,0 1,1,1")),
        "min[0] `-1`: invalid digit found in string"
    );
    assert_eq!(
        error_of(feed(&mut st, "LS cp +,0,0 1,1,1")),
        "min[0] `+`: invalid digit found in string"
    );
    assert_eq!(
        error_of(feed(&mut st, "LS cp 1,2,3 1,1,1  ")),
        "inline label is empty"
    );
    assert!(matches!(st, State::Idle));
}

#[test]
fn state_diagnostics_keep_the_state() {
    let mut st = State::Idle;
    assert_eq!(
        error_of(feed(&mut st, "LS start 0,0,0 1,1,1 s")),
        "unexpected `start`, state is `Idle`"
    );
    assert_eq!(error_of(feed(&mut st, "LS cp 0,0,0 1,1,1 s")), "no `LS start` yet");
    assert_eq!(error_of(feed(&mut st, "LS map m")), "no `LS title` yet");
    assert_eq!(error_of(feed(&mut st, "LS label l")), "no checkpoint to label");
    assert!(matches!(st, State::Idle));

    feed(&mut st, "LS title T");
    assert_eq!(error_of(feed(&mut st, "LS endcp 0,0,0 1,1,1 s")), "no `LS start` yet");
    assert_eq!(error_of(feed(&mut st, "LS endmap m")), "no checkpoints before `endmap`");
    assert_eq!(error_of(feed(&mut st, "LS label l")), "no checkpoint to label");
    assert!(matches!(st, State::NeedStart { .. }));

    feed(&mut st, "LS start 0,0,0 1,1,1 s");
    assert_eq!(
        error_of(feed(&mut st, "LS start 0,0,0 1,1,1 s")),
        "unexpected `start`, state is `NeedNext`"
    );
    assert_eq!(error_of(feed(&mut st, "LS label l")), "checkpoint already has a label");
    assert!(matches!(st, State::NeedNext { .. }));

    feed(&mut st, "LS cp 0,0,0 1,1,1");
    assert_eq!(
        error_of(feed(&mut st, "LS start 0,0,0 1,1,1 s")),
        "unexpected `start`, state is `NeedLabel`"
    );
    assert_eq!(
        error_of(feed(&mut st, "LS cp 0,0,0 1,1,1 s")),
        "previous checkpoint not yet labeled"
    );
    assert_eq!(error_of(feed(&mut st, "LS map m")), "previous checkpoint not yet labeled");
    match &st {
        State::NeedLabel { slots, awaiting_kind, .. } => {
            assert_eq!(slots.len(), 2);
            assert_eq!(*awaiting_kind, CheckpointKind::Split);
        }
        other => panic!("expected NeedLabel, got {other:?}"),
    }
}

#[test]
fn state_labels() {
    assert_eq!(State::Idle.label(), "Idle");
    assert_eq!(State::NeedStart { name: "x".into() }.label(), "NeedStart");
}

#[test]
fn blank_means_unicode_whitespace() {
    let mut st = State::Idle;
    assert_eq!(error_of(feed(&mut st, "LS title \u{3000}\u{a0}\u{85}")), "title name is empty");
    // U+200B is not White_Space, so it is a name.
    assert!(matches!(feed(&mut st, "LS title \u{200b}"), FrameOutcome::Buffered));
}

#[test]
fn largest_box_reads_back() {
    let mut st = State::Idle;
    feed(&mut st, "LS title T");
    assert!(matches!(
        feed(&mut st, "LS start 65535,65535,65535 255,255,255 far corner"),
        FrameOutcome::Buffered
    ));
    match &st {
        State::NeedNext { slots, .. } => {
            assert_eq!(slots[0].label, "far corner");
            match &slots[0].trigger {
                Trigger::Aabb(b) => {
                    assert_eq!(b.min, (65535, 65535, 65535));
                    assert_eq!(b.max, (65790, 65790, 65790));
                }
                Trigger::MapLoaded(_) => panic!("expected a box"),
            }
        }
        other => panic!("expected NeedNext, got {other:?}"),
    }
}

#[test]
fn awaited_label_is_empty_until_given() {
    let mut st = State::Idle;
    feed(&mut st, "LS title T");
    feed(&mut st, "LS start 0,0,0 1,1,1 s");
    feed(&mut st, "LS endmap goal");
    match &st {
        State::NeedLabel { slots, awaiting_kind, .. } => {
            assert_eq!(*awaiting_kind, CheckpointKind::End);
            assert_eq!(slots.last().unwrap().label, "");
        }
        other => panic!("expected NeedLabel, got {other:?}"),
    }
}
