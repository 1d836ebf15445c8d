//! A small fixed track used by the `/client LiveSplit loadtest` chat
//! subcommand for development.
use vstd::prelude::*;
use vstd::string::*;

use crate::geometry::{
    aabb_from_min_size, checkpoints_view, lemma_checkpoints_view_push, spec_aabb_from_min_size,
    Checkpoint, CheckpointKind, CheckpointView, Track, TrackView, Trigger, TriggerView,
};

verus! {

pub open spec fn aabb_view(
    kind: CheckpointKind,
    min: (u16, u16, u16),
    size: (u8, u8, u8),
    label: Seq<char>,
) -> CheckpointView {
    CheckpointView {
        kind,
        trigger: TriggerView::Aabb(spec_aabb_from_min_size(min, size)),
        label,
    }
}

pub open spec fn map_view(kind: CheckpointKind, map_name: Seq<char>, label: Seq<char>) -> CheckpointView {
    CheckpointView { kind, trigger: TriggerView::MapLoaded(map_name), label }
}

/// The load-test track: three boxes along +X, a map change, three more
/// boxes, the last of them the end.
pub open spec fn spec_loadtest() -> TrackView {
    TrackView {
        name: "Load Test"@,
        checkpoints: seq![
            aabb_view(CheckpointKind::Start, (0, 0, 0), (2, 4, 2), "Start CheckPoint"@),
            aabb_view(CheckpointKind::Split, (10, 0, 0), (2, 4, 2), "Split A"@),
            aabb_view(CheckpointKind::Split, (20, 0, 0), (2, 4, 2), "Split B"@),
            map_view(CheckpointKind::Split, "mapname"@, "Map Name"@),
            aabb_view(CheckpointKind::Split, (0, 0, 0), (2, 4, 2), "Split C"@),
            aabb_view(CheckpointKind::Split, (10, 0, 0), (2, 4, 2), "Split D"@),
            aabb_view(CheckpointKind::End, (20, 0, 0), (2, 4, 2), "Split E"@),
        ],
    }
}

fn aabb_checkpoint(
    kind: CheckpointKind,
    min: (u16, u16, u16),
    size: (u8, u8, u8),
    label: &str,
) -> (c: Checkpoint)
    ensures
        c@ == aabb_view(kind, min, size, label@),
{
    Checkpoint {
        kind,
        trigger: Trigger::Aabb(aabb_from_min_size(min, size)),
        label: String::from_str(label),
    }
}

fn map_checkpoint(kind: CheckpointKind, map_name: &str, label: &str) -> (c: Checkpoint)
    ensures
        c@ == map_view(kind, map_name@, label@),
{
    Checkpoint {
        kind,
        trigger: Trigger::MapLoaded(String::from_str(map_name)),
        label: String::from_str(label),
    }
}

fn push_checkpoint(cps: &mut Vec<Checkpoint>, c: Checkpoint)
    ensures
        checkpoints_view(final(cps)@) == checkpoints_view(old(cps)@).push(c@),
{
    proof {
        lemma_checkpoints_view_push(cps@, c);
    }
    cps.push(c);
}

/// The load-test track.
pub fn loadtest() -> (t: Track)
    ensures
        t@ == spec_loadtest(),
{
    let mut cps: Vec<Checkpoint> = Vec::new();
    assert(checkpoints_view(cps@) =~= Seq::<CheckpointView>::empty());
    push_checkpoint(
        &mut cps,
        aabb_checkpoint(CheckpointKind::Start, (0, 0, 0), (2, 4, 2), "Start CheckPoint"),
    );
    push_checkpoint(&mut cps, aabb_checkpoint(CheckpointKind::Split, (10, 0, 0), (2, 4, 2), "Split A"));
    push_checkpoint(&mut cps, aabb_checkpoint(CheckpointKind::Split, (20, 0, 0), (2, 4, 2), "Split B"));
    push_checkpoint(&mut cps, map_checkpoint(CheckpointKind::Split, "mapname", "Map Name"));
    push_checkpoint(&mut cps, aabb_checkpoint(CheckpointKind::Split, (0, 0, 0), (2, 4, 2), "Split C"));
    push_checkpoint(&mut cps, aabb_checkpoint(CheckpointKind::Split, (10, 0, 0), (2, 4, 2), "Split D"));
    push_checkpoint(&mut cps, aabb_checkpoint(CheckpointKind::End, (20, 0, 0), (2, 4, 2), "Split E"));
    let t = Track { name: String::from_str("Load Test"), checkpoints: cps };
    assert(t@.checkpoints =~= spec_loadtest().checkpoints);
    t
}

} // verus!
