//! Tracks: an ordered list of checkpoints, each fired by entering a box
//! or by loading a map, with the abstract views the contracts speak of.
use vstd::prelude::*;

verus! {

/// What reaching a checkpoint does to the run.
#[derive(Clone, Copy, Debug, PartialEq, Eq, Structural)]
pub enum CheckpointKind {
    Start,
    Split,
    End,
}

/// An axis-aligned box in block coordinates: `min` is the lower corner,
/// `max` the upper one.
#[derive(Clone, Copy, Debug, PartialEq, Eq)]
pub struct Aabb {
    pub min: (i32, i32, i32),
    pub max: (i32, i32, i32),
}

/// What fires a checkpoint.
#[derive(Clone, Debug, PartialEq)]
pub enum Trigger {
    /// The player enters the box.
    Aabb(Aabb),
    /// The named map finishes loading.
    MapLoaded(String),
}

#[derive(Clone, Debug, PartialEq)]
pub struct Checkpoint {
    pub kind: CheckpointKind,
    pub trigger: Trigger,
    pub label: String,
}

#[derive(Clone, Debug, PartialEq)]
pub struct Track {
    pub name: String,
    pub checkpoints: Vec<Checkpoint>,
}

/// Abstract trigger: map names as character sequences.
pub enum TriggerView {
    Aabb(Aabb),
    MapLoaded(Seq<char>),
}

pub struct CheckpointView {
    pub kind: CheckpointKind,
    pub trigger: TriggerView,
    pub label: Seq<char>,
}

pub struct TrackView {
    pub name: Seq<char>,
    pub checkpoints: Seq<CheckpointView>,
}

impl View for Trigger {
    type V = TriggerView;

    open spec fn view(&self) -> TriggerView {
        match self {
            Trigger::Aabb(b) => TriggerView::Aabb(*b),
            Trigger::MapLoaded(m) => TriggerView::MapLoaded(m@),
        }
    }
}

impl View for Checkpoint {
    type V = CheckpointView;

    open spec fn view(&self) -> CheckpointView {
        CheckpointView { kind: self.kind, trigger: self.trigger@, label: self.label@ }
    }
}

/// The views of a list of checkpoints.
pub open spec fn checkpoints_view(cps: Seq<Checkpoint>) -> Seq<CheckpointView> {
    cps.map_values(|c: Checkpoint| c@)
}

impl View for Track {
    type V = TrackView;

    open spec fn view(&self) -> TrackView {
        TrackView { name: self.name@, checkpoints: checkpoints_view(self.checkpoints@) }
    }
}

/// Appending a checkpoint appends its view.
pub proof fn lemma_checkpoints_view_push(cps: Seq<Checkpoint>, c: Checkpoint)
    ensures
        checkpoints_view(cps.push(c)) == checkpoints_view(cps).push(c@),
{
    assert(checkpoints_view(cps.push(c)) =~= checkpoints_view(cps).push(c@));
}

/// The box with lower corner `min` and extent `size`.
pub open spec fn spec_aabb_from_min_size(min: (u16, u16, u16), size: (u8, u8, u8)) -> Aabb {
    Aabb {
        min: (min.0 as i32, min.1 as i32, min.2 as i32),
        max: ((min.0 + size.0) as i32, (min.1 + size.1) as i32, (min.2 + size.2) as i32),
    }
}

/// The box with lower corner `min` and extent `size`.
pub fn aabb_from_min_size(min: (u16, u16, u16), size: (u8, u8, u8)) -> (b: Aabb)
    ensures
        b == spec_aabb_from_min_size(min, size),
{
    Aabb {
        min: (min.0 as i32, min.1 as i32, min.2 as i32),
        max: (
            min.0 as i32 + size.0 as i32,
            min.1 as i32 + size.1 as i32,
            min.2 as i32 + size.2 as i32,
        ),
    }
}

} // verus!
