//! Receiving a track over chat: each `LS ...` line is parsed and fed to a
//! state machine that buffers checkpoints until the track is complete.
use vstd::prelude::*;
use vstd::string::*;

use crate::geometry::{
    aabb_from_min_size, checkpoints_view, lemma_checkpoints_view_push, spec_aabb_from_min_size,
    Aabb, Checkpoint, CheckpointKind, CheckpointView, Track, TrackView, Trigger, TriggerView,
};
use crate::encode::triple_text;
use crate::text::{
    blank_range, chars_of, decimal, first_index, find_in_range, int_error_text, is_ascii_alnum,
    is_blank, parse_uint, parse_uint_range, push_decimal, push_int_error, push_range, split_on, split_range,
    string_of_range, ascii_alnum, IntErrorKind, lemma_first_index, lemma_no_index, lemma_decimal_digits,
    lemma_decimal_parses, is_digit,
};

verus! {

// =====================================================================
// Lines
// =====================================================================

/// One parsed `LS` line, abstractly.
pub enum LineView {
    Title { name: Seq<char> },
    Start { aabb: Aabb, label: Option<Seq<char>> },
    Cp { aabb: Aabb, label: Option<Seq<char>> },
    End { aabb: Aabb, label: Option<Seq<char>> },
    MapLoaded { name: Seq<char> },
    EndMapLoaded { name: Seq<char> },
    Label { text: Seq<char> },
}

enum Line {
    Title { name: String },
    Start { aabb: Aabb, label: Option<String> },
    Cp { aabb: Aabb, label: Option<String> },
    End { aabb: Aabb, label: Option<String> },
    MapLoaded { name: String },
    EndMapLoaded { name: String },
    Label { text: String },
}

pub open spec fn opt_view(s: Option<String>) -> Option<Seq<char>> {
    match s {
        Some(t) => Some(t@),
        None => None,
    }
}

impl View for Line {
    type V = LineView;

    closed spec fn view(&self) -> LineView {
        match self {
            Line::Title { name } => LineView::Title { name: name@ },
            Line::Start { aabb, label } => LineView::Start { aabb: *aabb, label: opt_view(*label) },
            Line::Cp { aabb, label } => LineView::Cp { aabb: *aabb, label: opt_view(*label) },
            Line::End { aabb, label } => LineView::End { aabb: *aabb, label: opt_view(*label) },
            Line::MapLoaded { name } => LineView::MapLoaded { name: name@ },
            Line::EndMapLoaded { name } => LineView::EndMapLoaded { name: name@ },
            Line::Label { text } => LineView::Label { text: text@ },
        }
    }
}

// =====================================================================
// The line grammar
// =====================================================================

/// The text with one leading `&X` colour code removed, where `X` is an
/// ASCII letter or digit.
pub open spec fn strip_color(s: Seq<char>) -> Seq<char> {
    if s.len() >= 2 && s[0] == '&' && is_ascii_alnum(s[1]) {
        s.skip(2)
    } else {
        s
    }
}

/// The rest of the line, which must not be blank.
pub open spec fn spec_consume_to_eol(rest: Seq<char>, what: Seq<char>) -> Result<
    Seq<char>,
    Seq<char>,
> {
    if is_blank(rest) {
        Err(what + " is empty"@)
    } else {
        Ok(rest)
    }
}

/// Three comma-separated unsigned integers, each at most `max`.
pub open spec fn spec_parse_triple(s: Seq<char>, what: Seq<char>, max: nat) -> Result<
    (nat, nat, nat),
    Seq<char>,
> {
    let parts = split_on(s, ',');
    if parts.len() != 3 {
        Err("expected 3 comma-separated "@ + what + " values, got "@ + decimal(parts.len()))
    } else {
        match parse_uint(parts[0], max) {
            Err(e) => Err(triple_item_error(what, 0, parts[0], e)),
            Ok(a) => match parse_uint(parts[1], max) {
                Err(e) => Err(triple_item_error(what, 1, parts[1], e)),
                Ok(b) => match parse_uint(parts[2], max) {
                    Err(e) => Err(triple_item_error(what, 2, parts[2], e)),
                    Ok(c) => Ok((a, b, c)),
                },
            },
        }
    }
}

/// `what[i] `item`: <reason>`.
pub open spec fn triple_item_error(what: Seq<char>, i: nat, item: Seq<char>, e: IntErrorKind) -> Seq<
    char,
> {
    what + "["@ + decimal(i) + "] `"@ + item + "`: "@ + int_error_text(e)
}

/// `rest` cut at its first space: the part before it, and what follows
/// it if there is a space.
pub open spec fn cut_at_space(rest: Seq<char>) -> (Seq<char>, Option<Seq<char>>) {
    match first_index(rest, ' ') {
        Some(i) => (rest.take(i), Some(rest.skip(i + 1))),
        None => (rest, None),
    }
}

/// `<min triple> <size triple> [label]`: the box and the inline label.
pub open spec fn spec_parse_checkpoint(rest: Seq<char>) -> Result<
    (Aabb, Option<Seq<char>>),
    Seq<char>,
> {
    let (min_s, after_min) = cut_at_space(rest);
    if min_s.len() == 0 {
        Err("missing min triple"@)
    } else {
        match after_min {
            None => Err("missing size triple"@),
            Some(r2) => {
                let (size_s, label) = cut_at_space(r2);
                if size_s.len() == 0 {
                    Err("missing size triple"@)
                } else {
                    match spec_parse_triple(min_s, "min"@, 65535) {
                        Err(e) => Err(e),
                        Ok(min) => match spec_parse_triple(size_s, "size"@, 255) {
                            Err(e) => Err(e),
                            Ok(size) => {
                                let aabb = spec_aabb_from_min_size(
                                    (min.0 as u16, min.1 as u16, min.2 as u16),
                                    (size.0 as u8, size.1 as u8, size.2 as u8),
                                );
                                match label {
                                    Some(l) => if is_blank(l) {
                                        Err("inline label is empty"@)
                                    } else {
                                        Ok((aabb, Some(l)))
                                    },
                                    None => Ok((aabb, None)),
                                }
                            },
                        },
                    }
                }
            },
        }
    }
}

/// The line after its keyword.
pub open spec fn spec_parse_line(keyword: Seq<char>, rest: Seq<char>) -> Result<
    LineView,
    Seq<char>,
> {
    if keyword == "title"@ {
        match spec_consume_to_eol(rest, "title name"@) {
            Ok(name) => Ok(LineView::Title { name }),
            Err(e) => Err(e),
        }
    } else if keyword == "label"@ {
        if is_blank(rest) {
            Err("label text is empty"@)
        } else {
            Ok(LineView::Label { text: rest })
        }
    } else if keyword == "start"@ {
        match spec_parse_checkpoint(rest) {
            Ok((aabb, label)) => Ok(LineView::Start { aabb, label }),
            Err(e) => Err(e),
        }
    } else if keyword == "cp"@ {
        match spec_parse_checkpoint(rest) {
            Ok((aabb, label)) => Ok(LineView::Cp { aabb, label }),
            Err(e) => Err(e),
        }
    } else if keyword == "endcp"@ {
        match spec_parse_checkpoint(rest) {
            Ok((aabb, label)) => Ok(LineView::End { aabb, label }),
            Err(e) => Err(e),
        }
    } else if keyword == "map"@ {
        match spec_consume_to_eol(rest, "map name"@) {
            Ok(name) => Ok(LineView::MapLoaded { name }),
            Err(e) => Err(e),
        }
    } else if keyword == "endmap"@ {
        match spec_consume_to_eol(rest, "endmap name"@) {
            Ok(name) => Ok(LineView::EndMapLoaded { name }),
            Err(e) => Err(e),
        }
    } else {
        Err("unknown keyword `"@ + keyword + "`"@)
    }
}

/// Whether a chat line is ours (`LS ` after an optional colour code).
pub open spec fn is_ours(text: Seq<char>) -> bool {
    let t = strip_color(text);
    t.len() >= 3 && t[0] == 'L' && t[1] == 'S' && t[2] == ' '
}

/// A chat line: `None` when it is not ours, else the parsed line or the
/// diagnostic.
pub open spec fn spec_parse_frame(text: Seq<char>) -> Option<Result<LineView, Seq<char>>> {
    if !is_ours(text) {
        None
    } else {
        let (keyword, rest) = cut_at_space(strip_color(text).skip(3));
        let rest = match rest {
            Some(r) => r,
            None => Seq::<char>::empty(),
        };
        Some(spec_parse_line(keyword, rest))
    }
}

/// Labels that parsing produces have text.
pub open spec fn line_wf(l: LineView) -> bool {
    match l {
        LineView::Start { label, .. } | LineView::Cp { label, .. } | LineView::End {
            label,
            ..
        } => label matches Some(t) ==> !is_blank(t),
        LineView::Label { text } => !is_blank(text),
        LineView::Title { name } | LineView::MapLoaded { name } | LineView::EndMapLoaded {
            name,
        } => !is_blank(name),
    }
}

pub proof fn lemma_parsed_line_wf(keyword: Seq<char>, rest: Seq<char>)
    ensures
        spec_parse_line(keyword, rest) matches Ok(l) ==> line_wf(l),
{
}

// ---------------------------------------------------------------------
// Parsing, executable
// ---------------------------------------------------------------------

/// Whether `v[lo..hi]` spells `word`.
fn range_is(v: &Vec<char>, lo: usize, hi: usize, word: &str) -> (r: bool)
    requires
        lo <= hi <= v@.len(),
    ensures
        r == (v@.subrange(lo as int, hi as int) == word@),
{
    let w = chars_of(word);
    if hi - lo != w.len() {
        return false;
    }
    let mut i: usize = 0;
    while i < w.len()
        invariant
            lo <= hi <= v@.len(),
            hi - lo == w@.len(),
            w@ == word@,
            i <= w@.len(),
            forall|j: int| 0 <= j < i ==> v@[lo + j] == w@[j],
        decreases w@.len() - i,
    {
        if v[lo + i] != w[i] {
            assert(v@.subrange(lo as int, hi as int)[i as int] != w@[i as int]);
            return false;
        }
        i += 1;
    }
    assert(v@.subrange(lo as int, hi as int) =~= w@);
    true
}

fn consume_to_eol(v: &Vec<char>, lo: usize, hi: usize, what: &str) -> (r: Result<String, String>)
    requires
        lo <= hi <= v@.len(),
    ensures
        match spec_consume_to_eol(v@.subrange(lo as int, hi as int), what@) {
            Ok(s) => r matches Ok(x) && x@ == s,
            Err(e) => r matches Err(x) && x@ == e,
        },
{
    if blank_range(v, lo, hi) {
        let mut msg = String::from_str(what);
        msg.append(" is empty");
        return Err(msg);
    }
    Ok(string_of_range(v, lo, hi))
}

/// Parses one number of a triple; on failure the diagnostic names it.
fn parse_triple_item(
    v: &Vec<char>,
    lo: usize,
    hi: usize,
    what: &str,
    i: u64,
    max: u32,
) -> (r: Result<u32, String>)
    requires
        lo <= hi <= v@.len(),
    ensures
        match parse_uint(v@.subrange(lo as int, hi as int), max as nat) {
            Ok(n) => r matches Ok(x) && x == n,
            Err(e) => r matches Err(x) && x@ == triple_item_error(
                what@,
                i as nat,
                v@.subrange(lo as int, hi as int),
                e,
            ),
        },
{
    match parse_uint_range(v, lo, hi, max) {
        Ok(n) => Ok(n),
        Err(e) => {
            let mut msg = String::from_str(what);
            msg.append("[");
            push_decimal(&mut msg, i);
            msg.append("] `");
            push_range(&mut msg, v, lo, hi);
            msg.append("`: ");
            push_int_error(&mut msg, e);
            Err(msg)
        },
    }
}

fn parse_triple(v: &Vec<char>, lo: usize, hi: usize, what: &str, max: u32) -> (r: Result<
    (u32, u32, u32),
    String,
>)
    requires
        lo <= hi <= v@.len(),
    ensures
        match spec_parse_triple(v@.subrange(lo as int, hi as int), what@, max as nat) {
            Ok(t) => r matches Ok(x) && x.0 == t.0 && x.1 == t.1 && x.2 == t.2,
            Err(e) => r matches Err(x) && x@ == e,
        },
{
    let parts = split_range(v, lo, hi, ',');
    let ghost sp = split_on(v@.subrange(lo as int, hi as int), ',');
    if parts.len() != 3 {
        let mut msg = String::from_str("expected 3 comma-separated ");
        msg.append(what);
        msg.append(" values, got ");
        push_decimal(&mut msg, parts.len() as u64);
        return Err(msg);
    }
    assert(v@.subrange(parts@[0].0 as int, parts@[0].1 as int) == sp[0]);
    assert(v@.subrange(parts@[1].0 as int, parts@[1].1 as int) == sp[1]);
    assert(v@.subrange(parts@[2].0 as int, parts@[2].1 as int) == sp[2]);
    let a = parse_triple_item(v, parts[0].0, parts[0].1, what, 0, max)?;
    let b = parse_triple_item(v, parts[1].0, parts[1].1, what, 1, max)?;
    let c = parse_triple_item(v, parts[2].0, parts[2].1, what, 2, max)?;
    Ok((a, b, c))
}

fn parse_checkpoint(v: &Vec<char>, lo: usize, hi: usize) -> (r: Result<(Aabb, Option<String>), String>)
    requires
        lo <= hi <= v@.len(),
    ensures
        match spec_parse_checkpoint(v@.subrange(lo as int, hi as int)) {
            Ok((aabb, label)) => r matches Ok(x) && x.0 == aabb && opt_view(x.1) == label,
            Err(e) => r matches Err(x) && x@ == e,
        },
{
    let ghost rest = v@.subrange(lo as int, hi as int);
    let first = find_in_range(v, lo, hi, ' ');
    let i = match first {
        None => {
            if lo == hi {
                return Err(String::from_str("missing min triple"));
            }
            return Err(String::from_str("missing size triple"));
        },
        Some(i) => i,
    };
    let min_hi = lo + i;
    assert(rest.take(i as int) == v@.subrange(lo as int, min_hi as int));
    assert(rest.skip(i + 1) == v@.subrange(min_hi + 1, hi as int));
    if i == 0 {
        return Err(String::from_str("missing min triple"));
    }
    let size_lo = min_hi + 1;
    let ghost r2 = v@.subrange(size_lo as int, hi as int);
    let second = find_in_range(v, size_lo, hi, ' ');
    let (size_hi, label_lo) = match second {
        Some(j) => {
            assert(r2.take(j as int) == v@.subrange(size_lo as int, size_lo + j));
            assert(r2.skip(j + 1) == v@.subrange(size_lo + j + 1, hi as int));
            (size_lo + j, Some(size_lo + j + 1))
        },
        None => (hi, None),
    };
    if size_hi == size_lo {
        return Err(String::from_str("missing size triple"));
    }
    let min = parse_triple(v, lo, min_hi, "min", 65535)?;
    let size = parse_triple(v, size_lo, size_hi, "size", 255)?;
    let aabb = aabb_from_min_size(
        (min.0 as u16, min.1 as u16, min.2 as u16),
        (size.0 as u8, size.1 as u8, size.2 as u8),
    );
    match label_lo {
        Some(l) => {
            if blank_range(v, l, hi) {
                Err(String::from_str("inline label is empty"))
            } else {
                Ok((aabb, Some(string_of_range(v, l, hi))))
            }
        },
        None => Ok((aabb, None)),
    }
}

/// Parses the line whose keyword is `v[kw_lo..kw_hi]` and whose rest is
/// `v[rest_lo..rest_hi]`.
fn parse_line(v: &Vec<char>, kw_lo: usize, kw_hi: usize, rest_lo: usize, rest_hi: usize) -> (r:
    Result<Line, String>)
    requires
        kw_lo <= kw_hi <= v@.len(),
        rest_lo <= rest_hi <= v@.len(),
    ensures
        match spec_parse_line(
            v@.subrange(kw_lo as int, kw_hi as int),
            v@.subrange(rest_lo as int, rest_hi as int),
        ) {
            Ok(l) => r matches Ok(x) && x@ == l,
            Err(e) => r matches Err(x) && x@ == e,
        },
{
    if range_is(v, kw_lo, kw_hi, "title") {
        let name = consume_to_eol(v, rest_lo, rest_hi, "title name")?;
        Ok(Line::Title { name })
    } else if range_is(v, kw_lo, kw_hi, "label") {
        if blank_range(v, rest_lo, rest_hi) {
            return Err(String::from_str("label text is empty"));
        }
        Ok(Line::Label { text: string_of_range(v, rest_lo, rest_hi) })
    } else if range_is(v, kw_lo, kw_hi, "start") {
        let (aabb, label) = parse_checkpoint(v, rest_lo, rest_hi)?;
        Ok(Line::Start { aabb, label })
    } else if range_is(v, kw_lo, kw_hi, "cp") {
        let (aabb, label) = parse_checkpoint(v, rest_lo, rest_hi)?;
        Ok(Line::Cp { aabb, label })
    } else if range_is(v, kw_lo, kw_hi, "endcp") {
        let (aabb, label) = parse_checkpoint(v, rest_lo, rest_hi)?;
        Ok(Line::End { aabb, label })
    } else if range_is(v, kw_lo, kw_hi, "map") {
        let name = consume_to_eol(v, rest_lo, rest_hi, "map name")?;
        Ok(Line::MapLoaded { name })
    } else if range_is(v, kw_lo, kw_hi, "endmap") {
        let name = consume_to_eol(v, rest_lo, rest_hi, "endmap name")?;
        Ok(Line::EndMapLoaded { name })
    } else {
        let mut msg = String::from_str("unknown keyword `");
        push_range(&mut msg, v, kw_lo, kw_hi);
        msg.append("`");
        Err(msg)
    }
}

// =====================================================================
// The receiver's state machine
// =====================================================================

/// Result of feeding a single chat line to the receiver.
#[derive(Debug)]
pub enum FrameOutcome {
    /// Line is not one of ours (no `LS ` prefix). Caller should let it
    /// render normally.
    NotOurs,
    /// Line looked like ours but didn't parse / didn't match the current
    /// state. Caller chat-prints the diagnostic and falls through so the
    /// raw line still renders.
    ParseError(String),
    /// Line is part of a track in progress. Caller suppresses it.
    Buffered,
    /// Final line of a track. Caller loads the track and suppresses.
    Loaded(Track),
}

pub enum OutcomeView {
    NotOurs,
    ParseError(Seq<char>),
    Buffered,
    Loaded(TrackView),
}

impl View for FrameOutcome {
    type V = OutcomeView;

    open spec fn view(&self) -> OutcomeView {
        match self {
            FrameOutcome::NotOurs => OutcomeView::NotOurs,
            FrameOutcome::ParseError(e) => OutcomeView::ParseError(e@),
            FrameOutcome::Buffered => OutcomeView::Buffered,
            FrameOutcome::Loaded(t) => OutcomeView::Loaded(t@),
        }
    }
}

/// Where the receiver is in a track transfer.
#[derive(Debug)]
pub enum State {
    /// No track in progress.
    Idle,
    /// A title arrived; the start checkpoint comes next.
    NeedStart { name: String },
    /// At least Start is in `slots`; the most recent checkpoint already
    /// has its label populated. Next line is `cp` / `endcp` / `map` /
    /// `endmap` / `title`.
    NeedNext { name: String, slots: Vec<Checkpoint> },
    /// The most recent push has an empty label. Next line must be
    /// `LS label <text>` (or `LS title <name>` to reset).
    NeedLabel { name: String, slots: Vec<Checkpoint>, awaiting_kind: CheckpointKind },
}

pub enum StateView {
    Idle,
    NeedStart { name: Seq<char> },
    NeedNext { name: Seq<char>, slots: Seq<CheckpointView> },
    NeedLabel { name: Seq<char>, slots: Seq<CheckpointView>, awaiting_kind: CheckpointKind },
}

impl View for State {
    type V = StateView;

    open spec fn view(&self) -> StateView {
        match self {
            State::Idle => StateView::Idle,
            State::NeedStart { name } => StateView::NeedStart { name: name@ },
            State::NeedNext { name, slots } => StateView::NeedNext {
                name: name@,
                slots: checkpoints_view(slots@),
            },
            State::NeedLabel { name, slots, awaiting_kind } => StateView::NeedLabel {
                name: name@,
                slots: checkpoints_view(slots@),
                awaiting_kind: *awaiting_kind,
            },
        }
    }
}

/// The name of a state, as diagnostics print it.
pub open spec fn state_name(s: StateView) -> Seq<char> {
    match s {
        StateView::Idle => "Idle"@,
        StateView::NeedStart { .. } => "NeedStart"@,
        StateView::NeedNext { .. } => "NeedNext"@,
        StateView::NeedLabel { .. } => "NeedLabel"@,
    }
}

/// The kinds of a list of checkpoints that is complete up to its last
/// entry: `Start`, then `Split`s, the last possibly `last_kind`.
pub open spec fn kinds_in_order(slots: Seq<CheckpointView>, last_kind: CheckpointKind) -> bool {
    &&& slots.len() >= 1
    &&& slots[0].kind == CheckpointKind::Start
    &&& forall|i: int|
        1 <= i < slots.len() - 1 ==> (#[trigger] slots[i]).kind == CheckpointKind::Split
    &&& (slots.len() > 1 ==> slots[slots.len() - 1].kind == last_kind)
}

/// Every label of `slots[..n]` has text.
pub open spec fn labelled(slots: Seq<CheckpointView>, n: int) -> bool {
    forall|i: int| 0 <= i < n ==> !is_blank((#[trigger] slots[i]).label)
}

/// The shape of every reachable state: the buffered checkpoints start
/// with `Start` and continue with `Split`s; a checkpoint awaiting its
/// label is the last one, has the awaited kind and an empty label, and
/// is the only one exactly when it is the start.
pub open spec fn state_wf(s: StateView) -> bool {
    match s {
        StateView::Idle => true,
        StateView::NeedStart { .. } => true,
        StateView::NeedNext { slots, .. } => kinds_in_order(slots, CheckpointKind::Split),
        StateView::NeedLabel { slots, awaiting_kind, .. } => {
            &&& kinds_in_order(slots, awaiting_kind)
            &&& slots[slots.len() - 1].kind == awaiting_kind
            &&& slots[slots.len() - 1].label == Seq::<char>::empty()
            &&& (awaiting_kind == CheckpointKind::Start <==> slots.len() == 1)
        },
    }
}

/// Every buffered checkpoint that has its label has text in it.
pub open spec fn state_labelled(s: StateView) -> bool {
    match s {
        StateView::NeedNext { slots, .. } => labelled(slots, slots.len() as int),
        StateView::NeedLabel { slots, .. } => labelled(slots, slots.len() - 1),
        _ => true,
    }
}

/// A track in progress has a name with text.
pub open spec fn state_named(s: StateView) -> bool {
    match s {
        StateView::Idle => true,
        StateView::NeedStart { name } => !is_blank(name),
        StateView::NeedNext { name, .. } => !is_blank(name),
        StateView::NeedLabel { name, .. } => !is_blank(name),
    }
}

/// What every state that the receiver reaches from `Idle` satisfies: the
/// shape, labels with text, and a name with text.
pub open spec fn receiver_wf(s: StateView) -> bool {
    &&& state_wf(s)
    &&& state_labelled(s)
    &&& state_named(s)
}

/// The kinds of a whole track: at least two checkpoints, `Start` first,
/// `End` last, `Split`s between.
pub open spec fn track_shape(t: TrackView) -> bool {
    &&& t.checkpoints.len() >= 2
    &&& kinds_in_order(t.checkpoints, CheckpointKind::End)
}

/// A complete track: the shape of a track, and every label with text.
pub open spec fn track_complete(t: TrackView) -> bool {
    &&& track_shape(t)
    &&& labelled(t.checkpoints, t.checkpoints.len() as int)
}

impl State {
    pub open spec fn wf(&self) -> bool {
        receiver_wf(self@)
    }

    pub fn label(&self) -> (r: &'static str)
        ensures
            r@ == state_name(self@),
    {
        match self {
            State::Idle => "Idle",
            State::NeedStart { .. } => "NeedStart",
            State::NeedNext { .. } => "NeedNext",
            State::NeedLabel { .. } => "NeedLabel",
        }
    }
}

pub open spec fn new_cp(kind: CheckpointKind, trigger: TriggerView, label: Seq<char>) -> CheckpointView {
    CheckpointView { kind, trigger, label }
}

/// `slots` with the label of its last checkpoint set to `text`.
pub open spec fn relabel_last(slots: Seq<CheckpointView>, text: Seq<char>) -> Seq<CheckpointView> {
    let last = slots[slots.len() - 1];
    slots.update(slots.len() - 1, CheckpointView { label: text, ..last })
}

/// `unexpected `start`, state is `<state>``.
pub open spec fn unexpected_start_text(s: StateView) -> Seq<char> {
    "unexpected `start`, state is `"@ + state_name(s) + "`"@
}

pub open spec fn parse_error(s: StateView, msg: Seq<char>) -> (StateView, OutcomeView) {
    (s, OutcomeView::ParseError(msg))
}

/// One transition: the next state and what the caller is told. A
/// title resets from any state; a line that does not fit the state is
/// reported and leaves the state as it was.
pub open spec fn step(s: StateView, l: LineView) -> (StateView, OutcomeView) {
    if let LineView::Title { name } = l {
        (StateView::NeedStart { name }, OutcomeView::Buffered)
    } else {
        match s {
            StateView::Idle => match l {
                LineView::Start { .. } => parse_error(
                    s,
                    unexpected_start_text(s),
                ),
                LineView::Cp { .. } | LineView::End { .. } => parse_error(s, "no `LS start` yet"@),
                LineView::MapLoaded { .. } | LineView::EndMapLoaded { .. } => parse_error(
                    s,
                    "no `LS title` yet"@,
                ),
                _ => parse_error(s, "no checkpoint to label"@),
            },
            StateView::NeedStart { name } => match l {
                LineView::Start { aabb, label } => match label {
                    Some(label) => (
                        StateView::NeedNext {
                            name,
                            slots: seq![
                                new_cp(CheckpointKind::Start, TriggerView::Aabb(aabb), label),
                            ],
                        },
                        OutcomeView::Buffered,
                    ),
                    None => (
                        StateView::NeedLabel {
                            name,
                            slots: seq![
                                new_cp(CheckpointKind::Start, TriggerView::Aabb(aabb), Seq::empty()),
                            ],
                            awaiting_kind: CheckpointKind::Start,
                        },
                        OutcomeView::Buffered,
                    ),
                },
                LineView::MapLoaded { name: map } => (
                    StateView::NeedLabel {
                        name,
                        slots: seq![
                            new_cp(CheckpointKind::Start, TriggerView::MapLoaded(map), Seq::empty()),
                        ],
                        awaiting_kind: CheckpointKind::Start,
                    },
                    OutcomeView::Buffered,
                ),
                LineView::Cp { .. } | LineView::End { .. } => parse_error(s, "no `LS start` yet"@),
                LineView::EndMapLoaded { .. } => parse_error(
                    s,
                    "no checkpoints before `endmap`"@,
                ),
                _ => parse_error(s, "no checkpoint to label"@),
            },
            StateView::NeedNext { name, slots } => match l {
                LineView::Cp { aabb, label } => match label {
                    Some(label) => (
                        StateView::NeedNext {
                            name,
                            slots: slots.push(
                                new_cp(CheckpointKind::Split, TriggerView::Aabb(aabb), label),
                            ),
                        },
                        OutcomeView::Buffered,
                    ),
                    None => (
                        StateView::NeedLabel {
                            name,
                            slots: slots.push(
                                new_cp(CheckpointKind::Split, TriggerView::Aabb(aabb), Seq::empty()),
                            ),
                            awaiting_kind: CheckpointKind::Split,
                        },
                        OutcomeView::Buffered,
                    ),
                },
                LineView::MapLoaded { name: map } => (
                    StateView::NeedLabel {
                        name,
                        slots: slots.push(
                            new_cp(CheckpointKind::Split, TriggerView::MapLoaded(map), Seq::empty()),
                        ),
                        awaiting_kind: CheckpointKind::Split,
                    },
                    OutcomeView::Buffered,
                ),
                LineView::End { aabb, label } => match label {
                    Some(label) => (
                        StateView::Idle,
                        OutcomeView::Loaded(
                            TrackView {
                                name,
                                checkpoints: slots.push(
                                    new_cp(CheckpointKind::End, TriggerView::Aabb(aabb), label),
                                ),
                            },
                        ),
                    ),
                    None => (
                        StateView::NeedLabel {
                            name,
                            slots: slots.push(
                                new_cp(CheckpointKind::End, TriggerView::Aabb(aabb), Seq::empty()),
                            ),
                            awaiting_kind: CheckpointKind::End,
                        },
                        OutcomeView::Buffered,
                    ),
                },
                LineView::EndMapLoaded { name: map } => (
                    StateView::NeedLabel {
                        name,
                        slots: slots.push(
                            new_cp(CheckpointKind::End, TriggerView::MapLoaded(map), Seq::empty()),
                        ),
                        awaiting_kind: CheckpointKind::End,
                    },
                    OutcomeView::Buffered,
                ),
                LineView::Start { .. } => parse_error(
                    s,
                    unexpected_start_text(s),
                ),
                _ => parse_error(s, "checkpoint already has a label"@),
            },
            StateView::NeedLabel { name, slots, awaiting_kind } => match l {
                LineView::Label { text } => {
                    let slots = relabel_last(slots, text);
                    if awaiting_kind == CheckpointKind::End {
                        (
                            StateView::Idle,
                            OutcomeView::Loaded(TrackView { name, checkpoints: slots }),
                        )
                    } else {
                        (StateView::NeedNext { name, slots }, OutcomeView::Buffered)
                    }
                },
                LineView::Start { .. } => parse_error(
                    s,
                    unexpected_start_text(s),
                ),
                _ => parse_error(s, "previous checkpoint not yet labeled"@),
            },
        }
    }
}

/// Feeding one chat line: lines that are not ours and lines that do not
/// parse leave the state alone.
pub open spec fn feed(s: StateView, text: Seq<char>) -> (StateView, OutcomeView) {
    match spec_parse_frame(text) {
        None => (s, OutcomeView::NotOurs),
        Some(Err(e)) => (s, OutcomeView::ParseError(e)),
        Some(Ok(l)) => step(s, l),
    }
}

fn parse_error_text(msg: &str) -> (out: FrameOutcome)
    ensures
        out@ == OutcomeView::ParseError(msg@),
{
    FrameOutcome::ParseError(String::from_str(msg))
}

/// `unexpected `start`, state is `<name>``.
fn unexpected_start(prev: &str) -> (out: FrameOutcome)
    ensures
        out@ == OutcomeView::ParseError("unexpected `start`, state is `"@ + prev@ + "`"@),
{
    let mut msg = String::from_str("unexpected `start`, state is `");
    msg.append(prev);
    msg.append("`");
    FrameOutcome::ParseError(msg)
}

/// A checkpoint appended to `slots`.
fn push_slot(slots: &mut Vec<Checkpoint>, kind: CheckpointKind, trigger: Trigger, label: String)
    ensures
        checkpoints_view(final(slots)@) == checkpoints_view(old(slots)@).push(
            new_cp(kind, trigger@, label@),
        ),
{
    let cp = Checkpoint { kind, trigger, label };
    proof {
        lemma_checkpoints_view_push(slots@, cp);
    }
    slots.push(cp);
}

/// A new list holding one checkpoint.
fn one_slot(kind: CheckpointKind, trigger: Trigger, label: String) -> (slots: Vec<Checkpoint>)
    ensures
        checkpoints_view(slots@) == seq![new_cp(kind, trigger@, label@)],
{
    let mut slots: Vec<Checkpoint> = Vec::new();
    push_slot(&mut slots, kind, trigger, label);
    assert(checkpoints_view(Seq::<Checkpoint>::empty()) =~= Seq::<CheckpointView>::empty());
    assert(Seq::<CheckpointView>::empty().push(new_cp(kind, trigger@, label@)) =~= seq![
        new_cp(kind, trigger@, label@),
    ]);
    slots
}

fn transition(state: &mut State, line: Line) -> (out: FrameOutcome)
    requires
        state_wf(old(state)@),
    ensures
        state_wf(final(state)@),
        (final(state)@, out@) == step(old(state)@, line@),
        out@ matches OutcomeView::Loaded(t) ==> final(state)@ is Idle && track_shape(t),
{
    let ghost l = line@;
    // `LS title` is the universal reset from any state.
    let line = match line {
        Line::Title { name } => {
            *state = State::NeedStart { name };
            return FrameOutcome::Buffered;
        },
        other => other,
    };
    let prev = state.label();
    let mut taken = State::Idle;
    std::mem::swap(&mut taken, state);
    let ghost s = taken@;
    match taken {
        State::Idle => {
            *state = State::Idle;
            match line {
            Line::Start { .. } => unexpected_start(prev),
            Line::Cp { .. } | Line::End { .. } => parse_error_text("no `LS start` yet"),
            Line::MapLoaded { .. } | Line::EndMapLoaded { .. } => parse_error_text(
                "no `LS title` yet",
            ),
            _ => parse_error_text("no checkpoint to label"),
            }
        },
        State::NeedStart { name } => match line {
            Line::Start { aabb, label } => match label {
                Some(label) => {
                    let slots = one_slot(CheckpointKind::Start, Trigger::Aabb(aabb), label);
                    *state = State::NeedNext { name, slots };
                    FrameOutcome::Buffered
                },
                None => {
                    let slots = one_slot(
                        CheckpointKind::Start,
                        Trigger::Aabb(aabb),
                        String::new(),
                    );
                    *state = State::NeedLabel {
                        name,
                        slots,
                        awaiting_kind: CheckpointKind::Start,
                    };
                    FrameOutcome::Buffered
                },
            },
            Line::MapLoaded { name: map } => {
                let slots = one_slot(CheckpointKind::Start, Trigger::MapLoaded(map), String::new());
                *state = State::NeedLabel { name, slots, awaiting_kind: CheckpointKind::Start };
                FrameOutcome::Buffered
            },
            Line::Cp { .. } | Line::End { .. } => {
                *state = State::NeedStart { name };
                parse_error_text("no `LS start` yet")
            },
            Line::EndMapLoaded { .. } => {
                *state = State::NeedStart { name };
                parse_error_text("no checkpoints before `endmap`")
            },
            _ => {
                *state = State::NeedStart { name };
                parse_error_text("no checkpoint to label")
            },
        },
        State::NeedNext { name, mut slots } => match line {
            Line::Cp { aabb, label } => match label {
                Some(label) => {
                    push_slot(&mut slots, CheckpointKind::Split, Trigger::Aabb(aabb), label);
                    *state = State::NeedNext { name, slots };
                    FrameOutcome::Buffered
                },
                None => {
                    push_slot(&mut slots, CheckpointKind::Split, Trigger::Aabb(aabb), String::new());
                    *state = State::NeedLabel { name, slots, awaiting_kind: CheckpointKind::Split };
                    FrameOutcome::Buffered
                },
            },
            Line::MapLoaded { name: map } => {
                push_slot(&mut slots, CheckpointKind::Split, Trigger::MapLoaded(map), String::new());
                *state = State::NeedLabel { name, slots, awaiting_kind: CheckpointKind::Split };
                FrameOutcome::Buffered
            },
            Line::End { aabb, label } => match label {
                Some(label) => {
                    push_slot(&mut slots, CheckpointKind::End, Trigger::Aabb(aabb), label);
                    FrameOutcome::Loaded(Track { name, checkpoints: slots })
                },
                None => {
                    push_slot(&mut slots, CheckpointKind::End, Trigger::Aabb(aabb), String::new());
                    *state = State::NeedLabel { name, slots, awaiting_kind: CheckpointKind::End };
                    FrameOutcome::Buffered
                },
            },
            Line::EndMapLoaded { name: map } => {
                push_slot(&mut slots, CheckpointKind::End, Trigger::MapLoaded(map), String::new());
                *state = State::NeedLabel { name, slots, awaiting_kind: CheckpointKind::End };
                FrameOutcome::Buffered
            },
            Line::Start { .. } => {
                *state = State::NeedNext { name, slots };
                unexpected_start(prev)
            },
            _ => {
                *state = State::NeedNext { name, slots };
                parse_error_text("checkpoint already has a label")
            },
        },
        State::NeedLabel { name, mut slots, awaiting_kind } => match line {
            Line::Label { text } => {
                let ghost before = checkpoints_view(slots@);
                let ghost raw = slots@;
                let mut last = slots.pop().unwrap();
                last.label = text;
                proof {
                    lemma_checkpoints_view_push(slots@, last);
                    assert(raw.drop_last() == slots@);
                }
                slots.push(last);
                assert(checkpoints_view(slots@) =~= relabel_last(before, l->text));
                match awaiting_kind {
                    CheckpointKind::End => FrameOutcome::Loaded(Track { name, checkpoints: slots }),
                    _ => {
                        *state = State::NeedNext { name, slots };
                        FrameOutcome::Buffered
                    },
                }
            },
            Line::Start { .. } => {
                *state = State::NeedLabel { name, slots, awaiting_kind };
                unexpected_start(prev)
            },
            _ => {
                *state = State::NeedLabel { name, slots, awaiting_kind };
                parse_error_text("previous checkpoint not yet labeled")
            },
        },
    }
}

/// Where the text starts once one leading `&X` colour code (`X` an ASCII
/// letter or digit) is skipped. Servers prepend at most one such code
/// when they echo a line.
fn strip_leading_color_code(v: &Vec<char>) -> (start: usize)
    ensures
        start <= v@.len(),
        strip_color(v@) == v@.skip(start as int),
{
    if v.len() >= 2 && v[0] == '&' && ascii_alnum(v[1]) {
        2
    } else {
        assert(v@.skip(0) == v@);
        0
    }
}

/// Feeds one chat line to the receiver: updates `state` and returns the
/// outcome the caller should react to.
pub fn feed_chat_line(state: &mut State, text: &str) -> (out: FrameOutcome)
    requires
        old(state).wf(),
    ensures
        final(state).wf(),
        (final(state)@, out@) == feed(old(state)@, text@),
        out@ matches OutcomeView::Loaded(t) ==> final(state)@ is Idle && track_complete(t)
            && !is_blank(t.name),
{
    let v = chars_of(text);
    let start = strip_leading_color_code(&v);
    let ghost t = strip_color(text@);
    assert(t == v@.subrange(start as int, v@.len() as int));
    if !(v.len() - start >= 3 && v[start] == 'L' && v[start + 1] == 'S' && v[start + 2] == ' ') {
        return FrameOutcome::NotOurs;
    }
    let a = start + 3;
    let ghost after = t.skip(3);
    assert(after == v@.subrange(a as int, v@.len() as int));
    let (kw_hi, rest_lo) = match find_in_range(&v, a, v.len(), ' ') {
        Some(i) => {
            assert(after.take(i as int) == v@.subrange(a as int, a + i));
            assert(after.skip(i + 1) == v@.subrange(a + i + 1, v@.len() as int));
            (a + i, a + i + 1)
        },
        None => {
            assert(v@.subrange(v@.len() as int, v@.len() as int) == Seq::<char>::empty());
            (v.len(), v.len())
        },
    };
    let line = match parse_line(&v, a, kw_hi, rest_lo, v.len()) {
        Ok(l) => l,
        Err(e) => return FrameOutcome::ParseError(e),
    };
    proof {
        lemma_parsed_line_wf(
            v@.subrange(a as int, kw_hi as int),
            v@.subrange(rest_lo as int, v@.len() as int),
        );
        lemma_step_keeps_labels(state@, line@);
        lemma_step_keeps_name(state@, line@);
    }
    transition(state, line)
}

// =====================================================================
// Laws of the receiver
// =====================================================================

/// A title line resets the receiver from any state: the buffered
/// checkpoints are dropped and a track called `name` begins.
pub proof fn lemma_title_step(s: StateView, name: Seq<char>)
    ensures
        step(s, LineView::Title { name }) == (StateView::NeedStart { name }, OutcomeView::Buffered),
{
}

/// The lines that each state takes: a start (box or map) after a title;
/// a split or an end (box or map) after a labelled checkpoint; a label
/// after a checkpoint that waits for one.
pub open spec fn fits_state(s: StateView, l: LineView) -> bool {
    match s {
        StateView::Idle => false,
        StateView::NeedStart { .. } => l is Start || l is MapLoaded,
        StateView::NeedNext { .. } => l is Cp || l is MapLoaded || l is End || l is EndMapLoaded,
        StateView::NeedLabel { .. } => l is Label,
    }
}

/// A line other than a title that the state does not take is reported,
/// and the state stays exactly as it was; a line the state takes is
/// never reported.
pub proof fn lemma_unfitting_line_rejected(s: StateView, l: LineView)
    requires
        !(l is Title),
    ensures
        step(s, l).1 is ParseError <==> !fits_state(s, l),
        step(s, l).1 is ParseError ==> step(s, l).0 == s,
{
}

proof fn lemma_push_kinds(slots: Seq<CheckpointView>, x: CheckpointView)
    requires
        kinds_in_order(slots, CheckpointKind::Split),
    ensures
        kinds_in_order(slots.push(x), x.kind),
        slots.push(x).len() >= 2,
{
    let p = slots.push(x);
    assert forall|i: int| 1 <= i < p.len() - 1 implies (#[trigger] p[i]).kind
        == CheckpointKind::Split by {
        assert(p[i] == slots[i]);
    }
}

proof fn lemma_relabel_kinds(slots: Seq<CheckpointView>, text: Seq<char>, k: CheckpointKind)
    requires
        kinds_in_order(slots, k),
    ensures
        kinds_in_order(relabel_last(slots, text), k),
{
    let r = relabel_last(slots, text);
    assert forall|i: int| 1 <= i < r.len() - 1 implies (#[trigger] r[i]).kind
        == CheckpointKind::Split by {
        assert(r[i] == slots[i]);
    }
}

proof fn lemma_push_labels(slots: Seq<CheckpointView>, x: CheckpointView)
    requires
        labelled(slots, slots.len() as int),
    ensures
        labelled(slots.push(x), slots.len() as int),
        !is_blank(x.label) ==> labelled(slots.push(x), slots.len() + 1 as int),
{
    let p = slots.push(x);
    assert forall|i: int| 0 <= i < slots.len() implies !is_blank((#[trigger] p[i]).label) by {
        assert(p[i] == slots[i]);
    }
}

proof fn lemma_relabel_labels(slots: Seq<CheckpointView>, text: Seq<char>)
    requires
        slots.len() >= 1,
        labelled(slots, slots.len() - 1),
        !is_blank(text),
    ensures
        labelled(relabel_last(slots, text), slots.len() as int),
{
    let r = relabel_last(slots, text);
    assert forall|i: int| 0 <= i < r.len() implies !is_blank((#[trigger] r[i]).label) by {
        if i < r.len() - 1 {
            assert(r[i] == slots[i]);
        }
    }
}

/// Every transition keeps the shape of the state; a track is handed out
/// only with the shape of a track, and the receiver then starts over.
pub proof fn lemma_step_keeps_state_wf(s: StateView, l: LineView)
    requires
        state_wf(s),
    ensures
        state_wf(step(s, l).0),
        step(s, l).1 matches OutcomeView::Loaded(t) ==> step(s, l).0 is Idle && track_shape(t),
{
    match s {
        StateView::NeedNext { name, slots } => match l {
            LineView::Cp { aabb, label } => lemma_push_kinds(
                slots,
                new_cp(
                    CheckpointKind::Split,
                    TriggerView::Aabb(aabb),
                    match label {
                        Some(t) => t,
                        None => Seq::empty(),
                    },
                ),
            ),
            LineView::End { aabb, label } => lemma_push_kinds(
                slots,
                new_cp(
                    CheckpointKind::End,
                    TriggerView::Aabb(aabb),
                    match label {
                        Some(t) => t,
                        None => Seq::empty(),
                    },
                ),
            ),
            LineView::MapLoaded { name: m } => lemma_push_kinds(
                slots,
                new_cp(CheckpointKind::Split, TriggerView::MapLoaded(m), Seq::empty()),
            ),
            LineView::EndMapLoaded { name: m } => lemma_push_kinds(
                slots,
                new_cp(CheckpointKind::End, TriggerView::MapLoaded(m), Seq::empty()),
            ),
            _ => {},
        },
        StateView::NeedLabel { name, slots, awaiting_kind } => {
            if let LineView::Label { text } = l {
                lemma_relabel_kinds(slots, text, awaiting_kind);
            }
        },
        _ => {},
    }
}

/// With labels that have text, as parsing yields them, every transition
/// keeps the buffered labels filled, and a track is handed out with a
/// label on every checkpoint.
pub proof fn lemma_step_keeps_labels(s: StateView, l: LineView)
    requires
        state_wf(s),
        state_labelled(s),
        line_wf(l),
    ensures
        state_labelled(step(s, l).0),
        step(s, l).1 matches OutcomeView::Loaded(t) ==> labelled(
            t.checkpoints,
            t.checkpoints.len() as int,
        ),
{
    match s {
        StateView::NeedNext { name, slots } => match l {
            LineView::Cp { aabb, label } => lemma_push_labels(
                slots,
                new_cp(
                    CheckpointKind::Split,
                    TriggerView::Aabb(aabb),
                    match label {
                        Some(t) => t,
                        None => Seq::empty(),
                    },
                ),
            ),
            LineView::End { aabb, label } => lemma_push_labels(
                slots,
                new_cp(
                    CheckpointKind::End,
                    TriggerView::Aabb(aabb),
                    match label {
                        Some(t) => t,
                        None => Seq::empty(),
                    },
                ),
            ),
            LineView::MapLoaded { name: m } => lemma_push_labels(
                slots,
                new_cp(CheckpointKind::Split, TriggerView::MapLoaded(m), Seq::empty()),
            ),
            LineView::EndMapLoaded { name: m } => lemma_push_labels(
                slots,
                new_cp(CheckpointKind::End, TriggerView::MapLoaded(m), Seq::empty()),
            ),
            _ => {},
        },
        StateView::NeedLabel { name, slots, awaiting_kind } => {
            if let LineView::Label { text } = l {
                lemma_relabel_labels(slots, text);
            }
        },
        StateView::NeedStart { name } => {
            assert(labelled(Seq::<CheckpointView>::empty(), 0));
        },
        _ => {},
    }
}

/// With names that have text, as parsing yields them, a track in
/// progress keeps a name with text, and so does a track handed out.
pub proof fn lemma_step_keeps_name(s: StateView, l: LineView)
    requires
        state_named(s),
        line_wf(l),
    ensures
        state_named(step(s, l).0),
        step(s, l).1 matches OutcomeView::Loaded(t) ==> !is_blank(t.name),
{
}

/// Feeding any chat line keeps every part of the receiver's invariant:
/// the shape, labels with text, and a name with text.
pub proof fn lemma_feed_keeps_state_wf(s: StateView, text: Seq<char>)
    requires
        receiver_wf(s),
    ensures
        receiver_wf(feed(s, text).0),
{
    if let Some(Ok(l)) = spec_parse_frame(text) {
        let (keyword, rest) = cut_at_space(strip_color(text).skip(3));
        lemma_parsed_line_wf(
            keyword,
            match rest {
                Some(r) => r,
                None => Seq::<char>::empty(),
            },
        );
        lemma_step_keeps_state_wf(s, l);
        lemma_step_keeps_labels(s, l);
        lemma_step_keeps_name(s, l);
    }
}

/// A line that is not ours, or that cannot be parsed or does not fit
/// the current state, is answered without touching the state.
pub proof fn lemma_rejected_line_keeps_state(s: StateView, text: Seq<char>)
    ensures
        (feed(s, text).1 is NotOurs || feed(s, text).1 is ParseError) ==> feed(s, text).0 == s,
        feed(s, text).1 is NotOurs <==> !is_ours(text),
{
}

/// A track is handed out only when it is complete, and the receiver
/// then starts over.
pub proof fn lemma_loaded_track_is_complete(s: StateView, text: Seq<char>)
    requires
        receiver_wf(s),
    ensures
        feed(s, text).1 matches OutcomeView::Loaded(t) ==> track_complete(t) && !is_blank(t.name)
            && feed(s, text).0 is Idle,
{
    if let Some(Ok(l)) = spec_parse_frame(text) {
        let (keyword, rest) = cut_at_space(strip_color(text).skip(3));
        lemma_parsed_line_wf(
            keyword,
            match rest {
                Some(r) => r,
                None => Seq::<char>::empty(),
            },
        );
        lemma_step_keeps_state_wf(s, l);
        lemma_step_keeps_labels(s, l);
        lemma_step_keeps_name(s, l);
    }
}

/// `LS title <name>` resets the receiver from any state and starts a
/// new track called `name`.
pub proof fn lemma_title_resets(s: StateView, name: Seq<char>)
    requires
        !is_blank(name),
    ensures
        feed(s, "LS title "@ + name) == (StateView::NeedStart { name }, OutcomeView::Buffered),
{
    reveal_strlit("LS title ");
    reveal_strlit("title");
    let text = "LS title "@ + name;
    assert(strip_color(text) == text);
    let after = text.skip(3);
    lemma_first_index(after, ' ', 5);
    assert(after.take(5) =~= "title"@);
    assert(after.skip(6) =~= name);
}

/// One leading colour code `&X` is ignored: the line means what it
/// means without it.
pub proof fn lemma_colour_code_ignored(s: StateView, x: char, text: Seq<char>)
    requires
        is_ascii_alnum(x),
        text.len() == 0 || text[0] != '&',
    ensures
        feed(s, seq!['&', x] + text) == feed(s, text),
{
    assert((seq!['&', x] + text).skip(2) =~= text);
}

// =====================================================================
// Reading back what is written
// =====================================================================

/// A box checkpoint after its keyword: `<min triple> <size triple>`.
pub open spec fn box_text(min: (u16, u16, u16), size: (u8, u8, u8)) -> Seq<char> {
    triple_text(min.0 as int, min.1 as int, min.2 as int) + seq![' '] + triple_text(
        size.0 as int,
        size.1 as int,
        size.2 as int,
    )
}

/// The text of three numbers holds digits and commas only.
proof fn lemma_triple_chars(a: nat, b: nat, c: nat)
    ensures
        forall|j: int|
            0 <= j < triple_text(a as int, b as int, c as int).len() ==> ({
                let ch = #[trigger] triple_text(a as int, b as int, c as int)[j];
                is_digit(ch) || ch == ','
            }),
{
    lemma_decimal_digits(a);
    lemma_decimal_digits(b);
    lemma_decimal_digits(c);
    let x = decimal(a);
    let y = decimal(b);
    let z = decimal(c);
    let t = triple_text(a as int, b as int, c as int);
    assert forall|j: int| 0 <= j < t.len() implies ({
        let ch = #[trigger] t[j];
        is_digit(ch) || ch == ','
    }) by {
        if j < x.len() {
            assert(t[j] == x[j]);
        } else if j == x.len() {
            assert(t[j] == ',');
        } else if j < x.len() + 1 + y.len() {
            assert(t[j] == y[j - x.len() - 1]);
        } else if j == x.len() + 1 + y.len() {
            assert(t[j] == ',');
        } else {
            assert(t[j] == z[j - x.len() - 2 - y.len()]);
        }
    }
}

/// Three numbers of at most `max`, written as a triple, parse back.
proof fn lemma_triple_parses(a: nat, b: nat, c: nat, what: Seq<char>, max: nat)
    requires
        a <= max,
        b <= max,
        c <= max,
    ensures
        spec_parse_triple(triple_text(a as int, b as int, c as int), what, max) == Ok::<
            (nat, nat, nat),
            Seq<char>,
        >((a, b, c)),
{
    lemma_decimal_digits(a);
    lemma_decimal_digits(b);
    lemma_decimal_digits(c);
    lemma_decimal_parses(a, max);
    lemma_decimal_parses(b, max);
    lemma_decimal_parses(c, max);
    let x = decimal(a);
    let y = decimal(b);
    let z = decimal(c);
    let t = triple_text(a as int, b as int, c as int);
    let rest = y + seq![','] + z;
    assert(t =~= x + seq![','] + rest);
    assert forall|j: int| 0 <= j < x.len() implies t[j] != ',' by {
        assert(t[j] == x[j]);
    }
    lemma_first_index(t, ',', x.len() as int);
    assert(t.take(x.len() as int) =~= x);
    assert(t.skip(x.len() + 1 as int) =~= rest);
    assert forall|j: int| 0 <= j < y.len() implies rest[j] != ',' by {
        assert(rest[j] == y[j]);
    }
    lemma_first_index(rest, ',', y.len() as int);
    assert(rest.take(y.len() as int) =~= y);
    assert(rest.skip(y.len() + 1 as int) =~= z);
    assert forall|j: int| 0 <= j < z.len() implies z[j] != ',' by {
        assert(is_digit(z[j]));
    }
    lemma_no_index(z, ',');
    assert(split_on(z, ',') == seq![z]);
    assert(split_on(rest, ',') =~= seq![y, z]);
    assert(split_on(t, ',') =~= seq![x, y, z]);
}

/// Cutting `a + ' ' + b` at its first space, where `a` has none.
proof fn lemma_cut_after(a: Seq<char>, b: Seq<char>)
    requires
        forall|j: int| 0 <= j < a.len() ==> a[j] != ' ',
    ensures
        cut_at_space(a + seq![' '] + b) == (a, Some(b)),
{
    let t = a + seq![' '] + b;
    assert forall|j: int| 0 <= j < a.len() implies t[j] != ' ' by {
        assert(t[j] == a[j]);
    }
    lemma_first_index(t, ' ', a.len() as int);
    assert(t.take(a.len() as int) =~= a);
    assert(t.skip(a.len() + 1 as int) =~= b);
}

/// A box checkpoint as it is written parses back to the same box, with
/// the same inline label if it has one with text.
#[verifier::spinoff_prover]
#[verifier::rlimit(40)]
pub proof fn lemma_checkpoint_round_trip(
    min: (u16, u16, u16),
    size: (u8, u8, u8),
    label: Seq<char>,
)
    ensures
        spec_parse_checkpoint(box_text(min, size)) == Ok::<
            (Aabb, Option<Seq<char>>),
            Seq<char>,
        >((spec_aabb_from_min_size(min, size), None)),
        !is_blank(label) ==> spec_parse_checkpoint(box_text(min, size) + seq![' '] + label)
            == Ok::<(Aabb, Option<Seq<char>>), Seq<char>>(
            (spec_aabb_from_min_size(min, size), Some(label)),
        ),
{
    let t1 = triple_text(min.0 as int, min.1 as int, min.2 as int);
    let t2 = triple_text(size.0 as int, size.1 as int, size.2 as int);
    lemma_triple_chars(min.0 as nat, min.1 as nat, min.2 as nat);
    lemma_triple_chars(size.0 as nat, size.1 as nat, size.2 as nat);
    lemma_decimal_digits(min.0 as nat);
    lemma_decimal_digits(size.0 as nat);
    assert(t1.len() > 0 && t2.len() > 0);
    assert forall|j: int| 0 <= j < t1.len() implies t1[j] != ' ' by {
        let ch = t1[j];
        assert(is_digit(ch) || ch == ',');
    }
    assert forall|j: int| 0 <= j < t2.len() implies t2[j] != ' ' by {
        let ch = t2[j];
        assert(is_digit(ch) || ch == ',');
    }
    lemma_triple_parses(min.0 as nat, min.1 as nat, min.2 as nat, "min"@, 65535);
    lemma_triple_parses(size.0 as nat, size.1 as nat, size.2 as nat, "size"@, 255);
    lemma_cut_after(t1, t2);
    lemma_no_index(t2, ' ');
    lemma_cut_after(t1, t2 + seq![' '] + label);
    lemma_cut_after(t2, label);
    assert(box_text(min, size) + seq![' '] + label =~= t1 + seq![' '] + (t2 + seq![' '] + label));
}

/// A line `LS <keyword> <rest>`, with a keyword of no spaces, is parsed as
/// that keyword applied to the rest.
proof fn lemma_frame_parses(keyword: Seq<char>, rest: Seq<char>)
    requires
        forall|j: int| 0 <= j < keyword.len() ==> keyword[j] != ' ',
    ensures
        spec_parse_frame(seq!['L', 'S', ' '] + keyword + seq![' '] + rest) == Some(
            spec_parse_line(keyword, rest),
        ),
{
    let text = seq!['L', 'S', ' '] + keyword + seq![' '] + rest;
    assert(strip_color(text) == text);
    assert(text.skip(3) =~= keyword + seq![' '] + rest);
    lemma_cut_after(keyword, rest);
}

/// The box checkpoint `<box> <label>` after a keyword.
pub open spec fn labelled_box(min: (u16, u16, u16), size: (u8, u8, u8), label: Seq<char>) -> Seq<
    char,
> {
    box_text(min, size) + seq![' '] + label
}

/// `LS start <rest>` is a `start` line.
proof fn lemma_start_keyword(rest: Seq<char>)
    ensures
        spec_parse_frame("LS start "@ + rest) == Some(
            match spec_parse_checkpoint(rest) {
                Ok((aabb, label)) => Ok(LineView::Start { aabb, label }),
                Err(e) => Err(e),
            },
        ),
{
    reveal_strlit("LS start ");
    reveal_strlit("start");
    reveal_strlit("title");
    reveal_strlit("label");
    assert("start"@[0] != "title"@[0] && "start"@[0] != "label"@[0]);
    lemma_frame_parses("start"@, rest);
    assert("LS start "@ + rest =~= seq!['L', 'S', ' '] + "start"@ + seq![' '] + rest);
}

/// `LS cp <rest>` is a `cp` line.
proof fn lemma_cp_keyword(rest: Seq<char>)
    ensures
        spec_parse_frame("LS cp "@ + rest) == Some(
            match spec_parse_checkpoint(rest) {
                Ok((aabb, label)) => Ok(LineView::Cp { aabb, label }),
                Err(e) => Err(e),
            },
        ),
{
    reveal_strlit("LS cp ");
    reveal_strlit("cp");
    reveal_strlit("title");
    reveal_strlit("label");
    reveal_strlit("start");
    assert("cp"@.len() != "title"@.len());
    lemma_frame_parses("cp"@, rest);
    assert("LS cp "@ + rest =~= seq!['L', 'S', ' '] + "cp"@ + seq![' '] + rest);
}

/// `LS endcp <rest>` is an `endcp` line.
proof fn lemma_endcp_keyword(rest: Seq<char>)
    ensures
        spec_parse_frame("LS endcp "@ + rest) == Some(
            match spec_parse_checkpoint(rest) {
                Ok((aabb, label)) => Ok(LineView::End { aabb, label }),
                Err(e) => Err(e),
            },
        ),
{
    reveal_strlit("LS endcp ");
    reveal_strlit("endcp");
    reveal_strlit("title");
    reveal_strlit("label");
    reveal_strlit("start");
    reveal_strlit("cp");
    assert("endcp"@[0] != "title"@[0] && "endcp"@[0] != "label"@[0] && "endcp"@[0]
        != "start"@[0]);
    assert("endcp"@.len() != "cp"@.len());
    lemma_frame_parses("endcp"@, rest);
    assert("LS endcp "@ + rest =~= seq!['L', 'S', ' '] + "endcp"@ + seq![' '] + rest);
}

/// `LS start <box> <label>` after a title starts the track with that box
/// and label, and the next checkpoint is awaited.
pub proof fn lemma_labelled_start_line(
    name: Seq<char>,
    min: (u16, u16, u16),
    size: (u8, u8, u8),
    label: Seq<char>,
)
    requires
        !is_blank(label),
    ensures
        feed(StateView::NeedStart { name }, "LS start "@ + labelled_box(min, size, label)) == (
            StateView::NeedNext {
                name,
                slots: seq![
                    CheckpointView {
                        kind: CheckpointKind::Start,
                        trigger: TriggerView::Aabb(spec_aabb_from_min_size(min, size)),
                        label,
                    },
                ],
            },
            OutcomeView::Buffered,
        ),
{
    lemma_checkpoint_round_trip(min, size, label);
    lemma_start_keyword(labelled_box(min, size, label));
}

/// `LS cp <box> <label>` after a labelled checkpoint appends a split with
/// that box and label, and the next checkpoint is awaited.
pub proof fn lemma_labelled_cp_line(
    name: Seq<char>,
    slots: Seq<CheckpointView>,
    min: (u16, u16, u16),
    size: (u8, u8, u8),
    label: Seq<char>,
)
    requires
        !is_blank(label),
    ensures
        feed(StateView::NeedNext { name, slots }, "LS cp "@ + labelled_box(min, size, label)) == (
            StateView::NeedNext {
                name,
                slots: slots.push(
                    CheckpointView {
                        kind: CheckpointKind::Split,
                        trigger: TriggerView::Aabb(spec_aabb_from_min_size(min, size)),
                        label,
                    },
                ),
            },
            OutcomeView::Buffered,
        ),
{
    lemma_checkpoint_round_trip(min, size, label);
    lemma_cp_keyword(labelled_box(min, size, label));
}

/// `LS endcp <box> <label>` after a labelled checkpoint appends the end
/// with that box and label and hands out the track; the receiver starts
/// over.
#[verifier::spinoff_prover]
pub proof fn lemma_labelled_endcp_line(
    name: Seq<char>,
    slots: Seq<CheckpointView>,
    min: (u16, u16, u16),
    size: (u8, u8, u8),
    label: Seq<char>,
)
    requires
        !is_blank(label),
    ensures
        feed(StateView::NeedNext { name, slots }, "LS endcp "@ + labelled_box(min, size, label))
            == (
            StateView::Idle,
            OutcomeView::Loaded(
                TrackView {
                    name,
                    checkpoints: slots.push(
                        CheckpointView {
                            kind: CheckpointKind::End,
                            trigger: TriggerView::Aabb(spec_aabb_from_min_size(min, size)),
                            label,
                        },
                    ),
                },
            ),
        ),
{
    lemma_checkpoint_round_trip(min, size, label);
    lemma_endcp_keyword(labelled_box(min, size, label));
    let aabb = spec_aabb_from_min_size(min, size);
    let l = LineView::End { aabb, label: Some(label) };
    assert(spec_parse_frame("LS endcp "@ + labelled_box(min, size, label)) == Some(
        Ok::<LineView, Seq<char>>(l),
    ));
    assert(step(StateView::NeedNext { name, slots }, l).0 == StateView::Idle);
}

/// The checkpoint view of a box with a label.
pub open spec fn box_checkpoint(
    kind: CheckpointKind,
    min: (u16, u16, u16),
    size: (u8, u8, u8),
    label: Seq<char>,
) -> CheckpointView {
    CheckpointView { kind, trigger: TriggerView::Aabb(spec_aabb_from_min_size(min, size)), label }
}

/// From any state, a title, a labelled start, a labelled split and a
/// labelled end load the three-checkpoint track with those boxes and
/// labels, in that order, and the receiver starts over.
#[verifier::spinoff_prover]
#[verifier::rlimit(80)]
pub proof fn lemma_three_checkpoint_transfer(
    s: StateView,
    name: Seq<char>,
    start: ((u16, u16, u16), (u8, u8, u8), Seq<char>),
    split: ((u16, u16, u16), (u8, u8, u8), Seq<char>),
    end: ((u16, u16, u16), (u8, u8, u8), Seq<char>),
)
    requires
        !is_blank(name),
        !is_blank(start.2),
        !is_blank(split.2),
        !is_blank(end.2),
    ensures
        feed(s, "LS title "@ + name) == (StateView::NeedStart { name }, OutcomeView::Buffered),
        feed(
            StateView::NeedStart { name },
            "LS start "@ + labelled_box(start.0, start.1, start.2),
        ) == (
            StateView::NeedNext {
                name,
                slots: seq![box_checkpoint(CheckpointKind::Start, start.0, start.1, start.2)],
            },
            OutcomeView::Buffered,
        ),
        feed(
            StateView::NeedNext {
                name,
                slots: seq![box_checkpoint(CheckpointKind::Start, start.0, start.1, start.2)],
            },
            "LS cp "@ + labelled_box(split.0, split.1, split.2),
        ) == (
            StateView::NeedNext {
                name,
                slots: seq![
                    box_checkpoint(CheckpointKind::Start, start.0, start.1, start.2),
                    box_checkpoint(CheckpointKind::Split, split.0, split.1, split.2),
                ],
            },
            OutcomeView::Buffered,
        ),
        feed(
            StateView::NeedNext {
                name,
                slots: seq![
                    box_checkpoint(CheckpointKind::Start, start.0, start.1, start.2),
                    box_checkpoint(CheckpointKind::Split, split.0, split.1, split.2),
                ],
            },
            "LS endcp "@ + labelled_box(end.0, end.1, end.2),
        ) == (
            StateView::Idle,
            OutcomeView::Loaded(
                TrackView {
                    name,
                    checkpoints: seq![
                        box_checkpoint(CheckpointKind::Start, start.0, start.1, start.2),
                        box_checkpoint(CheckpointKind::Split, split.0, split.1, split.2),
                        box_checkpoint(CheckpointKind::End, end.0, end.1, end.2),
                    ],
                },
            ),
        ),
{
    lemma_title_resets(s, name);
    lemma_labelled_start_line(name, start.0, start.1, start.2);
    let first = seq![box_checkpoint(CheckpointKind::Start, start.0, start.1, start.2)];
    lemma_labelled_cp_line(name, first, split.0, split.1, split.2);
    let second = seq![
        box_checkpoint(CheckpointKind::Start, start.0, start.1, start.2),
        box_checkpoint(CheckpointKind::Split, split.0, split.1, split.2),
    ];
    assert(first.push(box_checkpoint(CheckpointKind::Split, split.0, split.1, split.2)) =~= second);
    lemma_labelled_endcp_line(name, second, end.0, end.1, end.2);
    assert(second.push(box_checkpoint(CheckpointKind::End, end.0, end.1, end.2)) =~= seq![
        box_checkpoint(CheckpointKind::Start, start.0, start.1, start.2),
        box_checkpoint(CheckpointKind::Split, split.0, split.1, split.2),
        box_checkpoint(CheckpointKind::End, end.0, end.1, end.2),
    ]);
}

} // verus!
