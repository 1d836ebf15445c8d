//! Sending a track over chat: one `LS ...` line per step, each short
//! enough for a chat message with a colour prefix added on echo.
use vstd::prelude::*;
use vstd::string::*;

use crate::geometry::{Aabb, Checkpoint, CheckpointKind, CheckpointView, Track, TrackView, Trigger, TriggerView};
use crate::text::{
    blank_range, chars_of, decimal, is_blank, lemma_decimal_digits, lemma_decimal_len, pow10, push_char, push_decimal,
};

verus! {

/// Longest line, in characters, that the encoder emits.
pub const MAX_LINE_CP: usize = 61;

/// Why a track cannot be sent.
#[derive(Clone, Copy, Debug, PartialEq, Eq, Structural)]
pub enum EncodeError {
    /// The track name is blank.
    EmptyTrackName,
    /// `LS title <name>` would be longer than a line.
    TrackNameTooLong,
    /// A track needs a start and an end.
    TooFewCheckpoints,
    /// Checkpoint `index` is not `Start` (first), `End` (last) or `Split`.
    MisplacedKind { index: usize },
    /// Checkpoint `index` has a blank label.
    EmptyLabel { index: usize },
    /// Checkpoint `index` has a box whose corner lies outside `0..=65535`
    /// or whose extent lies outside `0..=255`.
    AabbOutOfRange { index: usize },
    /// Checkpoint `index` names a blank map.
    EmptyMapName { index: usize },
    /// `LS map <name>` would be longer than a line.
    MapNameTooLong { index: usize },
    /// `LS label <label>` would be longer than a line.
    LabelTooLong { index: usize },
}

/// The kind that position `i` of `n` checkpoints must have.
pub open spec fn expected_kind(i: int, n: int) -> CheckpointKind {
    if i == 0 {
        CheckpointKind::Start
    } else if i == n - 1 {
        CheckpointKind::End
    } else {
        CheckpointKind::Split
    }
}

/// A box that the `cp` line can carry: `u16` corner, `u8` extent.
pub open spec fn aabb_encodable(b: Aabb) -> bool {
    &&& 0 <= b.min.0 <= 65535 && 0 <= b.max.0 - b.min.0 <= 255
    &&& 0 <= b.min.1 <= 65535 && 0 <= b.max.1 - b.min.1 <= 255
    &&& 0 <= b.min.2 <= 65535 && 0 <= b.max.2 - b.min.2 <= 255
}

/// `a,b,c` in decimal.
pub open spec fn triple_text(a: int, b: int, c: int) -> Seq<char> {
    decimal(a as nat) + seq![','] + decimal(b as nat) + seq![','] + decimal(c as nat)
}

/// `LS cp <min> <extent>`.
pub open spec fn cp_head(b: Aabb) -> Seq<char> {
    "LS cp "@ + triple_text(b.min.0 as int, b.min.1 as int, b.min.2 as int) + seq![' ']
        + triple_text(b.max.0 - b.min.0, b.max.1 - b.min.1, b.max.2 - b.min.2)
}

pub open spec fn title_line(name: Seq<char>) -> Seq<char> {
    "LS title "@ + name
}

pub open spec fn label_line(label: Seq<char>) -> Seq<char> {
    "LS label "@ + label
}

pub open spec fn map_line(name: Seq<char>) -> Seq<char> {
    "LS map "@ + name
}

pub open spec fn fits(line: Seq<char>) -> bool {
    line.len() <= MAX_LINE_CP
}

/// The lines for checkpoint `i` of `n`. A box carries its label inline
/// when that fits, else on an `LS label` line of its own; a map always
/// carries it on an `LS label` line.
pub open spec fn checkpoint_lines(i: int, n: int, c: CheckpointView) -> Result<
    Seq<Seq<char>>,
    EncodeError,
> {
    if c.kind != expected_kind(i, n) {
        Err(EncodeError::MisplacedKind { index: i as usize })
    } else if is_blank(c.label) {
        Err(EncodeError::EmptyLabel { index: i as usize })
    } else {
        match c.trigger {
            TriggerView::Aabb(b) => if !aabb_encodable(b) {
                Err(EncodeError::AabbOutOfRange { index: i as usize })
            } else if fits(cp_head(b) + seq![' '] + c.label) {
                Ok(seq![cp_head(b) + seq![' '] + c.label])
            } else if fits(label_line(c.label)) {
                Ok(seq![cp_head(b), label_line(c.label)])
            } else {
                Err(EncodeError::LabelTooLong { index: i as usize })
            },
            TriggerView::MapLoaded(m) => if is_blank(m) {
                Err(EncodeError::EmptyMapName { index: i as usize })
            } else if !fits(map_line(m)) {
                Err(EncodeError::MapNameTooLong { index: i as usize })
            } else if !fits(label_line(c.label)) {
                Err(EncodeError::LabelTooLong { index: i as usize })
            } else {
                Ok(seq![map_line(m), label_line(c.label)])
            },
        }
    }
}

/// The lines of the first `k` checkpoints, or the first error among them.
pub open spec fn checkpoints_lines(cps: Seq<CheckpointView>, k: nat) -> Result<
    Seq<Seq<char>>,
    EncodeError,
>
    decreases k,
{
    if k == 0 {
        Ok(Seq::empty())
    } else {
        match checkpoints_lines(cps, (k - 1) as nat) {
            Err(e) => Err(e),
            Ok(ls) => match checkpoint_lines(k - 1, cps.len() as int, cps[k - 1]) {
                Err(e) => Err(e),
                Ok(m) => Ok(ls + m),
            },
        }
    }
}

/// The whole transfer: title, the checkpoints in order, then `LS end`.
pub open spec fn spec_encode(t: TrackView) -> Result<Seq<Seq<char>>, EncodeError> {
    if is_blank(t.name) {
        Err(EncodeError::EmptyTrackName)
    } else if !fits(title_line(t.name)) {
        Err(EncodeError::TrackNameTooLong)
    } else if t.checkpoints.len() < 2 {
        Err(EncodeError::TooFewCheckpoints)
    } else {
        match checkpoints_lines(t.checkpoints, t.checkpoints.len()) {
            Err(e) => Err(e),
            Ok(body) => Ok(seq![title_line(t.name)] + body + seq!["LS end"@]),
        }
    }
}

pub open spec fn strings_view(v: Seq<String>) -> Seq<Seq<char>> {
    v.map_values(|s: String| s@)
}

proof fn lemma_strings_view_push(v: Seq<String>, s: String)
    ensures
        strings_view(v.push(s)) == strings_view(v).push(s@),
{
    assert(strings_view(v.push(s)) =~= strings_view(v).push(s@));
}

fn push_line(lines: &mut Vec<String>, line: String)
    ensures
        strings_view(final(lines)@) == strings_view(old(lines)@).push(line@),
{
    proof {
        lemma_strings_view_push(lines@, line);
    }
    lines.push(line);
}

/// Number of characters of `s`.
fn char_len(s: &String) -> (n: usize)
    ensures
        n == s@.len(),
{
    s.as_str().unicode_len()
}

fn push_triple(s: &mut String, a: u64, b: u64, c: u64)
    ensures
        final(s)@ == old(s)@ + triple_text(a as int, b as int, c as int),
{
    let ghost start = s@;
    push_decimal(s, a);
    push_char(s, ',');
    push_decimal(s, b);
    push_char(s, ',');
    push_decimal(s, c);
    assert(s@ =~= start + triple_text(a as int, b as int, c as int));
}

fn in_range(min: i32, max: i32) -> (r: bool)
    ensures
        r == (0 <= min <= 65535 && 0 <= max - min <= 255),
{
    0 <= min && min <= 65535 && min <= max && (max as i64) - (min as i64) <= 255
}

/// `<prefix><text>` as a new string.
fn prefixed(prefix: &str, text: &String) -> (s: String)
    ensures
        s@ == prefix@ + text@,
{
    let mut s = String::from_str(prefix);
    s.append(text.as_str());
    s
}

/// The lines for a box checkpoint, appended to `lines`.
fn encode_box(lines: &mut Vec<String>, i: usize, b: &Aabb, label: &String) -> (r: Result<
    (),
    EncodeError,
>)
    ensures
        if !aabb_encodable(*b) {
            r == Err::<(), EncodeError>(EncodeError::AabbOutOfRange { index: i })
        } else if fits(cp_head(*b) + seq![' '] + label@) {
            r is Ok && strings_view(final(lines)@) == strings_view(old(lines)@).push(
                cp_head(*b) + seq![' '] + label@,
            )
        } else if fits(label_line(label@)) {
            r is Ok && strings_view(final(lines)@) == strings_view(old(lines)@).push(
                cp_head(*b),
            ).push(label_line(label@))
        } else {
            r == Err::<(), EncodeError>(EncodeError::LabelTooLong { index: i })
        },
{
    if !(in_range(b.min.0, b.max.0) && in_range(b.min.1, b.max.1) && in_range(b.min.2, b.max.2)) {
        return Err(EncodeError::AabbOutOfRange { index: i });
    }
    let mut head = String::from_str("LS cp ");
    push_triple(&mut head, b.min.0 as u64, b.min.1 as u64, b.min.2 as u64);
    push_char(&mut head, ' ');
    push_triple(
        &mut head,
        (b.max.0 - b.min.0) as u64,
        (b.max.1 - b.min.1) as u64,
        (b.max.2 - b.min.2) as u64,
    );
    assert(head@ =~= cp_head(*b));
    let mut inline = head.clone();
    push_char(&mut inline, ' ');
    inline.append(label.as_str());
    assert(inline@ =~= cp_head(*b) + seq![' '] + label@);
    if char_len(&inline) <= MAX_LINE_CP {
        push_line(lines, inline);
        return Ok(());
    }
    let label_text = prefixed("LS label ", label);
    if char_len(&label_text) <= MAX_LINE_CP {
        push_line(lines, head);
        push_line(lines, label_text);
        return Ok(());
    }
    Err(EncodeError::LabelTooLong { index: i })
}

/// The lines for a map checkpoint, appended to `lines`.
fn encode_map(lines: &mut Vec<String>, i: usize, m: &String, label: &String) -> (r: Result<
    (),
    EncodeError,
>)
    ensures
        if is_blank(m@) {
            r == Err::<(), EncodeError>(EncodeError::EmptyMapName { index: i })
        } else if !fits(map_line(m@)) {
            r == Err::<(), EncodeError>(EncodeError::MapNameTooLong { index: i })
        } else if !fits(label_line(label@)) {
            r == Err::<(), EncodeError>(EncodeError::LabelTooLong { index: i })
        } else {
            r is Ok && strings_view(final(lines)@) == strings_view(old(lines)@).push(
                map_line(m@),
            ).push(label_line(label@))
        },
{
    let map = chars_of(m.as_str());
    assert(map@.subrange(0, map@.len() as int) == m@);
    if blank_range(&map, 0, map.len()) {
        return Err(EncodeError::EmptyMapName { index: i });
    }
    let map_text = prefixed("LS map ", m);
    if char_len(&map_text) > MAX_LINE_CP {
        return Err(EncodeError::MapNameTooLong { index: i });
    }
    let label_text = prefixed("LS label ", label);
    if char_len(&label_text) > MAX_LINE_CP {
        return Err(EncodeError::LabelTooLong { index: i });
    }
    push_line(lines, map_text);
    push_line(lines, label_text);
    Ok(())
}

/// The lines for checkpoint `i` of `n`, appended to `lines`.
fn encode_checkpoint(lines: &mut Vec<String>, i: usize, n: usize, c: &Checkpoint) -> (r: Result<
    (),
    EncodeError,
>)
    requires
        i < n,
    ensures
        match checkpoint_lines(i as int, n as int, c@) {
            Ok(m) => r is Ok && strings_view(final(lines)@) == strings_view(old(lines)@) + m,
            Err(e) => r == Err::<(), EncodeError>(e),
        },
{
    let expected = if i == 0 {
        CheckpointKind::Start
    } else if i == n - 1 {
        CheckpointKind::End
    } else {
        CheckpointKind::Split
    };
    if c.kind != expected {
        return Err(EncodeError::MisplacedKind { index: i });
    }
    let label = chars_of(c.label.as_str());
    assert(label@.subrange(0, label@.len() as int) == c.label@);
    if blank_range(&label, 0, label.len()) {
        return Err(EncodeError::EmptyLabel { index: i });
    }
    let ghost before = strings_view(lines@);
    let r = match &c.trigger {
        Trigger::Aabb(b) => encode_box(lines, i, b, &c.label),
        Trigger::MapLoaded(m) => encode_map(lines, i, m, &c.label),
    };
    proof {
        if r is Ok {
            let m = checkpoint_lines(i as int, n as int, c@)->Ok_0;
            assert(strings_view(lines@) =~= before + m);
        }
    }
    r
}

/// Renders `track` as the chat lines that transfer it: `LS title`, the
/// checkpoints in order, then `LS end`; or the first reason it cannot
/// be sent.
pub fn encode_for_chat(track: &Track) -> (r: Result<Vec<String>, EncodeError>)
    ensures
        match spec_encode(track@) {
            Ok(ls) => r matches Ok(lines) && strings_view(lines@) == ls,
            Err(e) => r == Err::<Vec<String>, EncodeError>(e),
        },
{
    let name = chars_of(track.name.as_str());
    if blank_range(&name, 0, name.len()) {
        assert(name@.subrange(0, name@.len() as int) == track.name@);
        return Err(EncodeError::EmptyTrackName);
    }
    assert(name@.subrange(0, name@.len() as int) == track.name@);
    let title = prefixed("LS title ", &track.name);
    if char_len(&title) > MAX_LINE_CP {
        return Err(EncodeError::TrackNameTooLong);
    }
    let n = track.checkpoints.len();
    if n < 2 {
        return Err(EncodeError::TooFewCheckpoints);
    }
    let ghost cps = track@.checkpoints;
    let mut lines: Vec<String> = Vec::new();
    push_line(&mut lines, title);
    assert(strings_view(Seq::<String>::empty()) =~= Seq::<Seq<char>>::empty());
    let mut i: usize = 0;
    while i < n
        invariant
            n == track.checkpoints@.len(),
            n >= 2,
            cps == track@.checkpoints,
            !is_blank(track.name@),
            fits(title_line(track.name@)),
            i <= n,
            checkpoints_lines(cps, i as nat) matches Ok(body) && strings_view(lines@) == seq![
                title_line(track.name@),
            ] + body,
        decreases n - i,
    {
        let ghost body = checkpoints_lines(cps, i as nat)->Ok_0;
        assert(track.checkpoints@[i as int]@ == cps[i as int]);
        let res = encode_checkpoint(&mut lines, i, n, &track.checkpoints[i]);
        if let Err(e) = res {
            assert(cps.len() == n);
            assert(checkpoints_lines(cps, (i + 1) as nat) == Err::<Seq<Seq<char>>, EncodeError>(e));
            proof {
                lemma_checkpoints_lines_err(cps, (i + 1) as nat, e);
            }
            return Err(e);
        }
        proof {
            let m = checkpoint_lines(i as int, n as int, cps[i as int])->Ok_0;
            assert(seq![title_line(track.name@)] + body + m =~= seq![title_line(track.name@)] + (
            body + m));
        }
        i += 1;
    }
    push_line(&mut lines, String::from_str("LS end"));
    Ok(lines)
}

/// An error among the first `k` checkpoints is the error of all of them.
proof fn lemma_checkpoints_lines_err(cps: Seq<CheckpointView>, k: nat, e: EncodeError)
    requires
        k <= cps.len(),
        checkpoints_lines(cps, k) == Err::<Seq<Seq<char>>, EncodeError>(e),
    ensures
        checkpoints_lines(cps, cps.len()) == Err::<Seq<Seq<char>>, EncodeError>(e),
    decreases cps.len() - k,
{
    if k < cps.len() {
        lemma_checkpoints_lines_err(cps, k + 1, e);
    }
}

// =====================================================================
// Laws of the encoder
// =====================================================================

proof fn lemma_cp_head_fits(b: Aabb)
    requires
        aabb_encodable(b),
    ensures
        cp_head(b).len() <= 35,
{
    reveal_strlit("LS cp ");
    assert(pow10(3) == 1000 && pow10(5) == 100000) by {
        reveal_with_fuel(pow10, 6);
    }
    lemma_decimal_len(b.min.0 as nat, 5);
    lemma_decimal_len(b.min.1 as nat, 5);
    lemma_decimal_len(b.min.2 as nat, 5);
    lemma_decimal_len((b.max.0 - b.min.0) as nat, 3);
    lemma_decimal_len((b.max.1 - b.min.1) as nat, 3);
    lemma_decimal_len((b.max.2 - b.min.2) as nat, 3);
}

/// What the lines of the first `k` checkpoints show about them: every
/// line fits, and each checkpoint has its kind in place and a label.
proof fn lemma_checkpoints_lines(cps: Seq<CheckpointView>, k: nat)
    requires
        k <= cps.len(),
    ensures
        checkpoints_lines(cps, k) matches Ok(ls) ==> {
            &&& forall|j: int| 0 <= j < ls.len() ==> fits(#[trigger] ls[j])
            &&& forall|i: int|
                0 <= i < k ==> (#[trigger] cps[i]).kind == expected_kind(i, cps.len() as int)
                    && !is_blank(cps[i].label)
        },
    decreases k,
{
    if k > 0 {
        lemma_checkpoints_lines(cps, (k - 1) as nat);
        if let Ok(ls) = checkpoints_lines(cps, k) {
            let prev = checkpoints_lines(cps, (k - 1) as nat)->Ok_0;
            let m = checkpoint_lines(k - 1, cps.len() as int, cps[k - 1])->Ok_0;
            if let TriggerView::Aabb(b) = cps[k - 1].trigger {
                lemma_cp_head_fits(b);
            }
            assert forall|j: int| 0 <= j < ls.len() implies fits(#[trigger] ls[j]) by {
                if j < prev.len() {
                    assert(ls[j] == prev[j]);
                } else {
                    assert(ls[j] == m[j - prev.len()]);
                }
            }
        }
    }
}

/// Every line of an encoded track fits in `MAX_LINE_CP` characters; the
/// first is the title, the last is `LS end`.
pub proof fn lemma_encoded_lines_fit(t: TrackView)
    ensures
        spec_encode(t) matches Ok(ls) ==> {
            &&& forall|j: int| 0 <= j < ls.len() ==> fits(#[trigger] ls[j])
            &&& ls[0] == title_line(t.name)
            &&& ls.last() == "LS end"@
        },
{
    reveal_strlit("LS end");
    if let Ok(ls) = spec_encode(t) {
        lemma_checkpoints_lines(t.checkpoints, t.checkpoints.len());
        let body = checkpoints_lines(t.checkpoints, t.checkpoints.len())->Ok_0;
        assert forall|j: int| 0 <= j < ls.len() implies fits(#[trigger] ls[j]) by {
            if 0 < j < ls.len() - 1 {
                assert(ls[j] == body[j - 1]);
            }
        }
    }
}

/// The encoder sends only complete tracks: a start, splits, an end, and a
/// label on each checkpoint.
pub proof fn lemma_encoded_track_is_complete(t: TrackView)
    ensures
        spec_encode(t) is Ok ==> crate::decode::track_complete(t),
{
    if spec_encode(t) is Ok {
        lemma_checkpoints_lines(t.checkpoints, t.checkpoints.len());
        let n = t.checkpoints.len() as int;
        assert(t.checkpoints[0].kind == expected_kind(0, n));
        assert(t.checkpoints[n - 1].kind == expected_kind(n - 1, n));
        assert forall|i: int| 1 <= i < n - 1 implies (#[trigger] t.checkpoints[i]).kind
            == CheckpointKind::Split by {
            assert(t.checkpoints[i].kind == expected_kind(i, n));
        }
        assert forall|i: int| 0 <= i < n implies !is_blank((#[trigger] t.checkpoints[i]).label) by {
            assert(!is_blank(t.checkpoints[i].label));
        }
    }
}

/// What a checkpoint must be to be sent as checkpoint `i` of `n`:
/// `Start` first, `End` last, `Split` between; a label with text of at
/// most 52 characters, so that `LS label <label>` fits in a line; and a
/// box with its corner in `0..=65535` and its extent in `0..=255`, or a
/// map name with text of at most 54 characters.
pub open spec fn checkpoint_sendable(i: int, n: int, c: CheckpointView) -> bool {
    &&& c.kind == (if i == 0 {
        CheckpointKind::Start
    } else if i == n - 1 {
        CheckpointKind::End
    } else {
        CheckpointKind::Split
    })
    &&& !is_blank(c.label)
    &&& c.label.len() <= 52
    &&& match c.trigger {
        TriggerView::Aabb(b) => aabb_encodable(b),
        TriggerView::MapLoaded(m) => !is_blank(m) && m.len() <= 54,
    }
}

/// What a track must be to be sent: a name with text of at most 52
/// characters, at least two checkpoints, each of them sendable.
pub open spec fn track_sendable(t: TrackView) -> bool {
    &&& !is_blank(t.name)
    &&& t.name.len() <= 52
    &&& t.checkpoints.len() >= 2
    &&& forall|i: int|
        0 <= i < t.checkpoints.len() ==> checkpoint_sendable(
            i,
            t.checkpoints.len() as int,
            #[trigger] t.checkpoints[i],
        )
}

proof fn lemma_checkpoint_lines_ok(i: int, n: int, c: CheckpointView)
    ensures
        checkpoint_lines(i, n, c) is Ok <==> checkpoint_sendable(i, n, c),
{
    reveal_strlit("LS label ");
    reveal_strlit("LS map ");
    reveal_strlit("LS cp ");
    if let TriggerView::Aabb(b) = c.trigger {
        lemma_decimal_digits(b.min.0 as nat);
        lemma_decimal_digits((b.max.0 - b.min.0) as nat);
        assert(cp_head(b).len() >= 8);
    }
}

proof fn lemma_checkpoints_lines_ok(cps: Seq<CheckpointView>, k: nat)
    requires
        k <= cps.len(),
    ensures
        checkpoints_lines(cps, k) is Ok <==> forall|i: int|
            0 <= i < k ==> checkpoint_sendable(i, cps.len() as int, #[trigger] cps[i]),
    decreases k,
{
    if k > 0 {
        lemma_checkpoints_lines_ok(cps, (k - 1) as nat);
        lemma_checkpoint_lines_ok(k - 1, cps.len() as int, cps[k - 1]);
    }
}

/// A track can be sent exactly when it is sendable: the encoder refuses
/// only a blank or overlong name, too few checkpoints, a misplaced kind,
/// a blank label, a label too long even for its own line, a box out of
/// range, or a blank or overlong map name. In particular a box whose
/// label does not fit inline is still sent, with its label on a line of
/// its own.
pub proof fn lemma_encode_succeeds_iff_sendable(t: TrackView)
    ensures
        spec_encode(t) is Ok <==> track_sendable(t),
{
    reveal_strlit("LS title ");
    lemma_checkpoints_lines_ok(t.checkpoints, t.checkpoints.len());
}

/// A sendable box checkpoint is written as one `LS cp <min> <size>
/// <label>` line when that fits in `MAX_LINE_CP` characters, and else as
/// the `LS cp <min> <size>` line followed by `LS label <label>`, whatever
/// its kind.
pub proof fn lemma_box_label_placement(i: int, n: int, c: CheckpointView, b: Aabb)
    requires
        checkpoint_sendable(i, n, c),
        c.trigger == TriggerView::Aabb(b),
    ensures
        ({
            let head = "LS cp "@ + triple_text(b.min.0 as int, b.min.1 as int, b.min.2 as int)
                + seq![' '] + triple_text(
                b.max.0 - b.min.0,
                b.max.1 - b.min.1,
                b.max.2 - b.min.2,
            );
            if head.len() + 1 + c.label.len() <= 61 {
                checkpoint_lines(i, n, c) == Ok::<Seq<Seq<char>>, EncodeError>(
                    seq![head + seq![' '] + c.label],
                )
            } else {
                checkpoint_lines(i, n, c) == Ok::<Seq<Seq<char>>, EncodeError>(
                    seq![head, "LS label "@ + c.label],
                )
            }
        }),
{
    reveal_strlit("LS label ");
}

} // verus!
