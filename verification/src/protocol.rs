//! The LiveSplit timer protocol: the commands sent to the timer as
//! lines of the desktop's line protocol, and the timer events acted on.
use vstd::prelude::*;
use vstd::string::*;

use crate::text::{decimal, first_index, lemma_decimal_digits, lemma_decimal_parses, lemma_first_index,
    lemma_padded_decimal_parses, parse_uint, is_digit, IntErrorKind, lemma_decimal_len, padded_decimal, pow10, push_char, push_decimal, push_padded_decimal, str_equal};

verus! {

/// A command for the timer.
#[derive(Clone, Copy, Debug, PartialEq, Eq, Structural)]
pub enum Command {
    Start,
    Split,
    SplitOrStart,
    Reset { save_attempt: Option<bool> },
    Pause,
    Resume,
    UndoSplit,
    SkipSplit,
    /// The desktop line protocol has no `initgametime` command — it
    /// initializes game time only as a side effect of `setgametime`. So
    /// `to_line()` renders this as `setgametime 0`. It's only ever
    /// emitted immediately after `Start`, where the game-time origin is 0,
    /// and `setgametime` leaves game-time pausing untouched.
    InitializeGameTime,
    SetGameTime { time: TimeSpan },
    PauseGameTime,
    ResumeGameTime,
    SetLoadingTimes { time: TimeSpan },
    SetCurrentTimingMethod { timing_method: TimingMethod },
    Ping,
}

/// An inbound timer-originated event we choose to act on. The timer
/// pushes an event for every state change; only the two *backward*
/// events are acted on, since the forward ones are echoes of our own
/// commands and acting on them would double-advance the cursor.
#[derive(Clone, Copy, Debug, PartialEq, Eq, Structural)]
pub enum TimerEvent {
    SplitUndone,
    Reset,
}

/// The wire names of the events acted on; every other name is ignored.
pub open spec fn spec_from_wire(s: Seq<char>) -> Option<TimerEvent> {
    if s == "SplitUndone"@ {
        Some(TimerEvent::SplitUndone)
    } else if s == "Reset"@ {
        Some(TimerEvent::Reset)
    } else {
        None
    }
}

impl TimerEvent {
    /// Parse the inbound event name. Returns `None` for events we
    /// deliberately ignore.
    pub fn from_wire(s: &str) -> (r: Option<Self>)
        ensures
            r == spec_from_wire(s@),
    {
        if str_equal(s, "SplitUndone") {
            Some(TimerEvent::SplitUndone)
        } else if str_equal(s, "Reset") {
            Some(TimerEvent::Reset)
        } else {
            None
        }
    }
}

/// Which clock the timer compares against.
#[derive(Clone, Copy, Debug, PartialEq, Eq, Structural)]
pub enum TimingMethod {
    RealTime,
    GameTime,
}

pub open spec fn spec_line_token(m: TimingMethod) -> Seq<char> {
    match m {
        TimingMethod::RealTime => "realtime"@,
        TimingMethod::GameTime => "gametime"@,
    }
}

impl TimingMethod {
    /// Desktop line-protocol token for `switchto <token>`.
    fn line_token(self) -> (r: &'static str)
        ensures
            r@ == spec_line_token(self),
    {
        match self {
            TimingMethod::RealTime => "realtime",
            TimingMethod::GameTime => "gametime",
        }
    }
}

/// A duration of whole seconds and nanoseconds below one second,
/// written `<secs>.<9-digit-nanos>` on the wire.
#[derive(Clone, Copy, Debug, PartialEq, Eq, Structural)]
pub struct TimeSpan {
    secs: u64,
    nanos: u32,
}

/// `<secs>.<nanos padded to 9 digits>`.
pub open spec fn time_span_text(t: TimeSpan) -> Seq<char> {
    decimal(t.spec_secs() as nat) + seq!['.'] + padded_decimal(t.spec_nanos() as nat, 9)
}

/// The whole seconds of a duration, as `Duration::as_secs` returns them.
pub uninterp spec fn whole_secs(d: std::time::Duration) -> u64;

/// The fraction of a second of a duration in nanoseconds, as
/// `Duration::subsec_nanos` returns it.
pub uninterp spec fn subsec_nanos(d: std::time::Duration) -> u32;

/// `Duration::as_secs`: the whole seconds, a function of the duration
/// alone.
#[verifier::external_body]
fn duration_secs(d: &std::time::Duration) -> (r: u64)
    ensures
        r == whole_secs(*d),
{
    d.as_secs()
}

/// `Duration::subsec_nanos`: the fractional part in nanoseconds, a
/// function of the duration alone, which the documentation says is
/// always below one billion.
#[verifier::external_body]
fn duration_subsec_nanos(d: &std::time::Duration) -> (r: u32)
    ensures
        r == subsec_nanos(*d),
        r < 1_000_000_000,
{
    d.subsec_nanos()
}

impl TimeSpan {
    /// The fraction is always below one second.
    #[verifier::type_invariant]
    spec fn nanos_below_a_second(self) -> bool {
        self.nanos < 1_000_000_000
    }

    /// The whole seconds.
    pub closed spec fn spec_secs(self) -> u64 {
        self.secs
    }

    /// The nanoseconds below one second.
    pub closed spec fn spec_nanos(self) -> u32 {
        self.nanos
    }

    /// `secs` seconds and `nanos` nanoseconds; nanoseconds of a second or
    /// more carry over into the seconds, as `Duration::new` does.
    pub fn new(secs: u64, nanos: u32) -> (t: TimeSpan)
        requires
            secs + nanos / 1_000_000_000 <= u64::MAX,
        ensures
            t.spec_secs() == secs + nanos / 1_000_000_000,
            t.spec_nanos() == nanos % 1_000_000_000,
    {
        TimeSpan { secs: secs + (nanos / 1_000_000_000) as u64, nanos: nanos % 1_000_000_000 }
    }

    /// The whole seconds.
    pub fn secs(&self) -> (r: u64)
        ensures
            r == self.spec_secs(),
    {
        self.secs
    }

    /// The nanoseconds below one second.
    pub fn nanos(&self) -> (r: u32)
        ensures
            r == self.spec_nanos(),
            r < 1_000_000_000,
    {
        proof {
            use_type_invariant(self);
        }
        self.nanos
    }

    /// The seconds and nanoseconds of a `Duration`.
    pub fn from_duration(d: std::time::Duration) -> (t: TimeSpan)
        ensures
            t.spec_secs() == whole_secs(d),
            t.spec_nanos() == subsec_nanos(d),
    {
        TimeSpan { secs: duration_secs(&d), nanos: duration_subsec_nanos(&d) }
    }

    /// The wire text, `<secs>.<9-digit-nanos>`: the fraction always has
    /// exactly nine digits.
    pub fn to_text(&self) -> (s: String)
        ensures
            s@ == time_span_text(*self),
            self.spec_nanos() < 1_000_000_000,
            padded_decimal(self.spec_nanos() as nat, 9).len() == 9,
    {
        proof {
            use_type_invariant(self);
            lemma_nine_digits(self.nanos as nat);
        }
        let mut s = String::new();
        push_decimal(&mut s, self.secs);
        push_char(&mut s, '.');
        push_padded_decimal(&mut s, self.nanos as u64, 9);
        s
    }
}

/// The line for `c` in the desktop's line protocol, without a line
/// terminator.
pub open spec fn command_line(c: Command) -> Seq<char> {
    match c {
        Command::Start => "start"@,
        Command::Split => "split"@,
        Command::SplitOrStart => "startorsplit"@,
        Command::Reset { .. } => "reset"@,
        Command::Pause => "pause"@,
        Command::Resume => "resume"@,
        Command::UndoSplit => "undosplit"@,
        Command::SkipSplit => "skipsplit"@,
        Command::InitializeGameTime => "setgametime 0"@,
        Command::SetGameTime { time } => "setgametime "@ + time_span_text(time),
        Command::PauseGameTime => "pausegametime"@,
        Command::ResumeGameTime => "unpausegametime"@,
        Command::SetLoadingTimes { time } => "setloadingtimes "@ + time_span_text(time),
        Command::SetCurrentTimingMethod { timing_method } => "switchto "@ + spec_line_token(
            timing_method,
        ),
        Command::Ping => "ping"@,
    }
}

impl Command {
    /// Render as a single line for the timer's line protocol. No trailing
    /// `\n` — the caller adds the line terminator. Every command has a
    /// line, so the result is never `None`.
    pub fn to_line(&self) -> (r: Option<String>)
        ensures
            r matches Some(s) && s@ == command_line(*self),
    {
        let line = match self {
            Command::Start => String::from_str("start"),
            Command::Split => String::from_str("split"),
            Command::SplitOrStart => String::from_str("startorsplit"),
            Command::Reset { .. } => String::from_str("reset"),
            Command::Pause => String::from_str("pause"),
            Command::Resume => String::from_str("resume"),
            Command::UndoSplit => String::from_str("undosplit"),
            Command::SkipSplit => String::from_str("skipsplit"),
            Command::InitializeGameTime => String::from_str("setgametime 0"),
            Command::SetGameTime { time } => {
                let mut s = String::from_str("setgametime ");
                s.append(time.to_text().as_str());
                s
            },
            Command::PauseGameTime => String::from_str("pausegametime"),
            Command::ResumeGameTime => String::from_str("unpausegametime"),
            Command::SetLoadingTimes { time } => {
                let mut s = String::from_str("setloadingtimes ");
                s.append(time.to_text().as_str());
                s
            },
            Command::SetCurrentTimingMethod { timing_method } => {
                let mut s = String::from_str("switchto ");
                s.append(timing_method.line_token());
                s
            },
            Command::Ping => String::from_str("ping"),
        };
        Some(line)
    }
}

/// A number below one billion takes exactly nine characters once padded
/// to nine digits.
proof fn lemma_nine_digits(n: nat)
    requires
        n < 1_000_000_000,
    ensures
        padded_decimal(n, 9).len() == 9,
{
    assert(pow10(9) == 1_000_000_000) by {
        reveal_with_fuel(pow10, 10);
    }
    lemma_decimal_len(n, 9);
}

/// Only the two backward events are acted on: `SplitUndone` and `Reset`
/// each give their event, and every other name, every forward event
/// among them, gives nothing.
pub proof fn lemma_from_wire_only_backward_events(s: Seq<char>)
    ensures
        spec_from_wire(s) == Some(TimerEvent::SplitUndone) <==> s == "SplitUndone"@,
        spec_from_wire(s) == Some(TimerEvent::Reset) <==> s == "Reset"@,
        spec_from_wire(s) is None <==> (s != "SplitUndone"@ && s != "Reset"@),
        spec_from_wire("Started"@) is None,
        spec_from_wire("Splitted"@) is None,
        spec_from_wire("SplitSkipped"@) is None,
{
    reveal_strlit("SplitUndone");
    reveal_strlit("Reset");
    reveal_strlit("Started");
    reveal_strlit("Splitted");
    reveal_strlit("SplitSkipped");
    assert("SplitUndone"@ != "Reset"@) by {
        assert("SplitUndone"@.len() != "Reset"@.len());
    }
    assert("Started"@.len() == 7 && "Splitted"@.len() == 8 && "Reset"@.len() == 5);
    assert("Started"@ != "SplitUndone"@ && "Started"@ != "Reset"@);
    assert("Splitted"@ != "Reset"@ && "SplitSkipped"@ != "Reset"@);
    assert("Splitted"@ != "SplitUndone"@) by {
        assert("Splitted"@[5] != "SplitUndone"@[5]);
    }
    assert("SplitSkipped"@ != "SplitUndone"@) by {
        assert("SplitSkipped"@[5] != "SplitUndone"@[5]);
    }
}

/// The wire text of a time span reads back as the time span: the part
/// before the first `.` parses to the whole seconds, and the part after
/// it has exactly nine digits that parse to the nanoseconds.
pub proof fn lemma_time_text_reads_back(t: TimeSpan)
    requires
        t.spec_nanos() < 1_000_000_000,
    ensures
        first_index(time_span_text(t), '.') matches Some(k) && {
            &&& parse_uint(time_span_text(t).take(k), u64::MAX as nat) == Ok::<
                nat,
                IntErrorKind,
            >(t.spec_secs() as nat)
            &&& time_span_text(t).skip(k + 1).len() == 9
            &&& parse_uint(time_span_text(t).skip(k + 1), 999_999_999) == Ok::<nat, IntErrorKind>(
                t.spec_nanos() as nat,
            )
        },
{
    let text = time_span_text(t);
    let a = decimal(t.spec_secs() as nat);
    let f = padded_decimal(t.spec_nanos() as nat, 9);
    lemma_decimal_digits(t.spec_secs() as nat);
    lemma_decimal_parses(t.spec_secs() as nat, u64::MAX as nat);
    lemma_padded_decimal_parses(t.spec_nanos() as nat, 9, 999_999_999);
    lemma_nine_digits(t.spec_nanos() as nat);
    assert forall|j: int| 0 <= j < a.len() implies text[j] != '.' by {
        assert(text[j] == a[j]);
        assert(is_digit(a[j]));
    }
    assert(text[a.len() as int] == '.');
    lemma_first_index(text, '.', a.len() as int);
    assert(text.take(a.len() as int) =~= a);
    assert(text.skip(a.len() + 1 as int) =~= f);
}

} // verus!
