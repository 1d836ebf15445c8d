use std::time::Duration;

use livesplit_plugin::protocol::{Command, TimeSpan, TimerEvent, TimingMethod};

fn line(c: Command) -> String {
    c.to_line().unwrap()
}

#[test]
fn simple_commands_render_their_keywords() {
    assert_eq!(line(Command::Start), "start");
    assert_eq!(line(Command::Split), "split");
    assert_eq!(line(Command::SplitOrStart), "startorsplit");
    assert_eq!(line(Command::Reset { save_attempt: Some(true) }), "reset");
    assert_eq!(line(Command::Reset { save_attempt: None }), "reset");
    assert_eq!(line(Command::Pause), "pause");
    assert_eq!(line(Command::Resume), "resume");
    assert_eq!(line(Command::UndoSplit), "undosplit");
    assert_eq!(line(Command::SkipSplit), "skipsplit");
    assert_eq!(line(Command::InitializeGameTime), "setgametime 0");
    assert_eq!(line(Command::PauseGameTime), "pausegametime");
    assert_eq!(line(Command::ResumeGameTime), "unpausegametime");
    assert_eq!(line(Command::Ping), "ping");
}

#[test]
fn time_commands_carry_nine_digit_fractions() {
    let t = TimeSpan::new(83, 456_000_000);
    assert_eq!(line(Command::SetGameTime { time: t }), "setgametime 83.456000000");
    let t = TimeSpan::new(0, 7);
    assert_eq!(line(Command::SetLoadingTimes { time: t }), "setloadingtimes 0.000000007");
    assert_eq!(TimeSpan::new(12345678901, 999_999_999).to_text(), "12345678901.999999999");
}

#[test]
fn time_span_carries_whole_seconds() {
    let t = TimeSpan::new(2, 3_000_000_007);
    assert_eq!(t.secs(), 5);
    assert_eq!(t.nanos(), 7);
    assert_eq!(t.to_text(), "5.000000007");
}

#[test]
fn timing_method_switch() {
    assert_eq!(
        line(Command::SetCurrentTimingMethod { timing_method: TimingMethod::RealTime }),
        "switchto realtime"
    );
    assert_eq!(
        line(Command::SetCurrentTimingMethod { timing_method: TimingMethod::GameTime }),
        "switchto gametime"
    );
}

#[test]
fn time_span_from_duration() {
    let t = TimeSpan::from_duration(Duration::new(3, 42));
    assert_eq!(t, TimeSpan::new(3, 42));
    assert_eq!(t.to_text(), "3.000000042");
    let t = TimeSpan::from_duration(Duration::from_millis(1500));
    assert_eq!(t, TimeSpan::new(1, 500_000_000));
}

#[test]
fn only_backward_events_are_acted_on() {
    assert_eq!(TimerEvent::from_wire("SplitUndone"), Some(TimerEvent::SplitUndone));
    assert_eq!(TimerEvent::from_wire("Reset"), Some(TimerEvent::Reset));
    assert_eq!(TimerEvent::from_wire("Splitted"), None);
    assert_eq!(TimerEvent::from_wire("Started"), None);
    assert_eq!(TimerEvent::from_wire("reset"), None);
    assert_eq!(TimerEvent::from_wire("Reset "), None);
    assert_eq!(TimerEvent::from_wire(""), None);
}
