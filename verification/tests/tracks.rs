use euclid_beats::euclid::{euclid, Pattern};
use euclid_beats::midi::{chord, emission};
use euclid_beats::timeline::hit_column;
use euclid_beats::track::{
    Action, Clock, ClockEvent, Track, TrackState, QUEUE_DEPTH, TICK_MILLIS,
};

fn running(pattern: Pattern) -> Track {
    let mut track = Track::new(pattern).unwrap();
    track.start();
    track
}

#[test]
fn chord_builds_note_on_words() {
    assert_eq!(chord(true, &[0x2400u32], 0x64), [0x20902464u32]);
    assert_eq!(
        chord(true, &[0x2400u32, 0x2600, 0x2a00], 0x40),
        [0x20902440u32, 0x20902640, 0x20902a40]
    );
}

#[test]
fn chord_builds_note_off_words() {
    assert_eq!(chord(false, &[0x2400u32], 0x64), [0x20802464u32]);
    assert_eq!(chord(false, &[0x3300u32, 0x2500], 0x27), [0x20803327u32, 0x20802527]);
    let none: [u32; 0] = [];
    assert_eq!(chord(true, &none, 0x64), none);
}

#[test]
fn clock_counts_from_one() {
    let mut clock = Clock::new();
    assert_eq!(clock.advance(), Some(1));
    assert_eq!(clock.advance(), Some(2));
    assert_eq!(clock.advance(), Some(3));
}

#[test]
fn no_track_without_steps() {
    assert!(Track::new(Pattern::from("")).is_none());
    assert!(Track::new(Pattern::from(".")).is_some());
}

#[test]
fn track_life_is_one_way() {
    let mut track = Track::new(Pattern::from("X.")).unwrap();
    assert_eq!(track.current_state(), TrackState::Idle);
    assert_eq!(track.tick(), None);
    track.start();
    assert_eq!(track.current_state(), TrackState::Running);
    assert_eq!(track.tick(), Some(true));
    track.stop();
    assert_eq!(track.current_state(), TrackState::Stopped);
    track.start();
    assert_eq!(track.current_state(), TrackState::Stopped);
    assert_eq!(track.tick(), None);
    assert_eq!(track.on_event(ClockEvent::Tick(9)), Action::Halt);
}

#[test]
fn ticks_walk_round_the_pattern() {
    let mut track = running(Pattern::from("X..X."));
    let fired: Vec<Option<bool>> = (0..7).map(|_| track.tick()).collect();
    assert_eq!(
        fired,
        vec![Some(true), Some(false), Some(false), Some(true), Some(false), Some(true), Some(false)]
    );
}

#[test]
fn run_matches_the_cycle() {
    let pattern = euclid(3, 8);
    let mut track = running(pattern.clone());
    let fired = track.run(20);
    let twice = pattern.fill(20);
    let expected: Vec<bool> = twice.data.iter().map(|&b| b == 1).collect();
    assert_eq!(fired, expected);
    assert_eq!(track.run(0), Vec::<bool>::new());
    assert_eq!(track.run(4), vec![false, false, true, false]);
}

#[test]
fn two_rounds_are_the_pattern_twice() {
    let pattern = euclid(5, 12);
    let mut track = running(pattern.clone());
    let fired = track.run(2 * pattern.len());
    let twice = pattern.clone() + pattern.clone();
    let expected: Vec<bool> = twice.data.iter().map(|&b| b == 1).collect();
    assert_eq!(fired, expected);
    assert_eq!(pattern.fill(2 * pattern.len()), twice);
    let mut again = running(pattern);
    assert_eq!(again.run(24), fired);
}

#[test]
fn tracks_do_not_disturb_each_other() {
    let mut kick = running(Pattern::from("X..X..X.X.."));
    let mut hat = running(euclid(5, 8));
    let mut kick_fired = Vec::new();
    for _ in 0..22 {
        kick_fired.push(kick.tick().unwrap());
        hat.tick();
        hat.tick();
    }
    let mut alone = running(Pattern::from("X..X..X.X.."));
    assert_eq!(kick_fired, alone.run(22));
}

#[test]
fn events_map_to_actions() {
    let mut track = running(Pattern::from("X."));
    assert_eq!(track.on_event(ClockEvent::Tick(1)), Action::Trigger);
    assert_eq!(track.on_event(ClockEvent::Tick(2)), Action::Rest);
    assert_eq!(track.on_event(ClockEvent::Lagged(3)), Action::Skip);
    assert_eq!(track.on_event(ClockEvent::Tick(6)), Action::Trigger);
    assert_eq!(track.on_event(ClockEvent::Closed), Action::Halt);
    assert_eq!(track.current_state(), TrackState::Stopped);
    assert_eq!(track.on_event(ClockEvent::Tick(7)), Action::Halt);
}

#[test]
fn idle_track_halts_on_events() {
    let mut track = Track::new(Pattern::from("X")).unwrap();
    assert_eq!(track.on_event(ClockEvent::Tick(1)), Action::Halt);
    assert_eq!(track.current_state(), TrackState::Idle);
}

#[test]
fn timeline_columns() {
    assert_eq!(hit_column(0, 0), Some(20));
    assert_eq!(hit_column(5, 5), Some(30));
    assert_eq!(hit_column(3, 5), Some(26));
    assert_eq!(hit_column(32, 32), Some(84));
    assert_eq!(hit_column(100, 100), Some(84));
    assert_eq!(hit_column(68, 100), Some(20));
    assert_eq!(hit_column(67, 100), None);
    assert_eq!(hit_column(40_000, 0), None);
    assert_eq!(hit_column(32_757, 0), Some(65_534));
    assert_eq!(hit_column(32_758, 0), None);
}

#[test]
fn trigger_sends_on_then_off() {
    let notes = [0x2400u32, 0x2600];
    assert_eq!(
        emission(Action::Trigger, &notes, 0x40),
        vec![[0x20902440u32, 0x20902640], [0x20802440u32, 0x20802640]]
    );
    assert!(emission(Action::Rest, &notes, 0x40).is_empty());
    assert!(emission(Action::Skip, &notes, 0x40).is_empty());
    assert!(emission(Action::Halt, &notes, 0x40).is_empty());
}

#[test]
fn tempo_and_queue_defaults() {
    assert_eq!(TICK_MILLIS, 200);
    assert_eq!(QUEUE_DEPTH, 16);
}
