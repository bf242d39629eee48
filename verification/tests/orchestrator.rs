use std::path::PathBuf;

use rvalt::cache::RollingCache;
use rvalt::exr::ExrImage;
use rvalt::number::Double;
use rvalt::number::DOUBLE_ONE;
use rvalt::orchestrator::playback_cache;
use rvalt::orchestrator::Collector;
use rvalt::orchestrator::Message;
use rvalt::orchestrator::Orchestrator;
use rvalt::orchestrator::Reply;
use rvalt::orchestrator::Speed;
use rvalt::orchestrator::State;
use rvalt::orchestrator::Turn;
use rvalt::orchestrator::FILM_RATE;

fn frame(tag: u16) -> ExrImage {
    ExrImage { width: 1, height: 1, r: vec![tag], g: vec![tag], b: vec![tag], a: vec![tag] }
}

fn speed(s: Speed) -> f64 {
    (0..s.doublings).fold(f64::from_bits(s.factor.bits), |v, _| v * 2.0)
}

fn tell(player: &mut Orchestrator, cache: &mut RollingCache, msg: Message, now: u128) {
    assert!(player.accepts(&msg, cache));
    assert!(matches!(player.handle(msg, now, cache), Reply::Report));
}

fn sequence(frames: u64) -> (Orchestrator, RollingCache) {
    let mut player = Orchestrator::new(0);
    let mut cache = playback_cache();
    for f in 0..frames {
        cache.insert(f, frame(f as u16), 0);
    }
    player.handle_inner(Message::TotalFrames(frames));
    (player, cache)
}

fn shown(turn: Turn) -> Option<u16> {
    match turn {
        Turn::Show(img) => Some(img.r[0]),
        _ => None,
    }
}

#[test]
fn playback_starts_at_film_rate() {
    let state = State::new();
    assert_eq!(f64::from_bits(FILM_RATE), 23.976);
    assert_eq!(f64::from_bits(DOUBLE_ONE), 1.0);
    assert_eq!(f64::from_bits(state.frame_rate.bits), 23.976);
    assert_eq!(speed(state.multiplier), 1.0);
    assert!(!state.paused && !state.reverse && state.open_dir.is_none());
    assert_eq!((state.current_frame, state.total_frames), (0, 0));
}

#[test]
fn default_state_has_no_rate() {
    let state = State::default();
    assert_eq!(f64::from_bits(state.frame_rate.bits), 0.0);
    assert_eq!(speed(state.multiplier), 0.0);
}

#[test]
fn seeking_stops_on_the_frame() {
    let (mut player, mut cache) = sequence(10);
    tell(&mut player, &mut cache, Message::FrameChange(4), 5);
    assert!(player.state().paused);
    assert_eq!(player.state().current_frame, 4);
    assert_eq!(player.playhead(), 4);
    tell(&mut player, &mut cache, Message::GoForward(3), 5);
    assert_eq!(player.playhead(), 7);
    tell(&mut player, &mut cache, Message::GoBack(3), 5);
    assert_eq!(player.playhead(), 4);
    tell(&mut player, &mut cache, Message::LastFrame, 5);
    assert_eq!(player.playhead(), 9);
    tell(&mut player, &mut cache, Message::FirstFrame, 5);
    assert_eq!(player.state().current_frame, 0);
    assert!(player.state().paused);
}

#[test]
fn seeking_outside_the_frame_numbers_is_not_accepted() {
    let (player, cache) = sequence(10);
    assert!(!player.accepts(&Message::GoBack(1), &cache));
    assert!(player.accepts(&Message::GoForward(u64::MAX), &cache));
    let (empty, cache) = sequence(0);
    assert!(!empty.accepts(&Message::LastFrame, &cache));
    assert!(empty.accepts(&Message::Pause, &cache));
}

#[test]
fn seeking_sweeps_what_is_under_way() {
    let (mut player, mut cache) = sequence(0);
    assert!(cache.try_reserve(3));
    assert!(cache.try_reserve(100));
    tell(&mut player, &mut cache, Message::FrameChange(90), 0);
    assert!(!cache.contains(3));
    assert!(cache.contains(100));
}

#[test]
fn directions_double_or_start_anew() {
    let (mut player, mut cache) = sequence(10);
    tell(&mut player, &mut cache, Message::Forward, 0);
    assert_eq!(speed(player.state().multiplier), 2.0);
    tell(&mut player, &mut cache, Message::Forward, 0);
    assert_eq!(speed(player.state().multiplier), 4.0);
    tell(&mut player, &mut cache, Message::Reverse, 0);
    assert_eq!(speed(player.state().multiplier), 1.0);
    assert!(player.state().reverse && player.reverse());
    tell(&mut player, &mut cache, Message::Reverse, 0);
    assert_eq!(speed(player.state().multiplier), 2.0);
    tell(&mut player, &mut cache, Message::Forward, 0);
    assert_eq!(speed(player.state().multiplier), 1.0);
    assert!(!player.state().reverse && !player.reverse());
}

#[test]
fn pausing_resets_the_speed() {
    let (mut player, mut cache) = sequence(10);
    tell(&mut player, &mut cache, Message::Forward, 0);
    tell(&mut player, &mut cache, Message::Pause, 0);
    assert!(player.state().paused);
    assert_eq!(speed(player.state().multiplier), 1.0);
    tell(&mut player, &mut cache, Message::Pause, 0);
    assert!(!player.state().paused);
    tell(&mut player, &mut cache, Message::Pause, 0);
    tell(&mut player, &mut cache, Message::Reverse, 0);
    assert!(!player.state().paused);
}

#[test]
fn rates_and_factors_are_taken_as_they_are() {
    let (mut player, mut cache) = sequence(10);
    let rate = Double { bits: 60f64.to_bits() };
    let factor = Double { bits: 0.5f64.to_bits() };
    tell(&mut player, &mut cache, Message::FrameRate(rate), 0);
    tell(&mut player, &mut cache, Message::Multiplier(factor), 0);
    assert_eq!(player.state().frame_rate, rate);
    assert_eq!(speed(player.state().multiplier), 0.5);
    tell(&mut player, &mut cache, Message::Forward, 0);
    assert_eq!(speed(player.state().multiplier), 1.0);
    tell(&mut player, &mut cache, Message::TotalFrames(12), 0);
    assert_eq!(player.state().total_frames, 12);
}

#[test]
fn directory_is_loaded_before_it_is_reported() {
    let (mut player, mut cache) = sequence(0);
    let reply = player.handle(Message::DirChosen(PathBuf::from("/frames")), 0, &mut cache);
    match reply {
        Reply::Load(path) => {
            assert!(player.state().open_dir.is_none());
            player.opened(path);
        }
        Reply::Report => panic!("the directory is not to be loaded"),
    }
    assert_eq!(player.state().open_dir, Some(PathBuf::from("/frames")));
}

#[test]
fn only_the_length_is_news_from_the_frames() {
    let (mut player, _) = sequence(5);
    player.handle_inner(Message::Pause);
    player.handle_inner(Message::FrameChange(3));
    assert!(!player.state().paused);
    assert_eq!(player.playhead(), 0);
    player.handle_inner(Message::TotalFrames(7));
    assert_eq!(player.state().total_frames, 7);
}

#[test]
fn frames_follow_at_their_interval() {
    let (mut player, cache) = sequence(3);
    assert!(player.can_poll(10));
    assert!(matches!(player.poll(9, 10, &cache), Turn::Wait));
    assert_eq!(shown(player.poll(10, 10, &cache)), Some(0));
    assert_eq!(player.playhead(), 1);
    assert!(matches!(player.poll(19, 10, &cache), Turn::Wait));
    assert_eq!(shown(player.poll(25, 10, &cache)), Some(1));
    assert_eq!(shown(player.poll(30, 10, &cache)), Some(2));
    assert_eq!(player.state().current_frame, 3);
    assert!(!player.in_sequence());
}

#[test]
fn backwards_playback_stays_on_the_first_frame() {
    let (mut player, mut cache) = sequence(3);
    tell(&mut player, &mut cache, Message::FrameChange(1), 0);
    tell(&mut player, &mut cache, Message::Reverse, 0);
    assert_eq!(shown(player.poll(0, 10, &cache)), Some(1));
    assert_eq!(player.playhead(), 1);
    assert_eq!(shown(player.poll(20, 10, &cache)), Some(1));
    assert_eq!(player.playhead(), 0);
    assert_eq!(shown(player.poll(30, 10, &cache)), Some(0));
    assert_eq!(shown(player.poll(40, 10, &cache)), Some(0));
    assert_eq!(player.playhead(), 0);
}

#[test]
fn sought_frame_is_shown_once_while_paused() {
    let (mut player, mut cache) = sequence(5);
    tell(&mut player, &mut cache, Message::FrameChange(3), 100);
    assert_eq!(shown(player.poll(100, 10, &cache)), Some(3));
    assert_eq!(player.playhead(), 3);
    assert!(matches!(player.poll(500, 10, &cache), Turn::Wait));
}

#[test]
fn frame_that_is_not_in_memory_is_waited_for() {
    let (mut player, _) = sequence(3);
    let mut empty = playback_cache();
    assert!(matches!(player.poll(10, 10, &empty), Turn::Missing));
    assert!(matches!(player.poll(19, 10, &empty), Turn::Wait));
    empty.insert(0, frame(0), 0);
    assert_eq!(shown(player.poll(20, 10, &empty)), Some(0));
}

#[test]
fn nothing_is_due_past_the_end() {
    let (mut player, mut cache) = sequence(3);
    tell(&mut player, &mut cache, Message::FrameChange(3), 7);
    assert!(!player.in_sequence());
    assert!(matches!(player.poll(100, 10, &cache), Turn::Wait));
    assert_eq!(player.playhead(), 3);
    tell(&mut player, &mut cache, Message::TotalFrames(4), 100);
    assert!(matches!(player.poll(100, 10, &cache), Turn::Missing));
    let (mut empty, cache) = sequence(0);
    assert!(matches!(empty.poll(u128::MAX, u128::MAX, &cache), Turn::Wait));
}

#[test]
fn clock_has_an_end() {
    let player = Orchestrator::new(u128::MAX - 1);
    assert!(player.can_poll(1));
    assert!(!player.can_poll(2));
}

#[test]
fn collector_tells_the_length_when_it_changes() {
    let mut cache = playback_cache();
    let mut collector = Collector::new();
    let (news, thumb) = collector.collect(&mut cache, frame(9), 2, 10, 0);
    assert!(matches!(news, Some(Message::TotalFrames(10))));
    assert_eq!((thumb.0, thumb.1.r[0]), (2, 9));
    assert!(cache.get(2).is_some());
    let (news, _) = collector.collect(&mut cache, frame(9), 3, 10, 0);
    assert!(news.is_none());
    let (news, _) = collector.collect(&mut cache, frame(9), 0, 4, 0);
    assert!(matches!(news, Some(Message::TotalFrames(4))));
}

#[test]
fn playback_cache_keeps_forty_frames_each_way() {
    let mut cache = playback_cache();
    for f in 0..80 {
        cache.insert(f, frame(0), 60);
    }
    assert!(cache.contains(0));
    cache.insert(100, frame(0), 60);
    assert!(!cache.contains(19));
    assert!(cache.contains(20));
    assert!(cache.contains(100));
}
