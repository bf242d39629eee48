use std::path::PathBuf;

use rvalt::number::Double;
use rvalt::ocio::ColorState;
use rvalt::ocio::ConfigRead;
use rvalt::orchestrator::Message;
use rvalt::orchestrator::State;
use rvalt::renderer::ChannelMode;
use rvalt::thumbnail::TextureId;
use rvalt::thumbnail::ThumbHandle;
use rvalt::ui::frame_to_timecode;
use rvalt::ui::ui;
use rvalt::ui::Center;
use rvalt::ui::Control;
use rvalt::ui::UiConfig;
use rvalt::ui::UiEvent;
use rvalt::ui::UiState;

fn of_length(frames: u64) -> UiState {
    let mut state = UiState::new();
    state.playback_state = State { total_frames: frames, ..State::new() };
    state
}

fn happens(event: UiEvent, state: &mut UiState) -> Option<Message> {
    let mut config = UiConfig::default();
    let message = ui(event, &mut ColorState::default(), &mut config, state);
    assert!(!config.lut_bake);
    message
}

#[test]
fn nothing_is_asked_of_the_renderer_at_first() {
    let config = UiConfig::default();
    assert!(!config.lut_bake);
    assert!(config.channel_mode.is_none());
}

#[test]
fn buttons_ask_playback() {
    let state = &mut of_length(10);
    assert!(matches!(happens(UiEvent::Button(Control::Reverse), state), Some(Message::Reverse)));
    assert!(matches!(happens(UiEvent::Button(Control::PlayPause), state), Some(Message::Pause)));
    assert!(matches!(happens(UiEvent::Button(Control::Forward), state), Some(Message::Forward)));
    assert!(matches!(happens(UiEvent::Button(Control::First), state), Some(Message::FirstFrame)));
    assert!(matches!(
        happens(UiEvent::Button(Control::Previous), state),
        Some(Message::GoBack(1))
    ));
    assert!(matches!(happens(UiEvent::Button(Control::Next), state), Some(Message::GoForward(1))));
    assert!(matches!(happens(UiEvent::Button(Control::Last), state), Some(Message::LastFrame)));
}

#[test]
fn choices_are_told_to_playback() {
    let state = &mut of_length(10);
    let d = |x: f64| Double { bits: x.to_bits() };
    match happens(UiEvent::Dir(PathBuf::from("/seq")), state) {
        Some(Message::DirChosen(path)) => assert_eq!(path, PathBuf::from("/seq")),
        _ => panic!("the directory was not told"),
    }
    match happens(UiEvent::Multiplier(d(2.5)), state) {
        Some(Message::Multiplier(factor)) => assert_eq!(factor, d(2.5)),
        _ => panic!("the factor was not told"),
    }
    match happens(UiEvent::FrameRate(d(25.0)), state) {
        Some(Message::FrameRate(rate)) => assert_eq!(rate, d(25.0)),
        _ => panic!("the rate was not told"),
    }
}

#[test]
fn reports_are_taken_as_they_come() {
    let mut state = UiState::new();
    assert!(!state.offers_play());
    let report = State { paused: true, total_frames: 8, ..State::new() };
    assert!(happens(UiEvent::Report(report), &mut state).is_none());
    assert!(state.offers_play());
    assert_eq!(state.playback_state.total_frames, 8);
}

#[test]
fn click_asks_for_a_frame_of_the_sequence() {
    let asks = |frames: u64, clicked: u64| {
        match happens(UiEvent::Timeline(clicked), &mut of_length(frames)) {
            Some(Message::FrameChange(frame)) => frame,
            _ => panic!("the click was not told"),
        }
    };
    assert_eq!(asks(10, 0), 0);
    assert_eq!(asks(10, 9), 9);
    assert_eq!(asks(10, 10), 9);
    assert_eq!(asks(10, u64::MAX), 9);
    assert_eq!(asks(0, 5), 0);
}

#[test]
fn other_channel_mode_is_asked_of_the_renderer() {
    let mut state = UiState::new();
    let mut config = UiConfig::default();
    let mut colors = ColorState::default();
    ui(UiEvent::Mode(ChannelMode::Rgba), &mut colors, &mut config, &mut state);
    assert_eq!(config.channel_mode, None);
    ui(UiEvent::Mode(ChannelMode::Luminance), &mut colors, &mut config, &mut state);
    assert_eq!(config.channel_mode, Some(5));
    assert_eq!(state.channel_mode, ChannelMode::Luminance);
}

#[test]
fn display_and_view_change_only_where_they_differ() {
    let mut state = UiState::new();
    let mut config = UiConfig::default();
    let mut colors = ColorState::load_config(ConfigRead::Read {
        path: "/a.ocio".to_string(),
        config: ocio_rs::Config::raw().expect("the raw config is built in"),
    });
    ui(UiEvent::View("chosen".to_string()), &mut colors, &mut config, &mut state);
    assert_eq!(colors.selected_view, "chosen");
    let same = colors.selected_display.clone();
    ui(UiEvent::Display(same), &mut colors, &mut config, &mut state);
    assert_eq!(colors.selected_view, "chosen");
    ui(UiEvent::Display("no such display".to_string()), &mut colors, &mut config, &mut state);
    assert_eq!(colors.selected_display, "no such display");
    assert_ne!(colors.selected_view, "chosen");
}

#[test]
fn applying_asks_for_a_table() {
    let mut config = UiConfig { lut_bake: false, channel_mode: Some(2) };
    let message =
        ui(UiEvent::Apply, &mut ColorState::default(), &mut config, &mut UiState::new());
    assert!(message.is_none());
    assert!(config.lut_bake);
    assert_eq!(config.channel_mode, Some(2));
}

#[test]
fn middle_of_the_window_invites_waits_or_shows() {
    let mut state = UiState::new();
    assert_eq!(state.center(false), Center::Choose);
    assert_eq!(state.center(true), Center::Choose);
    state.playback_state.open_dir = Some(PathBuf::from("/seq"));
    assert_eq!(state.center(false), Center::Loading);
    assert_eq!(state.center(true), Center::Frame);
}

#[test]
fn strip_shows_the_frames_in_sight() {
    let mut state = of_length(10);
    state.thumb_cache.insert(4, ThumbHandle { texture: TextureId::User(44) });
    let frames = |first: u64, count: u64| -> Vec<u64> {
        state.timeline_strip(first, count).iter().map(|c| c.frame).collect()
    };
    assert_eq!(frames(0, 3), vec![0, 1, 2, 3]);
    assert_eq!(frames(7, 5), vec![7, 8, 9]);
    assert!(frames(10, 5).is_empty());
    assert!(frames(20, 5).is_empty());
    let cells = state.timeline_strip(3, 1);
    assert_eq!(cells.len(), 2);
    assert_eq!(cells[0].texture, None);
    assert_eq!(cells[1].texture, Some(TextureId::User(44)));
}

#[test]
fn timecode_pads_hours_and_minutes() {
    assert_eq!(frame_to_timecode(0, 0, "0.000"), "00:00:0.000");
    assert_eq!(frame_to_timecode(1, 5, "02.500"), "01:05:02.500");
    assert_eq!(frame_to_timecode(12, 59, "59.999"), "12:59:59.999");
    assert_eq!(frame_to_timecode(1234, 10, ""), "1234:10:");
    assert_eq!(frame_to_timecode(u64::MAX, 7, "x"), format!("{}:07:x", u64::MAX));
}
