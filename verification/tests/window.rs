use rvalt::orchestrator::Message;
use rvalt::window::key_message;
use rvalt::window::surface_format;
use rvalt::window::surface_size;
use rvalt::window::surface_step;
use rvalt::window::window_event;
use rvalt::window::Key;
use rvalt::window::SurfaceStatus;
use rvalt::window::SurfaceStep;
use rvalt::window::WindowAction;
use rvalt::window::WindowInput;

#[test]
fn first_format_that_is_not_srgb_is_chosen() {
    assert_eq!(surface_format(&vec![true, true, false, false]), 2);
    assert_eq!(surface_format(&vec![false, true]), 0);
    assert_eq!(surface_format(&vec![true, true]), 0);
}

#[test]
fn surface_is_never_empty() {
    assert_eq!(surface_size(0, 0), (1, 1));
    assert_eq!(surface_size(800, 0), (800, 1));
    assert_eq!(surface_size(1, 600), (1, 600));
}

#[test]
fn keys_ask_playback() {
    assert!(matches!(key_message(Key::Space), Some(Message::Pause)));
    assert!(matches!(key_message(Key::K), Some(Message::Pause)));
    assert!(matches!(key_message(Key::ArrowLeft), Some(Message::GoBack(1))));
    assert!(matches!(key_message(Key::ArrowRight), Some(Message::GoForward(1))));
    assert!(matches!(key_message(Key::J), Some(Message::Reverse)));
    assert!(matches!(key_message(Key::L), Some(Message::Forward)));
    assert!(key_message(Key::Other).is_none());
}

#[test]
fn keys_count_when_pressed() {
    assert!(matches!(
        window_event(false, WindowInput::Key { key: Key::L, pressed: true }),
        WindowAction::Send(Message::Forward)
    ));
    assert!(matches!(
        window_event(false, WindowInput::Key { key: Key::L, pressed: false }),
        WindowAction::Ignore
    ));
    assert!(matches!(
        window_event(false, WindowInput::Key { key: Key::Other, pressed: true }),
        WindowAction::Ignore
    ));
}

#[test]
fn window_events_lead_to_actions() {
    assert!(matches!(window_event(false, WindowInput::CloseRequested), WindowAction::Exit));
    assert!(matches!(
        window_event(false, WindowInput::Resized(640, 480)),
        WindowAction::Configure(640, 480)
    ));
    assert!(matches!(window_event(false, WindowInput::Resized(0, 480)), WindowAction::Ignore));
    assert!(matches!(window_event(false, WindowInput::Resized(640, 0)), WindowAction::Ignore));
    assert!(matches!(window_event(false, WindowInput::RedrawRequested), WindowAction::Draw));
    assert!(matches!(window_event(false, WindowInput::Other), WindowAction::Ignore));
}

#[test]
fn what_the_interface_takes_only_redraws() {
    assert!(matches!(window_event(true, WindowInput::CloseRequested), WindowAction::Redraw));
    assert!(matches!(
        window_event(true, WindowInput::Key { key: Key::Space, pressed: true }),
        WindowAction::Redraw
    ));
}

#[test]
fn surface_decides_how_drawing_goes_on() {
    assert_eq!(surface_step(SurfaceStatus::Success), SurfaceStep::Draw);
    assert_eq!(surface_step(SurfaceStatus::Lost), SurfaceStep::Reconfigure);
    assert_eq!(surface_step(SurfaceStatus::Outdated), SurfaceStep::Reconfigure);
    assert_eq!(surface_step(SurfaceStatus::Timeout), SurfaceStep::Later);
    assert_eq!(surface_step(SurfaceStatus::Occluded), SurfaceStep::Later);
    assert_eq!(surface_step(SurfaceStatus::Other), SurfaceStep::Quit);
}
