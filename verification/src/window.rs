//! The window: its surface, its events and its keys.
use vstd::prelude::*;

use crate::orchestrator::Message;
use crate::orchestrator::State;

verus! {

/// The format that a surface is drawn in: the first that is not in sRGB or, where all are,
/// the first.
pub fn surface_format(srgb: &Vec<bool>) -> (chosen: usize)
    requires
        srgb@.len() > 0,
    ensures
        chosen < srgb@.len(),
        srgb@[chosen as int] ==> chosen == 0 && forall|i: int|
            0 <= i < srgb@.len() ==> #[trigger] srgb@[i],
        !srgb@[chosen as int] ==> forall|i: int| 0 <= i < chosen ==> #[trigger] srgb@[i],
{
    for i in 0..srgb.len()
        invariant
            forall|k: int| 0 <= k < i ==> #[trigger] srgb@[k],
    {
        if !srgb[i] {
            return i;
        }
    }
    0
}

/// The dimensions that a surface starts with: those of the window, but at least one.
pub fn surface_size(width: u32, height: u32) -> (size: (u32, u32))
    ensures
        size.0 == (if width > 1 {
            width
        } else {
            1
        }),
        size.1 == (if height > 1 {
            height
        } else {
            1
        }),
{
    (if width > 1 { width } else { 1 }, if height > 1 { height } else { 1 })
}

/// A key that playback listens to, or another one.
#[derive(Debug, Clone, Copy, PartialEq, Eq, Structural)]
pub enum Key {
    Space,
    ArrowLeft,
    ArrowRight,
    J,
    K,
    L,
    Other,
}

/// What happens to a window.
pub enum WindowInput {
    CloseRequested,
    Resized(u32, u32),
    RedrawRequested,
    Key { key: Key, pressed: bool },
    Other,
}

/// What is to be done about it.
pub enum WindowAction {
    /// Nothing.
    Ignore,
    /// Have the window drawn again.
    Redraw,
    /// End the program.
    Exit,
    /// Give the surface other dimensions.
    Configure(u32, u32),
    /// Draw the window.
    Draw,
    /// Tell playback.
    Send(Message),
}

/// What a key asks of playback while it is pressed.
pub open spec fn key_asks(key: Key) -> Option<Message> {
    match key {
        Key::Space => Some(Message::Pause),
        Key::ArrowLeft => Some(Message::GoBack(1)),
        Key::ArrowRight => Some(Message::GoForward(1)),
        Key::J => Some(Message::Reverse),
        Key::K => Some(Message::Pause),
        Key::L => Some(Message::Forward),
        Key::Other => None,
    }
}

/// What a key asks of playback while it is pressed.
pub fn key_message(key: Key) -> (message: Option<Message>)
    ensures
        message == key_asks(key),
{
    match key {
        Key::Space => Some(Message::Pause),
        Key::ArrowLeft => Some(Message::GoBack(1)),
        Key::ArrowRight => Some(Message::GoForward(1)),
        Key::J => Some(Message::Reverse),
        Key::K => Some(Message::Pause),
        Key::L => Some(Message::Forward),
        Key::Other => None,
    }
}

/// What is to be done about what happens to the window. What the interface has taken for
/// itself only has the window drawn again.
pub fn window_event(consumed: bool, input: WindowInput) -> (action: WindowAction)
    ensures
        action == (if consumed {
            WindowAction::Redraw
        } else {
            match input {
                WindowInput::CloseRequested => WindowAction::Exit,
                WindowInput::Resized(width, height) => if width > 0 && height > 0 {
                    WindowAction::Configure(width, height)
                } else {
                    WindowAction::Ignore
                },
                WindowInput::RedrawRequested => WindowAction::Draw,
                WindowInput::Key { key, pressed } => match key_asks(key) {
                    Some(message) => if pressed {
                        WindowAction::Send(message)
                    } else {
                        WindowAction::Ignore
                    },
                    None => WindowAction::Ignore,
                },
                WindowInput::Other => WindowAction::Ignore,
            }
        }),
{
    if consumed {
        return WindowAction::Redraw;
    }
    match input {
        WindowInput::CloseRequested => WindowAction::Exit,
        WindowInput::Resized(width, height) => {
            if width > 0 && height > 0 {
                WindowAction::Configure(width, height)
            } else {
                WindowAction::Ignore
            }
        },
        WindowInput::RedrawRequested => WindowAction::Draw,
        WindowInput::Key { key, pressed } => {
            if pressed {
                match key_message(key) {
                    Some(message) => WindowAction::Send(message),
                    None => WindowAction::Ignore,
                }
            } else {
                WindowAction::Ignore
            }
        },
        WindowInput::Other => WindowAction::Ignore,
    }
}

/// What came of asking the surface for a texture to draw on.
#[derive(Debug, Clone, Copy, PartialEq, Eq, Structural)]
pub enum SurfaceStatus {
    Success,
    Lost,
    Outdated,
    Timeout,
    Occluded,
    Other,
}

/// How drawing goes on.
#[derive(Debug, Clone, Copy, PartialEq, Eq, Structural)]
pub enum SurfaceStep {
    /// On the texture.
    Draw,
    /// Later, once the surface has been configured anew.
    Reconfigure,
    /// Later.
    Later,
    /// Not at all.
    Quit,
}

/// How drawing goes on after asking the surface for a texture.
pub fn surface_step(status: SurfaceStatus) -> (step: SurfaceStep)
    ensures
        step == SurfaceStep::Draw <==> status == SurfaceStatus::Success,
        step == SurfaceStep::Reconfigure <==> status == SurfaceStatus::Lost || status
            == SurfaceStatus::Outdated,
        step == SurfaceStep::Later <==> status == SurfaceStatus::Timeout || status
            == SurfaceStatus::Occluded,
        step == SurfaceStep::Quit <==> status == SurfaceStatus::Other,
{
    match status {
        SurfaceStatus::Success => SurfaceStep::Draw,
        SurfaceStatus::Lost => SurfaceStep::Reconfigure,
        SurfaceStatus::Outdated => SurfaceStep::Reconfigure,
        SurfaceStatus::Timeout => SurfaceStep::Later,
        SurfaceStatus::Occluded => SurfaceStep::Later,
        SurfaceStatus::Other => SurfaceStep::Quit,
    }
}

/// What the keys do to playback: Space and K start and stop it, the arrows step by a frame, J and L
/// choose its direction, and no other key does anything.
pub proof fn lemma_keys_work(state: State)
    ensures
        key_asks(Key::Other) is None,
        forall|key: Key| key != Key::Other ==> (#[trigger] key_asks(key)) is Some,
        state.told(key_asks(Key::Space)->0).paused == !state.paused,
        state.told(key_asks(Key::K)->0).paused == !state.paused,
        state.told(key_asks(Key::J)->0).reverse,
        !state.told(key_asks(Key::J)->0).paused,
        !state.told(key_asks(Key::L)->0).reverse,
        !state.told(key_asks(Key::L)->0).paused,
        state.current_frame < u64::MAX ==> state.told(key_asks(Key::ArrowRight)->0).current_frame
            == state.current_frame + 1,
        state.current_frame > 0 ==> state.told(key_asks(Key::ArrowLeft)->0).current_frame + 1
            == state.current_frame,
{
}

/// Each key asks for one thing.
pub proof fn lemma_keys_ask()
    ensures
        key_asks(Key::Space) == Some(Message::Pause),
        key_asks(Key::K) == Some(Message::Pause),
        key_asks(Key::ArrowLeft) == Some(Message::GoBack(1)),
        key_asks(Key::ArrowRight) == Some(Message::GoForward(1)),
        key_asks(Key::J) == Some(Message::Reverse),
        key_asks(Key::L) == Some(Message::Forward),
{
}

}
