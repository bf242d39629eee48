//! What the user sees and asks for.
use std::path::PathBuf;

use vstd::prelude::*;

use crate::number::Double;
use crate::ocio::ColorState;
use crate::orchestrator::Message;
use crate::orchestrator::State;
use crate::renderer::ChannelMode;
use crate::thumbnail::TextureId;
use crate::thumbnail::ThumbCache;

verus! {

/// What the user has asked of the renderer while the interface was drawn.
#[derive(Debug, Clone, Copy)]
pub struct UiConfig {
    pub lut_bake: bool,
    pub channel_mode: Option<u32>,
}

impl Default for UiConfig {
    fn default() -> (config: Self)
        ensures
            !config.lut_bake,
            config.channel_mode is None,
    {
        UiConfig { lut_bake: false, channel_mode: None }
    }
}

/// A button of the playback panel.
#[derive(Debug, Clone, Copy, PartialEq, Eq, Structural)]
pub enum Control {
    Reverse,
    PlayPause,
    Forward,
    First,
    Previous,
    Next,
    Last,
}

impl Control {
    /// What a click on a button asks of playback.
    pub open spec fn asks(self) -> Message {
        match self {
            Control::Reverse => Message::Reverse,
            Control::PlayPause => Message::Pause,
            Control::Forward => Message::Forward,
            Control::First => Message::FirstFrame,
            Control::Previous => Message::GoBack(1),
            Control::Next => Message::GoForward(1),
            Control::Last => Message::LastFrame,
        }
    }

    /// What a click on the button asks of playback.
    pub fn message(self) -> (message: Message)
        ensures
            message == self.asks(),
    {
        match self {
            Control::Reverse => Message::Reverse,
            Control::PlayPause => Message::Pause,
            Control::Forward => Message::Forward,
            Control::First => Message::FirstFrame,
            Control::Previous => Message::GoBack(1),
            Control::Next => Message::GoForward(1),
            Control::Last => Message::LastFrame,
        }
    }
}

/// What the middle of the window shows.
#[derive(Debug, Clone, Copy, PartialEq, Eq, Structural)]
pub enum Center {
    /// An invitation to choose a directory.
    Choose,
    /// A notice that the sequence is being loaded.
    Loading,
    /// The current frame.
    Frame,
}

/// A frame of the timeline, with the texture of its thumbnail if there is one.
#[derive(Debug, Clone, Copy)]
pub struct Cell {
    pub frame: u64,
    pub texture: Option<TextureId>,
}

/// The interface's own state.
pub struct UiState {
    pub playback_state: State,
    pub channel_mode: ChannelMode,
    pub thumb_cache: ThumbCache,
}

impl UiState {
    /// The end of the frames of the timeline that are in sight.
    pub open spec fn sight_end(&self, first: u64, count: u64) -> int {
        if first + (count + 1) < self.playback_state.total_frames {
            first + (count + 1)
        } else {
            self.playback_state.total_frames as int
        }
    }

    /// The frame that a click on the timeline asks for: the one clicked, or the last one.
    pub open spec fn clicked_frame(&self, frame: u64) -> u64 {
        let last = if self.playback_state.total_frames > 0 {
            (self.playback_state.total_frames - 1) as u64
        } else {
            0
        };
        if frame < last {
            frame
        } else {
            last
        }
    }

    /// The interface before the first report.
    pub fn new() -> (ui: Self)
        ensures
            ui.playback_state == State::start(),
            ui.channel_mode == ChannelMode::Rgba,
            ui.thumb_cache.thumbs() == Map::<u64, crate::thumbnail::ThumbHandle>::empty(),
            ui.thumb_cache.pending() == Set::<u64>::empty(),
    {
        UiState {
            playback_state: State::new(),
            channel_mode: ChannelMode::default(),
            thumb_cache: ThumbCache::default(),
        }
    }

    /// Whether the button that starts and stops playback offers to start it.
    pub fn offers_play(&self) -> (play: bool)
        ensures
            play == self.playback_state.paused,
    {
        self.playback_state.paused
    }

    /// What the middle of the window shows, given whether there is an image.
    pub fn center(&self, has_image: bool) -> (center: Center)
        ensures
            center == (if self.playback_state.open_dir is None {
                Center::Choose
            } else if has_image {
                Center::Frame
            } else {
                Center::Loading
            }),
    {
        if self.playback_state.open_dir.is_none() {
            Center::Choose
        } else if has_image {
            Center::Frame
        } else {
            Center::Loading
        }
    }

    /// The frames of the timeline that are in sight: from the first one in sight, `count`
    /// frames and one that is cut off, up to the end of the sequence.
    pub fn timeline_strip(&self, first: u64, count: u64) -> (cells: Vec<Cell>)
        requires
            first + (count + 1) <= u64::MAX,
        ensures
            cells@.len() == (if first < self.sight_end(first, count) {
                self.sight_end(first, count) - first
            } else {
                0
            }),
            first >= self.playback_state.total_frames ==> cells@.len() == 0,
            first < self.playback_state.total_frames ==> cells@.len() == (if count + 1
                < self.playback_state.total_frames - first {
                count + 1
            } else {
                self.playback_state.total_frames - first
            }),
            forall|i: int|
                0 <= i < cells@.len() ==> {
                    let frame = (#[trigger] cells@[i]).frame;
                    &&& frame == first + i
                    &&& cells@[i].texture == (match self.thumb_cache.lookup(frame) {
                        Some(handle) => Some(handle.texture),
                        None => None,
                    })
                },
    {
        let total: u64 = self.playback_state.total_frames;
        let sight: u64 = first + (count + 1);
        let end: u64 = if sight < total { sight } else { total };
        let mut cells: Vec<Cell> = Vec::new();
        let mut frame: u64 = first;
        while frame < end
            invariant
                first <= frame,
                first < end ==> frame <= end,
                first >= end ==> frame == first,
                end == self.sight_end(first, count),
                cells@.len() == frame - first,
                forall|i: int|
                    0 <= i < cells@.len() ==> {
                        let f = (#[trigger] cells@[i]).frame;
                        &&& f == first + i
                        &&& cells@[i].texture == (match self.thumb_cache.lookup(f) {
                            Some(handle) => Some(handle.texture),
                            None => None,
                        })
                    },
            decreases end - frame,
        {
            let texture: Option<TextureId> = match self.thumb_cache.get(frame) {
                Some(handle) => Some(handle.texture),
                None => None,
            };
            cells.push(Cell { frame, texture });
            frame = frame + 1;
        }
        cells
    }

    /// What a click on the timeline asks of playback.
    pub fn clicked(&self, frame: u64) -> (message: Message)
        ensures
            message == Message::FrameChange(self.clicked_frame(frame)),
            message matches Message::FrameChange(asked) && asked <= frame && (asked == frame
                || asked + 1 == self.playback_state.total_frames || asked == 0
                && self.playback_state.total_frames == 0) && (frame
                >= self.playback_state.total_frames > 0 ==> asked + 1
                == self.playback_state.total_frames),
    {
        let last: u64 = self.playback_state.total_frames.saturating_sub(1);
        Message::FrameChange(if frame < last { frame } else { last })
    }
}

/// What happens while the interface is drawn.
pub enum UiEvent {
    /// Playback has reported.
    Report(State),
    /// A directory was picked.
    Dir(PathBuf),
    /// A frame of the timeline was clicked.
    Timeline(u64),
    /// A button was clicked.
    Button(Control),
    /// The slider was moved to another factor.
    Multiplier(Double),
    /// Another frame rate was picked.
    FrameRate(Double),
    /// The list of displays shows this one.
    Display(String),
    /// The list of views shows this one.
    View(String),
    /// The chosen display and view are to be applied.
    Apply,
    /// The list of channel modes shows this one.
    Mode(ChannelMode),
}

/// What is to be told to playback when something happens.
pub open spec fn told(ui_state: UiState, event: UiEvent) -> Option<Message> {
    match event {
        UiEvent::Dir(path) => Some(Message::DirChosen(path)),
        UiEvent::Timeline(frame) => Some(Message::FrameChange(ui_state.clicked_frame(frame))),
        UiEvent::Button(control) => Some(control.asks()),
        UiEvent::Multiplier(factor) => Some(Message::Multiplier(factor)),
        UiEvent::FrameRate(rate) => Some(Message::FrameRate(rate)),
        _ => None,
    }
}

/// Handles what happens while the interface is drawn, and says what is to be told to playback.
/// A list that shows what is already chosen changes nothing.
pub fn ui(
    event: UiEvent,
    color_state: &mut ColorState,
    config: &mut UiConfig,
    ui_state: &mut UiState,
) -> (message: Option<Message>)
    ensures
        message == told(*old(ui_state), event),
        match event {
            UiEvent::Display(display) => if display@ == old(color_state).selected_display@ {
                *final(color_state) == *old(color_state)
            } else {
                old(color_state).switched(display, *final(color_state))
            },
            UiEvent::View(view) => if view@ == old(color_state).selected_view@ {
                *final(color_state) == *old(color_state)
            } else {
                *final(color_state) == (ColorState { selected_view: view, ..*old(color_state) })
            },
            _ => *final(color_state) == *old(color_state),
        },
        *final(config) == (match event {
            UiEvent::Apply => UiConfig { lut_bake: true, ..*old(config) },
            UiEvent::Mode(mode) => if mode != old(ui_state).channel_mode {
                UiConfig { channel_mode: Some(mode.number()), ..*old(config) }
            } else {
                *old(config)
            },
            _ => *old(config),
        }),
        *final(ui_state) == (match event {
            UiEvent::Report(playback) => UiState { playback_state: playback, ..*old(ui_state) },
            UiEvent::Mode(mode) => UiState { channel_mode: mode, ..*old(ui_state) },
            _ => *old(ui_state),
        }),
{
    match event {
        UiEvent::Report(playback) => {
            ui_state.playback_state = playback;
            None
        },
        UiEvent::Dir(path) => Some(Message::DirChosen(path)),
        UiEvent::Timeline(frame) => Some(ui_state.clicked(frame)),
        UiEvent::Button(control) => Some(control.message()),
        UiEvent::Multiplier(factor) => Some(Message::Multiplier(factor)),
        UiEvent::FrameRate(rate) => Some(Message::FrameRate(rate)),
        UiEvent::Display(display) => {
            if !(display == color_state.selected_display) {
                color_state.change_display(display);
            }
            None
        },
        UiEvent::View(view) => {
            if !(view == color_state.selected_view) {
                color_state.change_view(view);
            }
            None
        },
        UiEvent::Apply => {
            config.lut_bake = true;
            None
        },
        UiEvent::Mode(mode) => {
            if mode != ui_state.channel_mode {
                ui_state.channel_mode = mode;
                config.channel_mode = Some(mode.code());
            }
            None
        },
    }
}

/// A click on the timeline of a sequence leads to one of its frames: to the frame that was
/// clicked if it is one. Playback stops there.
pub proof fn lemma_click_in_sequence(ui_state: UiState, frame: u64)
    requires
        ui_state.playback_state.total_frames > 0,
    ensures
        told(ui_state, UiEvent::Timeline(frame)) is Some,
        ({
            let playback = ui_state.playback_state;
            let message = told(ui_state, UiEvent::Timeline(frame))->0;
            &&& playback.accepts(message)
            &&& playback.told(message).current_frame < playback.total_frames
            &&& frame < playback.total_frames ==> playback.told(message).current_frame == frame
            &&& playback.told(message).paused
        }),
{
}

/// A decimal digit.
pub open spec fn digit(d: int) -> char {
    "0123456789"@[d]
}

/// A number in decimal, without leading zeros.
pub open spec fn decimal(n: nat) -> Seq<char>
    decreases n,
{
    if n < 10 {
        seq![digit(n as int)]
    } else {
        decimal(n / 10).push(digit((n % 10) as int))
    }
}

/// A number in decimal, of two digits at least.
pub open spec fn two_digits(n: nat) -> Seq<char> {
    if n < 10 {
        seq!['0', digit(n as int)]
    } else {
        decimal(n)
    }
}

/// The text of a digit.
fn digit_text(d: u64) -> (text: &'static str)
    requires
        d < 10,
    ensures
        text@ == seq![digit(d as int)],
{
    proof {
        reveal_strlit("0123456789");
        reveal_strlit("0");
        reveal_strlit("1");
        reveal_strlit("2");
        reveal_strlit("3");
        reveal_strlit("4");
        reveal_strlit("5");
        reveal_strlit("6");
        reveal_strlit("7");
        reveal_strlit("8");
        reveal_strlit("9");
    }
    let text: &'static str = match d {
        0 => "0",
        1 => "1",
        2 => "2",
        3 => "3",
        4 => "4",
        5 => "5",
        6 => "6",
        7 => "7",
        8 => "8",
        _ => "9",
    };
    assert(text@ =~= seq![digit(d as int)]);
    text
}

/// A number in decimal, without leading zeros.
fn decimal_text(n: u64) -> (text: String)
    ensures
        text@ == decimal(n as nat),
    decreases n,
{
    if n < 10 {
        digit_text(n).to_owned()
    } else {
        let text = decimal_text(n / 10).concat(digit_text(n % 10));
        assert(text@ =~= decimal((n / 10) as nat).push(digit((n % 10) as int)));
        text
    }
}

/// A number in decimal, of two digits at least.
fn two_digit_text(n: u64) -> (text: String)
    ensures
        text@ == two_digits(n as nat),
{
    if n < 10 {
        proof {
            reveal_strlit("0");
        }
        let text = "0".to_owned().concat(digit_text(n));
        assert(text@ =~= two_digits(n as nat));
        text
    } else {
        decimal_text(n)
    }
}

/// A time as hours, minutes and seconds, the seconds already in words.
pub fn frame_to_timecode(hours: u64, minutes: u64, seconds: &str) -> (text: String)
    ensures
        text@ == two_digits(hours as nat) + seq![':'] + two_digits(minutes as nat) + seq![':']
            + seconds@,
{
    proof {
        reveal_strlit(":");
        assert(":"@ =~= seq![':']);
    }
    let minutes_text = two_digit_text(minutes);
    two_digit_text(hours).concat(":").concat(minutes_text.as_str()).concat(":").concat(seconds)
}

/// What the buttons do to playback: one starts and stops it, two choose its direction, two step by
/// a frame, and two lead to the ends of the sequence.
pub proof fn lemma_buttons_work(state: State)
    ensures
        state.told(Control::PlayPause.asks()).paused == !state.paused,
        state.told(Control::Reverse.asks()).reverse,
        !state.told(Control::Reverse.asks()).paused,
        !state.told(Control::Forward.asks()).reverse,
        !state.told(Control::Forward.asks()).paused,
        state.current_frame < u64::MAX ==> state.told(Control::Next.asks()).current_frame
            == state.current_frame + 1,
        state.current_frame > 0 ==> state.told(Control::Previous.asks()).current_frame + 1
            == state.current_frame,
        state.told(Control::First.asks()).current_frame == 0,
        state.total_frames > 0 ==> state.told(Control::Last.asks()).current_frame + 1
            == state.total_frames,
{
}

/// Each button asks for what it shows.
pub proof fn lemma_buttons_ask()
    ensures
        Control::Reverse.asks() == Message::Reverse,
        Control::PlayPause.asks() == Message::Pause,
        Control::Forward.asks() == Message::Forward,
        Control::First.asks() == Message::FirstFrame,
        Control::Previous.asks() == Message::GoBack(1),
        Control::Next.asks() == Message::GoForward(1),
        Control::Last.asks() == Message::LastFrame,
{
}

/// Playback is told what the user picked, as it was picked, and is told nothing of what only
/// concerns the interface or the renderer.
pub proof fn lemma_told_what_was_picked(ui_state: UiState, event: UiEvent)
    ensures
        event matches UiEvent::Dir(path) ==> told(ui_state, event) == Some(
            Message::DirChosen(path),
        ),
        event matches UiEvent::Button(control) ==> told(ui_state, event) == Some(control.asks()),
        event matches UiEvent::Multiplier(factor) ==> told(ui_state, event) == Some(
            Message::Multiplier(factor),
        ),
        event matches UiEvent::FrameRate(rate) ==> told(ui_state, event) == Some(
            Message::FrameRate(rate),
        ),
        event matches UiEvent::Timeline(frame) ==> told(ui_state, event) is Some && told(
            ui_state,
            event,
        )->0 is FrameChange,
        event is Report || event is Display || event is View || event is Apply || event is Mode
            ==> told(ui_state, event) is None,
{
}

/// A click asks for the frame that was clicked, for the last frame where it lies past it, and for
/// the first one where there is no sequence.
pub proof fn lemma_clicked_frame(ui_state: UiState, frame: u64)
    ensures
        frame < ui_state.playback_state.total_frames ==> ui_state.clicked_frame(frame) == frame,
        frame >= ui_state.playback_state.total_frames > 0 ==> ui_state.clicked_frame(frame) + 1
            == ui_state.playback_state.total_frames,
        ui_state.playback_state.total_frames == 0 ==> ui_state.clicked_frame(frame) == 0,
{
}

/// The number that a text of decimal digits stands for.
pub open spec fn read_number(text: Seq<char>) -> int
    decreases text.len(),
{
    if text.len() == 0 {
        0
    } else {
        10 * read_number(text.drop_last()) + (text.last() as int - '0' as int)
    }
}

/// The digits are those from 0 to 9.
proof fn lemma_digit(d: int)
    requires
        0 <= d < 10,
    ensures
        digit(d) as int == '0' as int + d,
{
    reveal_strlit("0123456789");
    if d == 0 {
    } else if d == 1 {
    } else if d == 2 {
    } else if d == 3 {
    } else if d == 4 {
    } else if d == 5 {
    } else if d == 6 {
    } else if d == 7 {
    } else if d == 8 {
    } else {
    }
}

/// A number in decimal reads back as itself, holds digits only, and has no leading zero but where
/// it is zero.
pub proof fn lemma_decimal_reads_back(n: nat)
    ensures
        decimal(n).len() >= 1,
        read_number(decimal(n)) == n,
        forall|i: int| 0 <= i < decimal(n).len() ==> '0' <= #[trigger] decimal(n)[i] <= '9',
        n > 0 ==> decimal(n)[0] != '0',
        n == 0 ==> decimal(n) == seq!['0'],
    decreases n,
{
    reveal_with_fuel(read_number, 2);
    if n < 10 {
        lemma_digit(n as int);
        let text = decimal(n);
        assert(text.drop_last() =~= Seq::<char>::empty());
        assert(text.last() == digit(n as int));
        assert(text[0] == digit(n as int));
        if n == 0 {
            assert(digit(0) == '0');
        }
    } else {
        lemma_digit((n % 10) as int);
        lemma_decimal_reads_back(n / 10);
        let text = decimal(n);
        assert(text.drop_last() =~= decimal(n / 10));
        assert(text.last() == digit((n % 10) as int));
        assert(text[0] == decimal(n / 10)[0]);
        assert forall|i: int| 0 <= i < text.len() implies '0' <= #[trigger] text[i] <= '9' by {
            if i < text.len() - 1 {
                assert(text[i] == decimal(n / 10)[i]);
            }
        }
    }
}

/// Hours and minutes are written with two digits at least and read back as themselves; a zero
/// stands before one digit, and before more than one none does.
pub proof fn lemma_two_digits_read_back(n: nat)
    ensures
        two_digits(n).len() >= 2,
        read_number(two_digits(n)) == n,
        n < 10 ==> two_digits(n).len() == 2 && two_digits(n)[0] == '0',
        n >= 10 ==> two_digits(n)[0] != '0',
        forall|i: int| 0 <= i < two_digits(n).len() ==> '0' <= #[trigger] two_digits(n)[i] <= '9',
{
    reveal_with_fuel(read_number, 3);
    if n < 10 {
        lemma_digit(n as int);
        let text = two_digits(n);
        assert(text.drop_last() =~= seq!['0']);
        assert(seq!['0'].drop_last() =~= Seq::<char>::empty());
        assert(text.last() == digit(n as int));
        assert(text[0] == '0' && text[1] == digit(n as int));
    } else {
        lemma_decimal_reads_back(n);
        lemma_decimal_reads_back(n / 10);
        assert(decimal(n).len() == decimal(n / 10).len() + 1);
    }
}

}
