//! Playback: which frame is shown, and when the next one follows.
use std::path::PathBuf;
use std::sync::Arc;

use vstd::prelude::*;

use crate::cache::RollingCache;
use crate::exr::ExrImage;
use crate::number::Double;
use crate::number::DOUBLE_ONE;

verus! {

/// `std::path::PathBuf`, carried through as it is.
#[verifier::external_type_specification]
#[verifier::external_body]
pub struct ExPathBuf(std::path::PathBuf);

/// A playback speed: a factor, doubled a number of times.
#[derive(Debug, Clone, Copy, PartialEq, Eq, Structural)]
pub struct Speed {
    pub factor: Double,
    pub doublings: u32,
}

impl Speed {
    /// The speed of a factor.
    pub open spec fn of(factor: Double) -> Speed {
        Speed { factor, doublings: 0 }
    }

    /// The speed at which frames follow at their own rate.
    pub open spec fn one() -> Speed {
        Speed::of(Double { bits: DOUBLE_ONE })
    }

    /// Twice a speed. The count stays at its largest value; by then the product of a
    /// double-precision factor has long been zero, infinite or no number.
    pub open spec fn twice(self) -> Speed {
        Speed {
            factor: self.factor,
            doublings: if self.doublings < u32::MAX {
                (self.doublings + 1) as u32
            } else {
                u32::MAX
            },
        }
    }

    fn unit() -> (speed: Speed)
        ensures
            speed == Speed::one(),
    {
        Speed { factor: Double { bits: DOUBLE_ONE }, doublings: 0 }
    }

    fn doubled(self) -> (speed: Speed)
        ensures
            speed == self.twice(),
    {
        Speed { factor: self.factor, doublings: self.doublings.saturating_add(1) }
    }
}

/// What playback is told.
#[derive(Debug)]
pub enum Message {
    DirChosen(PathBuf),
    FrameChange(u64),
    TotalFrames(u64),
    GoBack(u64),
    GoForward(u64),
    FrameRate(Double),
    Multiplier(Double),
    FirstFrame,
    LastFrame,
    Pause,
    Reverse,
    Forward,
}

/// What playback reports.
#[derive(Debug, Clone)]
pub struct State {
    pub paused: bool,
    pub current_frame: u64,
    pub total_frames: u64,
    pub frame_rate: Double,
    pub open_dir: Option<PathBuf>,
    pub reverse: bool,
    pub multiplier: Speed,
}

/// The bits of 23.976 frames per second.
pub const FILM_RATE: u64 = 0x4037_f9db_22d0_e560;

impl State {
    /// Playback before the first message.
    pub open spec fn start() -> State {
        State {
            paused: false,
            current_frame: 0,
            total_frames: 0,
            frame_rate: Double { bits: FILM_RATE },
            open_dir: None,
            reverse: false,
            multiplier: Speed::one(),
        }
    }

    /// Playback before the first message.
    pub fn new() -> (state: Self)
        ensures
            state == State::start(),
    {
        State {
            paused: false,
            current_frame: 0,
            total_frames: 0,
            frame_rate: Double { bits: FILM_RATE },
            open_dir: None,
            reverse: false,
            multiplier: Speed::unit(),
        }
    }

    /// The frame that a message seeks, if it seeks one.
    pub open spec fn sought(self, msg: Message) -> Option<int> {
        match msg {
            Message::FrameChange(frame) => Some(frame as int),
            Message::GoBack(count) => Some(self.current_frame - count),
            Message::GoForward(count) => Some(self.current_frame + count),
            Message::FirstFrame => Some(0),
            Message::LastFrame => Some(self.total_frames - 1),
            _ => None,
        }
    }

    /// A message does not lead outside the range of frame numbers.
    pub open spec fn accepts(self, msg: Message) -> bool {
        match self.sought(msg) {
            Some(frame) => 0 <= frame <= u64::MAX,
            None => true,
        }
    }

    /// Playback stands still on a frame.
    pub open spec fn seek(self, frame: int) -> State {
        State { paused: true, current_frame: frame as u64, ..self }
    }

    /// Playback runs in a direction: at twice the speed if it ran that way already, else
    /// at the frames' own rate.
    pub open spec fn run(self, reverse: bool) -> State {
        State {
            paused: false,
            reverse,
            multiplier: if self.reverse == reverse {
                self.multiplier.twice()
            } else {
                Speed::one()
            },
            ..self
        }
    }

    /// Playback after a message.
    pub open spec fn told(self, msg: Message) -> State {
        match self.sought(msg) {
            Some(frame) => self.seek(frame),
            None => match msg {
                Message::TotalFrames(frames) => State { total_frames: frames, ..self },
                Message::Pause => State { multiplier: Speed::one(), paused: !self.paused, ..self },
                Message::Reverse => self.run(true),
                Message::Forward => self.run(false),
                Message::FrameRate(rate) => State { frame_rate: rate, ..self },
                Message::Multiplier(factor) => State { multiplier: Speed::of(factor), ..self },
                _ => self,
            },
        }
    }

    /// Playback after a frame has been shown in its turn.
    pub open spec fn advanced(self) -> State {
        if self.reverse {
            if self.current_frame > 0 {
                State { current_frame: (self.current_frame - 1) as u64, ..self }
            } else {
                self
            }
        } else {
            State { current_frame: (self.current_frame + 1) as u64, ..self }
        }
    }

    /// Playback after a number of turns, each frame having been in memory when it was due. Past
    /// the end of the sequence nothing is due any more.
    pub open spec fn after_turns(self, turns: nat) -> State
        decreases turns,
    {
        if turns == 0 {
            self
        } else {
            let before = self.after_turns((turns - 1) as nat);
            if before.current_frame < before.total_frames {
                before.advanced()
            } else {
                before
            }
        }
    }
}

impl Default for State {
    fn default() -> (state: Self)
        ensures
            state == (State {
                paused: false,
                current_frame: 0,
                total_frames: 0,
                frame_rate: Double { bits: 0 },
                open_dir: None,
                reverse: false,
                multiplier: Speed::of(Double { bits: 0 }),
            }),
    {
        State {
            paused: false,
            current_frame: 0,
            total_frames: 0,
            frame_rate: Double { bits: 0 },
            open_dir: None,
            reverse: false,
            multiplier: Speed { factor: Double { bits: 0 }, doublings: 0 },
        }
    }
}

/// What is to be done about a message.
pub enum Reply {
    /// Load the sequence in a directory.
    Load(PathBuf),
    /// Report the state of playback.
    Report,
}

/// What is to be done when the clock ticks.
pub enum Turn {
    /// Nothing is due.
    Wait,
    /// A frame is due and not in memory.
    Missing,
    /// Show a frame and report the state of playback.
    Show(Arc<ExrImage>),
}

/// Playback and its clock. Times are nanoseconds since a moment of the caller's choice.
pub struct Orchestrator {
    state: State,
    playhead: u64,
    reverse: bool,
    last_advance: u128,
    force_display: bool,
}

impl Orchestrator {
    /// What playback reports.
    pub closed spec fn info(&self) -> State {
        self.state
    }

    /// The frame around which frames are kept in memory.
    pub closed spec fn head(&self) -> u64 {
        self.playhead
    }

    /// Whether frames are loaded backwards from the playhead.
    pub closed spec fn backwards(&self) -> bool {
        self.reverse
    }

    /// When the frame on show was due.
    pub closed spec fn since(&self) -> u128 {
        self.last_advance
    }

    /// The frame at the playhead is to be shown whatever the clock says.
    pub closed spec fn forced(&self) -> bool {
        self.force_display
    }

    /// What the loaders see is what is reported: the playhead is the current frame, and
    /// frames are loaded in the direction of playback.
    pub open spec fn in_step(&self) -> bool {
        self.head() == self.info().current_frame && self.backwards() == self.info().reverse
    }

    /// Time since the frame on show was due; none while that lies ahead.
    pub open spec fn elapsed(&self, now: u128) -> int {
        if now > self.since() {
            now - self.since()
        } else {
            0
        }
    }

    /// A frame is due: an interval has passed and playback runs, or the frame at the
    /// playhead is to be shown whatever the clock says.
    pub open spec fn due(&self, now: u128, interval: u128) -> bool {
        self.forced() || (self.elapsed(now) >= interval && !self.info().paused)
    }

    /// A frame of the sequence is due.
    pub open spec fn turns(&self, now: u128, interval: u128) -> bool {
        self.info().current_frame < self.info().total_frames && self.due(now, interval)
    }

    /// Playback before the first message.
    pub fn new(now: u128) -> (orchestrator: Self)
        ensures
            orchestrator.in_step(),
            orchestrator.info() == State::start(),
            orchestrator.since() == now,
            !orchestrator.forced(),
    {
        Orchestrator {
            state: State::new(),
            playhead: 0,
            reverse: false,
            last_advance: now,
            force_display: false,
        }
    }

    /// What playback reports.
    pub fn state(&self) -> (state: &State)
        ensures
            *state == self.info(),
    {
        &self.state
    }

    /// The frame around which frames are kept in memory.
    pub fn playhead(&self) -> (frame: u64)
        ensures
            frame == self.head(),
    {
        self.playhead
    }

    /// Whether frames are loaded backwards from the playhead.
    pub fn reverse(&self) -> (reverse: bool)
        ensures
            reverse == self.backwards(),
    {
        self.reverse
    }

    /// Stands still on a frame, and drops what is under way and no longer wanted there.
    fn seek(&mut self, frame: u64, now: u128, cache: &mut RollingCache)
        requires
            old(cache).decides(old(cache).pending(), frame),
        ensures
            final(self).info() == old(self).info().seek(frame as int),
            final(self).head() == frame,
            final(self).backwards() == old(self).backwards(),
            final(self).since() == now,
            final(self).forced(),
            final(cache).pending() == old(cache).pending().filter(
                |f: u64| old(cache).keeps(f, frame),
            ),
            final(cache).frames() == old(cache).frames(),
            final(cache).same_limits(old(cache)),
    {
        self.playhead = frame;
        self.state.current_frame = frame;
        self.last_advance = now;
        self.force_display = true;
        self.state.paused = true;
        cache.sweep_pending(frame);
    }

    /// Runs in a direction.
    fn run(&mut self, reverse: bool)
        ensures
            final(self).info() == old(self).info().run(reverse),
            final(self).head() == old(self).head(),
            final(self).backwards() == reverse,
            final(self).since() == old(self).since(),
            final(self).forced() == old(self).forced(),
    {
        self.reverse = reverse;
        self.state.multiplier = if self.state.reverse == reverse {
            self.state.multiplier.doubled()
        } else {
            Speed::unit()
        };
        self.state.reverse = reverse;
        self.state.paused = false;
    }

    /// Whether a message can be taken: it does not lead outside the range of frame numbers,
    /// and where it seeks a frame, the frames under way can be swept there.
    pub fn accepts(&self, msg: &Message, cache: &RollingCache) -> (accepted: bool)
        ensures
            accepted == (self.info().accepts(*msg) && (self.info().sought(*msg) matches Some(
                frame,
            ) ==> cache.decides(cache.pending(), frame as u64))),
    {
        let sought: Option<u64> = match msg {
            Message::FrameChange(frame) => Some(*frame),
            Message::GoBack(count) => self.state.current_frame.checked_sub(*count),
            Message::GoForward(count) => self.state.current_frame.checked_add(*count),
            Message::FirstFrame => Some(0),
            Message::LastFrame => self.state.total_frames.checked_sub(1),
            _ => {
                return true;
            },
        };
        match sought {
            Some(frame) => cache.can_sweep(frame),
            None => false,
        }
    }

    /// Takes a message.
    ///
    /// A directory that was chosen is to be loaded first; [`Orchestrator::opened`] takes
    /// note of it when that is done.
    pub fn handle(&mut self, msg: Message, now: u128, cache: &mut RollingCache) -> (reply: Reply)
        requires
            old(self).in_step(),
            old(self).info().accepts(msg),
            old(self).info().sought(msg) matches Some(frame) ==> old(cache).decides(
                old(cache).pending(),
                frame as u64,
            ),
        ensures
            final(self).in_step(),
            final(self).info() == old(self).info().told(msg),
            match old(self).info().sought(msg) {
                Some(frame) => {
                    &&& final(self).since() == now
                    &&& final(self).forced()
                    &&& final(cache).pending() == old(cache).pending().filter(
                        |f: u64| old(cache).keeps(f, frame as u64),
                    )
                },
                None => {
                    &&& final(self).since() == old(self).since()
                    &&& final(self).forced() == old(self).forced()
                    &&& final(cache).pending() == old(cache).pending()
                },
            },
            final(self).head() == final(self).info().current_frame,
            final(self).backwards() == final(self).info().reverse,
            old(self).info().sought(msg) matches Some(frame) ==> forall|f: u64| #[trigger]
                final(cache).pending().contains(f) <==> old(cache).pending().contains(f) && f + old(
                    cache,
                ).behind() >= frame && f <= frame + old(cache).lookahead(),
            final(cache).frames() == old(cache).frames(),
            final(cache).same_limits(old(cache)),
            reply == (match msg {
                Message::DirChosen(path) => Reply::Load(path),
                _ => Reply::Report,
            }),
    {
        match msg {
            Message::DirChosen(path) => {
                return Reply::Load(path);
            },
            Message::FrameChange(frame) => {
                self.seek(frame, now, cache);
            },
            Message::TotalFrames(frames) => {
                self.state.total_frames = frames;
            },
            Message::GoBack(count) => {
                self.seek(self.playhead - count, now, cache);
            },
            Message::GoForward(count) => {
                self.seek(self.playhead + count, now, cache);
            },
            Message::Pause => {
                self.state.multiplier = Speed::unit();
                self.state.paused = !self.state.paused;
            },
            Message::Reverse => {
                self.run(true);
            },
            Message::Forward => {
                self.run(false);
            },
            Message::FirstFrame => {
                self.seek(0, now, cache);
            },
            Message::LastFrame => {
                self.seek(self.state.total_frames - 1, now, cache);
            },
            Message::FrameRate(rate) => {
                self.state.frame_rate = rate;
            },
            Message::Multiplier(factor) => {
                self.state.multiplier = Speed { factor, doublings: 0 };
            },
        }
        Reply::Report
    }

    /// Takes note of the directory whose sequence has been loaded.
    pub fn opened(&mut self, path: PathBuf)
        ensures
            final(self).info() == (State { open_dir: Some(path), ..old(self).info() }),
            final(self).head() == old(self).head(),
            final(self).backwards() == old(self).backwards(),
            final(self).since() == old(self).since(),
            final(self).forced() == old(self).forced(),
    {
        self.state.open_dir = Some(path);
    }

    /// Takes a message from the frames that come in: only how many there are is news.
    pub fn handle_inner(&mut self, msg: Message)
        ensures
            final(self).info() == (match msg {
                Message::TotalFrames(frames) => State { total_frames: frames, ..old(self).info() },
                _ => old(self).info(),
            }),
            final(self).head() == old(self).head(),
            final(self).backwards() == old(self).backwards(),
            final(self).since() == old(self).since(),
            final(self).forced() == old(self).forced(),
    {
        match msg {
            Message::TotalFrames(frames) => {
                self.state.total_frames = frames;
            },
            _ => {},
        }
    }

    /// Whether the current frame is one of the sequence. While it is not, a tick of the
    /// clock changes nothing.
    pub fn in_sequence(&self) -> (inside: bool)
        ensures
            inside == (self.info().current_frame < self.info().total_frames),
    {
        self.state.current_frame < self.state.total_frames
    }

    /// Whether the clock still runs within its range an interval from now.
    pub fn can_poll(&self, interval: u128) -> (can: bool)
        ensures
            can == (self.since() + interval <= u128::MAX),
    {
        self.last_advance.checked_add(interval).is_some()
    }

    /// Takes a tick of the clock, `interval` being the time from one frame to the next.
    ///
    /// A frame of the sequence that is due and in memory is shown, and the playhead moves on,
    /// unless the frame was to be shown whatever the clock says. One that is not in memory is
    /// waited for, and the clock starts anew. Past the end of the sequence nothing is due.
    pub fn poll(&mut self, now: u128, interval: u128, cache: &RollingCache) -> (turn: Turn)
        requires
            old(self).in_step(),
            old(self).turns(now, interval) && cache.frames().contains_key(old(self).head())
                ==> old(self).since() + interval <= u128::MAX,
        ensures
            final(self).in_step(),
            !old(self).turns(now, interval) ==> {
                &&& turn == Turn::Wait
                &&& *final(self) == *old(self)
            },
            old(self).turns(now, interval) && !cache.frames().contains_key(old(self).head()) ==> {
                &&& turn == Turn::Missing
                &&& final(self).info() == old(self).info()
                &&& final(self).since() == now
                &&& final(self).forced() == old(self).forced()
            },
            old(self).turns(now, interval) && cache.frames().contains_key(old(self).head()) ==> {
                &&& turn == Turn::Show(cache.frames()[old(self).head()])
                &&& final(self).info() == (if old(self).forced() {
                    old(self).info()
                } else {
                    old(self).info().advanced()
                })
                &&& final(self).since() == old(self).since() + interval
                &&& !final(self).forced()
            },
            final(self).head() == final(self).info().current_frame,
            final(self).backwards() == final(self).info().reverse,
            old(self).info().paused && !old(self).forced() ==> {
                &&& turn == Turn::Wait
                &&& *final(self) == *old(self)
            },
            old(self).info().current_frame >= old(self).info().total_frames ==> {
                &&& turn == Turn::Wait
                &&& *final(self) == *old(self)
            },
            !old(self).forced() && 0 < interval && now < old(self).since() + interval ==> {
                &&& turn == Turn::Wait
                &&& *final(self) == *old(self)
            },
            turn is Show ==> {
                &&& cache.frames().contains_key(old(self).info().current_frame)
                &&& turn->Show_0 == cache.frames()[old(self).info().current_frame]
            },
            turn is Wait ==> *final(self) == *old(self),
            turn is Missing ==> !cache.frames().contains_key(old(self).info().current_frame),
    {
        if !self.in_sequence() {
            return Turn::Wait;
        }
        if !self.force_display && now.saturating_sub(self.last_advance) < interval {
            return Turn::Wait;
        }
        if self.state.paused && !self.force_display {
            return Turn::Wait;
        }
        match cache.get(self.playhead) {
            Some(frame) => {
                if !self.force_display {
                    if self.state.reverse {
                        if self.playhead > 0 {
                            self.state.current_frame = self.state.current_frame - 1;
                            self.playhead = self.playhead - 1;
                        }
                    } else {
                        self.state.current_frame = self.state.current_frame + 1;
                        self.playhead = self.playhead + 1;
                    }
                }
                self.force_display = false;
                self.last_advance = self.last_advance + interval;
                Turn::Show(frame)
            },
            None => {
                self.last_advance = now;
                Turn::Missing
            },
        }
    }
}

/// How many frames are held without a look at where they lie.
pub const CACHE_CAPACITY: usize = 80;

/// How far before the playhead frames are kept.
pub const CACHE_BEHIND: u64 = 40;

/// How far past the playhead frames are kept, and loaded ahead.
pub const CACHE_LOOKAHEAD: u64 = 40;

/// How many decoded frames may wait to be taken in.
pub const FRAME_QUEUE: usize = 16;

/// Milliseconds between two ticks of the clock.
pub const TICK_MILLIS: u64 = 2;

/// The cache that playback runs on.
pub fn playback_cache() -> (cache: RollingCache)
    ensures
        cache.frames() == Map::<u64, Arc<ExrImage>>::empty(),
        cache.pending() == Set::<u64>::empty(),
        cache.capacity() == CACHE_CAPACITY,
        cache.behind() == CACHE_BEHIND,
        cache.lookahead() == CACHE_LOOKAHEAD,
        cache.capacity() == 80,
        cache.behind() == 40,
        cache.lookahead() == 40,
{
    RollingCache::with_limits(CACHE_CAPACITY, CACHE_BEHIND, CACHE_LOOKAHEAD)
}

/// Takes in decoded frames.
pub struct Collector {
    total_frames: usize,
}

impl Collector {
    /// How many frames the sequence has, as far as was told.
    pub closed spec fn told(&self) -> usize {
        self.total_frames
    }

    /// A collector that has been told nothing.
    pub fn new() -> (collector: Self)
        ensures
            collector.told() == 0,
    {
        Collector { total_frames: 0 }
    }

    /// Takes a decoded frame into the cache. Hands back the length of its sequence where
    /// that is news, and the frame for its thumbnail.
    pub fn collect(
        &mut self,
        cache: &mut RollingCache,
        img: ExrImage,
        frame: usize,
        frame_count: usize,
        playhead: u64,
    ) -> (out: (Option<Message>, (u64, Arc<ExrImage>)))
        requires
            old(cache).frames().dom().insert(frame as u64).len() > old(cache).capacity() ==> old(
                cache,
            ).decides(old(cache).frames().dom().insert(frame as u64), playhead),
        ensures
            final(self).told() == frame_count,
            out.0 == (if frame_count != old(self).told() {
                Some(Message::TotalFrames(frame_count as u64))
            } else {
                None
            }),
            out.1.0 == frame,
            *out.1.1 == img,
            final(cache).frames() == old(cache).frames_after_insert(
                frame as u64,
                out.1.1,
                playhead,
            ),
            final(cache).pending() == old(cache).pending().remove(frame as u64),
            final(cache).same_limits(old(cache)),
    {
        let news: Option<Message> = if self.total_frames != frame_count {
            self.total_frames = frame_count;
            Some(Message::TotalFrames(frame_count as u64))
        } else {
            None
        };
        (news, cache.insert(frame as u64, img, playhead))
    }
}

/// Going forward and back by as many frames leads back to the frame.
pub proof fn lemma_forward_and_back(state: State, count: u64)
    requires
        state.accepts(Message::GoForward(count)),
    ensures
        ({
            let there = state.told(Message::GoForward(count));
            &&& there.accepts(Message::GoBack(count))
            &&& there.told(Message::GoBack(count)) == state.seek(state.current_frame as int)
        }),
{
}

/// Whatever seeks a frame stops playback there, and changes nothing else.
pub proof fn lemma_seek_pauses(state: State, msg: Message)
    requires
        state.sought(msg) is Some,
        state.accepts(msg),
    ensures
        state.told(msg).paused,
        state.told(msg).current_frame == state.sought(msg)->0,
        state.told(msg) == (State {
            paused: true,
            current_frame: state.told(msg).current_frame,
            ..state
        }),
{
}

/// Pausing twice runs, or stands still, as before, at the frames' own rate.
pub proof fn lemma_pause_twice(state: State)
    ensures
        state.told(Message::Pause).told(Message::Pause) == (State {
            multiplier: Speed::one(),
            ..state
        }),
{
}

/// Asking for a direction runs that way. Asking again doubles the speed; turning round
/// starts at the frames' own rate.
pub proof fn lemma_directions(state: State)
    ensures
        ({
            let forward = state.told(Message::Forward);
            let back = state.told(Message::Reverse);
            &&& !forward.reverse && !forward.paused
            &&& back.reverse && !back.paused
            &&& forward.told(Message::Forward).multiplier == forward.multiplier.twice()
            &&& back.told(Message::Reverse).multiplier == back.multiplier.twice()
            &&& forward.told(Message::Reverse).multiplier == Speed::one()
            &&& back.told(Message::Forward).multiplier == Speed::one()
        }),
{
}

/// Playback that runs never leaves the sequence: from a frame of the sequence it comes to a
/// frame of the sequence or, past the last one, to its end, and back it comes no further
/// than the first frame.
pub proof fn lemma_advance_stays(state: State)
    requires
        state.current_frame < state.total_frames,
    ensures
        state.advanced().current_frame <= state.total_frames,
        state.reverse ==> state.advanced().current_frame <= state.current_frame,
        !state.reverse ==> state.advanced().current_frame == state.current_frame + 1,
        state.advanced() == (State {
            current_frame: state.advanced().current_frame,
            ..state
        }),
{
}

/// Playback that is left to run comes to the end of the sequence and stays there; backwards it
/// comes to the first frame and stays there. From the end it does not run backwards.
pub proof fn lemma_run_through(state: State, turns: nat)
    requires
        state.current_frame <= state.total_frames,
    ensures
        state.after_turns(turns) == (State {
            current_frame: if state.current_frame == state.total_frames {
                state.total_frames
            } else if state.reverse {
                if state.current_frame > turns {
                    (state.current_frame - turns) as u64
                } else {
                    0
                }
            } else if state.current_frame + turns < state.total_frames {
                (state.current_frame + turns) as u64
            } else {
                state.total_frames
            },
            ..state
        }),
    decreases turns,
{
    if turns > 0 {
        lemma_run_through(state, (turns - 1) as nat);
    }
}

/// Playback starts running forwards on the first frame, at film rate and its own speed, with
/// nothing opened.
pub proof fn lemma_start()
    ensures
        !State::start().paused,
        !State::start().reverse,
        State::start().current_frame == 0,
        State::start().total_frames == 0,
        State::start().open_dir is None,
        State::start().frame_rate.bits == 0x4037_f9db_22d0_e560,
        State::start().multiplier.factor.bits == 0x3ff0_0000_0000_0000,
        State::start().multiplier.doublings == 0,
{
}

/// Doubling a speed keeps its factor and counts one doubling more, up to the largest count.
pub proof fn lemma_doubling(speed: Speed)
    ensures
        speed.twice().factor == speed.factor,
        speed.doublings < u32::MAX ==> speed.twice().doublings == speed.doublings + 1,
        speed.doublings == u32::MAX ==> speed.twice() == speed,
        Speed::of(speed.factor).factor == speed.factor,
        Speed::of(speed.factor).doublings == 0,
        Speed::one().factor.bits == 0x3ff0_0000_0000_0000,
        Speed::one().doublings == 0,
{
}

/// Where a seek leads: to the frame that was named, as far back or forward as was asked, to the
/// first frame, or to the last. It stops playback and leaves everything else alone.
pub proof fn lemma_seek_lands(state: State, msg: Message)
    requires
        state.accepts(msg),
    ensures
        msg matches Message::FrameChange(frame) ==> state.told(msg).current_frame == frame,
        msg matches Message::GoBack(count) ==> state.told(msg).current_frame + count
            == state.current_frame,
        msg matches Message::GoForward(count) ==> state.told(msg).current_frame
            == state.current_frame + count,
        msg is FirstFrame ==> state.told(msg).current_frame == 0,
        msg is LastFrame ==> state.told(msg).current_frame + 1 == state.total_frames,
        msg is FrameChange || msg is GoBack || msg is GoForward || msg is FirstFrame
            || msg is LastFrame ==> {
            let after = state.told(msg);
            &&& after.paused
            &&& after.total_frames == state.total_frames
            &&& after.frame_rate == state.frame_rate
            &&& after.open_dir == state.open_dir
            &&& after.reverse == state.reverse
            &&& after.multiplier == state.multiplier
        },
{
}

/// A seek is refused only where there is no frame number to lead to: further back than the first
/// frame, further forward than the largest number, or to the last frame of nothing.
pub proof fn lemma_seek_refused(state: State, msg: Message)
    ensures
        msg matches Message::GoBack(count) ==> (state.accepts(msg) <==> count
            <= state.current_frame),
        msg matches Message::GoForward(count) ==> (state.accepts(msg) <==> state.current_frame
            + count <= u64::MAX),
        msg is LastFrame ==> (state.accepts(msg) <==> state.total_frames > 0),
        !(msg is GoBack || msg is GoForward || msg is LastFrame) ==> state.accepts(msg),
        state.sought(msg) is Some <==> msg is FrameChange || msg is GoBack || msg is GoForward
            || msg is FirstFrame || msg is LastFrame,
{
}

/// What does not seek leaves the playhead where it is. Pausing turns running into standing still
/// and back; asking for a direction runs that way, whatever was before; a length, a rate or a
/// factor is taken as it is given and changes nothing else.
pub proof fn lemma_told_in_place(state: State, msg: Message)
    requires
        !(msg is FrameChange || msg is GoBack || msg is GoForward || msg is FirstFrame
            || msg is LastFrame),
    ensures
        ({
            let after = state.told(msg);
            &&& after.current_frame == state.current_frame
            &&& after.open_dir == state.open_dir
            &&& after.total_frames == (match msg {
                Message::TotalFrames(frames) => frames,
                _ => state.total_frames,
            })
            &&& after.frame_rate == (match msg {
                Message::FrameRate(rate) => rate,
                _ => state.frame_rate,
            })
            &&& msg is Pause ==> after.paused == !state.paused
            &&& msg is Reverse || msg is Forward ==> !after.paused
            &&& !(msg is Pause || msg is Reverse || msg is Forward) ==> after.paused
                == state.paused
            &&& msg is Reverse ==> after.reverse
            &&& msg is Forward ==> !after.reverse
            &&& !(msg is Reverse || msg is Forward) ==> after.reverse == state.reverse
        }),
{
}

/// The speed after a message: pausing and turning round start at the frames' own rate, asking for
/// the direction that playback already has keeps the factor and doubles once more, a factor is
/// taken as it is given, and anything else keeps the speed.
pub proof fn lemma_told_speed(state: State, msg: Message)
    ensures
        ({
            let (before, after) = (state.multiplier, state.told(msg).multiplier);
            let turns_round = msg is Reverse && !state.reverse || msg is Forward && state.reverse;
            let goes_on = msg is Reverse && state.reverse || msg is Forward && !state.reverse;
            &&& msg is Pause || turns_round ==> after.factor.bits == 0x3ff0_0000_0000_0000
                && after.doublings == 0
            &&& goes_on && before.doublings < u32::MAX ==> after.factor == before.factor
                && after.doublings == before.doublings + 1
            &&& msg matches Message::Multiplier(factor) ==> after.factor == factor
                && after.doublings == 0
            &&& !(msg is Pause || msg is Reverse || msg is Forward || msg is Multiplier) ==> after
                == before
        }),
{
}

/// While playback is paused, and no frame that was sought waits to be shown, nothing is due at any
/// time, in either direction.
pub proof fn lemma_paused_waits(player: Orchestrator, now: u128, interval: u128)
    requires
        player.info().paused,
        !player.forced(),
    ensures
        !player.turns(now, interval),
        !player.due(now, interval),
{
}

/// A frame that was sought is due at once, whatever the clock says and whether playback is paused
/// or not, as long as it is one of the sequence.
pub proof fn lemma_sought_is_due(player: Orchestrator, now: u128, interval: u128)
    requires
        player.forced(),
    ensures
        player.turns(now, interval) <==> player.info().current_frame < player.info().total_frames,
{
}

/// Playback that runs shows its next frame when an interval has passed since the last one was due,
/// not before and not later, in either direction. With no interval to wait for it always does.
pub proof fn lemma_running_keeps_time(player: Orchestrator, now: u128, interval: u128)
    requires
        !player.info().paused,
        !player.forced(),
        player.info().current_frame < player.info().total_frames,
    ensures
        player.turns(now, interval) <==> player.since() + interval <= now || interval == 0,
{
}

/// Past the end of the sequence nothing is due, whatever was sought.
pub proof fn lemma_end_waits(player: Orchestrator, now: u128, interval: u128)
    requires
        player.info().current_frame >= player.info().total_frames,
    ensures
        !player.turns(now, interval),
{
}

/// A turn moves the playhead by one frame in the direction of playback, except back from the first
/// frame, and changes nothing else.
pub proof fn lemma_turn_moves_on(state: State)
    requires
        state.current_frame < state.total_frames,
    ensures
        !state.reverse ==> state.advanced().current_frame == state.current_frame + 1,
        state.reverse && state.current_frame > 0 ==> state.advanced().current_frame + 1
            == state.current_frame,
        state.reverse && state.current_frame == 0 ==> state.advanced().current_frame == 0,
        state.advanced().paused == state.paused,
        state.advanced().total_frames == state.total_frames,
        state.advanced().frame_rate == state.frame_rate,
        state.advanced().open_dir == state.open_dir,
        state.advanced().reverse == state.reverse,
        state.advanced().multiplier == state.multiplier,
{
}

/// Playback is in step where the loaders see the frame and the direction that are reported.
pub proof fn lemma_in_step(player: Orchestrator)
    ensures
        player.in_step() <==> player.head() == player.info().current_frame && player.backwards()
            == player.info().reverse,
{
}

/// The clock ticks every 2 milliseconds, 16 decoded frames may wait, and 80 frames are held before
/// those more than 40 away from the playhead leave.
pub proof fn lemma_playback_limits()
    ensures
        TICK_MILLIS == 2,
        FRAME_QUEUE == 16,
        CACHE_CAPACITY == 80,
        CACHE_BEHIND == 40,
        CACHE_LOOKAHEAD == 40,
{
}

}
