//! Colour management: the displays and views that a config offers, and the ones chosen.
use vstd::prelude::*;

use crate::number::Single;
use crate::playback::texts;
use crate::renderer::MAX_EXP;
use crate::renderer::MIN_EXP;

verus! {

/// `ocio_rs::Config`, a colour config.
#[verifier::external_type_specification]
#[verifier::external_body]
pub struct ExConfig(ocio_rs::Config);

/// The displays of a config, by their index, while nobody edits the config. A display whose
/// name cannot be read leaves its place empty.
pub uninterp spec fn config_displays(config: ocio_rs::Config) -> Seq<Option<Seq<char>>>;

/// The views of each display of a config, by their index, while nobody edits the config. A view
/// whose name cannot be read leaves its place empty.
pub uninterp spec fn config_views(config: ocio_rs::Config) -> Map<
    Seq<char>,
    Seq<Option<Seq<char>>>,
>;

/// A count as a length.
pub open spec fn as_len(count: i32) -> int {
    if count > 0 {
        count as int
    } else {
        0
    }
}

/// The text of a string, where there is one.
pub open spec fn text_of(s: Option<String>) -> Option<Seq<char>> {
    match s {
        Some(s) => Some(s@),
        None => None,
    }
}

/// The entries of the places that are not empty, in order.
pub open spec fn present(slots: Seq<Option<Seq<char>>>) -> Seq<Seq<char>>
    decreases slots.len(),
{
    if slots.len() == 0 {
        Seq::empty()
    } else {
        match slots.last() {
            Some(text) => present(slots.drop_last()).push(text),
            None => present(slots.drop_last()),
        }
    }
}

/// The first of a list, or an empty text.
pub open spec fn first_text(list: Seq<Seq<char>>) -> Seq<char> {
    if list.len() > 0 {
        list[0]
    } else {
        Seq::empty()
    }
}

/// `ocio_rs::Config::num_displays` counts the displays of a config.
#[verifier::external_body]
fn num_displays(config: &ocio_rs::Config) -> (count: i32)
    ensures
        config_displays(*config).len() == as_len(count),
{
    config.num_displays()
}

/// `ocio_rs::Config::display` gives the name of the display at an index.
#[verifier::external_body]
fn display(config: &ocio_rs::Config, index: i32) -> (name: Option<String>)
    ensures
        0 <= index < config_displays(*config).len() ==> text_of(name) == config_displays(
            *config,
        )[index as int],
{
    config.display(index)
}

/// `ocio_rs::Config::num_views` counts the views of a display.
#[verifier::external_body]
fn num_views(config: &ocio_rs::Config, display: &str) -> (count: i32)
    ensures
        config_views(*config)[display@].len() == as_len(count),
{
    config.num_views(display)
}

/// `ocio_rs::Config::view` gives the name of the view of a display at an index.
#[verifier::external_body]
fn view_name(config: &ocio_rs::Config, display: &str, index: i32) -> (name: Option<String>)
    ensures
        0 <= index < config_views(*config)[display@].len() ==> text_of(name) == config_views(
            *config,
        )[display@][index as int],
{
    config.view(display, index)
}

/// The entries of the places that are not empty, read one by one.
fn read_places<R: Fn(i32) -> Option<String>>(
    count: i32,
    read: R,
    Ghost(slots): Ghost<Seq<Option<Seq<char>>>>,
) -> (names: Vec<String>)
    requires
        slots.len() == as_len(count),
        forall|i: i32| 0 <= i < count ==> call_requires(read, (i,)),
        forall|i: i32, name: Option<String>|
            0 <= i < count && call_ensures(read, (i,), name) ==> text_of(name) == slots[i as int],
    ensures
        texts(names@) == present(slots),
{
    let mut names: Vec<String> = Vec::new();
    let mut i: i32 = 0;
    assert(slots.take(0) =~= Seq::<Option<Seq<char>>>::empty());
    assert(texts(names@) =~= present(slots.take(0)));
    while i < count
        invariant
            0 <= i <= as_len(count),
            slots.len() == as_len(count),
            forall|i: i32| 0 <= i < count ==> call_requires(read, (i,)),
            forall|i: i32, name: Option<String>|
                0 <= i < count && call_ensures(read, (i,), name) ==> text_of(name)
                    == slots[i as int],
            texts(names@) == present(slots.take(i as int)),
        decreases count - i,
    {
        let ghost before = names@;
        assert(slots.take(i + 1).drop_last() =~= slots.take(i as int));
        if let Some(name) = read(i) {
            names.push(name);
            assert(texts(names@) =~= texts(before).push(name@));
        }
        i = i + 1;
    }
    assert(slots.take(slots.len() as int) =~= slots);
    names
}

/// The displays that a config offers.
fn displays_of(config: &ocio_rs::Config) -> (names: Vec<String>)
    ensures
        texts(names@) == present(config_displays(*config)),
{
    let read = |i: i32| -> (name: Option<String>)
        ensures
            0 <= i < config_displays(*config).len() ==> text_of(name) == config_displays(
                *config,
            )[i as int],
        { display(config, i) };
    read_places(num_displays(config), read, Ghost(config_displays(*config)))
}

/// The views that a config offers for a display.
fn views_of(config: &ocio_rs::Config, display: &str) -> (names: Vec<String>)
    ensures
        texts(names@) == present(config_views(*config)[display@]),
{
    let read = |i: i32| -> (name: Option<String>)
        ensures
            0 <= i < config_views(*config)[display@].len() ==> text_of(name) == config_views(
                *config,
            )[display@][i as int],
        { view_name(config, display, i) };
    read_places(num_views(config, display), read, Ghost(config_views(*config)[display@]))
}

/// A copy of the first of a list, or an empty string.
fn first_of(names: &Vec<String>) -> (name: String)
    ensures
        name@ == first_text(texts(names@)),
{
    if names.len() > 0 {
        names[0].clone()
    } else {
        String::new()
    }
}

/// What came of reading a config.
pub enum ConfigRead {
    /// There is no path to read from.
    NoPath,
    /// It could not be read, and why.
    Failed(String),
    /// It was read from a path.
    Read { path: String, config: ocio_rs::Config },
}

/// The colour config and what is chosen of it.
pub struct ColorState {
    pub config: Option<ocio_rs::Config>,
    pub config_path: Option<String>,
    pub config_error: Option<String>,
    pub src_color_space: String,
    pub available_displays: Vec<String>,
    pub available_views: Vec<String>,
    pub selected_view: String,
    pub selected_display: String,
    pub min_exp: Single,
    pub max_exp: Single,
}

/// `ocio_rs::Processor`, a transform between colour spaces.
#[verifier::external_type_specification]
#[verifier::external_body]
pub struct ExProcessor(ocio_rs::Processor);

/// `ocio_rs::CPUProcessor`, a transform that is ready to be applied.
#[verifier::external_type_specification]
#[verifier::external_body]
pub struct ExCpuProcessor(ocio_rs::CPUProcessor);

/// `ocio_rs::OcioError`, what the colour library has to complain of.
#[verifier::external_type_specification]
#[verifier::external_body]
pub struct ExOcioError(ocio_rs::OcioError);

/// Why there is no transform to bake.
#[derive(Debug)]
pub enum BakeFailure {
    /// There is no config.
    NoConfig,
    /// The config has no such transform.
    Processor(ocio_rs::OcioError),
    /// The transform cannot be applied.
    Cpu(ocio_rs::OcioError),
}

/// A text holds a NUL, which no name can.
pub open spec fn has_nul(text: Seq<char>) -> bool {
    text.contains('\0')
}

/// The way a transform is applied.
#[derive(Debug, Clone, Copy, PartialEq, Eq, Structural)]
pub enum Direction {
    /// From the colour space to the view.
    Forward,
    /// From the view to the colour space.
    Inverse,
}

/// What a transform was asked for by: the config, the names of a colour space, a display and a
/// view, and the direction.
pub uninterp spec fn transform_request(processor: ocio_rs::Processor) -> (
    ocio_rs::Config,
    Seq<char>,
    Seq<char>,
    Seq<char>,
    Direction,
);

/// What a transform that is ready to be applied was asked for by.
pub uninterp spec fn ready_request(cpu: ocio_rs::CPUProcessor) -> (
    ocio_rs::Config,
    Seq<char>,
    Seq<char>,
    Seq<char>,
    Direction,
);

/// `ocio_rs::Config::processor_display` makes the transform between a colour space and a view
/// of a display, in a direction. It fails where one of the names holds a NUL, and what it makes
/// is made of the config, the names and the direction that it was given. Whether it succeeds on
/// other names rests on the config and on the files that the config refers to, and is left open.
#[verifier::external_body]
fn processor_display(
    config: &ocio_rs::Config,
    src: &str,
    display: &str,
    view: &str,
    direction: Direction,
) -> (out: Result<ocio_rs::Processor, ocio_rs::OcioError>)
    ensures
        has_nul(src@) || has_nul(display@) || has_nul(view@) ==> out is Err,
        out is Ok ==> transform_request(out->Ok_0) == (*config, src@, display@, view@, direction),
{
    let direction = match direction {
        Direction::Forward => ocio_rs::TransformDirection::Forward,
        Direction::Inverse => ocio_rs::TransformDirection::Inverse,
    };
    config.processor_display(src, display, view, direction)
}

/// `ocio_rs::Processor::default_cpu_processor` makes that same transform ready to be applied.
/// Whether it succeeds is left open.
#[verifier::external_body]
fn default_cpu_processor(processor: &ocio_rs::Processor) -> (out: Result<
    ocio_rs::CPUProcessor,
    ocio_rs::OcioError,
>)
    ensures
        out is Ok ==> ready_request(out->Ok_0) == transform_request(*processor),
{
    processor.default_cpu_processor()
}

/// The transform from a colour space to a view of a display, ready to be applied.
pub fn display_processor(config: &ocio_rs::Config, src: &str, display: &str, view: &str) -> (out:
    Result<ocio_rs::CPUProcessor, BakeFailure>)
    ensures
        out is Ok ==> ready_request(out->Ok_0) == (
            *config,
            src@,
            display@,
            view@,
            Direction::Forward,
        ),
        out is Err ==> out->Err_0 !is NoConfig,
        has_nul(src@) || has_nul(display@) || has_nul(view@) ==> out is Err && out->Err_0
            is Processor,
{
    match processor_display(config, src, display, view, Direction::Forward) {
        Ok(processor) => match default_cpu_processor(&processor) {
            Ok(cpu) => Ok(cpu),
            Err(error) => Err(BakeFailure::Cpu(error)),
        },
        Err(error) => Err(BakeFailure::Processor(error)),
    }
}

impl ColorState {
    /// Nothing is chosen and nothing offered.
    pub open spec fn blank(&self) -> bool {
        &&& self.config is None
        &&& self.config_path is None
        &&& self.src_color_space@ == Seq::<char>::empty()
        &&& self.available_displays@ == Seq::<String>::empty()
        &&& self.available_views@ == Seq::<String>::empty()
        &&& self.selected_view@ == Seq::<char>::empty()
        &&& self.selected_display@ == Seq::<char>::empty()
        &&& self.min_exp.bits == 0
        &&& self.max_exp.bits == 0
    }

    /// What is offered is what the config holds, and a view that is offered is one of the
    /// display that is chosen.
    pub open spec fn offers(&self, config: ocio_rs::Config) -> bool {
        &&& texts(self.available_displays@) == present(config_displays(config))
        &&& texts(self.available_views@) == present(config_views(config)[self.selected_display@])
    }

    /// The state after a display was chosen: the first of its views is chosen too. Without a
    /// config nothing has happened.
    pub open spec fn switched(self, display: String, after: ColorState) -> bool {
        match self.config {
            None => after == self,
            Some(config) => {
                &&& after.selected_display == display
                &&& texts(after.available_views@) == present(config_views(config)[display@])
                &&& after.selected_view@ == first_text(texts(after.available_views@))
                &&& after == (ColorState {
                    selected_display: after.selected_display,
                    available_views: after.available_views,
                    selected_view: after.selected_view,
                    ..self
                })
            },
        }
    }

    fn failed(error: Option<String>) -> (state: Self)
        ensures
            state.blank(),
            state.config_error == error,
    {
        ColorState {
            config: None,
            config_path: None,
            config_error: error,
            src_color_space: String::new(),
            available_displays: Vec::new(),
            available_views: Vec::new(),
            selected_view: String::new(),
            selected_display: String::new(),
            min_exp: Single { bits: 0 },
            max_exp: Single { bits: 0 },
        }
    }

    /// The state that a config starts with: its first display, and that display's first
    /// view.
    pub fn load_config(read: ConfigRead) -> (state: Self)
        ensures
            match read {
                ConfigRead::NoPath => {
                    &&& state.blank()
                    &&& state.config_error is Some
                    &&& state.config_error->0@ == "OCIO path missing"@
                },
                ConfigRead::Failed(error) => {
                    &&& state.blank()
                    &&& state.config_error == Some(error)
                },
                ConfigRead::Read { path, config } => {
                    &&& state.config == Some(config)
                    &&& state.config_error is None
                    &&& state.config_path == Some(path)
                    &&& state.src_color_space@ == "ACEScg"@
                    &&& state.offers(config)
                    &&& state.selected_display@ == first_text(texts(state.available_displays@))
                    &&& state.selected_view@ == first_text(texts(state.available_views@))
                    &&& state.available_displays@.len() > 0 ==> state.selected_display@
                        == state.available_displays@[0]@
                    &&& state.available_views@.len() > 0 ==> state.selected_view@
                        == state.available_views@[0]@
                    &&& state.min_exp.bits == MIN_EXP
                    &&& state.max_exp.bits == MAX_EXP
                },
            },
    {
        match read {
            ConfigRead::NoPath => ColorState::failed(Some("OCIO path missing".to_owned())),
            ConfigRead::Failed(error) => ColorState::failed(Some(error)),
            ConfigRead::Read { path, config } => {
                let available_displays = displays_of(&config);
                let selected_display = first_of(&available_displays);
                let available_views = views_of(&config, selected_display.as_str());
                let selected_view = first_of(&available_views);
                ColorState {
                    config: Some(config),
                    config_path: Some(path),
                    config_error: None,
                    src_color_space: "ACEScg".to_owned(),
                    available_displays,
                    available_views,
                    selected_view,
                    selected_display,
                    min_exp: Single { bits: MIN_EXP },
                    max_exp: Single { bits: MAX_EXP },
                }
            },
        }
    }

    /// Where the config lies: where the environment says or, where it says nothing, at the
    /// path of the config that comes with the player.
    pub fn resolve_ocio_config_path(env: Option<String>) -> (path: Option<String>)
        ensures
            path is Some,
            path->0@ == (match env {
                Some(path) => path@,
                None =>
                    "/Users/eyob/rvalt/assets/studio-config-v4.0.0_aces-v2.0_ocio-v2.5.ocio"@,
            }),
    {
        if let Some(path) = env {
            return Some(path);
        }
        Some("/Users/eyob/rvalt/assets/studio-config-v4.0.0_aces-v2.0_ocio-v2.5.ocio".to_owned())
    }

    /// Chooses a display, and the first of its views. Without a config nothing happens.
    pub fn change_display(&mut self, new_display: String)
        ensures
            old(self).switched(new_display, *final(self)),
    {
        let views = match &self.config {
            Some(config) => views_of(config, new_display.as_str()),
            None => {
                return;
            },
        };
        self.selected_view = first_of(&views);
        self.available_views = views;
        self.selected_display = new_display;
    }

    /// Chooses a view.
    pub fn change_view(&mut self, new_view: String)
        ensures
            *final(self) == (ColorState { selected_view: new_view, ..*old(self) }),
    {
        self.selected_view = new_view;
    }

    /// What to ask for the transform to bake: the config, the colour space of the frames, the
    /// chosen display and the chosen view. Without a config there is nothing to ask.
    pub fn bake_request(&self) -> (request: Option<(&ocio_rs::Config, &str, &str, &str)>)
        ensures
            match request {
                None => self.config is None,
                Some(asked) => {
                    &&& self.config == Some(*asked.0)
                    &&& asked.1@ == self.src_color_space@
                    &&& asked.2@ == self.selected_display@
                    &&& asked.3@ == self.selected_view@
                },
            },
    {
        match &self.config {
            Some(config) => Some(
                (
                    config,
                    self.src_color_space.as_str(),
                    self.selected_display.as_str(),
                    self.selected_view.as_str(),
                ),
            ),
            None => None,
        }
    }

    /// The transform to bake a lookup table of: from the colour space of the frames to the
    /// chosen view of the chosen display.
    pub fn bake_processor(&self) -> (out: Result<ocio_rs::CPUProcessor, BakeFailure>)
        ensures
            self.config is None <==> out is Err && out->Err_0 is NoConfig,
            out is Ok ==> ready_request(out->Ok_0) == (
                self.config->0,
                self.src_color_space@,
                self.selected_display@,
                self.selected_view@,
                Direction::Forward,
            ),
            self.config is Some && (has_nul(self.src_color_space@) || has_nul(
                self.selected_display@,
            ) || has_nul(self.selected_view@)) ==> out is Err && out->Err_0 is Processor,
    {
        match self.bake_request() {
            Some((config, src, display, view)) => display_processor(config, src, display, view),
            None => Err(BakeFailure::NoConfig),
        }
    }
}

impl Default for ColorState {
    fn default() -> (state: Self)
        ensures
            state.blank(),
            state.config_error is None,
    {
        ColorState::failed(None)
    }
}

/// Edge length of a baked lookup table.
pub const BAKE_SIZE: usize = 32;

/// What comes of baking a lookup table.
pub enum BakeMessage<F> {
    Failed(String),
    Done { size: usize, data: Vec<F>, min_exp: Single, max_exp: Single },
}

impl<F> BakeMessage<F> {
    /// The message that a table has been baked.
    pub fn done(data: Vec<F>) -> (message: Self)
        ensures
            message == (BakeMessage::Done {
                size: BAKE_SIZE,
                data,
                min_exp: Single { bits: MIN_EXP },
                max_exp: Single { bits: MAX_EXP },
            }),
            message matches BakeMessage::Done { size, data: table, min_exp, max_exp } && size == 32
                && table == data && min_exp.bits == 0xc0d0_0000 && max_exp.bits == 0x40d0_0000,
    {
        BakeMessage::Done {
            size: BAKE_SIZE,
            data,
            min_exp: Single { bits: MIN_EXP },
            max_exp: Single { bits: MAX_EXP },
        }
    }

    /// The table that a message brings, with its edge length and the range of its scale.
    pub fn table(self) -> (table: Option<(usize, Vec<F>, Single, Single)>)
        ensures
            table == (match self {
                BakeMessage::Done { size, data, min_exp, max_exp } => Some(
                    (size, data, min_exp, max_exp),
                ),
                BakeMessage::Failed(_) => None,
            }),
    {
        match self {
            BakeMessage::Done { size, data, min_exp, max_exp } => Some(
                (size, data, min_exp, max_exp),
            ),
            BakeMessage::Failed(_) => None,
        }
    }
}

/// Choosing another display keeps what is offered in line with the config, and the view that
/// is chosen with it is one of that display's views, if it has any.
pub proof fn lemma_switch_keeps_offer(
    before: ColorState,
    after: ColorState,
    config: ocio_rs::Config,
    display: String,
)
    requires
        before.config == Some(config),
        before.offers(config),
        before.switched(display, after),
    ensures
        after.config == Some(config),
        after.offers(config),
        after.selected_display == display,
        after.available_views@.len() > 0 ==> texts(after.available_views@).contains(
            after.selected_view@,
        ),
        after.available_views@.len() > 0 ==> after.selected_view@ == after.available_views@[0]@,
        after.available_views@.len() == 0 ==> after.selected_view@ == Seq::<char>::empty(),
{
    if after.available_views@.len() > 0 {
        assert(texts(after.available_views@)[0] == after.selected_view@);
    }
}

/// Passing over empty places goes place by place: an entry on its own stays, an empty place on its
/// own leaves nothing, and what is left of two stretches is what is left of the first followed by
/// what is left of the second.
pub proof fn lemma_present_joins(
    a: Seq<Option<Seq<char>>>,
    b: Seq<Option<Seq<char>>>,
    text: Seq<char>,
)
    ensures
        present(Seq::<Option<Seq<char>>>::empty()) == Seq::<Seq<char>>::empty(),
        present(seq![None::<Seq<char>>]) == Seq::<Seq<char>>::empty(),
        present(seq![Some(text)]) == seq![text],
        present(a + b) == present(a) + present(b),
    decreases b.len(),
{
    reveal_with_fuel(present, 2);
    assert(seq![None::<Seq<char>>].drop_last() =~= Seq::<Option<Seq<char>>>::empty());
    assert(seq![Some(text)].drop_last() =~= Seq::<Option<Seq<char>>>::empty());
    assert(present(seq![Some(text)]) =~= seq![text]);
    if b.len() == 0 {
        assert(a + b =~= a);
        assert(present(a) + present(b) =~= present(a));
    } else {
        assert((a + b).drop_last() =~= a + b.drop_last());
        assert((a + b).last() == b.last());
        lemma_present_joins(a, b.drop_last(), text);
        match b.last() {
            Some(entry) => {
                assert(present(a + b) =~= present(a) + present(b.drop_last()).push(entry));
            },
            None => {},
        }
    }
}

/// Every named place is offered, in order: where all places hold a name there are as many entries
/// as places, each the name at its own place.
pub proof fn lemma_present_all(slots: Seq<Option<Seq<char>>>)
    requires
        forall|i: int| 0 <= i < slots.len() ==> (#[trigger] slots[i]) is Some,
    ensures
        present(slots).len() == slots.len(),
        forall|i: int| 0 <= i < slots.len() ==> #[trigger] present(slots)[i] == slots[i]->0,
    decreases slots.len(),
{
    if slots.len() > 0 {
        let rest = slots.drop_last();
        assert forall|i: int| 0 <= i < rest.len() implies (#[trigger] rest[i]) is Some by {
            assert(rest[i] == slots[i]);
        }
        lemma_present_all(rest);
        assert(slots.last() is Some);
        assert forall|i: int| 0 <= i < slots.len() implies #[trigger] present(slots)[i]
            == slots[i]->0 by {
            if i < rest.len() {
                assert(rest[i] == slots[i]);
                assert(present(rest)[i] == rest[i]->0);
            }
        }
    }
}

/// A text is offered if and only if some place holds it.
pub proof fn lemma_present_members(slots: Seq<Option<Seq<char>>>, text: Seq<char>)
    ensures
        present(slots).contains(text) <==> exists|i: int|
            0 <= i < slots.len() && #[trigger] slots[i] == Some(text),
    decreases slots.len(),
{
    if slots.len() > 0 {
        let rest = slots.drop_last();
        lemma_present_members(rest, text);
        if present(slots).contains(text) {
            let k = choose|k: int| 0 <= k < present(slots).len() && present(slots)[k] == text;
            if k < present(rest).len() {
                assert(present(rest)[k] == text);
                let i = choose|i: int| 0 <= i < rest.len() && #[trigger] rest[i] == Some(text);
                assert(slots[i] == Some(text));
            } else {
                assert(slots[slots.len() - 1] == Some(text));
            }
        }
        if exists|i: int| 0 <= i < slots.len() && #[trigger] slots[i] == Some(text) {
            let i = choose|i: int| 0 <= i < slots.len() && #[trigger] slots[i] == Some(text);
            if i < rest.len() {
                assert(rest[i] == Some(text));
                let k = choose|k: int| 0 <= k < present(rest).len() && present(rest)[k] == text;
                assert(present(slots)[k] == text);
            } else {
                assert(present(slots)[present(slots).len() - 1] == text);
            }
        }
    }
}

/// The first entry offered is that of the first place that is not empty.
pub proof fn lemma_present_first(slots: Seq<Option<Seq<char>>>, i: int)
    requires
        0 <= i < slots.len(),
        slots[i] is Some,
        forall|j: int| 0 <= j < i ==> (#[trigger] slots[j]) is None,
    ensures
        present(slots).len() > 0,
        present(slots)[0] == slots[i]->0,
    decreases slots.len(),
{
    let rest = slots.drop_last();
    if i < rest.len() {
        assert forall|j: int| 0 <= j < i implies (#[trigger] rest[j]) is None by {
            assert(slots[j] is None);
        }
        lemma_present_first(rest, i);
    } else {
        if present(rest).len() > 0 {
            let text = present(rest)[0];
            assert(present(rest).contains(text));
            lemma_present_members(rest, text);
            let j = choose|j: int| 0 <= j < rest.len() && #[trigger] rest[j] == Some(text);
            assert(slots[j] is None);
        }
    }
}

/// What a config offers is what it holds: a display is on offer if and only if some place of the
/// config names it, a view if and only if some place of the chosen display names it, and where no
/// name is missing the lists are those of the config, place by place.
pub proof fn lemma_offers_everything(state: ColorState, config: ocio_rs::Config, text: Seq<char>)
    requires
        state.offers(config),
    ensures
        (exists|k: int|
            0 <= k < state.available_displays@.len() && (#[trigger] state.available_displays@[k])@
                == text) <==> exists|i: int|
            0 <= i < config_displays(config).len() && #[trigger] config_displays(config)[i] == Some(
                text,
            ),
        (exists|k: int|
            0 <= k < state.available_views@.len() && (#[trigger] state.available_views@[k])@ == text)
            <==> exists|i: int|
            0 <= i < config_views(config)[state.selected_display@].len()
                && #[trigger] config_views(config)[state.selected_display@][i] == Some(text),
        (forall|i: int|
            0 <= i < config_displays(config).len() ==> (#[trigger] config_displays(config)[i])
                is Some) ==> state.available_displays@.len() == config_displays(config).len()
            && forall|i: int|
            0 <= i < config_displays(config).len() ==> (#[trigger] state.available_displays@[i])@
                == config_displays(config)[i]->0,
        (forall|i: int|
            0 <= i < config_views(config)[state.selected_display@].len() ==> (
            #[trigger] config_views(config)[state.selected_display@][i]) is Some)
            ==> state.available_views@.len() == config_views(config)[state.selected_display@].len()
            && forall|i: int|
            0 <= i < config_views(config)[state.selected_display@].len() ==> (
            #[trigger] state.available_views@[i])@ == config_views(config)[state.selected_display@][i]->0,
{
    lemma_list_offers(state.available_displays@, config_displays(config), text);
    lemma_list_offers(
        state.available_views@,
        config_views(config)[state.selected_display@],
        text,
    );
}

proof fn lemma_list_offers(list: Seq<String>, slots: Seq<Option<Seq<char>>>, text: Seq<char>)
    requires
        texts(list) == present(slots),
    ensures
        (exists|k: int| 0 <= k < list.len() && (#[trigger] list[k])@ == text) <==> exists|i: int|
            0 <= i < slots.len() && #[trigger] slots[i] == Some(text),
        (forall|i: int| 0 <= i < slots.len() ==> (#[trigger] slots[i]) is Some) ==> list.len()
            == slots.len() && forall|i: int|
            0 <= i < slots.len() ==> (#[trigger] list[i])@ == slots[i]->0,
{
    lemma_present_members(slots, text);
    assert(texts(list).len() == list.len());
    if exists|k: int| 0 <= k < list.len() && (#[trigger] list[k])@ == text {
        let k = choose|k: int| 0 <= k < list.len() && (#[trigger] list[k])@ == text;
        assert(texts(list)[k] == text);
        assert(present(slots).contains(text));
    }
    if present(slots).contains(text) {
        let k = choose|k: int| 0 <= k < present(slots).len() && present(slots)[k] == text;
        assert(list[k]@ == texts(list)[k]);
    }
    if forall|i: int| 0 <= i < slots.len() ==> (#[trigger] slots[i]) is Some {
        lemma_present_all(slots);
        assert forall|i: int| 0 <= i < slots.len() implies (#[trigger] list[i])@ == slots[i]->0 by {
            assert(texts(list)[i] == present(slots)[i]);
        }
    }
}

/// The choice made of a list is its first entry, and the empty text where it has none.
pub proof fn lemma_first_choice(list: Seq<String>)
    ensures
        list.len() > 0 ==> first_text(texts(list)) == list[0]@,
        list.len() == 0 ==> first_text(texts(list)).len() == 0,
{
    if list.len() > 0 {
        assert(texts(list)[0] == list[0]@);
    }
}

/// Choosing a display changes the display, the views on offer and the chosen view, and nothing
/// else; without a config it changes nothing at all.
pub proof fn lemma_switch_keeps_the_rest(before: ColorState, display: String, after: ColorState)
    requires
        before.switched(display, after),
    ensures
        before.config is None ==> after == before,
        before.config is Some ==> after.selected_display == display,
        after.config == before.config,
        after.config_path == before.config_path,
        after.config_error == before.config_error,
        after.src_color_space == before.src_color_space,
        after.available_displays == before.available_displays,
        after.min_exp == before.min_exp,
        after.max_exp == before.max_exp,
{
}

/// Without a config there is nothing to choose from and nothing chosen.
pub proof fn lemma_blank_is_empty(state: ColorState)
    ensures
        state.blank() <==> {
            &&& state.config is None
            &&& state.config_path is None
            &&& state.src_color_space@.len() == 0
            &&& state.available_displays@.len() == 0
            &&& state.available_views@.len() == 0
            &&& state.selected_view@.len() == 0
            &&& state.selected_display@.len() == 0
            &&& state.min_exp.bits == 0
            &&& state.max_exp.bits == 0
        },
{
    if state.src_color_space@.len() == 0 {
        assert(state.src_color_space@ =~= Seq::<char>::empty());
    }
    if state.available_displays@.len() == 0 {
        assert(state.available_displays@ =~= Seq::<String>::empty());
    }
    if state.available_views@.len() == 0 {
        assert(state.available_views@ =~= Seq::<String>::empty());
    }
    if state.selected_view@.len() == 0 {
        assert(state.selected_view@ =~= Seq::<char>::empty());
    }
    if state.selected_display@.len() == 0 {
        assert(state.selected_display@ =~= Seq::<char>::empty());
    }
}

/// A count below zero counts nothing, and any other counts itself.
pub proof fn lemma_counts(count: i32)
    ensures
        count < 0 ==> as_len(count) == 0,
        count >= 0 ==> as_len(count) == count,
{
}

/// A name is refused where one of its characters is a NUL, wherever it stands.
pub proof fn lemma_nul_anywhere(before: Seq<char>, after: Seq<char>, text: Seq<char>)
    ensures
        has_nul(before + seq!['\0'] + after),
        (forall|i: int| 0 <= i < text.len() ==> #[trigger] text[i] != '\0') ==> !has_nul(text),
{
    let joined = before + seq!['\0'] + after;
    assert(joined[before.len() as int] == '\0');
}

/// A baked table has 32 cells along each edge.
pub proof fn lemma_bake_size()
    ensures
        BAKE_SIZE == 32,
{
}

}
