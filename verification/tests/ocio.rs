use rvalt::number::Single;
use rvalt::ocio::display_processor;
use rvalt::ocio::BakeFailure;
use rvalt::ocio::BakeMessage;
use rvalt::ocio::ColorState;
use rvalt::ocio::ConfigRead;
use rvalt::ocio::BAKE_SIZE;

fn raw() -> ocio_rs::Config {
    ocio_rs::Config::raw().expect("the raw config is built in")
}

fn state() -> ColorState {
    ColorState::load_config(ConfigRead::Read { path: "/a.ocio".to_string(), config: raw() })
}

#[test]
fn missing_path_is_an_error() {
    let state = ColorState::load_config(ConfigRead::NoPath);
    assert_eq!(state.config_error.as_deref(), Some("OCIO path missing"));
    assert!(state.config.is_none() && state.config_path.is_none());
    assert!(state.available_displays.is_empty() && state.available_views.is_empty());
    assert_eq!(state.selected_display, "");
    assert_eq!(state.min_exp, Single { bits: 0 });
}

#[test]
fn failed_read_is_an_error() {
    let state = ColorState::load_config(ConfigRead::Failed("no such file".to_string()));
    assert_eq!(state.config_error.as_deref(), Some("no such file"));
    assert!(state.config.is_none());
    assert_eq!(state.src_color_space, "");
}

#[test]
fn config_offers_its_displays_and_views() {
    let config = raw();
    let displays: Vec<String> =
        (0..config.num_displays()).filter_map(|i| config.display(i)).collect();
    let first = displays.first().cloned().unwrap_or_default();
    let views: Vec<String> =
        (0..config.num_views(&first)).filter_map(|i| config.view(&first, i)).collect();
    let state = state();
    assert!(state.config.is_some() && state.config_error.is_none());
    assert_eq!(state.config_path.as_deref(), Some("/a.ocio"));
    assert_eq!(state.src_color_space, "ACEScg");
    assert_eq!(state.available_displays, displays);
    assert_eq!(state.selected_display, first);
    assert_eq!(state.selected_view, views.first().cloned().unwrap_or_default());
    assert_eq!(state.available_views, views);
    assert_eq!(f32::from_bits(state.min_exp.bits), -6.5);
    assert_eq!(f32::from_bits(state.max_exp.bits), 6.5);
}

#[test]
fn another_display_brings_its_own_views() {
    let config = raw();
    let display = config.display(0).unwrap_or("no such display".to_string());
    let views: Vec<String> =
        (0..config.num_views(&display)).filter_map(|i| config.view(&display, i)).collect();
    let mut state = state();
    state.change_view("left over".to_string());
    state.change_display(display.clone());
    assert_eq!(state.selected_display, display);
    assert_eq!(state.selected_view, views.first().cloned().unwrap_or_default());
    assert_eq!(state.available_views, views);
}

#[test]
fn display_cannot_change_without_a_config() {
    let mut state = ColorState::default();
    assert!(state.config_error.is_none());
    state.change_display("sRGB".to_string());
    assert_eq!(state.selected_display, "");
    state.change_view("Raw".to_string());
    assert_eq!(state.selected_view, "Raw");
}

#[test]
fn environment_says_where_the_config_lies() {
    assert_eq!(
        ColorState::resolve_ocio_config_path(Some("/x.ocio".to_string())).as_deref(),
        Some("/x.ocio")
    );
    assert_eq!(
        ColorState::resolve_ocio_config_path(None).as_deref(),
        Some("/Users/eyob/rvalt/assets/studio-config-v4.0.0_aces-v2.0_ocio-v2.5.ocio")
    );
}

#[test]
fn nothing_can_be_baked_without_a_config() {
    assert!(matches!(ColorState::default().bake_processor(), Err(BakeFailure::NoConfig)));
}

#[test]
fn names_with_a_nul_have_no_transform() {
    let mut state = state();
    state.change_view("a\0b".to_string());
    assert!(matches!(state.bake_processor(), Err(BakeFailure::Processor(_))));
    assert!(matches!(
        display_processor(&raw(), "ACEScg", "\0", "Raw"),
        Err(BakeFailure::Processor(_))
    ));
}

#[test]
fn transform_of_a_view_is_ready_to_be_applied() {
    assert!(display_processor(&raw(), "raw", "sRGB", "Raw").is_ok());
}

#[test]
fn chosen_display_and_view_are_asked_for() {
    assert!(ColorState::default().bake_request().is_none());
    let mut state = state();
    state.change_display("sRGB".to_string());
    state.change_view("Raw".to_string());
    let (_, src, display, view) = state.bake_request().unwrap();
    assert_eq!((src, display, view), ("ACEScg", "sRGB", "Raw"));
    state.src_color_space = "raw".to_string();
    assert_eq!(state.bake_request().unwrap().1, "raw");
    assert!(state.bake_processor().is_ok());
}

#[test]
fn baked_table_comes_with_its_range() {
    let (size, data, min_exp, max_exp) = BakeMessage::done(vec![1.0f32]).table().unwrap();
    assert_eq!(size, BAKE_SIZE);
    assert_eq!(size, 32);
    assert_eq!(data, vec![1.0]);
    assert_eq!(f32::from_bits(min_exp.bits), -6.5);
    assert_eq!(f32::from_bits(max_exp.bits), 6.5);
    assert!(BakeMessage::<f32>::Failed("no".to_string()).table().is_none());
}
