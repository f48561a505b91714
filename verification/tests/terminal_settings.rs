use sixel::environment::Environment;
use sixel::settings::Settings;
use sixel::terminal::{Capabilities, WindowSize};

fn window(width: Option<u16>, height: Option<u16>) -> WindowSize {
    WindowSize { rows: 24, cols: 80, width, height }
}

#[test]
fn palette_size_of_direct_color_terminal_is_none() {
    let caps = Capabilities { true_color: true, max_colors: Some(256) };
    assert_eq!(caps.palette_size(), None);
}

#[test]
fn palette_size_follows_max_colors() {
    let caps = Capabilities { true_color: false, max_colors: Some(256) };
    assert_eq!(caps.palette_size(), Some(256));
}

#[test]
fn palette_size_defaults_to_two() {
    let caps = Capabilities { true_color: false, max_colors: None };
    assert_eq!(caps.palette_size(), Some(2));
}

#[test]
fn palette_size_truncates_to_sixteen_bits() {
    let caps = Capabilities { true_color: false, max_colors: Some(65536 + 16) };
    assert_eq!(caps.palette_size(), Some(16));
}

#[test]
fn cell_divides_pixels_by_cells() {
    assert_eq!(window(Some(800), Some(480)).cell(), Some((10, 20)));
    assert_eq!(window(Some(805), Some(490)).cell(), Some((10, 20)));
}

#[test]
fn cell_needs_both_pixel_sizes() {
    assert_eq!(window(Some(800), None).cell(), None);
    assert_eq!(window(None, Some(480)).cell(), None);
    assert_eq!(window(None, None).cell(), None);
}

#[test]
fn new_builder_builds_empty_settings() {
    let settings = Settings::new().build(None, None);
    assert_eq!(settings.colors(), None);
    assert_eq!(settings.size(), None);
    assert_eq!(settings.cell(), None);
}

#[test]
fn builder_values_survive_build() {
    let mut builder = Settings::new();
    builder.colors(16).size(320, 240);
    let caps = Capabilities { true_color: false, max_colors: Some(256) };
    let settings = builder.build(Some(caps), Some(window(Some(800), Some(480))));
    assert_eq!(settings.colors(), Some(16));
    assert_eq!(settings.size(), Some((320, 240)));
    assert_eq!(settings.cell(), Some((10, 20)));
}

#[test]
fn build_takes_colors_from_terminal_when_unset() {
    let caps = Capabilities { true_color: false, max_colors: Some(88) };
    let settings = Settings::new().build(Some(caps), None);
    assert_eq!(settings.colors(), Some(88));
    let direct = Capabilities { true_color: true, max_colors: Some(88) };
    assert_eq!(Settings::new().build(Some(direct), None).colors(), None);
}

#[test]
fn later_setting_wins() {
    let mut builder = Settings::new();
    builder.colors(16);
    builder.colors(256);
    builder.size(1, 2);
    builder.size(3, 4);
    let settings = builder.build(None, None);
    assert_eq!(settings.colors(), Some(256));
    assert_eq!(settings.size(), Some((3, 4)));
}

#[test]
fn environment_from_terminal() {
    let caps = Capabilities { true_color: false, max_colors: Some(8) };
    let env = Environment::from_terminal(caps, window(Some(800), Some(480)));
    assert_eq!(env.colors(), Some(8));
    assert_eq!(env.limits(), (80, 24));
    assert_eq!(env.cell(), Some((10, 20)));
}

#[test]
fn environment_size_and_padding_scale_cells() {
    let caps = Capabilities { true_color: true, max_colors: None };
    let env = Environment::from_terminal(caps, window(Some(800), Some(480)));
    assert_eq!(env.size(4, 3), Some((40, 60)));
    assert_eq!(env.padding(2), Some((20, 40)));
}

#[test]
fn environment_without_cell_has_no_size() {
    let caps = Capabilities { true_color: true, max_colors: None };
    let env = Environment::from_terminal(caps, window(None, None));
    assert_eq!(env.colors(), None);
    assert_eq!(env.size(4, 3), None);
    assert_eq!(env.padding(2), None);
}
