use alttab::color::{argb_from_hex, pack_argb, parse_hex_color, resolve_colors, RawColors, ResolvedColors};
use alttab::config::{calc_overlay_size, config_path, resolve_config, validate_layout, Config, Layout, RawConfig};

#[test]
fn parses_six_digit_colors_as_opaque() {
    assert_eq!(parse_hex_color("#FF0000"), Some((255, 0, 0, 255)));
    assert_eq!(parse_hex_color("#3c78d8"), Some((60, 120, 216, 255)));
}

#[test]
fn parses_eight_digit_colors_with_alpha() {
    assert_eq!(parse_hex_color("#00FF0080"), Some((0, 255, 0, 128)));
    assert_eq!(parse_hex_color("#1E1E1EE6"), Some((30, 30, 30, 230)));
}

#[test]
fn hash_is_optional() {
    assert_eq!(parse_hex_color("AABBCC"), Some((170, 187, 204, 255)));
    assert_eq!(parse_hex_color("aabbccdd"), Some((170, 187, 204, 221)));
}

#[test]
fn rejects_bad_lengths_and_digits() {
    assert_eq!(parse_hex_color("#FFF"), None);
    assert_eq!(parse_hex_color("#FFFFFFF"), None);
    assert_eq!(parse_hex_color(""), None);
    assert_eq!(parse_hex_color("#"), None);
    assert_eq!(parse_hex_color("#GG0000"), None);
    assert_eq!(parse_hex_color("##FF0000"), None);
    assert_eq!(parse_hex_color("#-10000"), None);
}

#[test]
fn plus_signs_are_not_hex_digits() {
    assert_eq!(parse_hex_color("#+F+F+F"), None);
    assert_eq!(parse_hex_color("#+1+2+3"), None);
    assert_eq!(parse_hex_color("#++0000"), None);
    assert_eq!(parse_hex_color("#0F0F0F+F"), None);
}

#[test]
fn non_ascii_text_never_parses() {
    assert_eq!(parse_hex_color("#é1234"), None);
    assert_eq!(parse_hex_color("#a€bc"), None);
    assert_eq!(parse_hex_color("ÿÿÿÿÿÿ"), None);
}

#[test]
fn invalid_colors_fall_back_to_defaults() {
    let raw = RawColors {
        background: "nonsense".to_string(),
        item: "#010203".to_string(),
        selected: "#12".to_string(),
        title: "#FFFFFF00".to_string(),
        app_id: "".to_string(),
    };
    let c = resolve_colors(&raw);
    let d = ResolvedColors::default();
    assert_eq!(c.background, d.background);
    assert_eq!(c.item, (1, 2, 3, 255));
    assert_eq!(c.selected, d.selected);
    assert_eq!(c.title, (255, 255, 255, 0));
    assert_eq!(c.app_id, d.app_id);
}

#[test]
fn default_strings_resolve_to_default_colors() {
    let c = resolve_colors(&RawColors::default());
    assert_eq!(c, ResolvedColors::default());
    assert_eq!(c.background, (30, 30, 30, 230));
    assert_eq!(c.item, (50, 50, 50, 255));
    assert_eq!(c.selected, (60, 120, 216, 255));
    assert_eq!(c.title, (255, 255, 255, 255));
    assert_eq!(c.app_id, (170, 170, 170, 255));
}

#[test]
fn packs_argb() {
    assert_eq!(pack_argb((0x11, 0x22, 0x33, 0x44)), 0x4411_2233);
    assert_eq!(argb_from_hex("#11223344", (0, 0, 0, 0)), 0x4411_2233);
    assert_eq!(argb_from_hex("bad", (1, 2, 3, 4)), 0x0401_0203);
    assert_eq!(argb_from_hex("#FFFFFF", (0, 0, 0, 0)), 0xFFFF_FFFF);
}

#[test]
fn layout_values_below_minimum_get_defaults() {
    let mut l = Layout { width: 99, max_height: 50, item_height: 15, item_spacing: 0, padding: 0 };
    validate_layout(&mut l);
    assert_eq!(l, Layout { width: 500, max_height: 600, item_height: 48, item_spacing: 0, padding: 0 });
    let mut ok = Layout { width: 100, max_height: 100, item_height: 16, item_spacing: 3, padding: 4 };
    validate_layout(&mut ok);
    assert_eq!(ok, Layout { width: 100, max_height: 100, item_height: 16, item_spacing: 3, padding: 4 });
}

#[test]
fn validation_is_idempotent() {
    let mut l = Layout { width: 1, max_height: 2, item_height: 3, item_spacing: 4, padding: 5 };
    validate_layout(&mut l);
    let once = l;
    validate_layout(&mut l);
    assert_eq!(l, once);
}

#[test]
fn overlay_height_follows_window_count() {
    let config = Config::default();
    assert_eq!(calc_overlay_size(3, &config), (500, 192));
    assert_eq!(calc_overlay_size(2, &config), (500, 136));
    assert_eq!(calc_overlay_size(1, &config), (500, 80));
    assert_eq!(calc_overlay_size(0, &config), (500, 80));
    assert_eq!(calc_overlay_size(20, &config), (500, 600));
}

#[test]
fn overlay_height_is_capped_by_a_small_maximum() {
    let mut config = Config::default();
    config.layout.max_height = 60;
    assert_eq!(calc_overlay_size(2, &config), (500, 60));
}

#[test]
fn raw_config_resolves() {
    let mut raw = RawConfig::default();
    raw.layout.width = 10;
    raw.colors.item = "#000000".to_string();
    let c = resolve_config(raw);
    assert_eq!(c.layout.width, 500);
    assert_eq!(c.colors.item, (0, 0, 0, 255));
    assert_eq!(c.colors.background, (30, 30, 30, 230));
}

#[test]
fn config_path_prefers_xdg_config_home() {
    assert_eq!(config_path(Some("/x/cfg"), Some("/home/u")), "/x/cfg/alttab/config.toml");
    assert_eq!(config_path(None, Some("/home/u")), "/home/u/.config/alttab/config.toml");
    assert_eq!(config_path(None, None), "/tmp/.config/alttab/config.toml");
    assert_eq!(config_path(Some("/x/cfg/"), None), "/x/cfg/alttab/config.toml");
}
