//! Configuration: overlay geometry and colours, with the defaults and
//! sanity checks applied when the configuration file is loaded.

use vstd::prelude::*;

use crate::color::{default_colors, resolve_colors, color_or, RawColors, ResolvedColors};
use crate::text::{join_path, joined};

verus! {

/// Overlay geometry in pixels. (The corner radii, which are fractional, are
/// kept by the program beside this.)
#[derive(Debug, Clone, Copy, PartialEq, Eq)]
pub struct Layout {
    /// Overlay width in pixels.
    pub width: u32,
    /// Maximum overlay height in pixels.
    pub max_height: u32,
    /// Height of each window item in pixels.
    pub item_height: u32,
    /// Spacing between items in pixels.
    pub item_spacing: u32,
    /// Padding around the overlay content in pixels.
    pub padding: u32,
}

/// The geometry used when the configuration gives none.
pub open spec fn default_layout() -> Layout {
    Layout { width: 500, max_height: 600, item_height: 48, item_spacing: 8, padding: 16 }
}

impl Default for Layout {
    fn default() -> (r: Self)
        ensures
            r == default_layout(),
    {
        Layout { width: 500, max_height: 600, item_height: 48, item_spacing: 8, padding: 16 }
    }
}

/// Smallest accepted overlay width.
pub const MIN_WIDTH: u32 = 100;

/// Smallest accepted maximum overlay height.
pub const MIN_MAX_HEIGHT: u32 = 100;

/// Smallest accepted item height.
pub const MIN_ITEM_HEIGHT: u32 = 16;

/// `layout` with every field that is below its sane minimum replaced by its default.
pub open spec fn validated(layout: Layout) -> Layout {
    Layout {
        width: if layout.width < MIN_WIDTH { default_layout().width } else { layout.width },
        max_height: if layout.max_height < MIN_MAX_HEIGHT {
            default_layout().max_height
        } else {
            layout.max_height
        },
        item_height: if layout.item_height < MIN_ITEM_HEIGHT {
            default_layout().item_height
        } else {
            layout.item_height
        },
        item_spacing: layout.item_spacing,
        padding: layout.padding,
    }
}

/// Validate layout values: a width or maximum height under 100, or an item
/// height under 16, is replaced by its default.
pub fn validate_layout(layout: &mut Layout)
    ensures
        *final(layout) == validated(*old(layout)),
{
    let defaults = Layout::default();
    if layout.width < MIN_WIDTH {
        layout.width = defaults.width;
    }
    if layout.max_height < MIN_MAX_HEIGHT {
        layout.max_height = defaults.max_height;
    }
    if layout.item_height < MIN_ITEM_HEIGHT {
        layout.item_height = defaults.item_height;
    }
}

/// Top-level configuration.
#[derive(Debug, Clone, Copy, PartialEq, Eq)]
pub struct Config {
    pub colors: ResolvedColors,
    pub layout: Layout,
}

impl Default for Config {
    fn default() -> (r: Self)
        ensures
            r.colors == default_colors(),
            r.layout == default_layout(),
    {
        Config { colors: ResolvedColors::default(), layout: Layout::default() }
    }
}

/// Configuration as read from the configuration file, before it is checked.
#[derive(Debug, Clone)]
pub struct RawConfig {
    pub colors: RawColors,
    pub layout: Layout,
}

impl Default for RawConfig {
    fn default() -> (r: Self)
        ensures
            r.colors.background@ == "#1E1E1EE6"@,
            r.colors.item@ == "#323232"@,
            r.colors.selected@ == "#3C78D8"@,
            r.colors.title@ == "#FFFFFF"@,
            r.colors.app_id@ == "#AAAAAA"@,
            r.layout == default_layout(),
    {
        RawConfig { colors: RawColors::default(), layout: Layout::default() }
    }
}

/// Turn what the configuration file holds into the configuration in use: each
/// colour string is parsed (its default where it does not parse) and the
/// layout is validated.
pub fn resolve_config(raw: RawConfig) -> (r: Config)
    ensures
        r.colors.background == color_or(raw.colors.background@, default_colors().background),
        r.colors.item == color_or(raw.colors.item@, default_colors().item),
        r.colors.selected == color_or(raw.colors.selected@, default_colors().selected),
        r.colors.title == color_or(raw.colors.title@, default_colors().title),
        r.colors.app_id == color_or(raw.colors.app_id@, default_colors().app_id),
        r.layout == validated(raw.layout),
{
    let colors = resolve_colors(&raw.colors);
    let mut layout = raw.layout;
    validate_layout(&mut layout);
    Config { colors, layout }
}

/// Smallest overlay height.
pub const MIN_OVERLAY_HEIGHT: u32 = 80;

/// The window count as the 32-bit number the height is computed with.
pub open spec fn count32(num_windows: usize) -> int {
    num_windows as int % 0x1_0000_0000
}

/// The content height for `num_windows` items: padding above and below, and
/// the items with the spacing between them.
pub open spec fn content_height(num_windows: usize, layout: Layout) -> int {
    layout.padding * 2 + count32(num_windows) * (layout.item_height + layout.item_spacing)
        - layout.item_spacing
}

/// Every step of the height computation stays within `u32`.
pub open spec fn overlay_size_fits(num_windows: usize, layout: Layout) -> bool {
    &&& layout.padding * 2 <= u32::MAX
    &&& layout.item_height + layout.item_spacing <= u32::MAX
    &&& count32(num_windows) * (layout.item_height + layout.item_spacing) <= u32::MAX
    &&& layout.padding * 2 + count32(num_windows) * (layout.item_height + layout.item_spacing)
        <= u32::MAX
    &&& 0 <= content_height(num_windows, layout)
}

/// Overlay size: the configured width, and the content height clamped to at
/// least 80 and then to at most the maximum height.
pub open spec fn overlay_size(num_windows: usize, layout: Layout) -> (u32, u32) {
    let h = content_height(num_windows, layout);
    let h1 = if h < MIN_OVERLAY_HEIGHT { MIN_OVERLAY_HEIGHT as int } else { h };
    let h2 = if h1 > layout.max_height { layout.max_height as int } else { h1 };
    (layout.width, h2 as u32)
}

/// Calculate overlay dimensions based on number of windows and config.
pub fn calc_overlay_size(num_windows: usize, config: &Config) -> (r: (u32, u32))
    requires
        overlay_size_fits(num_windows, config.layout),
    ensures
        r == overlay_size(num_windows, config.layout),
{
    let width = config.layout.width;
    let padding = config.layout.padding;
    let item_h = config.layout.item_height;
    let item_sp = config.layout.item_spacing;
    let n: u32 = count_as_u32(num_windows);
    let height = padding * 2 + n * (item_h + item_sp) - item_sp;
    let height = if height < MIN_OVERLAY_HEIGHT { MIN_OVERLAY_HEIGHT } else { height };
    let height = if height > config.layout.max_height { config.layout.max_height } else { height };
    (width, height)
}

/// Whether the height computation for `num_windows` items stays within `u32`
/// (what `calc_overlay_size` requires).
pub fn overlay_size_ok(num_windows: usize, layout: &Layout) -> (r: bool)
    ensures
        r == overlay_size_fits(num_windows, *layout),
{
    let n = count_as_u32(num_windows) as u64;
    let padding2 = (layout.padding as u64) * 2;
    let per_item = (layout.item_height as u64) + (layout.item_spacing as u64);
    if padding2 > 0xffff_ffff || per_item > 0xffff_ffff {
        return false;
    }
    assert(n * per_item <= 0xffff_ffff * 0xffff_ffff) by (nonlinear_arith)
        requires
            n <= 0xffff_ffff,
            per_item <= 0xffff_ffff,
    ;
    let items = n * per_item;
    if items > 0xffff_ffff {
        return false;
    }
    let total = padding2 + items;
    total <= 0xffff_ffff && total >= layout.item_spacing as u64
}

fn count_as_u32(n: usize) -> (r: u32)
    ensures
        r == count32(n),
{
    let m = n as u64;
    let r = #[verifier::truncate] (m as u32);
    assert(r == m % 0x1_0000_0000) by (bit_vector)
        requires
            r == #[verifier::truncate] (m as u32),
    ;
    r
}

/// The configuration directory: `$XDG_CONFIG_HOME`, else `$HOME/.config`
/// (with `/tmp` standing for an unset `HOME`).
pub open spec fn config_dir_for(xdg_config_home: Option<Seq<char>>, home: Option<Seq<char>>) -> Seq<char> {
    match xdg_config_home {
        Some(d) => d,
        None => joined(
            match home {
                Some(h) => h,
                None => "/tmp"@,
            },
            ".config"@,
        ),
    }
}

/// The configuration file path, given the values of `XDG_CONFIG_HOME` and
/// `HOME` (`None` where unset): `alttab/config.toml` in the configuration directory.
pub fn config_path(xdg_config_home: Option<&str>, home: Option<&str>) -> (r: String)
    ensures
        r@ == joined(
            joined(
                config_dir_for(
                    match xdg_config_home {
                        Some(d) => Some(d@),
                        None => None,
                    },
                    match home {
                        Some(h) => Some(h@),
                        None => None,
                    },
                ),
                "alttab"@,
            ),
            "config.toml"@,
        ),
{
    let dir = match xdg_config_home {
        Some(d) => String::from_str(d),
        None => {
            let home_dir = match home {
                Some(h) => h,
                None => "/tmp",
            };
            join_path(home_dir, ".config")
        },
    };
    let app_dir = join_path(dir.as_str(), "alttab");
    join_path(app_dir.as_str(), "config.toml")
}

/// Validation is idempotent, and a validated layout meets the minimums.
pub proof fn lemma_validated_sane(layout: Layout)
    ensures
        validated(validated(layout)) == validated(layout),
        validated(layout).width >= MIN_WIDTH,
        validated(layout).max_height >= MIN_MAX_HEIGHT,
        validated(layout).item_height >= MIN_ITEM_HEIGHT,
{
}

/// The overlay is never taller than the maximum height, and never shorter than
/// 80 pixels unless the maximum height is.
pub proof fn lemma_overlay_height_bounds(num_windows: usize, layout: Layout)
    ensures
        overlay_size(num_windows, layout).1 <= layout.max_height,
        layout.max_height >= MIN_OVERLAY_HEIGHT ==> overlay_size(num_windows, layout).1
            >= MIN_OVERLAY_HEIGHT,
        overlay_size(num_windows, layout).0 == layout.width,
{
}

} // verus!
