//! Colours: parsing `#RRGGBB` / `#RRGGBBAA` strings and packing them as ARGB.

use vstd::prelude::*;

verus! {

/// An RGBA colour: red, green, blue, alpha.
pub type Rgba = (u8, u8, u8, u8);

/// Value of a hexadecimal digit (`0-9`, `a-f`, `A-F`).
pub open spec fn hex_digit(c: char) -> Option<u8> {
    if '0' <= c && c <= '9' {
        Some((c as int - '0' as int) as u8)
    } else if 'a' <= c && c <= 'f' {
        Some((c as int - 'a' as int + 10) as u8)
    } else if 'A' <= c && c <= 'F' {
        Some((c as int - 'A' as int + 10) as u8)
    } else {
        None
    }
}

/// Two hexadecimal digits, high then low, read as a byte; `None` unless both
/// characters are hex digits.
pub open spec fn byte_field(hi: char, lo: char) -> Option<u8> {
    match (hex_digit(hi), hex_digit(lo)) {
        (Some(h), Some(l)) => Some((h * 16 + l) as u8),
        _ => None,
    }
}

/// The byte stored at characters `i` and `i + 1` of `s`.
pub open spec fn byte_at(s: Seq<char>, i: int) -> Option<u8> {
    byte_field(s[i], s[i + 1])
}

/// `s` without one leading `#`, if it has one.
pub open spec fn strip_hash(s: Seq<char>) -> Seq<char> {
    if s.len() > 0 && s[0] == '#' {
        s.drop_first()
    } else {
        s
    }
}

/// What `#RRGGBB` or `#RRGGBBAA` (the `#` optional) denotes; `None` for any
/// other string. Six digits give an opaque colour.
pub open spec fn hex_color(s: Seq<char>) -> Option<Rgba> {
    let t = strip_hash(s);
    if t.len() == 6 {
        match (byte_at(t, 0), byte_at(t, 2), byte_at(t, 4)) {
            (Some(r), Some(g), Some(b)) => Some((r, g, b, 255u8)),
            _ => None,
        }
    } else if t.len() == 8 {
        match (byte_at(t, 0), byte_at(t, 2), byte_at(t, 4), byte_at(t, 6)) {
            (Some(r), Some(g), Some(b), Some(a)) => Some((r, g, b, a)),
            _ => None,
        }
    } else {
        None
    }
}

fn hex_digit_value(c: char) -> (r: Option<u8>)
    ensures
        r == hex_digit(c),
{
    if '0' <= c && c <= '9' {
        Some(((c as u32) - ('0' as u32)) as u8)
    } else if 'a' <= c && c <= 'f' {
        Some(((c as u32) - ('a' as u32) + 10) as u8)
    } else if 'A' <= c && c <= 'F' {
        Some(((c as u32) - ('A' as u32) + 10) as u8)
    } else {
        None
    }
}

fn parse_byte_field(hi: char, lo: char) -> (r: Option<u8>)
    ensures
        r == byte_field(hi, lo),
{
    match (hex_digit_value(hi), hex_digit_value(lo)) {
        (Some(h), Some(l)) => Some(h * 16 + l),
        _ => None,
    }
}

/// Parse a hex colour string like `"#RRGGBB"` or `"#RRGGBBAA"` into `(r, g, b, a)`.
///
/// The leading `#` is optional; six digits give alpha 255. Each field is two
/// hex digits read as a byte in base 16. Any other string gives `None`; in particular a string holding a character
/// outside ASCII never parses.
pub fn parse_hex_color(s: &str) -> (r: Option<Rgba>)
    ensures
        r == hex_color(s@),
{
    let n = s.unicode_len();
    let start: usize = if n > 0 && s.get_char(0) == '#' { 1 } else { 0 };
    let ghost t = strip_hash(s@);
    assert(t.len() == n - start);
    assert(forall|i: int| 0 <= i < t.len() ==> t[i] == s@[i + start]);
    let len = n - start;
    if len != 6 && len != 8 {
        return None;
    }
    let r = parse_byte_field(s.get_char(start), s.get_char(start + 1));
    let g = parse_byte_field(s.get_char(start + 2), s.get_char(start + 3));
    let b = parse_byte_field(s.get_char(start + 4), s.get_char(start + 5));
    if len == 6 {
        match (r, g, b) {
            (Some(r), Some(g), Some(b)) => Some((r, g, b, 255u8)),
            _ => None,
        }
    } else {
        let a = parse_byte_field(s.get_char(start + 6), s.get_char(start + 7));
        match (r, g, b, a) {
            (Some(r), Some(g), Some(b), Some(a)) => Some((r, g, b, a)),
            _ => None,
        }
    }
}


/// Resolved colour values (parsed from hex strings at load time).
#[derive(Debug, Clone, Copy, PartialEq, Eq)]
pub struct ResolvedColors {
    pub background: Rgba,
    pub item: Rgba,
    pub selected: Rgba,
    pub title: Rgba,
    pub app_id: Rgba,
}

/// The colours used when the configuration gives none (or an invalid one).
pub open spec fn default_colors() -> ResolvedColors {
    ResolvedColors {
        background: (30u8, 30u8, 30u8, 230u8),
        item: (50u8, 50u8, 50u8, 255u8),
        selected: (60u8, 120u8, 216u8, 255u8),
        title: (255u8, 255u8, 255u8, 255u8),
        app_id: (170u8, 170u8, 170u8, 255u8),
    }
}

impl Default for ResolvedColors {
    fn default() -> (r: Self)
        ensures
            r == default_colors(),
    {
        ResolvedColors {
            background: (30, 30, 30, 230),
            item: (50, 50, 50, 255),
            selected: (60, 120, 216, 255),
            title: (255, 255, 255, 255),
            app_id: (170, 170, 170, 255),
        }
    }
}

/// Colour configuration as written in the configuration file: hex strings,
/// `"#RRGGBB"` or `"#RRGGBBAA"`.
#[derive(Debug, Clone)]
pub struct RawColors {
    pub background: String,
    pub item: String,
    pub selected: String,
    pub title: String,
    pub app_id: String,
}

impl Default for RawColors {
    fn default() -> (r: Self)
        ensures
            r.background@ == "#1E1E1EE6"@,
            r.item@ == "#323232"@,
            r.selected@ == "#3C78D8"@,
            r.title@ == "#FFFFFF"@,
            r.app_id@ == "#AAAAAA"@,
    {
        RawColors {
            background: String::from_str("#1E1E1EE6"),
            item: String::from_str("#323232"),
            selected: String::from_str("#3C78D8"),
            title: String::from_str("#FFFFFF"),
            app_id: String::from_str("#AAAAAA"),
        }
    }
}

/// `s` parsed as a hex colour, or `fallback` where it does not parse.
pub open spec fn color_or(s: Seq<char>, fallback: Rgba) -> Rgba {
    match hex_color(s) {
        Some(c) => c,
        None => fallback,
    }
}

fn parse_hex_color_or(s: &str, fallback: Rgba) -> (r: Rgba)
    ensures
        r == color_or(s@, fallback),
{
    match parse_hex_color(s) {
        Some(c) => c,
        None => fallback,
    }
}

/// Resolve raw hex colour strings into RGBA tuples, using the default colour
/// of each field whose string does not parse.
pub fn resolve_colors(raw: &RawColors) -> (r: ResolvedColors)
    ensures
        r.background == color_or(raw.background@, default_colors().background),
        r.item == color_or(raw.item@, default_colors().item),
        r.selected == color_or(raw.selected@, default_colors().selected),
        r.title == color_or(raw.title@, default_colors().title),
        r.app_id == color_or(raw.app_id@, default_colors().app_id),
{
    let defaults = ResolvedColors::default();
    ResolvedColors {
        background: parse_hex_color_or(raw.background.as_str(), defaults.background),
        item: parse_hex_color_or(raw.item.as_str(), defaults.item),
        selected: parse_hex_color_or(raw.selected.as_str(), defaults.selected),
        title: parse_hex_color_or(raw.title.as_str(), defaults.title),
        app_id: parse_hex_color_or(raw.app_id.as_str(), defaults.app_id),
    }
}

/// A colour packed as one ARGB word: alpha in the top byte, then red, green, blue.
pub open spec fn argb_word(c: Rgba) -> u32 {
    (c.3 as int * 0x1000000 + c.0 as int * 0x10000 + c.1 as int * 0x100 + c.2 as int) as u32
}

/// Pack a colour as `0xAARRGGBB`.
pub fn pack_argb(c: Rgba) -> (r: u32)
    ensures
        r == argb_word(c),
{
    let (rr, g, b, a) = c;
    let (a32, r32, g32, b32) = (a as u32, rr as u32, g as u32, b as u32);
    assert((a32 << 24u32 | r32 << 16u32 | g32 << 8u32 | b32) == a32 * 0x1000000 + r32 * 0x10000 + g32
        * 0x100 + b32) by (bit_vector)
        requires
            a32 < 256,
            r32 < 256,
            g32 < 256,
            b32 < 256,
    ;
    a32 << 24u32 | r32 << 16u32 | g32 << 8u32 | b32
}

/// Parse `hex` as a colour (falling back to `fallback` where it does not
/// parse) and pack it as `0xAARRGGBB`.
pub fn argb_from_hex(hex: &str, fallback: Rgba) -> (r: u32)
    ensures
        r == argb_word(color_or(hex@, fallback)),
{
    pack_argb(parse_hex_color_or(hex, fallback))
}

/// The default colour strings of the configuration file denote exactly the
/// default colours, so an absent colour and a default one look the same.
pub proof fn lemma_default_strings_denote_default_colors()
    ensures
        hex_color("#1E1E1EE6"@) == Some(default_colors().background),
        hex_color("#323232"@) == Some(default_colors().item),
        hex_color("#3C78D8"@) == Some(default_colors().selected),
        hex_color("#FFFFFF"@) == Some(default_colors().title),
        hex_color("#AAAAAA"@) == Some(default_colors().app_id),
{
    reveal_strlit("#1E1E1EE6");
    reveal_strlit("#323232");
    reveal_strlit("#3C78D8");
    reveal_strlit("#FFFFFF");
    reveal_strlit("#AAAAAA");
    assert(strip_hash("#1E1E1EE6"@) =~= seq!['1', 'E', '1', 'E', '1', 'E', 'E', '6']);
    assert(strip_hash("#323232"@) =~= seq!['3', '2', '3', '2', '3', '2']);
    assert(strip_hash("#3C78D8"@) =~= seq!['3', 'C', '7', '8', 'D', '8']);
    assert(strip_hash("#FFFFFF"@) =~= seq!['F', 'F', 'F', 'F', 'F', 'F']);
    assert(strip_hash("#AAAAAA"@) =~= seq!['A', 'A', 'A', 'A', 'A', 'A']);
}

} // verus!
