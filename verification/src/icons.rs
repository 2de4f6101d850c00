//! Application icons: decoding PNG files into RGBA pixels, the per-app-id
//! cache, the directories searched, and finding an app's icon name from its
//! desktop entry.

use vstd::prelude::*;

use crate::desktop::{
    desktop_dirs_for, find_desktop_dirs, find_icon_dirs, find_icon_name, icon_candidates,
    icon_dirs_for, icon_files_for, icon_name_for, opt_view, string_views, DesktopFile,
};

verus! {

/// RGBA pixel data for a loaded icon.
#[derive(Clone)]
pub struct IconData {
    pub width: u32,
    pub height: u32,
    /// RGBA pixel data, row-major.
    pub pixels: Vec<u8>,
}

/// The pixel layout of a decoded PNG frame.
#[derive(Debug, Clone, Copy, PartialEq, Eq, Structural)]
pub enum PixelFormat {
    /// One grey sample.
    Grayscale,
    /// Red, green and blue samples.
    Rgb,
    /// One palette index.
    Indexed,
    /// A grey sample, then an alpha sample.
    GrayscaleAlpha,
    /// Red, green, blue and alpha samples.
    Rgba,
}

/// The first frame of a PNG image: width, height, pixel layout, the output
/// buffer the frame was decoded into, and how many of its bytes the frame fills.
pub type DecodedFrame = (u32, u32, PixelFormat, Vec<u8>, usize);

/// What decoding the first frame of the PNG file `bytes` gives, with the
/// decoder's default settings (no transformation); `None` where it fails.
pub uninterp spec fn png_first_frame(bytes: Seq<u8>) -> Option<(u32, u32, PixelFormat, Seq<u8>, usize)>;

/// A decoded frame with its buffer taken by its view.
pub open spec fn frame_view(f: Option<DecodedFrame>) -> Option<(u32, u32, PixelFormat, Seq<u8>, usize)> {
    match f {
        Some(t) => Some((t.0, t.1, t.2, t.3@, t.4)),
        None => None,
    }
}

/// Decodes the first frame of a PNG file with the `png` crate
/// (`Decoder::new`, `read_info`, `next_frame` into a buffer of
/// `output_buffer_size()` bytes). The result is named `png_first_frame` of the
/// bytes: what the frame holds is not stated here. Allocating the buffer may
/// abort on an image whose header claims an enormous size.
#[verifier::external_body]
fn decode_png(bytes: &[u8]) -> (r: Option<DecodedFrame>)
    ensures
        frame_view(r) == png_first_frame(bytes@),
{
    let mut reader = png::Decoder::new(bytes).read_info().ok()?;
    let mut buf = vec![0u8; reader.output_buffer_size()];
    let info = reader.next_frame(&mut buf).ok()?;
    let format = match info.color_type {
        png::ColorType::Grayscale => PixelFormat::Grayscale,
        png::ColorType::Rgb => PixelFormat::Rgb,
        png::ColorType::Indexed => PixelFormat::Indexed,
        png::ColorType::GrayscaleAlpha => PixelFormat::GrayscaleAlpha,
        png::ColorType::Rgba => PixelFormat::Rgba,
    };
    Some((info.width, info.height, format, buf, info.buffer_size()))
}

/// Bytes `4k .. 4k + 4` of `s`.
pub open spec fn quad(s: Seq<u8>, k: int) -> (u8, u8, u8, u8) {
    (s[4 * k], s[4 * k + 1], s[4 * k + 2], s[4 * k + 3])
}

/// `out` is `data` (samples in `format`) as RGBA: RGB gets alpha 255, grey is
/// repeated into red, green and blue; bytes that do not make a whole pixel
/// are left out.
pub open spec fn rgba_expansion(format: PixelFormat, data: Seq<u8>, out: Seq<u8>) -> bool {
    match format {
        PixelFormat::Rgba => out == data,
        PixelFormat::Rgb => {
            &&& out.len() == 4 * (data.len() / 3)
            &&& forall|k: int|
                0 <= k < data.len() / 3 ==> #[trigger] quad(out, k) == (
                    data[3 * k],
                    data[3 * k + 1],
                    data[3 * k + 2],
                    255u8,
                )
        },
        PixelFormat::GrayscaleAlpha => {
            &&& out.len() == 4 * (data.len() / 2)
            &&& forall|k: int|
                0 <= k < data.len() / 2 ==> #[trigger] quad(out, k) == (
                    data[2 * k],
                    data[2 * k],
                    data[2 * k],
                    data[2 * k + 1],
                )
        },
        PixelFormat::Grayscale => {
            &&& out.len() == 4 * data.len()
            &&& forall|k: int|
                0 <= k < data.len() ==> #[trigger] quad(out, k) == (data[k], data[k], data[k], 255u8)
        },
        PixelFormat::Indexed => false,
    }
}

/// Convert decoded samples to RGBA; palette images are not handled.
pub fn to_rgba(format: PixelFormat, data: &[u8]) -> (r: Option<Vec<u8>>)
    ensures
        r is None <==> format == PixelFormat::Indexed,
        r matches Some(v) ==> rgba_expansion(format, data@, v@),
{
    match format {
        PixelFormat::Rgba => {
            let mut out: Vec<u8> = Vec::new();
            let n = data.len();
            for i in 0..n
                invariant
                    n == data@.len(),
                    out@ == data@.take(i as int),
            {
                out.push(data[i]);
                assert(out@ =~= data@.take(i + 1));
            }
            assert(out@ =~= data@);
            Some(out)
        },
        PixelFormat::Rgb => {
            let mut out: Vec<u8> = Vec::new();
            let len = data.len();
            let n = len / 3;
            for k in 0..n
                invariant
                    n == data@.len() / 3,
                    len == data@.len(),
                    out@.len() == 4 * k,
                    forall|j: int|
                        0 <= j < k ==> #[trigger] quad(out@, j) == (
                            data@[3 * j],
                            data@[3 * j + 1],
                            data@[3 * j + 2],
                            255u8,
                        ),
            {
                assert(3 * k + 3 <= len) by (nonlinear_arith)
                    requires
                        k < n,
                        n == len / 3,
                ;
                let ghost before = out@;
                out.push(data[3 * k]);
                out.push(data[3 * k + 1]);
                out.push(data[3 * k + 2]);
                out.push(255u8);
                assert forall|j: int| 0 <= j < k + 1 implies #[trigger] quad(out@, j) == (
                    data@[3 * j],
                    data@[3 * j + 1],
                    data@[3 * j + 2],
                    255u8,
                ) by {
                    if j < k {
                        assert(quad(out@, j) == quad(before, j));
                    }
                }
            }
            Some(out)
        },
        PixelFormat::GrayscaleAlpha => {
            let mut out: Vec<u8> = Vec::new();
            let len = data.len();
            let n = len / 2;
            for k in 0..n
                invariant
                    n == data@.len() / 2,
                    len == data@.len(),
                    out@.len() == 4 * k,
                    forall|j: int|
                        0 <= j < k ==> #[trigger] quad(out@, j) == (
                            data@[2 * j],
                            data@[2 * j],
                            data@[2 * j],
                            data@[2 * j + 1],
                        ),
            {
                assert(2 * k + 2 <= len) by (nonlinear_arith)
                    requires
                        k < n,
                        n == len / 2,
                ;
                let ghost before = out@;
                let g = data[2 * k];
                out.push(g);
                out.push(g);
                out.push(g);
                out.push(data[2 * k + 1]);
                assert forall|j: int| 0 <= j < k + 1 implies #[trigger] quad(out@, j) == (
                    data@[2 * j],
                    data@[2 * j],
                    data@[2 * j],
                    data@[2 * j + 1],
                ) by {
                    if j < k {
                        assert(quad(out@, j) == quad(before, j));
                    }
                }
            }
            Some(out)
        },
        PixelFormat::Grayscale => {
            let mut out: Vec<u8> = Vec::new();
            let n = data.len();
            for k in 0..n
                invariant
                    n == data@.len(),
                    out@.len() == 4 * k,
                    forall|j: int|
                        0 <= j < k ==> #[trigger] quad(out@, j) == (
                            data@[j],
                            data@[j],
                            data@[j],
                            255u8,
                        ),
            {
                let ghost before = out@;
                let g = data[k];
                out.push(g);
                out.push(g);
                out.push(g);
                out.push(255u8);
                assert forall|j: int| 0 <= j < k + 1 implies #[trigger] quad(out@, j) == (
                    data@[j],
                    data@[j],
                    data@[j],
                    255u8,
                ) by {
                    if j < k {
                        assert(quad(out@, j) == quad(before, j));
                    }
                }
            }
            Some(out)
        },
        PixelFormat::Indexed => None,
    }
}

/// The icon that a decoded frame gives: the frame's size and its filled bytes
/// as RGBA. `None` for a palette image, or where the frame claims more bytes
/// than its buffer holds.
pub open spec fn icon_of_frame(
    frame: (u32, u32, PixelFormat, Seq<u8>, usize),
    icon: Option<IconData>,
) -> bool {
    if frame.4 > frame.3.len() || frame.2 == PixelFormat::Indexed {
        icon is None
    } else {
        icon matches Some(i) && i.width == frame.0 && i.height == frame.1 && rgba_expansion(
            frame.2,
            frame.3.take(frame.4 as int),
            i.pixels@,
        )
    }
}

/// Build an icon from a decoded frame.
pub fn icon_from_frame(frame: DecodedFrame) -> (r: Option<IconData>)
    ensures
        icon_of_frame((frame.0, frame.1, frame.2, frame.3@, frame.4), r),
{
    let (width, height, format, buf, used) = frame;
    if used > buf.len() {
        return None;
    }
    let data = slice_prefix(buf.as_slice(), used);
    match to_rgba(format, data) {
        Some(pixels) => Some(IconData { width, height, pixels }),
        None => None,
    }
}

fn slice_prefix(s: &[u8], n: usize) -> (r: &[u8])
    requires
        n <= s@.len(),
    ensures
        r@ == s@.take(n as int),
{
    let (head, _) = s.split_at(n);
    head
}

/// Decode a PNG file into an RGBA icon.
pub fn load_png(bytes: &[u8]) -> (r: Option<IconData>)
    ensures
        match png_first_frame(bytes@) {
            Some(frame) => icon_of_frame(frame, r),
            None => r is None,
        },
{
    match decode_png(bytes) {
        Some(frame) => icon_from_frame(frame),
        None => None,
    }
}

/// The contents of a file decode into an icon.
pub open spec fn loads(contents: Option<Vec<u8>>) -> bool {
    match contents {
        Some(bytes) => match png_first_frame(bytes@) {
            Some(f) => f.4 <= f.3.len() && f.2 != PixelFormat::Indexed,
            None => false,
        },
        None => false,
    }
}

/// File `i` is the first of `contents` that decodes into an icon.
pub open spec fn first_loading(contents: Seq<Option<Vec<u8>>>, i: int) -> bool {
    &&& 0 <= i < contents.len()
    &&& loads(contents[i])
    &&& forall|j: int| 0 <= j < i ==> !loads(#[trigger] contents[j])
}

/// A cached lookup: for each app id looked up so far, the icon found (or `None`).
pub type CacheEntry = (String, Option<IconData>);

/// Entry `i` is the first one of `e` for app id `key`.
pub open spec fn is_first_entry(e: Seq<CacheEntry>, key: Seq<char>, i: int) -> bool {
    &&& 0 <= i < e.len()
    &&& e[i].0@ == key
    &&& forall|j: int| 0 <= j < i ==> e[j].0@ != key
}

/// What the cache `e` holds for `key`: `None` if `key` was never looked up.
pub open spec fn cached(e: Seq<CacheEntry>, key: Seq<char>) -> Option<Option<IconData>> {
    if exists|i: int| is_first_entry(e, key, i) {
        Some(e[choose|i: int| is_first_entry(e, key, i)].1)
    } else {
        None
    }
}

/// The icon reference `r` is what `c` holds for a key: the icon, or nothing
/// where the key is not cached or has no icon.
pub open spec fn answers(r: Option<&IconData>, c: Option<Option<IconData>>) -> bool {
    match r {
        Some(icon) => c == Some(Some(*icon)),
        None => c is None || c == Some(None::<IconData>),
    }
}

/// Cache of loaded icons, keyed by app id, with the directories searched for
/// desktop entries and icons.
pub struct IconCache {
    pub entries: Vec<CacheEntry>,
    pub desktop_dirs: Vec<String>,
    pub icon_dirs: Vec<String>,
}

impl IconCache {
    /// An empty cache searching the directories that the values of
    /// `XDG_DATA_HOME`, `HOME` and `XDG_DATA_DIRS` (`None` where unset) give.
    pub fn new(data_home: Option<&str>, home: Option<&str>, data_dirs: Option<&str>) -> (r: Self)
        ensures
            r.entries@.len() == 0,
            string_views(r.desktop_dirs@) == desktop_dirs_for(
                opt_view(data_home),
                opt_view(home),
                opt_view(data_dirs),
            ),
            string_views(r.icon_dirs@) == icon_dirs_for(opt_view(data_home), opt_view(home)),
    {
        let desktop_dirs = find_desktop_dirs(data_home, home, data_dirs);
        let icon_dirs = find_icon_dirs(data_home, home);
        IconCache { entries: Vec::new(), desktop_dirs, icon_dirs }
    }

    /// What the cache holds for `key`.
    pub open spec fn lookup(&self, key: Seq<char>) -> Option<Option<IconData>> {
        cached(self.entries@, key)
    }

    fn position(&self, app_id: &String) -> (r: Option<usize>)
        ensures
            match r {
                Some(i) => is_first_entry(self.entries@, app_id@, i as int),
                None => forall|j: int| 0 <= j < self.entries@.len() ==> self.entries@[j].0@ != app_id@,
            },
    {
        let n = self.entries.len();
        for i in 0..n
            invariant
                n == self.entries@.len(),
                forall|j: int| 0 <= j < i ==> self.entries@[j].0@ != app_id@,
        {
            if self.entries[i].0 == *app_id {
                return Some(i);
            }
        }
        None
    }

    /// Whether `app_id` has been looked up (and its result cached).
    pub fn contains(&self, app_id: &str) -> (r: bool)
        ensures
            r == self.lookup(app_id@) is Some,
    {
        let key = String::from_str(app_id);
        self.position(&key).is_some()
    }

    /// `b` is `a` after looking up `key` with `loaded` as what loading gave.
    pub open spec fn got(a: IconCache, b: IconCache, key: Seq<char>, loaded: Option<IconData>) -> bool {
        &&& a.lookup(key) is Some ==> b.entries@ == a.entries@
        &&& a.lookup(key) is None ==> {
            &&& b.entries@.drop_last() == a.entries@
            &&& b.entries@.last().0@ == key
            &&& b.entries@.last().1 == loaded
        }
        &&& b.lookup(key) == match a.lookup(key) {
            Some(c) => Some(c),
            None => Some(loaded),
        }
        &&& b.desktop_dirs@ == a.desktop_dirs@
        &&& b.icon_dirs@ == a.icon_dirs@
    }

    /// Get the icon for an app id. Where the app id has not been looked up
    /// yet, `loaded` (what loading its icon gave) is cached for it first; a
    /// cached result is never replaced. Returns the cached icon, if any.
    pub fn get(&mut self, app_id: &str, loaded: Option<IconData>) -> (r: Option<&IconData>)
        ensures
            IconCache::got(*old(self), *final(self), app_id@, loaded),
            answers(r, final(self).lookup(app_id@)),
    {
        let key = String::from_str(app_id);
        let pos = match self.position(&key) {
            Some(i) => i,
            None => {
                let n = self.entries.len();
                self.entries.push((key, loaded));
                proof {
                    assert(self.entries@.drop_last() =~= old(self).entries@);
                    assert(is_first_entry(self.entries@, app_id@, n as int));
                }
                n
            },
        };
        match &self.entries[pos].1 {
            Some(icon) => Some(icon),
            None => None,
        }
    }

    /// The files to try, in order, for the icon of `app_id`: the icon name is
    /// found from `direct` (the entry named after the app id in each
    /// desktop-entry directory) and `files` (the files of those directories),
    /// see `find_icon_name`; then `icon_candidates` in the icon directories.
    pub fn icon_paths(&self, app_id: &str, direct: &Vec<Option<String>>, files: &Vec<DesktopFile>) -> (r:
        Vec<String>)
        ensures
            string_views(r@) == icon_files_for(
                string_views(self.icon_dirs@),
                icon_name_for(app_id@, direct@, files@),
            ),
    {
        let name = find_icon_name(app_id, direct, files);
        icon_candidates(&self.icon_dirs, name.as_str())
    }

    /// Load an icon from the contents of the files to try, in order (`None`
    /// where a file could not be read): the first that decodes gives the icon.
    pub fn load_icon(contents: &Vec<Option<Vec<u8>>>) -> (r: Option<IconData>)
        ensures
            r is Some <==> exists|i: int| 0 <= i < contents@.len() && loads(#[trigger] contents@[i]),
            r matches Some(icon) ==> exists|i: int|
                first_loading(contents@, i) && icon_of_frame(
                    png_first_frame(contents@[i]->0@)->0,
                    Some(icon),
                ),
    {
        let n = contents.len();
        for i in 0..n
            invariant
                n == contents@.len(),
                forall|j: int| 0 <= j < i ==> !loads(#[trigger] contents@[j]),
        {
            if let Some(bytes) = &contents[i] {
                let loaded = load_png(bytes.as_slice());
                if let Some(icon) = loaded {
                    assert(loads(contents@[i as int]));
                    assert(first_loading(contents@, i as int));
                    return Some(icon);
                }
                assert(!loads(contents@[i as int]));
            }
        }
        None
    }

    /// Read-only lookup of a previously cached icon (does not trigger loading).
    pub fn peek(&self, app_id: &str) -> (r: Option<&IconData>)
        ensures
            answers(r, self.lookup(app_id@)),
    {
        let key = String::from_str(app_id);
        match self.position(&key) {
            Some(i) => match &self.entries[i].1 {
                Some(icon) => Some(icon),
                None => None,
            },
            None => None,
        }
    }
}

/// Results are cached: once an app id has been looked up, looking it up again
/// gives the same answer whatever loading gives the second time, and the
/// cache is unchanged.
pub proof fn lemma_lookup_is_cached(
    a: IconCache,
    b: IconCache,
    c: IconCache,
    key: Seq<char>,
    first: Option<IconData>,
    second: Option<IconData>,
)
    requires
        IconCache::got(a, b, key, first),
        IconCache::got(b, c, key, second),
    ensures
        c.lookup(key) == b.lookup(key),
        c.entries@ == b.entries@,
        c.lookup(key) == (match a.lookup(key) {
            Some(x) => Some(x),
            None => Some(first),
        }),
{
}

} // verus!
