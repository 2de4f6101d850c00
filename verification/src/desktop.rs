//! Where icons are looked for: the desktop-entry and icon directories of the
//! XDG base directory layout, reading the icon name out of a desktop entry,
//! and the icon files to try for an icon name.

use vstd::prelude::*;

use crate::text::{
    after_prefix, contains_str, eq_ignore_ascii_case, join_path, joined, lines_of, occurs_at,
    same_ignoring_ascii_case, split_char, split_lines, split_on, strip_prefix, trim, trimmed, views,
};

verus! {

/// The views of a list of strings.
pub open spec fn string_views(v: Seq<String>) -> Seq<Seq<char>> {
    v.map_values(|s: String| s@)
}

/// An optional string slice taken by its view.
pub open spec fn opt_view(o: Option<&str>) -> Option<Seq<char>> {
    match o {
        Some(s) => Some(s@),
        None => None,
    }
}

/// The `applications` directory under a data directory; empty entries of
/// the data directory list are skipped.
pub open spec fn applications_under(d: Seq<char>) -> Option<Seq<char>> {
    if d.len() > 0 {
        Some(joined(d, "applications"@))
    } else {
        None
    }
}

/// The directories searched for desktop entries: the user's own
/// (`$XDG_DATA_HOME/applications`, else `$HOME/.local/share/applications`),
/// then `applications` under each entry of `$XDG_DATA_DIRS` (by default
/// `/usr/local/share:/usr/share`).
pub open spec fn desktop_dirs_for(
    data_home: Option<Seq<char>>,
    home: Option<Seq<char>>,
    data_dirs: Option<Seq<char>>,
) -> Seq<Seq<char>> {
    let user = match data_home {
        Some(d) => seq![joined(d, "applications"@)],
        None => match home {
            Some(h) => seq![joined(h, ".local/share/applications"@)],
            None => Seq::empty(),
        },
    };
    let dirs = match data_dirs {
        Some(d) => d,
        None => "/usr/local/share:/usr/share"@,
    };
    user + split_on(dirs, ':').filter_map(applications_fn())
}

/// `applications_under` as a function value.
pub open spec fn applications_fn() -> spec_fn(Seq<char>) -> Option<Seq<char>> {
    |d: Seq<char>| applications_under(d)
}

/// Find the directories to search for desktop entries, given the values of
/// `XDG_DATA_HOME`, `HOME` and `XDG_DATA_DIRS` (`None` where unset).
pub fn find_desktop_dirs(data_home: Option<&str>, home: Option<&str>, data_dirs: Option<&str>) -> (r:
    Vec<String>)
    ensures
        string_views(r@) == desktop_dirs_for(opt_view(data_home), opt_view(home), opt_view(data_dirs)),
{
    let mut dirs: Vec<String> = Vec::new();
    // User local
    if let Some(d) = data_home {
        dirs.push(join_path(d, "applications"));
    } else if let Some(h) = home {
        dirs.push(join_path(h, ".local/share/applications"));
    }
    let ghost user = string_views(dirs@);
    // System dirs from XDG_DATA_DIRS
    let list = match data_dirs {
        Some(d) => d,
        None => "/usr/local/share:/usr/share",
    };
    let pieces = split_char(list, ':');
    let ghost f = applications_fn();
    let ghost all = views(pieces@);
    let n = pieces.len();
    for i in 0..n
        invariant
            n == pieces@.len(),
            all == views(pieces@),
            all == split_on(list@, ':'),
            f == applications_fn(),
            string_views(dirs@) == user + all.take(i as int).filter_map(f),
    {
        let d = pieces[i];
        proof {
            all.lemma_filter_map_take_succ(f, i as int);
            assert(all[i as int] == d@);
        }
        let ghost before = string_views(dirs@);
        if d.unicode_len() > 0 {
            dirs.push(join_path(d, "applications"));
            assert(f(d@) == Some(joined(d@, "applications"@)));
            assert(string_views(dirs@) =~= before.push(joined(d@, "applications"@)));
            assert(all.take(i + 1).filter_map(f) =~= all.take(i as int).filter_map(f).push(
                joined(d@, "applications"@),
            ));
        } else {
            assert(f(d@) is None);
            assert(all.take(i + 1).filter_map(f) =~= all.take(i as int).filter_map(f));
        }
        assert(string_views(dirs@) =~= user + all.take(i + 1).filter_map(f));
    }
    assert(all.take(n as int) =~= all);
    dirs
}

/// The icon sizes searched, best first (larger sizes are scaled down).
pub open spec fn icon_sizes() -> Seq<Seq<char>> {
    seq!["48x48"@, "64x64"@, "32x32"@, "128x128"@, "256x256"@, "24x24"@, "scalable"@]
}

fn icon_size(i: usize) -> (r: &'static str)
    requires
        i < 7,
    ensures
        r@ == icon_sizes()[i as int],
{
    match i {
        0 => "48x48",
        1 => "64x64",
        2 => "32x32",
        3 => "128x128",
        4 => "256x256",
        5 => "24x24",
        _ => "scalable",
    }
}

/// The `apps` directory of each icon size under a theme directory.
pub open spec fn size_dirs(theme: Seq<char>) -> Seq<Seq<char>> {
    icon_sizes().map_values(|size: Seq<char>| joined(joined(theme, size), "apps"@))
}

/// The directories searched for icons: the user's hicolor theme
/// (`$XDG_DATA_HOME/icons/hicolor`, else
/// `$HOME/.local/share/icons/hicolor`), the system hicolor theme, each by
/// size, and then `/usr/share/pixmaps`.
pub open spec fn icon_dirs_for(data_home: Option<Seq<char>>, home: Option<Seq<char>>) -> Seq<
    Seq<char>,
> {
    let user = match data_home {
        Some(d) => size_dirs(joined(d, "icons/hicolor"@)),
        None => match home {
            Some(h) => size_dirs(joined(h, ".local/share/icons/hicolor"@)),
            None => Seq::empty(),
        },
    };
    user + size_dirs("/usr/share/icons/hicolor"@) + seq!["/usr/share/pixmaps"@]
}

fn push_size_dirs(dirs: &mut Vec<String>, theme: &str)
    ensures
        string_views(final(dirs)@) == string_views(old(dirs)@) + size_dirs(theme@),
{
    let ghost start = string_views(dirs@);
    for i in 0..7usize
        invariant
            string_views(dirs@) == start + size_dirs(theme@).take(i as int),
    {
        let size = icon_size(i);
        let sized = join_path(theme, size);
        let dir = join_path(sized.as_str(), "apps");
        let ghost before = string_views(dirs@);
        dirs.push(dir);
        assert(string_views(dirs@) =~= before.push(dir@));
        assert(size_dirs(theme@).take(i + 1) =~= size_dirs(theme@).take(i as int).push(dir@));
    }
    assert(size_dirs(theme@).take(7) =~= size_dirs(theme@));
}

/// Find the directories to search for icons, given the values of
/// `XDG_DATA_HOME` and `HOME` (`None` where unset).
pub fn find_icon_dirs(data_home: Option<&str>, home: Option<&str>) -> (r: Vec<String>)
    ensures
        string_views(r@) == icon_dirs_for(opt_view(data_home), opt_view(home)),
{
    let mut dirs: Vec<String> = Vec::new();
    // User local
    if let Some(d) = data_home {
        let theme = join_path(d, "icons/hicolor");
        push_size_dirs(&mut dirs, theme.as_str());
    } else if let Some(h) = home {
        let theme = join_path(h, ".local/share/icons/hicolor");
        push_size_dirs(&mut dirs, theme.as_str());
    }
    // System hicolor theme
    push_size_dirs(&mut dirs, "/usr/share/icons/hicolor");
    // Pixmaps fallback
    let ghost before = string_views(dirs@);
    dirs.push(String::from_str("/usr/share/pixmaps"));
    assert(string_views(dirs@) =~= before.push("/usr/share/pixmaps"@));
    assert(string_views(dirs@) =~= icon_dirs_for(opt_view(data_home), opt_view(home)));
    dirs
}

/// The value of an `Icon=` line, trimmed.
pub open spec fn icon_value(line: Seq<char>) -> Option<Seq<char>> {
    match after_prefix(line, "Icon="@) {
        Some(v) => Some(trimmed(v)),
        None => None,
    }
}

/// The first non-empty `Icon=` value among `ls`.
pub open spec fn first_icon(ls: Seq<Seq<char>>) -> Option<Seq<char>>
    decreases ls.len(),
{
    if ls.len() == 0 {
        None
    } else {
        let v = icon_value(ls[0]);
        if v is Some && v->0.len() > 0 {
            v
        } else {
            first_icon(ls.drop_first())
        }
    }
}

/// The icon name that a desktop entry gives: the first non-empty `Icon=`
/// value, trimmed.
pub open spec fn desktop_icon(contents: Seq<char>) -> Option<Seq<char>> {
    first_icon(lines_of(contents))
}

fn icon_line_value<'a>(line: &'a str) -> (r: Option<&'a str>)
    ensures
        match r {
            Some(v) => icon_value(line@) == Some(v@),
            None => icon_value(line@) is None,
        },
{
    match strip_prefix(line, "Icon=") {
        Some(v) => Some(trim(v)),
        None => None,
    }
}

/// Read the icon name out of the contents of a desktop entry: the first
/// `Icon=` line with a non-empty value (trimmed).
pub fn read_icon_from_desktop(contents: &str) -> (r: Option<String>)
    ensures
        match r {
            Some(name) => desktop_icon(contents@) == Some(name@),
            None => desktop_icon(contents@) is None,
        },
{
    let lines = split_lines(contents);
    let ghost ls = views(lines@);
    let n = lines.len();
    assert(ls.skip(0) =~= ls);
    for i in 0..n
        invariant
            n == lines@.len(),
            ls == views(lines@),
            ls == lines_of(contents@),
            first_icon(ls) == first_icon(ls.skip(i as int)),
    {
        let line = lines[i];
        assert(ls.skip(i as int)[0] == line@);
        assert(ls.skip(i as int).drop_first() =~= ls.skip(i + 1));
        if let Some(v) = icon_line_value(line) {
            if v.unicode_len() > 0 {
                return Some(String::from_str(v));
            }
        }
    }
    assert(ls.skip(n as int).len() == 0);
    None
}

/// A `StartupWMClass=` line whose trimmed value is `app_id` but for ASCII case.
pub open spec fn wm_class_matches(line: Seq<char>, app_id: Seq<char>) -> bool {
    match after_prefix(line, "StartupWMClass="@) {
        Some(v) => same_ignoring_ascii_case(trimmed(v), app_id),
        None => false,
    }
}

/// The last `Icon=` value among `ls` (trimmed, possibly empty).
pub open spec fn last_icon(ls: Seq<Seq<char>>) -> Option<Seq<char>>
    decreases ls.len(),
{
    if ls.len() == 0 {
        None
    } else {
        match icon_value(ls.last()) {
            Some(v) => Some(v),
            None => last_icon(ls.drop_last()),
        }
    }
}

/// The icon name of a desktop entry whose `StartupWMClass` is `app_id`: its
/// last `Icon=` value; `None` when no `StartupWMClass=` line matches.
pub open spec fn wm_class_icon(contents: Seq<char>, app_id: Seq<char>) -> Option<Seq<char>> {
    let ls = lines_of(contents);
    if exists|i: int| 0 <= i < ls.len() && wm_class_matches(#[trigger] ls[i], app_id) {
        last_icon(ls)
    } else {
        None
    }
}

/// The icon name of a desktop entry that declares `app_id` as its
/// `StartupWMClass` (compared without regard to ASCII case).
pub fn read_wm_class_icon(contents: &str, app_id: &str) -> (r: Option<String>)
    ensures
        match r {
            Some(name) => wm_class_icon(contents@, app_id@) == Some(name@),
            None => wm_class_icon(contents@, app_id@) is None,
        },
{
    let lines = split_lines(contents);
    let ghost ls = views(lines@);
    let n = lines.len();
    let mut has_matching_wm_class = false;
    let mut icon_name: Option<&str> = None;
    for i in 0..n
        invariant
            n == lines@.len(),
            ls == views(lines@),
            ls == lines_of(contents@),
            has_matching_wm_class == exists|j: int|
                0 <= j < i && wm_class_matches(#[trigger] ls[j], app_id@),
            match icon_name {
                Some(v) => last_icon(ls.take(i as int)) == Some(v@),
                None => last_icon(ls.take(i as int)) is None,
            },
    {
        let line = lines[i];
        assert(ls[i as int] == line@);
        assert(ls.take(i + 1).drop_last() =~= ls.take(i as int));
        assert(ls.take(i + 1).last() == line@);
        if let Some(val) = strip_prefix(line, "StartupWMClass=") {
            if eq_ignore_ascii_case(trim(val), app_id) {
                has_matching_wm_class = true;
            }
        }
        if let Some(v) = icon_line_value(line) {
            icon_name = Some(v);
        }
    }
    assert(ls.take(n as int) =~= ls);
    if has_matching_wm_class {
        match icon_name {
            Some(name) => Some(String::from_str(name)),
            None => None,
        }
    } else {
        None
    }
}

/// What `str::to_lowercase` gives for `s` (the Unicode lower-case mapping).
pub uninterp spec fn lowercase(s: Seq<char>) -> Seq<char>;

/// `str::to_lowercase`: lower-cases every character by the Unicode tables of
/// the standard library. The mapping is named `lowercase`, not stated.
#[verifier::external_body]
fn to_lowercase(s: &str) -> (r: String)
    ensures
        r@ == lowercase(s@),
{
    s.to_lowercase()
}

/// `p` is the position of the last `.` in `name`.
pub open spec fn is_last_dot(name: Seq<char>, p: int) -> bool {
    &&& 0 <= p < name.len()
    &&& name[p] == '.'
    &&& forall|j: int| p < j < name.len() ==> name[j] != '.'
}

/// A file name split into stem and extension as `Path::file_stem` and
/// `Path::extension` split it: at the last `.`, except that `..`, a name
/// without `.`, and a name whose only `.` is its first character have no
/// extension and are their own stem.
pub open spec fn stem_and_extension(name: Seq<char>) -> (Seq<char>, Option<Seq<char>>) {
    if name == seq!['.', '.'] {
        (name, None)
    } else if exists|p: int| is_last_dot(name, p) {
        let p = choose|p: int| is_last_dot(name, p);
        if p == 0 {
            (name, None)
        } else {
            (name.take(p), Some(name.skip(p + 1)))
        }
    } else {
        (name, None)
    }
}

fn split_file_name<'a>(name: &'a str) -> (r: (&'a str, Option<&'a str>))
    ensures
        stem_and_extension(name@) == (r.0@, opt_view(r.1)),
{
    let cs = crate::text::to_chars(name);
    let n = cs.len();
    if n == 2 && cs[0] == '.' && cs[1] == '.' {
        assert(name@ =~= seq!['.', '.']);
        return (name, None);
    }
    assert(name@ != seq!['.', '.']) by {
        if name@ == seq!['.', '.'] {
            assert(n == 2 && cs@[0] == '.' && cs@[1] == '.');
        }
    }
    let mut j: usize = n;
    while j > 0 && cs[j - 1] != '.'
        invariant
            cs@ == name@,
            n == name@.len(),
            j <= n,
            forall|k: int| j <= k < n ==> name@[k] != '.',
        decreases j,
    {
        j = j - 1;
    }
    if j == 0 {
        assert(!exists|p: int| is_last_dot(name@, p));
        return (name, None);
    }
    let p = j - 1;
    assert(is_last_dot(name@, p as int));
    if p == 0 {
        (name, None)
    } else {
        let stem = name.substring_char(0, p);
        let ext = name.substring_char(p + 1, n);
        assert(stem@ =~= name@.take(p as int));
        assert(ext@ =~= name@.skip(p + 1));
        (stem, Some(ext))
    }
}

/// Whether a file name has the extension `desktop` (only such files are
/// desktop entries).
pub fn is_desktop_file_name(name: &str) -> (r: bool)
    ensures
        r == (stem_and_extension(name@).1 == Some("desktop"@)),
{
    let (_, ext) = split_file_name(name);
    match ext {
        Some(e) => str_eq(e, "desktop"),
        None => false,
    }
}

/// The extension of a file name is what follows its last `.`: a non-empty
/// stem (dots allowed in it), a `.` and an extension without a dot split back
/// into that stem and that extension, except `..` (stem `.`, no extension).
pub proof fn lemma_split_at_last_dot(stem: Seq<char>, ext: Seq<char>)
    requires
        stem.len() > 0,
        !ext.contains('.'),
        !(stem == seq!['.'] && ext.len() == 0),
    ensures
        stem_and_extension(stem + seq!['.'] + ext) == (stem, Some(ext)),
{
    let name = stem + seq!['.'] + ext;
    let p = stem.len() as int;
    assert(name[p] == '.');
    assert forall|j: int| p < j < name.len() implies name[j] != '.' by {
        assert(name[j] == ext[j - p - 1]);
    }
    assert(is_last_dot(name, p));
    assert forall|q: int| #[trigger] is_last_dot(name, q) implies q == p by {
        if q > p {
            assert(name[q] == ext[q - p - 1]);
        }
    }
    if name == seq!['.', '.'] {
        assert(stem.len() == 1 && ext.len() == 0);
        assert(stem[0] == name[0]);
        assert(stem =~= seq!['.']);
    }
    assert(name.take(p) =~= stem);
    assert(name.skip(p + 1) =~= ext);
}

/// Every name that ends in `.desktop` after a non-empty stem is a desktop
/// entry's file name.
pub proof fn lemma_desktop_suffix(stem: Seq<char>)
    requires
        stem.len() > 0,
    ensures
        stem_and_extension(stem + seq!['.'] + "desktop"@).1 == Some("desktop"@),
{
    reveal_strlit("desktop");
    lemma_split_at_last_dot(stem, "desktop"@);
}

/// A file found in a desktop-entry directory: its name, and its contents
/// where it could be read as text.
#[derive(Debug, Clone)]
pub struct DesktopFile {
    pub name: String,
    pub contents: Option<String>,
}

/// The contents of a file, if read, by their view.
pub open spec fn contents_view(c: Option<String>) -> Option<Seq<char>> {
    match c {
        Some(s) => Some(s@),
        None => None,
    }
}

/// The icon name that a file of a desktop-entry directory gives for `app_id`:
/// only `.desktop` files count. One whose stem is `app_id` (compared in lower
/// case) gives its `Icon=` value if it has one; otherwise one whose
/// `StartupWMClass` is `app_id` gives its last `Icon=` value.
pub open spec fn file_icon(name: Seq<char>, contents: Option<Seq<char>>, app_id: Seq<char>) -> Option<
    Seq<char>,
> {
    let (stem, ext) = stem_and_extension(name);
    if ext != Some("desktop"@) {
        None
    } else {
        let by_name = if lowercase(stem) == lowercase(app_id) {
            match contents {
                Some(c) => desktop_icon(c),
                None => None,
            }
        } else {
            None
        };
        if by_name is Some {
            by_name
        } else {
            match contents {
                Some(c) => wm_class_icon(c, app_id),
                None => None,
            }
        }
    }
}

fn str_eq(a: &str, b: &str) -> (r: bool)
    ensures
        r == (a@ == b@),
{
    let ac = crate::text::to_chars(a);
    let bc = crate::text::to_chars(b);
    if ac.len() != bc.len() {
        return false;
    }
    let n = ac.len();
    for i in 0..n
        invariant
            ac@ == a@,
            bc@ == b@,
            n == a@.len(),
            n == b@.len(),
            forall|j: int| 0 <= j < i ==> a@[j] == b@[j],
    {
        if ac[i] != bc[i] {
            return false;
        }
    }
    assert(a@ =~= b@);
    true
}

fn icon_of_file(file: &DesktopFile, app_id: &str, app_id_lower: &String) -> (r: Option<String>)
    requires
        app_id_lower@ == lowercase(app_id@),
    ensures
        match r {
            Some(n) => file_icon(file.name@, contents_view(file.contents), app_id@) == Some(n@),
            None => file_icon(file.name@, contents_view(file.contents), app_id@) is None,
        },
{
    let (stem, _) = split_file_name(file.name.as_str());
    if !is_desktop_file_name(file.name.as_str()) {
        return None;
    }
    // Check file name match (case-insensitive)
    if to_lowercase(stem) == *app_id_lower {
        if let Some(c) = &file.contents {
            if let Some(name) = read_icon_from_desktop(c.as_str()) {
                return Some(name);
            }
        }
    }
    // Check StartupWMClass
    match &file.contents {
        Some(c) => read_wm_class_icon(c.as_str(), app_id),
        None => None,
    }
}

/// The first icon name that the desktop entries named after the app id give,
/// in directory order (`None` where an entry could not be read).
pub open spec fn first_direct_icon(direct: Seq<Option<String>>) -> Option<Seq<char>>
    decreases direct.len(),
{
    if direct.len() == 0 {
        None
    } else {
        let v = match direct[0] {
            Some(c) => desktop_icon(c@),
            None => None,
        };
        if v is Some {
            v
        } else {
            first_direct_icon(direct.drop_first())
        }
    }
}

/// The first icon name that the files of the desktop-entry directories give.
pub open spec fn first_file_icon(files: Seq<DesktopFile>, app_id: Seq<char>) -> Option<Seq<char>>
    decreases files.len(),
{
    if files.len() == 0 {
        None
    } else {
        let v = file_icon(files[0].name@, contents_view(files[0].contents), app_id);
        if v is Some {
            v
        } else {
            first_file_icon(files.drop_first(), app_id)
        }
    }
}

/// The icon name of an app: from the desktop entry named after it, else from
/// the files of the desktop-entry directories, else the app id itself.
pub open spec fn icon_name_for(app_id: Seq<char>, direct: Seq<Option<String>>, files: Seq<DesktopFile>) -> Seq<char> {
    match first_direct_icon(direct) {
        Some(n) => n,
        None => match first_file_icon(files, app_id) {
            Some(n) => n,
            None => app_id,
        },
    }
}

/// The path of the desktop entry named after `app_id` in directory `dir`.
pub fn desktop_file_path(dir: &str, app_id: &str) -> (r: String)
    ensures
        r@ == joined(dir@, app_id@ + ".desktop"@),
{
    let mut file = String::from_str(app_id);
    file.append(".desktop");
    join_path(dir, file.as_str())
}

/// Find the icon name for an app id.
///
/// `direct` holds, for each desktop-entry directory in order, the contents of
/// the entry named after the app id (`None` where it could not be read);
/// `files` holds the files of the desktop-entry directories in the order they
/// are listed. The first entry that names an icon wins; the app id itself is
/// the last resort.
pub fn find_icon_name(app_id: &str, direct: &Vec<Option<String>>, files: &Vec<DesktopFile>) -> (r:
    String)
    ensures
        r@ == icon_name_for(app_id@, direct@, files@),
{
    // Try direct match: app_id.desktop
    let n = direct.len();
    assert(direct@.skip(0) =~= direct@);
    for i in 0..n
        invariant
            n == direct@.len(),
            first_direct_icon(direct@) == first_direct_icon(direct@.skip(i as int)),
    {
        assert(direct@.skip(i as int)[0] == direct@[i as int]);
        assert(direct@.skip(i as int).drop_first() =~= direct@.skip(i + 1));
        if let Some(c) = &direct[i] {
            if let Some(name) = read_icon_from_desktop(c.as_str()) {
                return name;
            }
        }
    }
    assert(direct@.skip(n as int).len() == 0);
    // Try case-insensitive search and StartupWMClass match
    let app_id_lower = to_lowercase(app_id);
    let m = files.len();
    assert(files@.skip(0) =~= files@);
    for i in 0..m
        invariant
            m == files@.len(),
            app_id_lower@ == lowercase(app_id@),
            first_direct_icon(direct@) is None,
            first_file_icon(files@, app_id@) == first_file_icon(files@.skip(i as int), app_id@),
    {
        assert(files@.skip(i as int)[0] == files@[i as int]);
        assert(files@.skip(i as int).drop_first() =~= files@.skip(i + 1));
        if let Some(name) = icon_of_file(&files[i], app_id, &app_id_lower) {
            return name;
        }
    }
    assert(files@.skip(m as int).len() == 0);
    // Last resort: try the app_id itself as the icon name
    String::from_str(app_id)
}

/// Icon directories that are not scalable-icon directories (only PNG icons are read).
pub open spec fn png_file_in(dir: Seq<char>, icon_name: Seq<char>) -> Option<Seq<char>> {
    if exists|i: int| occurs_at(dir, "scalable"@, i) {
        None
    } else {
        Some(joined(dir, icon_name + ".png"@))
    }
}

/// `png_file_in` as a function value.
pub open spec fn png_file_fn(icon_name: Seq<char>) -> spec_fn(Seq<char>) -> Option<Seq<char>> {
    |dir: Seq<char>| png_file_in(dir, icon_name)
}

/// The files to try, in order, for an icon name: an absolute path is the
/// only one; otherwise `<name>.png` in each icon directory but the scalable ones.
pub open spec fn icon_files_for(icon_dirs: Seq<Seq<char>>, icon_name: Seq<char>) -> Seq<Seq<char>> {
    if icon_name.len() > 0 && icon_name[0] == '/' {
        seq![icon_name]
    } else {
        icon_dirs.filter_map(png_file_fn(icon_name))
    }
}

/// The files to try, in order, when loading the icon called `icon_name`; the
/// first that exists and decodes is the icon.
pub fn icon_candidates(icon_dirs: &Vec<String>, icon_name: &str) -> (r: Vec<String>)
    ensures
        string_views(r@) == icon_files_for(string_views(icon_dirs@), icon_name@),
{
    let mut out: Vec<String> = Vec::new();
    // If it's an absolute path, load directly
    if icon_name.unicode_len() > 0 && icon_name.get_char(0) == '/' {
        out.push(String::from_str(icon_name));
        assert(string_views(out@) =~= seq![icon_name@]);
        return out;
    }
    let mut file = String::from_str(icon_name);
    file.append(".png");
    let ghost dirs = string_views(icon_dirs@);
    let ghost f = png_file_fn(icon_name@);
    let n = icon_dirs.len();
    for i in 0..n
        invariant
            n == icon_dirs@.len(),
            dirs == string_views(icon_dirs@),
            f == png_file_fn(icon_name@),
            file@ == icon_name@ + ".png"@,
            string_views(out@) == dirs.take(i as int).filter_map(f),
    {
        let dir = icon_dirs[i].as_str();
        proof {
            dirs.lemma_filter_map_take_succ(f, i as int);
            assert(dirs[i as int] == dir@);
        }
        let ghost before = string_views(out@);
        // Skip scalable directory (we only handle PNG)
        if !contains_str(dir, "scalable") {
            let path = join_path(dir, file.as_str());
            out.push(path);
            assert(string_views(out@) =~= before.push(path@));
            assert(dirs.take(i + 1).filter_map(f) =~= dirs.take(i as int).filter_map(f).push(path@));
        } else {
            assert(dirs.take(i + 1).filter_map(f) =~= dirs.take(i as int).filter_map(f));
        }
    }
    assert(dirs.take(n as int) =~= dirs);
    out
}

} // verus!
