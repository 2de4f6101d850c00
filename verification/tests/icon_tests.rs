use alttab::desktop::{
    desktop_file_path, find_desktop_dirs, find_icon_dirs, find_icon_name, icon_candidates,
    read_icon_from_desktop, read_wm_class_icon, DesktopFile,
};
use alttab::icons::{load_png, to_rgba, IconCache, IconData, PixelFormat};

fn png_bytes(w: u32, h: u32, color: png::ColorType, data: &[u8]) -> Vec<u8> {
    let mut out = Vec::new();
    {
        let mut enc = png::Encoder::new(&mut out, w, h);
        enc.set_color(color);
        enc.set_depth(png::BitDepth::Eight);
        let mut writer = enc.write_header().unwrap();
        writer.write_image_data(data).unwrap();
    }
    out
}

#[test]
fn rgba_conversion_of_each_layout() {
    assert_eq!(to_rgba(PixelFormat::Rgba, &[1, 2, 3, 4]), Some(vec![1, 2, 3, 4]));
    assert_eq!(to_rgba(PixelFormat::Rgb, &[1, 2, 3, 4, 5, 6, 7]), Some(vec![1, 2, 3, 255, 4, 5, 6, 255]));
    assert_eq!(to_rgba(PixelFormat::GrayscaleAlpha, &[9, 8, 7]), Some(vec![9, 9, 9, 8]));
    assert_eq!(to_rgba(PixelFormat::Grayscale, &[5, 6]), Some(vec![5, 5, 5, 255, 6, 6, 6, 255]));
    assert_eq!(to_rgba(PixelFormat::Indexed, &[0]), None);
}

#[test]
fn decodes_rgb_png() {
    let bytes = png_bytes(2, 1, png::ColorType::Rgb, &[10, 20, 30, 40, 50, 60]);
    let icon = load_png(&bytes).expect("decodes");
    assert_eq!((icon.width, icon.height), (2, 1));
    assert_eq!(icon.pixels, vec![10, 20, 30, 255, 40, 50, 60, 255]);
}

#[test]
fn decodes_grayscale_alpha_png() {
    let bytes = png_bytes(1, 2, png::ColorType::GrayscaleAlpha, &[7, 100, 8, 200]);
    let icon = load_png(&bytes).expect("decodes");
    assert_eq!((icon.width, icon.height), (1, 2));
    assert_eq!(icon.pixels, vec![7, 7, 7, 100, 8, 8, 8, 200]);
}

#[test]
fn rejects_garbage_and_palette_png() {
    assert!(load_png(b"not a png").is_none());
    let mut out = Vec::new();
    {
        let mut enc = png::Encoder::new(&mut out, 1, 1);
        enc.set_color(png::ColorType::Indexed);
        enc.set_depth(png::BitDepth::Eight);
        enc.set_palette(vec![1u8, 2, 3]);
        let mut writer = enc.write_header().unwrap();
        writer.write_image_data(&[0]).unwrap();
    }
    assert!(load_png(&out).is_none());
}

#[test]
fn first_loadable_candidate_wins() {
    let good = png_bytes(1, 1, png::ColorType::Rgba, &[1, 2, 3, 4]);
    let other = png_bytes(1, 1, png::ColorType::Rgba, &[5, 6, 7, 8]);
    let files = vec![None, Some(b"junk".to_vec()), Some(good), Some(other)];
    let icon = IconCache::load_icon(&files).expect("loads");
    assert_eq!(icon.pixels, vec![1, 2, 3, 4]);
    assert!(IconCache::load_icon(&vec![None, Some(vec![0u8; 3])]).is_none());
}

fn icon(tag: u8) -> IconData {
    IconData { width: 1, height: 1, pixels: vec![tag, tag, tag, 255] }
}

#[test]
fn results_are_cached() {
    let mut cache = IconCache::new(None, None, Some(""));
    assert!(!cache.contains("term"));
    assert!(cache.peek("term").is_none());
    assert_eq!(cache.get("term", Some(icon(1))).map(|i| i.pixels[0]), Some(1));
    assert!(cache.contains("term"));
    // A second lookup keeps the first result, whatever loading gives now.
    assert_eq!(cache.get("term", Some(icon(2))).map(|i| i.pixels[0]), Some(1));
    assert_eq!(cache.peek("term").map(|i| i.pixels[0]), Some(1));
    // A failed lookup is cached too.
    assert!(cache.get("none", None).is_none());
    assert!(cache.get("none", Some(icon(3))).is_none());
    assert!(cache.contains("none"));
    assert_eq!(cache.entries.len(), 2);
}

#[test]
fn desktop_dirs_from_environment() {
    assert_eq!(
        find_desktop_dirs(Some("/d"), Some("/h"), None),
        vec!["/d/applications", "/usr/local/share/applications", "/usr/share/applications"]
    );
    assert_eq!(
        find_desktop_dirs(None, Some("/h"), Some("/a::/b/")),
        vec!["/h/.local/share/applications", "/a/applications", "/b/applications"]
    );
    assert_eq!(find_desktop_dirs(None, None, Some("")), Vec::<String>::new());
    assert_eq!(find_desktop_dirs(Some(""), None, Some(":")), vec!["applications"]);
}

#[test]
fn icon_dirs_from_environment() {
    let dirs = find_icon_dirs(None, Some("/h"));
    assert_eq!(dirs.len(), 15);
    assert_eq!(dirs[0], "/h/.local/share/icons/hicolor/48x48/apps");
    assert_eq!(dirs[6], "/h/.local/share/icons/hicolor/scalable/apps");
    assert_eq!(dirs[7], "/usr/share/icons/hicolor/48x48/apps");
    assert_eq!(dirs[14], "/usr/share/pixmaps");
    let dirs = find_icon_dirs(Some("/d"), Some("/h"));
    assert_eq!(dirs[1], "/d/icons/hicolor/64x64/apps");
    assert_eq!(find_icon_dirs(None, None).len(), 8);
}

#[test]
fn icon_line_of_a_desktop_entry() {
    let entry = "[Desktop Entry]\nName=Term\nIcon=  \nIcon= utilities-terminal \r\nIcon=other\n";
    assert_eq!(read_icon_from_desktop(entry).as_deref(), Some("utilities-terminal"));
    assert_eq!(read_icon_from_desktop("Name=x\nIcon=\n"), None);
    assert_eq!(read_icon_from_desktop(""), None);
    assert_eq!(read_icon_from_desktop(" Icon=x"), None);
}

#[test]
fn wm_class_match() {
    let entry = "Icon=first\nStartupWMClass= FireFox \nIcon=second\n";
    assert_eq!(read_wm_class_icon(entry, "firefox").as_deref(), Some("second"));
    assert_eq!(read_wm_class_icon(entry, "chromium"), None);
    assert_eq!(read_wm_class_icon("StartupWMClass=foo\n", "foo"), None);
    assert_eq!(read_wm_class_icon("StartupWMClass=foo\nIcon=\n", "FOO").as_deref(), Some(""));
}

#[test]
fn icon_name_search_order() {
    let direct = vec![None, Some("Icon=direct-icon\n".to_string())];
    assert_eq!(find_icon_name("app", &direct, &vec![]), "direct-icon");
    let files = vec![
        DesktopFile { name: "notes.txt".to_string(), contents: Some("Icon=no\nStartupWMClass=app".to_string()) },
        DesktopFile { name: "App.desktop".to_string(), contents: Some("Icon=by-name".to_string()) },
        DesktopFile { name: "z.desktop".to_string(), contents: Some("StartupWMClass=APP\nIcon=by-class".to_string()) },
    ];
    assert_eq!(find_icon_name("app", &vec![None], &files), "by-name");
    assert_eq!(find_icon_name("app", &vec![None], &files[2..].to_vec()), "by-class");
    assert_eq!(find_icon_name("app", &vec![None], &files[..1].to_vec()), "app");
    let hidden = vec![DesktopFile { name: ".desktop".to_string(), contents: Some("StartupWMClass=app\nIcon=x".to_string()) }];
    assert_eq!(find_icon_name("app", &vec![], &hidden), "app");
}

#[test]
fn candidate_icon_files() {
    let dirs = vec!["/i/48x48/apps".to_string(), "/i/scalable/apps".to_string(), "/p".to_string()];
    assert_eq!(icon_candidates(&dirs, "term"), vec!["/i/48x48/apps/term.png", "/p/term.png"]);
    assert_eq!(icon_candidates(&dirs, "/abs/icon.png"), vec!["/abs/icon.png"]);
    assert_eq!(desktop_file_path("/usr/share/applications", "foot"), "/usr/share/applications/foot.desktop");
}

#[test]
fn icon_paths_combine_name_and_dirs() {
    let cache = IconCache::new(None, Some("/h"), Some("/s"));
    assert_eq!(cache.desktop_dirs, vec!["/h/.local/share/applications", "/s/applications"]);
    let paths = cache.icon_paths("foot", &vec![None, Some("Icon=foot-icon".to_string())], &vec![]);
    assert_eq!(paths.len(), 13);
    assert_eq!(paths[0], "/h/.local/share/icons/hicolor/48x48/apps/foot-icon.png");
    assert_eq!(paths[12], "/usr/share/pixmaps/foot-icon.png");
}
