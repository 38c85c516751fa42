use std::path::PathBuf;
use wallpaper_config::path_order::paths_equal;
use wallpaper_config::text::same_text;
use wallpaper_config::{ConfigSource, PathKind, Section, WallpaperInfo, WallpapersConfig};

fn load(paths: &[&str]) -> WallpapersConfig {
    let sections = paths
        .iter()
        .enumerate()
        .map(|(i, path)| Section {
            name: format!("output-{i}"),
            info: WallpaperInfo {
                path: Some(path.to_string()),
                duration: None,
                extra: String::new(),
            },
            on_disk: PathKind::File,
        })
        .collect();
    WallpapersConfig::new_from_path("/etc/wallpapers.toml", ConfigSource::Sections(sections))
        .unwrap()
}

fn sorted_by_std(paths: &[&str]) -> Vec<PathBuf> {
    let mut sorted: Vec<PathBuf> = paths.iter().map(PathBuf::from).collect();
    sorted.sort_unstable();
    sorted.dedup();
    sorted
}

#[test]
fn same_text_is_equality_of_texts() {
    assert!(same_text("", ""));
    assert!(same_text("default", "default"));
    assert!(!same_text("default", "Default"));
    assert!(!same_text("default", "default "));
    assert!(!same_text("default", "defaul"));
    assert!(!same_text("/a", "/a/"));
    assert!(same_text("/img/\u{e9}", "/img/\u{e9}"));
    assert!(!same_text("/img/\u{e9}", "/img/\u{e8}"));
}

#[test]
fn paths_are_equal_component_by_component() {
    assert!(paths_equal("/a", "/a"));
    assert!(paths_equal("/a", "/a/"));
    assert!(paths_equal("/a/b", "/a//b"));
    assert!(paths_equal("/a/b", "/a/./b"));
    assert!(!paths_equal("/a", "/b"));
    assert!(!paths_equal("/a", "/A"));
    assert!(!paths_equal("/a", "a"));
    assert!(!paths_equal("/a/b", "/a.b"));
    assert!(!paths_equal("/a/b", "/a/b/../b"));
}

#[test]
fn a_directory_comes_before_a_longer_name() {
    assert_eq!(load(&["/a/b", "/a.b"]).paths(), vec!["/a/b", "/a.b"]);
    assert_eq!(load(&["/a.b", "/a/b"]).paths(), vec!["/a/b", "/a.b"]);
}

#[test]
fn one_path_written_twice_is_listed_once() {
    for paths in [["/a", "/a/"], ["/a/", "/a"]] {
        let config = load(&paths);
        let listed = config.paths();
        assert_eq!(listed.len(), 1);
        assert!(paths.contains(&listed[0]));
        assert_eq!(PathBuf::from(listed[0]), PathBuf::from("/a"));
    }
    let config = load(&["/x/y", "/b", "/x//y", "/x/./y/", "/b/"]);
    let listed: Vec<PathBuf> = config.paths().into_iter().map(PathBuf::from).collect();
    assert_eq!(listed, vec![PathBuf::from("/b"), PathBuf::from("/x/y")]);
}

#[test]
fn the_order_is_that_of_std_paths() {
    let paths = [
        "/img/b", "/img", "/img/B", "/img/\u{e9}", "/img/z", "/img.", "/", "relative/one",
        "relative", "/img/b/c", "/imh", "~/.wallpapers", "/img/../img/b",
    ];
    let config = load(&paths);
    let listed: Vec<PathBuf> = config.paths().into_iter().map(PathBuf::from).collect();
    assert_eq!(listed, sorted_by_std(&paths));
    let mut reversed = paths;
    reversed.reverse();
    let config = load(&reversed);
    let listed: Vec<PathBuf> = config.paths().into_iter().map(PathBuf::from).collect();
    assert_eq!(listed, sorted_by_std(&paths));
}
