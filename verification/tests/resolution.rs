use std::sync::Arc;
use wallpaper_config::{ConfigSource, PathKind, Section};
use wallpaper_config::WallpapersConfig;
use wallpaper_config::WallpaperInfo;

fn image(name: &str, path: &str) -> Section {
    Section {
        name: name.to_string(),
        info: WallpaperInfo { path: Some(path.to_string()), duration: None, extra: String::new() },
        on_disk: PathKind::File,
    }
}

fn bare(name: &str) -> Section {
    Section { name: name.to_string(), info: WallpaperInfo::default(), on_disk: PathKind::Missing }
}

fn load(sections: Vec<Section>) -> WallpapersConfig {
    WallpapersConfig::new_from_path("/etc/wallpapers.toml", ConfigSource::Sections(sections))
        .unwrap()
}

#[test]
fn named_output_gets_its_entry_and_others_the_default() {
    let config = load(vec![image("default", "/img/default.png"), image("HDMI-1", "/img/one.png")]);
    let hdmi = config.get_output_by_name("HDMI-1");
    assert_eq!(hdmi.path.as_deref(), Some("/img/one.png"));
    let other = config.get_output_by_name("DP-2");
    assert_eq!(other.path.as_deref(), Some("/img/default.png"));
    let default = config.get_output_by_name("default");
    assert_eq!(*other, *default);
}

#[test]
fn without_a_default_section_unknown_outputs_get_empty_settings() {
    let config = load(vec![image("HDMI-1", "/img/one.png")]);
    let other = config.get_output_by_name("DP-2");
    assert_eq!(*other, WallpaperInfo::default());
    assert_eq!(other.path, None);
    assert_eq!(other.duration, None);
    assert_eq!(other.extra, "");
}

#[test]
fn lookup_is_by_the_whole_name() {
    let config = load(vec![image("HDMI-1", "/img/one.png"), image("HDMI-10", "/img/ten.png")]);
    assert_eq!(config.get_output_by_name("HDMI-10").path.as_deref(), Some("/img/ten.png"));
    assert_eq!(config.get_output_by_name("HDMI-1").path.as_deref(), Some("/img/one.png"));
    assert_eq!(config.get_output_by_name("HDMI").path, None);
    assert_eq!(config.get_output_by_name("hdmi-1").path, None);
    assert_eq!(config.get_output_by_name("").path, None);
}

#[test]
fn handles_share_the_settings_with_the_store() {
    let config = load(vec![image("default", "/img/default.png"), image("HDMI-1", "/img/one.png")]);
    let first = config.get_output_by_name("HDMI-1");
    let second = config.get_output_by_name("HDMI-1");
    assert!(Arc::ptr_eq(&first, &second));
    let fallback = config.get_output_by_name("DP-2");
    let default = config.get_output_by_name("default");
    assert!(Arc::ptr_eq(&fallback, &default));
}

#[test]
fn extra_settings_are_kept_as_given() {
    let mut section = image("HDMI-1", "/img/one.png");
    section.info.extra = "mode = \"center\"\n".to_string();
    let config = load(vec![section]);
    assert_eq!(config.get_output_by_name("HDMI-1").extra, "mode = \"center\"\n");
}

#[test]
fn paths_are_sorted_and_distinct() {
    let config = load(vec![image("one", "/a"), image("two", "/b"), image("three", "/a")]);
    assert_eq!(config.paths(), vec!["/a", "/b"]);
}

#[test]
fn paths_do_not_depend_on_the_order_of_sections() {
    let config = load(vec![image("x", "/c"), image("y", "/a"), image("z", "/b"), image("w", "/a")]);
    assert_eq!(config.paths(), vec!["/a", "/b", "/c"]);
    let config = load(vec![image("w", "/b"), image("z", "/c"), image("y", "/a")]);
    assert_eq!(config.paths(), vec!["/a", "/b", "/c"]);
}

#[test]
fn paths_leave_out_sections_without_a_path() {
    let config = load(vec![bare("one"), image("two", "/b"), bare("three")]);
    assert_eq!(config.paths(), vec!["/b"]);
    let config = load(vec![bare("one")]);
    assert!(config.paths().is_empty());
}

#[test]
fn paths_are_ordered_as_paths() {
    let config = load(vec![
        image("a", "/img/b"),
        image("b", "/img"),
        image("c", "/img/B"),
        image("d", "/img/\u{e9}"),
        image("e", "/img/z"),
        image("f", "/img."),
    ]);
    assert_eq!(
        config.paths(),
        vec!["/img", "/img/B", "/img/b", "/img/z", "/img/\u{e9}", "/img."]
    );
}

#[test]
fn info_equality_looks_at_every_field() {
    let base = WallpaperInfo {
        path: Some("/a".to_string()),
        duration: Some(5),
        extra: "x".to_string(),
    };
    assert!(base == base.clone());
    assert!(base.same_as(&base.clone()));
    let mut other = base.clone();
    other.path = Some("/b".to_string());
    assert!(base != other);
    let mut other = base.clone();
    other.path = Some("/a/".to_string());
    assert!(base == other);
    assert!(base.same_as(&other));
    let mut other = base.clone();
    other.path = None;
    assert!(base != other);
    let mut other = base.clone();
    other.duration = Some(6);
    assert!(base != other);
    let mut other = base.clone();
    other.duration = None;
    assert!(base != other);
    let mut other = base.clone();
    other.extra = "y".to_string();
    assert!(base != other);
    assert!(!base.same_as(&other));
}
