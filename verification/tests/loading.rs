use wallpaper_config::{ConfigSource, Fault, LoadError, PathKind, Section};
use wallpaper_config::WallpapersConfig;
use wallpaper_config::WallpaperInfo;

fn info(path: Option<&str>, duration: Option<u64>) -> WallpaperInfo {
    WallpaperInfo { path: path.map(|p| p.to_string()), duration, extra: String::new() }
}

fn section(name: &str, path: Option<&str>, duration: Option<u64>, on_disk: PathKind) -> Section {
    Section { name: name.to_string(), info: info(path, duration), on_disk }
}

fn load(sections: Vec<Section>) -> Result<WallpapersConfig, LoadError> {
    WallpapersConfig::new_from_path("/etc/wallpapers.toml", ConfigSource::Sections(sections))
}

#[test]
fn missing_file_is_not_found() {
    let loaded = WallpapersConfig::new_from_path("/nowhere.toml", ConfigSource::Missing);
    assert_eq!(loaded.unwrap_err(), LoadError::NotFound);
}

#[test]
fn malformed_file_is_a_parse_error() {
    let loaded = WallpapersConfig::new_from_path("/etc/wallpapers.toml", ConfigSource::Malformed);
    assert_eq!(loaded.unwrap_err(), LoadError::ParseError);
}

#[test]
fn repeated_section_name_is_a_parse_error() {
    let loaded = load(vec![
        section("HDMI-1", Some("/img/one.png"), None, PathKind::File),
        section("DP-2", Some("/img/two.png"), None, PathKind::File),
        section("HDMI-1", Some("/img/three.png"), None, PathKind::File),
    ]);
    assert_eq!(loaded.unwrap_err(), LoadError::ParseError);
}

#[test]
fn repeated_name_is_reported_before_any_fault() {
    let loaded = load(vec![
        section("a", Some("/gone.png"), None, PathKind::Missing),
        section("a", Some("/img/one.png"), None, PathKind::File),
    ]);
    assert_eq!(loaded.unwrap_err(), LoadError::ParseError);
}

#[test]
fn empty_file_loads_and_knows_its_path() {
    let config = load(vec![]).unwrap();
    assert_eq!(config.path(), "/etc/wallpapers.toml");
    assert!(config.paths().is_empty());
    assert!(config.reloaded().is_none());
    assert!(!config.is_reload_pending());
}

#[test]
fn nonexistent_path_is_a_validation_error() {
    let loaded = load(vec![
        section("HDMI-1", Some("/img/one.png"), None, PathKind::File),
        section("DP-2", Some("/img/gone.png"), None, PathKind::Missing),
    ]);
    assert_eq!(
        loaded.unwrap_err(),
        LoadError::ValidationError { name: "DP-2".to_string(), reason: Fault::PathMissing }
    );
}

#[test]
fn nonexistent_path_of_the_default_section_is_a_validation_error() {
    let loaded = load(vec![section("default", Some("/img/gone.png"), None, PathKind::Missing)]);
    assert_eq!(
        loaded.unwrap_err(),
        LoadError::ValidationError { name: "default".to_string(), reason: Fault::PathMissing }
    );
}

#[test]
fn duration_with_a_directory_loads() {
    let config = load(vec![section("office", Some("/wallpapers/"), Some(300), PathKind::Directory)])
        .unwrap();
    let office = config.get_output_by_name("office");
    assert_eq!(office.path.as_deref(), Some("/wallpapers/"));
    assert_eq!(office.duration, Some(300));
}

#[test]
fn duration_with_a_regular_file_is_a_validation_error() {
    let loaded = load(vec![section("office", Some("/wallpapers/"), Some(300), PathKind::File)]);
    assert_eq!(
        loaded.unwrap_err(),
        LoadError::ValidationError {
            name: "office".to_string(),
            reason: Fault::DurationRequiresDirectory,
        }
    );
}

#[test]
fn duration_without_a_path_is_a_validation_error() {
    let loaded = load(vec![section("office", None, Some(300), PathKind::Directory)]);
    assert_eq!(
        loaded.unwrap_err(),
        LoadError::ValidationError {
            name: "office".to_string(),
            reason: Fault::DurationRequiresDirectory,
        }
    );
}

#[test]
fn missing_path_is_reported_before_the_duration() {
    let loaded = load(vec![section("office", Some("/wallpapers/"), Some(300), PathKind::Missing)]);
    assert_eq!(
        loaded.unwrap_err(),
        LoadError::ValidationError { name: "office".to_string(), reason: Fault::PathMissing }
    );
}

#[test]
fn first_faulty_section_is_the_one_reported() {
    let loaded = load(vec![
        section("a", Some("/img/a.png"), None, PathKind::File),
        section("b", Some("/img/b.png"), Some(10), PathKind::File),
        section("c", Some("/img/c.png"), None, PathKind::Missing),
    ]);
    assert_eq!(
        loaded.unwrap_err(),
        LoadError::ValidationError {
            name: "b".to_string(),
            reason: Fault::DurationRequiresDirectory,
        }
    );
}

#[test]
fn section_without_path_and_duration_loads() {
    let config = load(vec![section("HDMI-1", None, None, PathKind::Missing)]).unwrap();
    let found = config.get_output_by_name("HDMI-1");
    assert_eq!(found.path, None);
    assert_eq!(found.duration, None);
}

#[test]
fn section_fault_follows_the_rules() {
    assert_eq!(section("a", None, None, PathKind::Missing).fault(), None);
    assert_eq!(section("a", Some("/x"), None, PathKind::File).fault(), None);
    assert_eq!(section("a", Some("/x"), None, PathKind::Directory).fault(), None);
    assert_eq!(section("a", Some("/x"), Some(1), PathKind::Directory).fault(), None);
    assert_eq!(section("a", Some("/x"), None, PathKind::Missing).fault(), Some(Fault::PathMissing));
    assert_eq!(
        section("a", Some("/x"), Some(1), PathKind::File).fault(),
        Some(Fault::DurationRequiresDirectory)
    );
    assert_eq!(
        section("a", None, Some(1), PathKind::File).fault(),
        Some(Fault::DurationRequiresDirectory)
    );
}

#[test]
fn load_errors_compare_by_value() {
    let a = LoadError::ValidationError { name: "a".to_string(), reason: Fault::PathMissing };
    let b = LoadError::ValidationError { name: "b".to_string(), reason: Fault::PathMissing };
    let c = LoadError::ValidationError {
        name: "a".to_string(),
        reason: Fault::DurationRequiresDirectory,
    };
    assert_eq!(a, a.clone());
    assert_ne!(a, b);
    assert_ne!(a, c);
    assert_ne!(LoadError::NotFound, LoadError::ParseError);
    assert_ne!(a, LoadError::ParseError);
}
