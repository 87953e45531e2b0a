use config::paths::{components_of, is_absolute, path_relative_from, PathPart};

#[test]
fn relative_inside_base_directory() {
    assert_eq!(
        path_relative_from("/home/u/project/Settings.toml", "/home/u/project"),
        Some("Settings.toml".to_string())
    );
}

#[test]
fn relative_path_against_absolute_base_is_none() {
    assert_eq!(path_relative_from("config/app.json", "/abs/base"), None);
}

#[test]
fn absolute_path_against_relative_base_stays_absolute() {
    assert_eq!(
        path_relative_from("/a/b", "x"),
        Some("/a/b".to_string())
    );
}

#[test]
fn divergence_emits_parent_steps() {
    assert_eq!(
        path_relative_from("a/b/c", "a/x"),
        Some("../b/c".to_string())
    );
}

#[test]
fn deeper_base_is_all_parent_steps() {
    assert_eq!(path_relative_from("/a", "/a/b/c"), Some("../..".to_string()));
}

#[test]
fn equal_paths_relativize_to_empty() {
    assert_eq!(path_relative_from("/a", "/a"), Some("".to_string()));
}

#[test]
fn current_dir_step_on_base_passes_component_through() {
    assert_eq!(
        path_relative_from("x/y", "./x"),
        Some("x/../y".to_string())
    );
}

#[test]
fn parent_step_on_base_is_ambiguous() {
    assert_eq!(path_relative_from("a/b", "../c"), None);
}

#[test]
fn base_exhausted_after_common_prefix() {
    assert_eq!(path_relative_from("./a", "."), Some("a".to_string()));
}

#[test]
fn components_normalize_like_the_platform() {
    assert_eq!(
        components_of("/home//u/./x/"),
        vec![
            PathPart::RootDir,
            PathPart::Normal("home".to_string()),
            PathPart::Normal("u".to_string()),
            PathPart::Normal("x".to_string()),
        ]
    );
}

#[test]
fn leading_current_dir_is_kept() {
    assert_eq!(
        components_of("./a/.."),
        vec![
            PathPart::CurDir,
            PathPart::Normal("a".to_string()),
            PathPart::ParentDir,
        ]
    );
}

#[test]
fn absoluteness_detection() {
    assert!(is_absolute("/a"));
    assert!(!is_absolute("a"));
    assert!(!is_absolute(""));
}
