use config::error::ConfigError;
use config::format::{lookup_by_extension, lookup_by_extension_normalized, FileFormat};
use config::source::{
    extension_of, join_path, with_extension, FileSourceFile, FoundFile,
};

#[test]
fn lookup_finds_registered_formats() {
    assert_eq!(lookup_by_extension("json"), Some(FileFormat::Json));
    assert_eq!(lookup_by_extension("toml"), Some(FileFormat::Toml));
    assert_eq!(lookup_by_extension("yaml"), Some(FileFormat::Yaml));
    assert_eq!(lookup_by_extension("yml"), Some(FileFormat::Yaml));
}

#[test]
fn lookup_is_case_sensitive_and_closed() {
    assert_eq!(lookup_by_extension("JSON"), None);
    assert_eq!(lookup_by_extension("xyz"), None);
    assert_eq!(lookup_by_extension(""), None);
}

#[test]
fn normalized_lookup_lowercases_before_matching() {
    assert_eq!(lookup_by_extension_normalized("JSON"), Some(FileFormat::Json));
    assert_eq!(lookup_by_extension_normalized("Yml"), Some(FileFormat::Yaml));
    assert_eq!(lookup_by_extension_normalized("toml"), Some(FileFormat::Toml));
    assert_eq!(lookup_by_extension_normalized("xyz"), None);
}

#[test]
fn exact_match_extension_is_case_normalized_before_lookup() {
    // The file's extension is upper case; the resolver normalizes it
    // before asking the registry, so the json format is still found.
    let f = FileSourceFile::new("Settings.JSON".to_string());
    let r = f.find_file("/w", None, Some(0)).unwrap();
    assert_eq!(
        r,
        FoundFile { path: "/w/Settings.JSON".to_string(), format: FileFormat::Json }
    );
}

#[test]
fn with_extension_appends_or_replaces() {
    assert_eq!(with_extension("Settings", "toml"), "Settings.toml");
    assert_eq!(with_extension("Settings.yaml", "toml"), "Settings.toml");
    assert_eq!(with_extension("dir.d/file", "x"), "dir.d/file.x");
    assert_eq!(with_extension(".bashrc", "x"), ".bashrc.x");
}

#[test]
fn extension_of_reads_the_file_name_part() {
    assert_eq!(extension_of("a/b.json"), "json");
    assert_eq!(extension_of("a/b"), "");
    assert_eq!(extension_of(".bashrc"), "");
    assert_eq!(extension_of("a.b.c"), "c");
}

#[test]
fn join_resolves_against_directory() {
    assert_eq!(join_path("/w", "Settings"), "/w/Settings");
    assert_eq!(join_path("/w/", "a"), "/w/a");
    assert_eq!(join_path("/w", "/abs"), "/abs");
}

#[test]
fn candidate_plan_without_hint_probes_every_registered_extension() {
    let f = FileSourceFile::new("Settings".to_string());
    let plan = f.candidate_paths("/w", None);
    assert_eq!(
        plan,
        vec![
            "/w/Settings".to_string(),
            "/w/Settings.json".to_string(),
            "/w/Settings.toml".to_string(),
            "/w/Settings.yaml".to_string(),
            "/w/Settings.yml".to_string(),
        ]
    );
}

#[test]
fn extension_probe_infers_format_from_registry() {
    // Only Settings.json exists in the working directory: the first
    // existing candidate is index 1 of the plan above.
    let f = FileSourceFile::new("Settings".to_string());
    let r = f.find_file("/w", None, Some(1)).unwrap();
    assert_eq!(
        r,
        FoundFile { path: "/w/Settings.json".to_string(), format: FileFormat::Json }
    );
}

#[test]
fn hint_restricts_probing_to_its_own_extensions() {
    // Only Settings.yaml exists; with a TOML hint the plan never probes
    // .yaml, so resolution fails as NotFound for the original name.
    let f = FileSourceFile::new("Settings".to_string());
    let plan = f.candidate_paths("/w", Some(FileFormat::Toml));
    assert_eq!(
        plan,
        vec!["/w/Settings".to_string(), "/w/Settings.toml".to_string()]
    );
    assert!(!plan.contains(&"/w/Settings.yaml".to_string()));
    let r = f.find_file("/w", Some(FileFormat::Toml), None);
    assert_eq!(r, Err(ConfigError::NotFound("Settings".to_string())));
}

#[test]
fn hint_overrides_the_exact_match_extension() {
    // Settings.json exists exactly; a TOML hint still wins over the file's
    // own extension.
    let f = FileSourceFile::new("Settings.json".to_string());
    let r = f.find_file("/w", Some(FileFormat::Toml), Some(0)).unwrap();
    assert_eq!(
        r,
        FoundFile { path: "/w/Settings.json".to_string(), format: FileFormat::Toml }
    );
}

#[test]
fn exact_match_without_hint_infers_from_extension() {
    let f = FileSourceFile::new("Settings.json".to_string());
    let r = f.find_file("/w", None, Some(0)).unwrap();
    assert_eq!(
        r,
        FoundFile { path: "/w/Settings.json".to_string(), format: FileFormat::Json }
    );
}

#[test]
fn unregistered_extension_is_an_error() {
    let f = FileSourceFile::new("Settings.xyz".to_string());
    let r = f.find_file("/w", None, Some(0));
    assert_eq!(
        r,
        Err(ConfigError::UnregisteredFormat("/w/Settings.xyz".to_string()))
    );
}

#[test]
fn exact_match_without_extension_or_hint_is_unregistered() {
    let f = FileSourceFile::new("Settings".to_string());
    let r = f.find_file("/w", None, Some(0));
    assert_eq!(
        r,
        Err(ConfigError::UnregisteredFormat("/w/Settings".to_string()))
    );
}

#[test]
fn failed_read_surfaces_as_io_error_not_not_found() {
    // The file vanished between the existence probe and the read.
    let found = FoundFile {
        path: "/w/Settings.json".to_string(),
        format: FileFormat::Json,
    };
    let r = FileSourceFile::resolve_found(found, "/w", Err("no such file".to_string()));
    assert_eq!(r, Err(ConfigError::Io("no such file".to_string())));
}

#[test]
fn successful_resolution_bundles_relative_uri_content_and_format() {
    let found = FoundFile {
        path: "/w/Settings.json".to_string(),
        format: FileFormat::Json,
    };
    let r = FileSourceFile::resolve_found(found, "/w", Ok("{}".to_string())).unwrap();
    assert_eq!(r.uri, Some("Settings.json".to_string()));
    assert_eq!(r.content, "{}");
    assert_eq!(r.format, FileFormat::Json);
}
