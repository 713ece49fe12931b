use cargo_scout_lib::config::CargoConfig;

fn strings(v: &[&str]) -> Vec<String> {
    v.iter().map(|s| s.to_string()).collect()
}

#[test]
fn test_not_workspace_manifest() {
    let toml = r#"[package]
        name = "cargo-scout-lib"
        version = "0.1.0"
        edition = "2021"
        "#;
    let manifest = cargo_toml::Manifest::from_slice(toml.as_bytes()).unwrap();
    // Make sure we actually parsed the manifest
    assert_eq!("cargo-scout-lib", manifest.clone().package.unwrap().name);
    let config = CargoConfig::from_manifest(".".to_string(), manifest, &[]).unwrap();
    assert_eq!(vec!["."], config.members());
}

#[test]
fn test_neqo_members_manifest() {
    let neqo_toml = r#"[workspace]
        members = [
          "neqo-client",
          "neqo-common",
          "neqo-crypto",
          "neqo-http3",
          "neqo-http3-server",
          "neqo-qpack",
          "neqo-server",
          "neqo-transport",
          "neqo-interop",
          "test-fixture",
        ]"#;

    let manifest = cargo_toml::Manifest::from_slice(neqo_toml.as_bytes()).unwrap();
    let config = CargoConfig::from_manifest("/neqo".to_string(), manifest, &[]).unwrap();
    assert_eq!(
        vec![
            "neqo-client",
            "neqo-common",
            "neqo-crypto",
            "neqo-http3",
            "neqo-http3-server",
            "neqo-qpack",
            "neqo-server",
            "neqo-transport",
            "neqo-interop",
            "test-fixture"
        ],
        config.members()
    );
    assert_eq!("/neqo", config.root());
}

#[test]
fn workspace_members_filtered_by_last_segment() {
    let toml = r#"[workspace]
        members = ["crates/foo", "crates/bar", "baz", "tools/foo/"]"#;
    let manifest = cargo_toml::Manifest::from_slice(toml.as_bytes()).unwrap();
    let config = CargoConfig::from_manifest(".".to_string(), manifest, &strings(&["foo"])).unwrap();
    assert_eq!(strings(&["crates/foo", "tools/foo/"]), config.members());
}

#[test]
fn no_workspace_ignores_filter() {
    let config = CargoConfig::from_workspace("r".to_string(), None, &strings(&["foo"])).unwrap();
    assert_eq!(strings(&["."]), config.members());
    assert_eq!("r", config.root());
}

#[test]
fn filter_reads_only_the_last_segment() {
    let members = strings(&["a/b/foo", "foo/b", "foo/.", "./foo", "..", "a/..", ".", ""]);
    let config = CargoConfig::from_workspace(String::new(), Some(members), &strings(&["foo"])).unwrap();
    assert_eq!(strings(&["a/b/foo", "foo/.", "./foo"]), config.members());
}

#[test]
fn empty_filter_keeps_every_member() {
    let members = strings(&["x", "y/z"]);
    let config = CargoConfig::from_workspace(String::new(), Some(members.clone()), &[]).unwrap();
    assert_eq!(members, config.members());
}

#[test]
fn filter_with_no_match_leaves_no_member() {
    let members = strings(&["x", "y/z"]);
    let config = CargoConfig::from_workspace(String::new(), Some(members), &strings(&["q"]));
    assert!(config.is_none());
}

#[test]
fn filter_with_no_match_in_manifest_is_an_error() {
    let toml = r#"[workspace]
        members = ["crates/foo"]"#;
    let manifest = cargo_toml::Manifest::from_slice(toml.as_bytes()).unwrap();
    assert!(CargoConfig::from_manifest(".".to_string(), manifest, &strings(&["bar"])).is_none());
}

#[test]
fn workspace_without_members_and_without_filter_is_kept() {
    let config = CargoConfig::from_workspace(String::new(), Some(Vec::new()), &[]).unwrap();
    assert!(config.members().is_empty());
}
