use rust_signatures_mcp::registry::{
    cargo_home_dir, is_index_dir_name, registry_read_error, select_package_dir, version_before_plus,
    DirEntryInfo,
};

fn dir(name: &str) -> DirEntryInfo {
    DirEntryInfo { name: Some(name.into()), is_dir: true }
}

#[test]
fn index_dir_names() {
    assert!(is_index_dir_name("index.crates.io-6f17d22bba15001f"));
    assert!(!is_index_dir_name("github.com-1ecc6299db9ec823"));
}

#[test]
fn cargo_home_fallbacks() {
    assert_eq!(cargo_home_dir(Some("/opt/cargo".into()), Some("/home/u".into())), "/opt/cargo");
    assert_eq!(cargo_home_dir(None, Some("/home/u".into())), "/home/u/.cargo");
    assert_eq!(cargo_home_dir(None, None), ".cargo");
}

#[test]
fn read_error_message() {
    assert_eq!(registry_read_error("denied"), "Cannot read cargo registry src: denied");
}

#[test]
fn build_metadata_is_cut() {
    assert_eq!(version_before_plus("1.0.0+wasi-0.2"), "1.0.0");
    assert_eq!(version_before_plus("2.1.3"), "2.1.3");
}

#[test]
fn no_index_dir_is_an_error() {
    let err = select_package_dir("serde", None, &vec![]).unwrap_err();
    assert_eq!(err, "No crates.io index found in cargo registry. Run cargo build first.");
}

#[test]
fn latest_version_is_chosen() {
    let listing = vec![
        dir("serde-1.0.100"),
        dir("serde-1.0.228"),
        dir("serde_json-1.0.1"),
        dir("serde-derive-9.9.9"),
        dir("serde-1.0.99"),
        DirEntryInfo { name: Some("serde-2.0.0".into()), is_dir: false },
    ];
    assert_eq!(select_package_dir("serde", None, &vec![listing]).unwrap(), (0, 1));
}

#[test]
fn prerelease_orders_below_release() {
    let listing = vec![dir("foo-1.0.0"), dir("foo-1.0.0-alpha")];
    assert_eq!(select_package_dir("foo", None, &vec![listing]).unwrap(), (0, 0));
}

#[test]
fn underscore_names_are_found_as_cached() {
    let listing = vec![dir("clap-4.5.0"), dir("clap_derive-4.5.0")];
    assert_eq!(select_package_dir("clap_derive", None, &vec![listing.clone()]).unwrap(), (0, 1));
    assert_eq!(select_package_dir("clap-derive", Some("4"), &vec![listing]).unwrap(), (0, 1));
}

#[test]
fn underscores_and_dashes_compare_alike() {
    let listing = vec![dir("clap-derive-4.0.0"), dir("clap_derive-3.0.0")];
    assert_eq!(select_package_dir("clap_derive", None, &vec![listing]).unwrap(), (0, 0));
    let only_dash = vec![dir("tokio-macros-2.5.0")];
    assert!(select_package_dir("tokio", None, &vec![only_dash]).is_err());
}

#[test]
fn requested_version_prefix_picks_first_match() {
    let listing = vec![dir("serde-1.0.100"), dir("serde-1.0.228"), dir("serde-2.0.0")];
    assert_eq!(select_package_dir("serde", Some("1.0"), &vec![listing.clone()]).unwrap(), (0, 0));
    assert_eq!(select_package_dir("serde", Some("2"), &vec![listing]).unwrap(), (0, 2));
}

#[test]
fn later_index_dirs_are_searched() {
    let first = vec![dir("tokio-1.0.0")];
    let second = vec![dir("serde-1.0.0")];
    assert_eq!(select_package_dir("serde", None, &vec![first, second]).unwrap(), (1, 0));
}

#[test]
fn missing_package_messages() {
    let listing = vec![dir("serde-1.0.0")];
    assert_eq!(
        select_package_dir("rand", None, &vec![listing.clone()]).unwrap_err(),
        "Package rand not found in cargo cache"
    );
    assert_eq!(
        select_package_dir("serde", Some("3"), &vec![listing]).unwrap_err(),
        "Package serde v3 not found in cargo cache"
    );
}

#[test]
fn unparsable_versions_are_skipped() {
    let listing = vec![dir("foo-notaversion"), dir("foo-0.1.0+build.5")];
    assert_eq!(select_package_dir("foo", None, &vec![listing]).unwrap(), (0, 1));
    let only_bad = vec![dir("foo-x")];
    assert!(select_package_dir("foo", None, &vec![only_bad]).is_err());
}
