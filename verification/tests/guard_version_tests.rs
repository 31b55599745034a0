use webarcade::guard::{is_termination_candidate, ProcessFacts};
use webarcade::versions::{compare_cli_versions, compare_versions, VersionOrder};

fn comps(parts: &[&str]) -> Vec<String> {
    parts.iter().map(|p| p.to_string()).collect()
}

#[test]
fn process_name_matches_with_or_without_suffix() {
    let release = comps(&["repo", "app", "target", "release"]);
    let debug = comps(&["repo", "app", "target", "debug"]);
    let by_exe = ProcessFacts { name: "WebArcade.exe".to_string(), exe_components: None };
    assert!(is_termination_candidate(&by_exe, "webarcade", &release, &debug));
    let bare = ProcessFacts { name: "webarcade".to_string(), exe_components: None };
    assert!(is_termination_candidate(&bare, "WebArcade", &release, &debug));
    let other = ProcessFacts { name: "editor".to_string(), exe_components: None };
    assert!(!is_termination_candidate(&other, "webarcade", &release, &debug));
}

#[test]
fn process_under_build_output_directory_matches() {
    let release = comps(&["repo", "app", "target", "release"]);
    let debug = comps(&["repo", "app", "target", "debug"]);
    let p = ProcessFacts {
        name: "other".to_string(),
        exe_components: Some(comps(&["repo", "app", "target", "release", "webarcade"])),
    };
    assert!(is_termination_candidate(&p, "webarcade", &release, &debug));
    let elsewhere = ProcessFacts {
        name: "other".to_string(),
        exe_components: Some(comps(&["usr", "bin", "webarcade"])),
    };
    // Not under the build output, but the file name matches the binary.
    assert!(is_termination_candidate(&elsewhere, "webarcade", &release, &debug));
    let unrelated = ProcessFacts {
        name: "other".to_string(),
        exe_components: Some(comps(&["usr", "bin", "editor"])),
    };
    assert!(!is_termination_candidate(&unrelated, "webarcade", &release, &debug));
}

#[test]
fn path_must_mention_the_binary_name() {
    let release = comps(&["repo", "target", "release"]);
    let debug = comps(&["repo", "target", "debug"]);
    let p = ProcessFacts {
        name: "other".to_string(),
        exe_components: Some(comps(&["repo", "target", "release", "helper"])),
    };
    assert!(!is_termination_candidate(&p, "webarcade", &release, &debug));
}

#[test]
fn semantic_version_ordering() {
    assert_eq!(compare_versions("1.2.3", "1.2.4"), Some(VersionOrder::Older));
    assert_eq!(compare_versions("v2.0", "1.9.9"), Some(VersionOrder::Newer));
    assert_eq!(compare_versions("1.2.3-beta", "1.2.3"), Some(VersionOrder::Same));
    assert_eq!(compare_versions("2", "2.0.0"), Some(VersionOrder::Same));
    assert_eq!(compare_versions("x.y", "1.0.0"), None);
    assert_eq!(compare_versions("", "1.0.0"), None);
}

#[test]
fn cli_version_ordering_skips_unparsable_parts() {
    assert_eq!(compare_cli_versions("0.1.0", "0.2.0"), VersionOrder::Older);
    assert_eq!(compare_cli_versions("1.0.0", "1.0.0"), VersionOrder::Same);
    assert_eq!(compare_cli_versions("1.2.4", "1.2.3"), VersionOrder::Newer);
    assert_eq!(compare_cli_versions("1.0", "1"), VersionOrder::Same);
    // An unparsable component is skipped, so "1.x.2" reads as the parts 1 and 2.
    assert_eq!(compare_cli_versions("1.x.2", "1.2.0"), VersionOrder::Same);
}
