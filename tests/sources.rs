use warehouseify::sources::{
    git_reference, http_client_available, sort_crates_into_buckets, ClassifyError,
    ConfiguredCrate, CrateGitInformation, Dependency, DependencyDetail, ExternalCrateSource,
};

fn detail() -> DependencyDetail {
    DependencyDetail {
        version: None,
        package: None,
        registry: None,
        registry_index: None,
        path: None,
        git: None,
        branch: None,
        tag: None,
        rev: None,
    }
}

fn entry(name: &str, dependency: Dependency, local_dir_valid: bool) -> ConfiguredCrate {
    ConfiguredCrate { name: name.to_string(), dependency, local_dir_valid }
}

#[test]
fn tag_wins_over_branch() {
    let mut d = detail();
    d.git = Some("https://github.com/acme/widget".to_string());
    d.tag = Some("v1".to_string());
    d.branch = Some("dev".to_string());
    match git_reference(&d) {
        CrateGitInformation::Tag(t) => assert_eq!(t, "v1"),
        other => panic!("unexpected reference {other:?}"),
    }
    d.rev = Some("abc123".to_string());
    match git_reference(&d) {
        CrateGitInformation::Commit(c) => assert_eq!(c, "abc123"),
        other => panic!("unexpected reference {other:?}"),
    }
}

#[test]
fn branch_and_unspecified_references() {
    let mut d = detail();
    d.branch = Some("dev".to_string());
    assert!(matches!(git_reference(&d), CrateGitInformation::Branch(b) if b == "dev"));
    assert!(matches!(git_reference(&detail()), CrateGitInformation::Unspecified));
}

#[test]
fn one_local_one_registry() {
    let mut local = detail();
    local.path = Some("/srv/crates/tool".to_string());
    let crates = vec![
        entry("tool", Dependency::Detailed(local), true),
        entry("widget", Dependency::Simple("1.2.3".to_string()), false),
    ];
    let sorted = sort_crates_into_buckets(crates, http_client_available()).unwrap();
    assert_eq!(sorted.locally_available_crates.len(), 1);
    assert_eq!(sorted.locally_available_crates[0].name, "tool");
    assert_eq!(sorted.locally_unavailable_crates.len(), 1);
    assert_eq!(sorted.locally_unavailable_crates[0].name, "widget");
    assert!(matches!(sorted.locally_unavailable_crates[0].source, ExternalCrateSource::CratesIo));
}

#[test]
fn git_crate_is_remote() {
    let mut d = detail();
    d.git = Some("https://gitlab.com/acme/widget.git".to_string());
    let sorted = sort_crates_into_buckets(vec![entry("widget", Dependency::Detailed(d), false)], true)
        .unwrap();
    assert!(matches!(
        sorted.locally_unavailable_crates[0].source,
        ExternalCrateSource::Git(CrateGitInformation::Unspecified)
    ));
}

#[test]
fn classify_errors() {
    let simple = entry("widget", Dependency::Simple("1".to_string()), false);
    assert_eq!(
        sort_crates_into_buckets(vec![simple], false).unwrap_err(),
        ClassifyError::NoHttpClient
    );
    assert_eq!(
        sort_crates_into_buckets(vec![entry("w", Dependency::Inherited, false)], true).unwrap_err(),
        ClassifyError::InheritedDependency
    );
    let mut alt = detail();
    alt.registry = Some("private".to_string());
    assert_eq!(
        sort_crates_into_buckets(vec![entry("w", Dependency::Detailed(alt), false)], true)
            .unwrap_err(),
        ClassifyError::AlternateRegistry
    );
    let mut local = detail();
    local.path = Some("/nowhere".to_string());
    assert_eq!(
        sort_crates_into_buckets(vec![entry("w", Dependency::Detailed(local), false)], true)
            .unwrap_err(),
        ClassifyError::InvalidLocalPath
    );
}

#[test]
fn first_error_wins() {
    let crates = vec![
        entry("a", Dependency::Inherited, false),
        entry("b", Dependency::Simple("1".to_string()), false),
    ];
    assert_eq!(
        sort_crates_into_buckets(crates, false).unwrap_err(),
        ClassifyError::InheritedDependency
    );
}
