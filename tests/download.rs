use std::io::Write;

use flate2::write::GzEncoder;
use flate2::Compression;
use warehouseify::download::{
    git_urls, plan_downloads, plan_fetch, registry_urls, repository_segments, AcquireError,
    FetchAction, HttpReply,
};
use warehouseify::sources::{
    CrateGitInformation, Dependency, DependencyDetail, ExternalCrateSource, RemoteCrate,
    SortedCrates,
};

fn gzip(data: &[u8]) -> Vec<u8> {
    let mut encoder = GzEncoder::new(Vec::new(), Compression::default());
    encoder.write_all(data).unwrap();
    encoder.finish().unwrap()
}

fn git_detail(url: &str) -> DependencyDetail {
    DependencyDetail {
        version: None,
        package: None,
        registry: None,
        registry_index: None,
        path: None,
        git: Some(url.to_string()),
        branch: None,
        tag: None,
        rev: None,
    }
}

fn registry_crate(name: &str, version: &str) -> RemoteCrate {
    RemoteCrate {
        name: name.to_string(),
        source: ExternalCrateSource::CratesIo,
        dependency: Dependency::Simple(version.to_string()),
    }
}

#[test]
fn github_branch_url() {
    let urls = git_urls(
        "https://github.com/acme/widget.git",
        &CrateGitInformation::Branch("main".to_string()),
    )
    .unwrap();
    assert_eq!(urls, vec!["https://github.com/acme/widget/archive/refs/heads/main.zip"]);
}

#[test]
fn github_unspecified_tries_main_then_stable() {
    let urls = git_urls("https://github.com/acme/widget.git", &CrateGitInformation::Unspecified)
        .unwrap();
    assert_eq!(
        urls,
        vec![
            "https://github.com/acme/widget/archive/refs/heads/main.zip",
            "https://github.com/acme/widget/archive/refs/heads/stable.zip",
        ]
    );
}

#[test]
fn github_tag_and_commit_urls() {
    let tag = git_urls("https://github.com/acme/widget", &CrateGitInformation::Tag("v1.0".to_string()))
        .unwrap();
    assert_eq!(tag, vec!["https://github.com/acme/widget/archive/refs/tags/v1.0.zip"]);
    let commit = git_urls(
        "https://github.com/acme/widget.git.git",
        &CrateGitInformation::Commit("abc123".to_string()),
    )
    .unwrap();
    assert_eq!(commit, vec!["https://github.com/acme/widget/archive/abc123.zip"]);
}

#[test]
fn gitlab_urls() {
    let branch = git_urls(
        "https://gitlab.com/acme/widget.git",
        &CrateGitInformation::Branch("dev".to_string()),
    )
    .unwrap();
    assert_eq!(
        branch,
        vec!["https://gitlab.com/api/v4/projects/acme%2Fwidget/repository/archive.zip?sha=dev"]
    );
    let default = git_urls("https://gitlab.com/acme/widget", &CrateGitInformation::Unspecified)
        .unwrap();
    assert_eq!(default, vec!["https://gitlab.com/api/v4/projects/acme%2Fwidget/repository/archive.zip"]);
}

#[test]
fn unsupported_and_malformed_hosts() {
    assert_eq!(
        git_urls("https://example.org/acme/widget", &CrateGitInformation::Unspecified),
        Err(AcquireError::UnsupportedHost)
    );
    assert_eq!(
        git_urls("github.com", &CrateGitInformation::Unspecified),
        Err(AcquireError::MalformedRepositoryUrl)
    );
    assert_eq!(
        repository_segments("https://github.com/acme/widget.git"),
        Ok(("acme".to_string(), "widget".to_string()))
    );
}

#[test]
fn registry_url_pair() {
    assert_eq!(
        registry_urls("widget", "1.2.3"),
        vec![
            "https://static.crates.io/crates/widget/widget-1.2.3.crate",
            "https://crates.io/api/v1/crates/widget/1.2.3/download",
        ]
    );
}

#[test]
fn mirror_success_skips_api() {
    let mut chain = plan_fetch(&registry_crate("widget", "1.2.3")).unwrap();
    assert_eq!(chain.current_url(), "https://static.crates.io/crates/widget/widget-1.2.3.crate");
    let action = chain.on_reply(Some(HttpReply { status_code: 200, body: gzip(b"tarball") }));
    match action {
        FetchAction::Finished(data) => assert_eq!(data, b"tarball".to_vec()),
        other => panic!("unexpected action {other:?}"),
    }
    assert_eq!(chain.attempt, 0);
}

#[test]
fn mirror_failure_tries_api_once() {
    let mut chain = plan_fetch(&registry_crate("widget", "1.2.3")).unwrap();
    let action = chain.on_reply(Some(HttpReply { status_code: 404, body: Vec::new() }));
    match action {
        FetchAction::Request(url) => {
            assert_eq!(url, "https://crates.io/api/v1/crates/widget/1.2.3/download")
        }
        other => panic!("unexpected action {other:?}"),
    }
    let action = chain.on_reply(None);
    assert!(matches!(action, FetchAction::Failed(AcquireError::Exhausted)));
}

#[test]
fn api_success_after_mirror_error() {
    let mut chain = plan_fetch(&registry_crate("widget", "1.2.3")).unwrap();
    assert!(matches!(chain.on_reply(None), FetchAction::Request(_)));
    match chain.on_reply(Some(HttpReply { status_code: 200, body: gzip(b"src") })) {
        FetchAction::Finished(data) => assert_eq!(data, b"src".to_vec()),
        other => panic!("unexpected action {other:?}"),
    }
}

#[test]
fn invalid_gzip_fails_hard() {
    let mut chain = plan_fetch(&registry_crate("widget", "1.2.3")).unwrap();
    let action = chain.on_reply(Some(HttpReply { status_code: 200, body: b"not gzip".to_vec() }));
    assert!(matches!(action, FetchAction::Failed(AcquireError::Decompress)));
}

#[test]
fn package_name_and_version_errors() {
    let mut detail = git_detail("unused");
    detail.git = None;
    detail.version = Some("0.4".to_string());
    detail.package = Some("real-name".to_string());
    let c = RemoteCrate {
        name: "alias".to_string(),
        source: ExternalCrateSource::CratesIo,
        dependency: Dependency::Detailed(detail),
    };
    let chain = plan_fetch(&c).unwrap();
    assert_eq!(chain.crate_name, "alias");
    assert_eq!(chain.urls[0], "https://static.crates.io/crates/real-name/real-name-0.4.crate");
    let inherited = RemoteCrate {
        name: "x".to_string(),
        source: ExternalCrateSource::CratesIo,
        dependency: Dependency::Inherited,
    };
    assert_eq!(plan_fetch(&inherited).unwrap_err(), AcquireError::InheritedVersion);
    let mut no_version = git_detail("unused");
    no_version.git = None;
    let c = RemoteCrate {
        name: "x".to_string(),
        source: ExternalCrateSource::CratesIo,
        dependency: Dependency::Detailed(no_version),
    };
    assert_eq!(plan_fetch(&c).unwrap_err(), AcquireError::MissingVersion);
}

#[test]
fn git_chain_through_plan() {
    let c = RemoteCrate {
        name: "widget".to_string(),
        source: ExternalCrateSource::Git(CrateGitInformation::Unspecified),
        dependency: Dependency::Detailed(git_detail("https://github.com/acme/widget.git")),
    };
    let mut chain = plan_fetch(&c).unwrap();
    assert!(matches!(
        chain.on_reply(Some(HttpReply { status_code: 404, body: Vec::new() })),
        FetchAction::Request(url) if url == "https://github.com/acme/widget/archive/refs/heads/stable.zip"
    ));
    assert!(matches!(chain.on_reply(None), FetchAction::Failed(AcquireError::Exhausted)));
}

#[test]
fn registry_crates_are_planned_first() {
    let git = RemoteCrate {
        name: "from-git".to_string(),
        source: ExternalCrateSource::Git(CrateGitInformation::Tag("v1".to_string())),
        dependency: Dependency::Detailed(git_detail("https://github.com/acme/from-git")),
    };
    let sorted = SortedCrates {
        locally_unavailable_crates: vec![git, registry_crate("from-registry", "2.0.0")],
        locally_available_crates: Vec::new(),
    };
    let plans = plan_downloads(&sorted).unwrap();
    assert_eq!(plans.len(), 2);
    assert_eq!(plans[0].crate_name, "from-registry");
    assert_eq!(plans[1].crate_name, "from-git");
}
