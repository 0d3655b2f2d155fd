use warehouseify::dependencies::{
    check_auditable, fmt_missing_dependencies, format_crate_version, get_installed_crates_on_host,
    install_arguments, list_missing_dependencies, Crate, DependenciesConfig, DependencyError,
    DependencyProperties, InstalledListError,
};

fn krate(name: &str, version: &str) -> Crate {
    Crate { name: name.to_string(), version: version.to_string() }
}

fn config(entries: &[(&str, bool, &str)]) -> DependenciesConfig {
    DependenciesConfig {
        properties: entries
            .iter()
            .map(|(n, e, v)| {
                (n.to_string(), DependencyProperties { enabled: *e, version: v.to_string() })
            })
            .collect(),
    }
}

#[test]
fn normalises_listed_versions() {
    assert_eq!(format_crate_version("v0.6.2:"), "0.6.2");
    assert_eq!(format_crate_version("  v1.0.0:\n"), "1.0.0");
    assert_eq!(format_crate_version("1.2"), "1.2");
    assert_eq!(format_crate_version(""), "");
}

#[test]
fn reads_installed_crates() {
    let stdout = "cargo-auditable v0.6.2:\n    cargo-auditable\nripgrep v14.1.0:\r\n    rg\n";
    let installed = get_installed_crates_on_host(stdout).unwrap();
    assert_eq!(installed, vec![krate("cargo-auditable", "0.6.2"), krate("ripgrep", "14.1.0")]);
}

#[test]
fn later_listing_replaces_earlier() {
    let installed = get_installed_crates_on_host("a v1.0.0:\nb v2.0.0:\na v3.0.0:").unwrap();
    assert_eq!(installed, vec![krate("a", "3.0.0"), krate("b", "2.0.0")]);
}

#[test]
fn listing_errors() {
    assert_eq!(get_installed_crates_on_host(""), Err(InstalledListError::EmptyOutput));
    assert_eq!(get_installed_crates_on_host("a v1:\n\nb v2:\n"), Err(InstalledListError::MissingName));
    assert_eq!(get_installed_crates_on_host("lonely\n"), Err(InstalledListError::MissingVersion));
}

#[test]
fn finds_missing_and_outdated_tools() {
    let reqs = config(&[
        ("cargo-auditable", true, "0.6"),
        ("ripgrep", true, "^15"),
        ("disabled-tool", false, "1"),
        ("absent-tool", true, "v2.0:"),
    ]);
    let installed = vec![krate("cargo-auditable", "0.6.2"), krate("ripgrep", "14.1.0")];
    let missing = list_missing_dependencies(&reqs, &installed).unwrap();
    assert_eq!(missing, vec![krate("ripgrep", "^15"), krate("absent-tool", "2.0")]);
}

#[test]
fn unparsable_installed_version_is_passed_over() {
    let reqs = config(&[("tool", true, "1")]);
    let installed = vec![krate("tool", "not-a-version")];
    assert_eq!(list_missing_dependencies(&reqs, &installed), Ok(vec![]));
}

#[test]
fn malformed_requirement_is_an_error() {
    let reqs = config(&[("tool", true, "=>>1")]);
    let installed = vec![krate("tool", "1.0.0")];
    assert_eq!(
        list_missing_dependencies(&reqs, &installed),
        Err(DependencyError::MalformedRequirement)
    );
}

#[test]
fn formats_missing_names() {
    assert_eq!(fmt_missing_dependencies(&vec![]), "");
    assert_eq!(fmt_missing_dependencies(&vec![krate("a", "1")]), "a");
    assert_eq!(
        fmt_missing_dependencies(&vec![krate("cargo_auditable", "1"), krate("my_crate", "2")]),
        "cargo_auditable, my_crate"
    );
}

#[test]
fn auditable_switch() {
    assert!(check_auditable(&config(&[("cargo-auditable", true, "0.6")])));
    assert!(!check_auditable(&config(&[("cargo-auditable", false, "0.6")])));
    assert!(!check_auditable(&config(&[("other", true, "1")])));
}

#[test]
fn install_command_arguments() {
    let args = install_arguments(&vec![krate("cargo-auditable", "0.6")], true, false).unwrap();
    assert_eq!(args, vec!["install", "--locked", "cargo-auditable@^0.6"]);
    let args = install_arguments(&vec![], false, true).unwrap();
    assert_eq!(args, vec!["install", "--force"]);
    assert_eq!(
        install_arguments(&vec![krate("x", "???")], false, false),
        Err(DependencyError::MalformedRequirement)
    );
}

#[test]
fn normalises_unicode_white_space() {
    assert_eq!(format_crate_version("\u{3000}v2.1.0:\u{A0}"), "2.1.0");
    assert_eq!(format_crate_version("v"), "");
    assert_eq!(format_crate_version(":"), "");
}

#[test]
fn configuring_a_tool_twice_keeps_one_entry() {
    let mut tools = DependenciesConfig::new();
    tools.insert("a".to_string(), DependencyProperties { enabled: true, version: "1".to_string() });
    tools.insert("b".to_string(), DependencyProperties { enabled: true, version: "2".to_string() });
    tools.insert("a".to_string(), DependencyProperties { enabled: false, version: "3".to_string() });
    assert_eq!(tools.properties.len(), 2);
    assert_eq!(tools.properties[0].0, "a");
    assert!(!tools.properties[0].1.enabled);
    assert_eq!(tools.properties[0].1.version, "3");
}
