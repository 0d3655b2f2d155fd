use std::io::{Read, Write};

use flate2::write::GzEncoder;
use flate2::Compression;
use warehouseify::builder::{artifact_name, create_build_command, release_binary_path, stamped_artifact_name};
use warehouseify::cli::{log_level, LogLevel};
use warehouseify::config::config_size_ok;
use warehouseify::dependencies::{DependenciesConfig, DependencyProperties};
use warehouseify::download::{plan_downloads, FetchAction, HttpReply};
use warehouseify::package::{package, package_file_name};
use warehouseify::signing::sign_file;
use warehouseify::sources::{sort_crates_into_buckets, ConfiguredCrate, Dependency, DependencyDetail};

fn crate_tarball() -> Vec<u8> {
    let mut builder = tar::Builder::new(Vec::new());
    let content = b"[package]\nname = \"widget\"\nversion = \"1.2.3\"\n";
    let mut header = tar::Header::new_gnu();
    header.set_size(content.len() as u64);
    header.set_mode(0o644);
    header.set_cksum();
    builder.append_data(&mut header, "widget-1.2.3/Cargo.toml", &content[..]).unwrap();
    let tar = builder.into_inner().unwrap();
    let mut encoder = GzEncoder::new(Vec::new(), Compression::default());
    encoder.write_all(&tar).unwrap();
    encoder.finish().unwrap()
}

#[test]
fn end_to_end_local_and_registry() {
    let local = DependencyDetail {
        version: None,
        package: None,
        registry: None,
        registry_index: None,
        path: Some("/srv/crates/tool".to_string()),
        git: None,
        branch: None,
        tag: None,
        rev: None,
    };
    let crates = vec![
        ConfiguredCrate { name: "tool".to_string(), dependency: Dependency::Detailed(local), local_dir_valid: true },
        ConfiguredCrate {
            name: "widget".to_string(),
            dependency: Dependency::Simple("1.2.3".to_string()),
            local_dir_valid: false,
        },
    ];
    let sorted = sort_crates_into_buckets(crates, true).unwrap();
    assert_eq!(sorted.locally_available_crates.len(), 1);
    assert_eq!(sorted.locally_unavailable_crates.len(), 1);

    let mut chains = plan_downloads(&sorted).unwrap();
    assert_eq!(chains.len(), 1);
    let chain = &mut chains[0];
    assert_eq!(chain.current_url(), "https://static.crates.io/crates/widget/widget-1.2.3.crate");
    let tarball = match chain.on_reply(Some(HttpReply { status_code: 200, body: crate_tarball() })) {
        FetchAction::Finished(data) => data,
        other => panic!("unexpected action {other:?}"),
    };
    let mut archive = tar::Archive::new(tarball.as_slice());
    let mut names = Vec::new();
    for entry in archive.entries().unwrap() {
        let mut entry = entry.unwrap();
        names.push(entry.path().unwrap().to_string_lossy().into_owned());
        let mut s = String::new();
        entry.read_to_string(&mut s).unwrap();
        assert!(s.contains("version = \"1.2.3\""));
    }
    assert_eq!(names, vec!["widget-1.2.3/Cargo.toml"]);

    let name = stamped_artifact_name("widget", "1.2.3");
    assert!(name.starts_with("widget-1.2.3-"));
    assert!(name.len() > "widget-1.2.3-".len());

    let kp = minisign::KeyPair::generate_unencrypted_keypair().unwrap();
    let binary = b"\x7fELF binary".to_vec();
    let signature = sign_file(&kp.pk.to_base64(), &kp.sk, &binary).unwrap();
    assert!(!signature.is_empty());

    let bundle = package(&name, &binary, &signature).unwrap();
    assert_eq!(package_file_name(&name), format!("{name}.tar"));
    let mut reader = tar::Archive::new(bundle.as_slice());
    let read: Vec<String> = reader
        .entries()
        .unwrap()
        .map(|e| e.unwrap().path().unwrap().to_string_lossy().into_owned())
        .collect();
    assert_eq!(read, vec![name.clone(), format!("{name}.sig")]);
}

#[test]
fn artifact_name_format() {
    assert_eq!(
        artifact_name("widget", "1.2.3", "2024-05-01T10:00:00.000Z"),
        "widget-1.2.3-2024-05-01T10:00:00.000Z"
    );
}

#[test]
fn build_command_arguments() {
    let plain = DependenciesConfig { properties: vec![] };
    assert_eq!(
        create_build_command(&plain, "/srv/ws/build/widget"),
        vec!["build", "--manifest-path", "/srv/ws/build/widget/Cargo.toml", "--release"]
    );
    let audited = DependenciesConfig {
        properties: vec![(
            "cargo-auditable".to_string(),
            DependencyProperties { enabled: true, version: "0.6".to_string() },
        )],
    };
    assert_eq!(create_build_command(&audited, "w")[0], "auditable");
    assert_eq!(release_binary_path("/srv/w/", "widget"), "/srv/w/target/release/widget");
}

#[test]
fn log_levels() {
    assert_eq!(log_level(0, 0), LogLevel::Info);
    assert_eq!(log_level(1, 0), LogLevel::Debug);
    assert_eq!(log_level(9, 0), LogLevel::Trace);
    assert_eq!(log_level(2, 1), LogLevel::Warn);
    assert_eq!(log_level(0, 2), LogLevel::Error);
    assert_eq!(log_level(0, 3), LogLevel::Off);
    assert_eq!(log_level(2, 7), LogLevel::Off);
}

#[test]
fn config_size_limit() {
    assert!(config_size_ok(10_000_000));
    assert!(!config_size_ok(10_000_001));
}
