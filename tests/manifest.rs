use warehouseify::manifest::{add_build_meta_info, ManifestError, TomlValue};

fn s(text: &str) -> TomlValue {
    TomlValue::String(text.to_string())
}

fn table(entries: Vec<(&str, TomlValue)>) -> TomlValue {
    TomlValue::Table(entries.into_iter().map(|(k, v)| (k.to_string(), v)).collect())
}

fn get<'a>(v: &'a TomlValue, key: &str) -> Option<&'a TomlValue> {
    match v {
        TomlValue::Table(es) => es.iter().find(|(k, _)| k == key).map(|(_, v)| v),
        _ => None,
    }
}

fn text(v: Option<&TomlValue>) -> Option<String> {
    match v {
        Some(TomlValue::String(s)) => Some(s.clone()),
        _ => None,
    }
}

fn same(a: &TomlValue, b: &TomlValue) -> bool {
    match (a, b) {
        (TomlValue::String(x), TomlValue::String(y)) => x == y,
        (TomlValue::Integer(x), TomlValue::Integer(y)) => x == y,
        (TomlValue::Float(x), TomlValue::Float(y)) => x == y,
        (TomlValue::Boolean(x), TomlValue::Boolean(y)) => x == y,
        (TomlValue::Datetime(x), TomlValue::Datetime(y)) => x == y,
        (TomlValue::Array(x), TomlValue::Array(y)) => {
            x.len() == y.len() && x.iter().zip(y.iter()).all(|(p, q)| same(p, q))
        }
        (TomlValue::Table(x), TomlValue::Table(y)) => {
            x.len() == y.len()
                && x.iter().zip(y.iter()).all(|((kp, p), (kq, q))| kp == kq && same(p, q))
        }
        _ => false,
    }
}

fn manifest(binstall: Option<TomlValue>) -> TomlValue {
    let mut metadata = vec![("docs", table(vec![("all-features", TomlValue::Boolean(true))]))];
    if let Some(b) = binstall {
        metadata.push(("binstall", b));
    }
    table(vec![
        (
            "package",
            table(vec![
                ("name", s("widget")),
                ("version", s("1.2.3")),
                ("metadata", table(metadata)),
            ]),
        ),
        ("dependencies", table(vec![("serde", s("1")), ("ratio", TomlValue::Float("0.5".to_string()))])),
        ("features", table(vec![("default", TomlValue::Array(vec![s("std")]))])),
        ("edition", TomlValue::Integer(2021)),
    ])
}

fn binstall_of(doc: &TomlValue) -> &TomlValue {
    get(get(get(doc, "package").unwrap(), "metadata").unwrap(), "binstall").unwrap()
}

#[test]
fn injects_signing_metadata() {
    let doc = add_build_meta_info(manifest(None), "RWQkey").unwrap();
    let binstall = binstall_of(&doc);
    assert_eq!(text(get(binstall, "pkg_fmt")), Some("tar".to_string()));
    let signing = get(binstall, "signing").unwrap();
    assert_eq!(text(get(signing, "algorithm")), Some("minisign".to_string()));
    assert_eq!(text(get(signing, "pubkey")), Some("RWQkey".to_string()));
}

#[test]
fn unrelated_content_is_kept() {
    let before = manifest(None);
    let doc = add_build_meta_info(manifest(None), "RWQkey").unwrap();
    for key in ["dependencies", "features", "edition"] {
        assert!(same(get(&doc, key).unwrap(), get(&before, key).unwrap()));
    }
    let package = get(&doc, "package").unwrap();
    assert_eq!(text(get(package, "name")), Some("widget".to_string()));
    let docs = get(get(package, "metadata").unwrap(), "docs").unwrap();
    assert!(same(docs, &table(vec![("all-features", TomlValue::Boolean(true))])));
}

#[test]
fn injection_is_idempotent() {
    let once = add_build_meta_info(manifest(None), "RWQkey").unwrap();
    let twice = add_build_meta_info(add_build_meta_info(manifest(None), "RWQkey").unwrap(), "RWQkey")
        .unwrap();
    assert!(same(&once, &twice));
}

#[test]
fn stale_binstall_is_replaced() {
    let stale = table(vec![
        ("pkg_url", s("https://old.example/{name}")),
        ("signing", table(vec![("pubkey", s("OLDKEY"))])),
    ]);
    let doc = add_build_meta_info(manifest(Some(stale)), "NEWKEY").unwrap();
    let binstall = binstall_of(&doc);
    assert!(get(binstall, "pkg_url").is_none());
    let signing = get(binstall, "signing").unwrap();
    assert_eq!(text(get(signing, "pubkey")), Some("NEWKEY".to_string()));
    let fresh = add_build_meta_info(manifest(None), "NEWKEY").unwrap();
    assert!(same(binstall, binstall_of(&fresh)));
}

#[test]
fn metadata_is_created_when_absent() {
    let doc = table(vec![("package", table(vec![("name", s("widget"))]))]);
    let doc = add_build_meta_info(doc, "K").unwrap();
    let signing = get(binstall_of(&doc), "signing").unwrap();
    assert_eq!(text(get(signing, "pubkey")), Some("K".to_string()));
}

#[test]
fn manifest_errors() {
    assert_eq!(add_build_meta_info(s("x"), "K").err(), Some(ManifestError::NotATable));
    assert_eq!(
        add_build_meta_info(table(vec![("lib", table(vec![]))]), "K").err(),
        Some(ManifestError::MissingPackage)
    );
    assert_eq!(
        add_build_meta_info(table(vec![("package", s("widget"))]), "K").err(),
        Some(ManifestError::InvalidPackage)
    );
    assert_eq!(
        add_build_meta_info(table(vec![("package", table(vec![("metadata", s("m"))]))]), "K").err(),
        Some(ManifestError::InvalidMetadata)
    );
}
