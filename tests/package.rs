use std::io::Read;

use warehouseify::package::{package, package_file_name, PackageError};

fn entries(archive: &[u8]) -> Vec<(String, Vec<u8>)> {
    let mut reader = tar::Archive::new(archive);
    let mut out = Vec::new();
    for entry in reader.entries().unwrap() {
        let mut entry = entry.unwrap();
        let name = entry.path().unwrap().to_string_lossy().into_owned();
        let mut data = Vec::new();
        entry.read_to_end(&mut data).unwrap();
        out.push((name, data));
    }
    out
}

#[test]
fn package_holds_binary_and_signature() {
    let binary: Vec<u8> = (0..2000u32).map(|i| (i % 251) as u8).collect();
    let signature = b"untrusted comment: sig\nABC\n".to_vec();
    let archive = package("widget-1.2.3-2024", &binary, &signature).unwrap();
    let read = entries(&archive);
    assert_eq!(read.len(), 2);
    assert_eq!(read[0], ("widget-1.2.3-2024".to_string(), binary));
    assert_eq!(read[1], ("widget-1.2.3-2024.sig".to_string(), signature));
}

#[test]
fn empty_binary_is_packaged() {
    let archive = package("empty", &[], b"s").unwrap();
    let read = entries(&archive);
    assert_eq!(read, vec![("empty".to_string(), vec![]), ("empty.sig".to_string(), b"s".to_vec())]);
}

#[test]
fn invalid_entry_name_is_refused() {
    assert_eq!(package("../escape", b"x", b"y"), Err(PackageError::InvalidEntryName));
}

#[test]
fn package_file_is_named_after_binary() {
    assert_eq!(package_file_name("widget-1.2.3-2024"), "widget-1.2.3-2024.tar");
}
