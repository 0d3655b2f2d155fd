use warehouseify::config::unpack_destination;
use warehouseify::paths::{join, panic_on_dangerous_path, path_binaries, path_sources, PathError};

#[test]
fn ok_on_some_homedir() {
    panic_on_dangerous_path("/home/runner/repo/").unwrap();
}

#[test]
fn guard_accepts_four_components() {
    assert_eq!(
        panic_on_dangerous_path("/home/user/project"),
        Ok(String::from("/home/user/project"))
    );
}

#[test]
fn guard_rejects_root() {
    assert_eq!(panic_on_dangerous_path("/"), Err(PathError::TooShallow));
}

#[test]
fn guard_rejects_etc() {
    assert_eq!(panic_on_dangerous_path("/etc/"), Err(PathError::TooShallow));
}

#[test]
fn guard_rejects_etc_subdir() {
    assert_eq!(panic_on_dangerous_path("/etc/subdir/"), Err(PathError::TooShallow));
}

#[test]
fn guard_ignores_repeated_slashes_and_dots() {
    assert_eq!(panic_on_dangerous_path("//etc/./subdir//"), Err(PathError::TooShallow));
    assert!(panic_on_dangerous_path("/a/./b//c").is_ok());
}

#[test]
fn guard_counts_parent_components() {
    assert!(panic_on_dangerous_path("/etc/../x").is_ok());
}

#[test]
fn guard_refuses_relative_paths() {
    assert_eq!(panic_on_dangerous_path("../../../../../../etc"), Err(PathError::Relative));
    assert_eq!(panic_on_dangerous_path(""), Err(PathError::Relative));
}

#[test]
fn workspace_directories() {
    assert_eq!(path_sources("/srv/ws"), "/srv/ws/build/");
    assert_eq!(path_sources("/srv/ws/"), "/srv/ws/build/");
    assert_eq!(path_binaries("/srv/ws"), "/srv/ws/artifacts/");
    assert_eq!(path_binaries(""), "artifacts/");
    assert_eq!(join("a", "b"), "a/b");
}

#[test]
fn unpack_destination_is_under_build() {
    assert_eq!(unpack_destination("/srv/ws", "widget"), "/srv/ws/build/widget");
}
