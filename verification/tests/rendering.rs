use dirlist::files::{
    Entries, Extensions, FileInfo, FileKind, LoadError, Output, Permissions,
};
use dirlist::text::u64_to_dec;

fn record(name: &str, kind: FileKind, mode: u32, size: u64) -> FileInfo {
    let link_target = if kind == FileKind::Symlink {
        Some(String::from("elsewhere"))
    } else {
        None
    };
    FileInfo::new(
        format!("/abs/{}", name),
        String::from(name),
        kind,
        mode,
        size,
        2,
        501,
        20,
        1700000000,
        link_target,
    )
}

#[test]
fn permission_string_exact_values() {
    assert_eq!(Permissions::from_mode(0o754).text(), "rwxr-xr--");
    assert_eq!(Permissions::from_mode(0o000).text(), "---------");
    assert_eq!(Permissions::from_mode(0o777).text(), "rwxrwxrwx");
    assert_eq!(Permissions::from_mode(0o640).text(), "rw-r-----");
}

#[test]
fn permission_string_shape() {
    for mode in [0o000u32, 0o123, 0o456, 0o777, 0o644, 0o711] {
        let p = Permissions::from_mode(mode);
        let s = p.text().to_owned();
        assert_eq!(s.len(), 9);
        assert!(s.chars().all(|c| c == 'r' || c == 'w' || c == 'x' || c == '-'));
    }
}

#[test]
fn executability_means_some_x_bit() {
    assert!(Permissions::from_mode(0o100).is_executable());
    assert!(Permissions::from_mode(0o010).is_executable());
    assert!(Permissions::from_mode(0o001).is_executable());
    assert!(!Permissions::from_mode(0o644).is_executable());
    assert!(!Permissions::from_mode(0o000).is_executable());
}

#[test]
fn decimal_rendering_exact() {
    assert_eq!(u64_to_dec(0), "0");
    assert_eq!(u64_to_dec(7), "7");
    assert_eq!(u64_to_dec(10), "10");
    assert_eq!(u64_to_dec(12345), "12345");
    assert_eq!(u64_to_dec(u64::MAX), "18446744073709551615");
}

#[test]
fn detail_line_columns() {
    let f = record("notes.txt", FileKind::File, 0o644, 1234);
    let line = f.detail_line();
    // permission column padded to ten, then link count, owner, group, size
    assert!(line.starts_with("rw-r--r--  2  501  20   1234   "));
    assert!(line.ends_with(" notes.txt"));
    // the timestamp column sits between size and name, nineteen wide
    assert_eq!(line.matches(" -> ").count(), 0);
}

#[test]
fn file_kind_classification() {
    assert_eq!(FileKind::classify(true, false, false), FileKind::Dir);
    assert_eq!(FileKind::classify(false, true, false), FileKind::File);
    assert_eq!(FileKind::classify(false, false, true), FileKind::Symlink);
    assert_eq!(FileKind::classify(false, false, false), FileKind::Other);
    // the order of the checks: a directory wins over every other bit
    assert_eq!(FileKind::classify(true, true, true), FileKind::Dir);
}

#[test]
fn extension_classification() {
    assert!(matches!(Extensions::from("main.rs"), Extensions::Rust));
    assert!(matches!(Extensions::from("Cargo.toml"), Extensions::Toml));
    assert!(matches!(Extensions::from("a.c"), Extensions::C));
    assert!(matches!(Extensions::from("a.cpp"), Extensions::Cpp));
    assert!(matches!(Extensions::from("x.cmake"), Extensions::CMake));
    assert!(matches!(Extensions::from("x.hpp"), Extensions::CppHeader));
    assert!(matches!(Extensions::from("x.h"), Extensions::CHeader));
    assert!(matches!(Extensions::from("m.go"), Extensions::Go));
    assert!(matches!(Extensions::from("t.txt"), Extensions::Txt));
    assert!(matches!(Extensions::from("d.json"), Extensions::Json));
}

#[test]
fn extension_uses_lowercased_suffix() {
    // classification goes through real lowercasing of the raw suffix
    assert!(matches!(Extensions::from("MAIN.RS"), Extensions::Rust));
    assert!(matches!(Extensions::from("A.TomL"), Extensions::Toml));
    match Extensions::from("archive.TAR") {
        Extensions::Other(s) => assert_eq!(s, "tar"),
        _ => panic!("expected the catch-all"),
    }
}

#[test]
fn extension_takes_last_dot() {
    match Extensions::from("archive.tar.gz") {
        Extensions::Other(s) => assert_eq!(s, "gz"),
        _ => panic!("expected the catch-all"),
    }
    assert!(matches!(Extensions::from("lib.test.rs"), Extensions::Rust));
}

#[test]
fn extension_edge_names() {
    match Extensions::from("nodot") {
        Extensions::Other(s) => assert_eq!(s, ""),
        _ => panic!("expected the catch-all"),
    }
    match Extensions::from("trailing.") {
        Extensions::Other(s) => assert_eq!(s, ""),
        _ => panic!("expected the catch-all"),
    }
    match Extensions::from(".hidden") {
        Extensions::Other(s) => assert_eq!(s, "hidden"),
        _ => panic!("expected the catch-all"),
    }
}

#[test]
fn output_rows_and_flattening() {
    let out = Output { items: vec![String::from("a"), String::from("bb"), String::from("c")] };
    assert_eq!(out.show_single_row(), "a bb c");
    assert_eq!(out.show_multiple_rows(), "a\nbb\nc");
    let one = Output { items: vec![String::from("only")] };
    assert_eq!(one.show_single_row(), "only");
    assert_eq!(one.show_multiple_rows(), "only");
    let none = Output { items: Vec::new() };
    assert_eq!(none.show_single_row(), "");
    assert_eq!(none.show_multiple_rows(), "");
}

#[test]
fn color_and_plain_projections() {
    let e = Entries::new(vec![
        record("dir", FileKind::Dir, 0o755, 0),
        record("plain", FileKind::File, 0o644, 0),
    ]);
    let colored = Output::new_color(&e);
    assert_eq!(colored.show_single_row(), "\x1b[1;34mdir\x1b[0m plain");
    let plain = Output::new_no_color(&e);
    assert_eq!(plain.show_single_row(), "dir plain");
    assert_eq!(e.only_names(), "\x1b[1;34mdir\x1b[0m plain");
}

#[test]
fn new_fn_projects_each_entry() {
    let e = Entries::new(vec![
        record("b", FileKind::File, 0o644, 0),
        record("a", FileKind::File, 0o644, 0),
    ]);
    let paths = Output::new_fn(&e, |f| f.path.clone());
    assert_eq!(paths.show_multiple_rows(), "/abs/a\n/abs/b");
}

#[test]
fn load_error_messages() {
    assert_eq!(LoadError::DirectoryUnavailable.message(), "cannot open directory");
    assert_eq!(
        LoadError::MetadataUnavailable(String::from("gone")).message(),
        "cannot read entry metadata: gone"
    );
}
