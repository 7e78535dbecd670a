use dirlist::files::{Entries, FileInfo, FileKind, Output};

fn entry(name: &str, kind: FileKind, mode: u32, size: u64) -> FileInfo {
    let link_target = if kind == FileKind::Symlink {
        Some(String::from("target"))
    } else {
        None
    };
    FileInfo::new(
        format!("/abs/{}", name),
        String::from(name),
        kind,
        mode,
        size,
        1,
        1000,
        1000,
        1700000000,
        link_target,
    )
}

fn names_of(e: &Entries) -> Vec<String> {
    let mut v = Vec::new();
    let mut i = 0;
    while i < e.len() {
        v.push(e.index(i).file_name());
        i += 1;
    }
    v
}

#[test]
fn default_load_sorts_by_name() {
    let records = vec![
        entry("b.txt", FileKind::File, 0o644, 10),
        entry("a.txt", FileKind::File, 0o644, 20),
        entry(".hidden", FileKind::File, 0o644, 5),
        entry("sub", FileKind::Dir, 0o755, 4096),
    ];
    let e = Entries::new(records);
    assert_eq!(names_of(&e), vec![".hidden", "a.txt", "b.txt", "sub"]);
}

#[test]
fn hide_dots_single_row_output() {
    let records = vec![
        entry("b.txt", FileKind::File, 0o644, 10),
        entry("a.txt", FileKind::File, 0o644, 20),
        entry(".hidden", FileKind::File, 0o644, 5),
        entry("sub", FileKind::Dir, 0o755, 4096),
    ];
    let e = Entries::new(records);
    let out = Output::new_hide_dots(&e);
    assert_eq!(out.show_single_row(), "a.txt b.txt \x1b[1;34msub\x1b[0m");
}

#[test]
fn hide_dots_removes_exactly_dot_entries() {
    let records = vec![
        entry(".a", FileKind::File, 0o644, 1),
        entry("b", FileKind::File, 0o644, 2),
        entry(".c", FileKind::Dir, 0o755, 3),
        entry("d", FileKind::Dir, 0o755, 4),
    ];
    let e = Entries::new(records);
    let visible = e.hide_dots();
    assert_eq!(names_of(&visible), vec!["b", "d"]);
    // the full collection is untouched
    assert_eq!(names_of(&e), vec![".a", ".c", "b", "d"]);
}

#[test]
fn equal_names_keep_arrival_order() {
    // Two records share a name but differ in every other field: the
    // sort must not reorder them by any field but the name.
    let first = entry("same", FileKind::File, 0o600, 111);
    let second = entry("same", FileKind::Dir, 0o755, 222);
    let e = Entries::new(vec![first, second]);
    assert_eq!(e.len(), 2);
    assert_eq!(e.index(0).size, 111);
    assert_eq!(e.index(1).size, 222);
}

#[test]
fn equality_consults_the_name_alone() {
    let a = entry("same", FileKind::File, 0o600, 111);
    let b = entry("same", FileKind::Dir, 0o755, 222);
    let c = entry("other", FileKind::File, 0o600, 111);
    assert!(a == b);
    assert!(a != c);
}

#[test]
fn files_first_is_reverse_of_dirs_first() {
    let records = vec![
        entry("m", FileKind::File, 0o644, 1),
        entry("a", FileKind::Dir, 0o755, 2),
        entry("z", FileKind::File, 0o644, 3),
        entry("k", FileKind::Dir, 0o755, 4),
    ];
    let e = Entries::new(records);
    let dirs_first = e.sort_dirs_up();
    let files_first = e.sort_files_up();
    let mut reversed = names_of(&dirs_first);
    reversed.reverse();
    assert_eq!(names_of(&files_first), reversed);
    assert_eq!(names_of(&dirs_first), vec!["a", "k", "m", "z"]);
}

#[test]
fn symlink_detail_line_has_arrow() {
    let link = entry("ln", FileKind::Symlink, 0o777, 6);
    let plain = entry("file", FileKind::File, 0o644, 6);
    let link_line = link.detail_line();
    assert!(link_line.contains(" -> "));
    // the decorated target follows the arrow
    assert!(link_line.ends_with(" -> \x1b[1;35mtarget\x1b[0m"));
    assert!(!plain.detail_line().contains(" -> "));
}

#[test]
fn one_detail_row_per_entry() {
    let records = vec![
        entry("one", FileKind::File, 0o644, 1),
        entry("two", FileKind::Dir, 0o755, 2),
        entry("three", FileKind::Symlink, 0o777, 3),
    ];
    let e = Entries::new(records);
    let shown = e.show();
    assert_eq!(shown.lines().count(), 3);
    let row_output = Output::new_fn(&e, |f| f.detail_line());
    assert_eq!(row_output.show_multiple_rows(), shown);
}

#[test]
fn executable_and_plain_files_decorate_differently() {
    let exe = entry("prog", FileKind::File, 0o755, 1);
    let plain = entry("notes", FileKind::File, 0o644, 1);
    assert_eq!(exe.kind, FileKind::File);
    assert_eq!(plain.kind, FileKind::File);
    assert_eq!(exe.colored_file_name(), "\x1b[1;32mprog\x1b[0m");
    assert_eq!(plain.colored_file_name(), "notes");
    let exe_same_name = entry("notes", FileKind::File, 0o755, 1);
    assert_ne!(exe_same_name.colored_file_name(), plain.colored_file_name());
}

#[test]
fn directory_and_symlink_decorations() {
    let dir = entry("docs", FileKind::Dir, 0o755, 4096);
    let link = entry("ln", FileKind::Symlink, 0o777, 6);
    let other = entry("dev", FileKind::Other, 0o660, 0);
    assert_eq!(dir.colored_file_name(), "\x1b[1;34mdocs\x1b[0m");
    assert_eq!(link.colored_file_name(), "\x1b[1;35mln\x1b[0m");
    assert_eq!(other.colored_file_name(), "dev");
}

#[test]
fn is_dot_checks_leading_dot() {
    assert!(entry(".cfg", FileKind::File, 0o644, 1).is_dot());
    assert!(!entry("cfg", FileKind::File, 0o644, 1).is_dot());
    assert!(!entry("not.dot", FileKind::File, 0o644, 1).is_dot());
}

#[test]
fn empty_collection_renders_empty() {
    let e = Entries::new(Vec::new());
    assert_eq!(e.len(), 0);
    assert_eq!(e.show(), "");
    assert_eq!(e.only_names(), "");
    assert_eq!(Output::new_color(&e).show_single_row(), "");
}
