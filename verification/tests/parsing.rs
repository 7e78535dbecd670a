use dirlist::parser::Config;

fn args(list: &[&str]) -> Vec<String> {
    list.iter().map(|s| String::from(*s)).collect()
}

#[test]
fn defaults_without_arguments() {
    let c = Config::parse(Vec::new());
    assert_eq!(c.dir_name, "./");
    assert!(!c.multi_line);
    assert!(!c.all);
    assert!(!c.show_dot);
    assert!(!c.path);
    assert!(!c.dont_sort);
    assert!(!c.no_color);
    assert!(!c.recursive);
}

#[test]
fn short_flags_set_their_options() {
    let c = Config::parse(args(&["-r", "-a", "-d", "-p", "-ds", "-nc", "-R"]));
    assert!(c.multi_line);
    assert!(c.all);
    assert!(c.show_dot);
    assert!(c.path);
    assert!(c.dont_sort);
    assert!(c.no_color);
    assert!(c.recursive);
    assert_eq!(c.dir_name, "./");
}

#[test]
fn long_flags_set_their_options() {
    let c = Config::parse(args(&[
        "--row",
        "--all",
        "--dot",
        "--path",
        "--dont-sort",
        "--no-color",
        "--recursive",
    ]));
    assert!(c.multi_line);
    assert!(c.all);
    assert!(c.show_dot);
    assert!(c.path);
    assert!(c.dont_sort);
    assert!(c.no_color);
    assert!(c.recursive);
}

#[test]
fn directory_is_last_dash_free_argument() {
    let c = Config::parse(args(&["first", "-a", "second"]));
    assert_eq!(c.dir_name, "second");
    assert!(c.all);
    let c2 = Config::parse(args(&["src", "-r"]));
    assert_eq!(c2.dir_name, "src");
    assert!(c2.multi_line);
}

#[test]
fn unknown_dashed_arguments_are_ignored() {
    let c = Config::parse(args(&["-z", "--bogus", "some-dir"]));
    assert!(!c.multi_line && !c.all && !c.show_dot && !c.path);
    assert!(!c.dont_sort && !c.no_color && !c.recursive);
    // an argument with a dash never becomes the directory
    assert_eq!(c.dir_name, "./");
}

#[test]
fn recursive_flag_is_inert() {
    // the flag parses, and nothing in the library consults it: the
    // parsed structure differs in that one field alone
    let with = Config::parse(args(&["-R", "dir"]));
    let without = Config::parse(args(&["dir"]));
    assert!(with.recursive);
    assert!(!without.recursive);
    assert_eq!(with.dir_name, without.dir_name);
    assert_eq!(with.multi_line, without.multi_line);
    assert_eq!(with.all, without.all);
    assert_eq!(with.show_dot, without.show_dot);
    assert_eq!(with.path, without.path);
    assert_eq!(with.dont_sort, without.dont_sort);
    assert_eq!(with.no_color, without.no_color);
}

#[test]
fn repeated_and_mixed_arguments() {
    let c = Config::parse(args(&["-r", "--row", "one", "two", "-a"]));
    assert!(c.multi_line);
    assert!(c.all);
    assert_eq!(c.dir_name, "two");
}
