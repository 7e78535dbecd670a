//! The option set consumed from the command line: a flat structure of
//! booleans and a directory name, filled by scanning the raw argument
//! strings.
use vstd::prelude::*;

use crate::text::{str_contains_char, str_eq};

verus! {

/// The display options. Every flag is accepted; `recursive` is
/// accepted but inert: no operation of the library reads it.
pub struct Config {
    /// The directory to list.
    pub dir_name: String,
    /// One entry per line instead of a single row.
    pub multi_line: bool,
    /// Show the full-detail listing, dotfiles included.
    pub all: bool,
    /// Keep dotfiles in the colorized name listing.
    pub show_dot: bool,
    /// Show canonical paths instead of names.
    pub path: bool,
    /// Leave the entries in directory order.
    pub dont_sort: bool,
    /// Render raw names without decoration.
    pub no_color: bool,
    /// Accepted for parity; never consulted.
    pub recursive: bool,
}

/// Whether an argument selects one-entry-per-line output.
pub open spec fn is_row_flag(f: Seq<char>) -> bool {
    f == "-r"@ || f == "--row"@
}

/// Whether an argument selects the full listing.
pub open spec fn is_all_flag(f: Seq<char>) -> bool {
    f == "-a"@ || f == "--all"@
}

/// Whether an argument keeps dotfiles visible.
pub open spec fn is_dot_flag(f: Seq<char>) -> bool {
    f == "-d"@ || f == "--dot"@
}

/// Whether an argument selects path output.
pub open spec fn is_path_flag(f: Seq<char>) -> bool {
    f == "-p"@ || f == "--path"@
}

/// Whether an argument turns sorting off.
pub open spec fn is_dont_sort_flag(f: Seq<char>) -> bool {
    f == "-ds"@ || f == "--dont-sort"@
}

/// Whether an argument turns decoration off.
pub open spec fn is_no_color_flag(f: Seq<char>) -> bool {
    f == "-nc"@ || f == "--no-color"@
}

/// Whether an argument asks for recursion.
pub open spec fn is_recursive_flag(f: Seq<char>) -> bool {
    f == "-R"@ || f == "--recursive"@
}

/// Whether an argument names a directory: any argument without a dash.
pub open spec fn is_dir_arg(f: Seq<char>) -> bool {
    !f.contains('-')
}

/// The directory the argument list selects: the last dash-free
/// argument, or `./` when there is none.
pub open spec fn spec_dir_name(args: Seq<Seq<char>>) -> Seq<char>
    decreases args.len(),
{
    if args.len() == 0 {
        "./"@
    } else if is_dir_arg(args.last()) {
        args.last()
    } else {
        spec_dir_name(args.drop_last())
    }
}

impl Default for Config {
    /// The options before any argument is read: list `./` in a single
    /// colorized row, dotfiles hidden.
    fn default() -> (c: Config)
        ensures
            c.dir_name@ == "./"@,
            !c.multi_line,
            !c.all,
            !c.show_dot,
            !c.path,
            !c.dont_sort,
            !c.no_color,
            !c.recursive,
    {
        Config {
            dir_name: String::from_str("./"),
            multi_line: false,
            all: false,
            show_dot: false,
            path: false,
            dont_sort: false,
            no_color: false,
            recursive: false,
        }
    }
}

impl Config {
    /// Scans the raw arguments. Each boolean option ends up set exactly
    /// when one of its spellings occurs; the directory is the last
    /// dash-free argument.
    pub fn parse(flags: Vec<String>) -> (r: Config)
        ensures
            r.multi_line == exists|j: int|
                0 <= j < flags@.len() && is_row_flag(#[trigger] flags.deep_view()[j]),
            r.all == exists|j: int|
                0 <= j < flags@.len() && is_all_flag(#[trigger] flags.deep_view()[j]),
            r.show_dot == exists|j: int|
                0 <= j < flags@.len() && is_dot_flag(#[trigger] flags.deep_view()[j]),
            r.path == exists|j: int|
                0 <= j < flags@.len() && is_path_flag(#[trigger] flags.deep_view()[j]),
            r.dont_sort == exists|j: int|
                0 <= j < flags@.len() && is_dont_sort_flag(#[trigger] flags.deep_view()[j]),
            r.no_color == exists|j: int|
                0 <= j < flags@.len() && is_no_color_flag(#[trigger] flags.deep_view()[j]),
            r.recursive == exists|j: int|
                0 <= j < flags@.len() && is_recursive_flag(#[trigger] flags.deep_view()[j]),
            r.dir_name@ == spec_dir_name(flags.deep_view()),
    {
        let ghost fv = flags.deep_view();
        let mut c = Config::default();
        let n = flags.len();
        let mut i: usize = 0;
        proof {
            assert(fv.take(0) =~= Seq::<Seq<char>>::empty());
        }
        while i < n
            invariant
                n == flags@.len(),
                fv == flags.deep_view(),
                i <= n,
                c.multi_line == exists|j: int| 0 <= j < i && is_row_flag(#[trigger] fv[j]),
                c.all == exists|j: int| 0 <= j < i && is_all_flag(#[trigger] fv[j]),
                c.show_dot == exists|j: int| 0 <= j < i && is_dot_flag(#[trigger] fv[j]),
                c.path == exists|j: int| 0 <= j < i && is_path_flag(#[trigger] fv[j]),
                c.dont_sort == exists|j: int| 0 <= j < i && is_dont_sort_flag(#[trigger] fv[j]),
                c.no_color == exists|j: int| 0 <= j < i && is_no_color_flag(#[trigger] fv[j]),
                c.recursive == exists|j: int| 0 <= j < i && is_recursive_flag(#[trigger] fv[j]),
                c.dir_name@ == spec_dir_name(fv.take(i as int)),
            decreases n - i,
        {
            let f = flags[i].as_str();
            proof {
                assert(fv[i as int] == f@);
                assert(fv.take(i + 1).drop_last() =~= fv.take(i as int));
                assert(fv.take(i + 1).last() == fv[i as int]);
                reveal_strlit("-r");
                reveal_strlit("--row");
                reveal_strlit("-a");
                reveal_strlit("--all");
                reveal_strlit("-d");
                reveal_strlit("--dot");
                reveal_strlit("-p");
                reveal_strlit("--path");
                reveal_strlit("-ds");
                reveal_strlit("--dont-sort");
                reveal_strlit("-nc");
                reveal_strlit("--no-color");
                reveal_strlit("-R");
                reveal_strlit("--recursive");
                assert("-r"@[0] == '-');
                assert("-r"@.contains('-'));
                assert("--row"@[0] == '-');
                assert("--row"@.contains('-'));
                assert("-a"@[0] == '-');
                assert("-a"@.contains('-'));
                assert("--all"@[0] == '-');
                assert("--all"@.contains('-'));
                assert("-d"@[0] == '-');
                assert("-d"@.contains('-'));
                assert("--dot"@[0] == '-');
                assert("--dot"@.contains('-'));
                assert("-p"@[0] == '-');
                assert("-p"@.contains('-'));
                assert("--path"@[0] == '-');
                assert("--path"@.contains('-'));
                assert("-ds"@[0] == '-');
                assert("-ds"@.contains('-'));
                assert("--dont-sort"@[0] == '-');
                assert("--dont-sort"@.contains('-'));
                assert("-nc"@[0] == '-');
                assert("-nc"@.contains('-'));
                assert("--no-color"@[0] == '-');
                assert("--no-color"@.contains('-'));
                assert("-R"@[0] == '-');
                assert("-R"@.contains('-'));
                assert("--recursive"@[0] == '-');
                assert("--recursive"@.contains('-'));
                assert("-r"@[1] == 'r');
                assert("-a"@[1] == 'a');
                assert("-d"@[1] == 'd');
                assert("-p"@[1] == 'p');
                assert("-R"@[1] == 'R');
                assert("-ds"@[1] == 'd');
                assert("-nc"@[1] == 'n');
                assert("--row"@[2] == 'r');
                assert("--all"@[2] == 'a');
                assert("--dot"@[2] == 'd');
                assert("--path"@[2] == 'p');
                assert("--dont-sort"@[2] == 'd');
                assert("--no-color"@[2] == 'n');
                assert("--recursive"@[2] == 'r');
            }
            if str_eq(f, "-r") || str_eq(f, "--row") {
                c.multi_line = true;
            } else if str_eq(f, "-a") || str_eq(f, "--all") {
                c.all = true;
            } else if str_eq(f, "-d") || str_eq(f, "--dot") {
                c.show_dot = true;
            } else if str_eq(f, "-p") || str_eq(f, "--path") {
                c.path = true;
            } else if str_eq(f, "-ds") || str_eq(f, "--dont-sort") {
                c.dont_sort = true;
            } else if str_eq(f, "-nc") || str_eq(f, "--no-color") {
                c.no_color = true;
            } else if str_eq(f, "-R") || str_eq(f, "--recursive") {
                c.recursive = true;
            } else {
                if !str_contains_char(f, '-') {
                    c.dir_name = flags[i].clone();
                }
            }
            i = i + 1;
        }
        proof {
            assert(fv.take(n as int) =~= fv);
        }
        c
    }
}

} // verus!
