//! The entry metadata model and its rendering: a typed record per
//! directory entry, a name-sorted collection of records, and the
//! projections of a collection into its textual forms.
use vstd::prelude::*;

use crate::text::{
    dec_str, find_last_char, join_strings, join_with, last_index_of, lemma_lex_le_total,
    lemma_lex_le_transitive, lex_le, lower_of, lowercase, pad_right, pad_to, str_contains_char,
    str_eq, str_le, u64_to_dec,
};
use crate::MAX_MTIME_SECS;

verus! {

/// The classification of an entry's filesystem type.
#[derive(Clone, Copy, PartialEq, Eq, Structural, Debug)]
pub enum FileKind {
    Dir,
    File,
    Symlink,
    Other,
}

impl FileKind {
    /// Derives the kind from the three type predicates of a filesystem
    /// entry, in the order directory, regular file, symlink.
    pub fn classify(is_dir: bool, is_file: bool, is_symlink: bool) -> (k: FileKind)
        ensures
            k == (if is_dir {
                FileKind::Dir
            } else if is_file {
                FileKind::File
            } else if is_symlink {
                FileKind::Symlink
            } else {
                FileKind::Other
            }),
    {
        if is_dir {
            FileKind::Dir
        } else if is_file {
            FileKind::File
        } else if is_symlink {
            FileKind::Symlink
        } else {
            FileKind::Other
        }
    }
}

/// One permission character: the flag character when the bit is set,
/// `-` otherwise.
pub open spec fn perm_bit(on: bool, c: char) -> char {
    if on {
        c
    } else {
        '-'
    }
}

/// The nine-character owner/group/other read-write-execute triad
/// derived from Unix mode bits.
pub open spec fn perm_chars(mode: u32) -> Seq<char> {
    seq![
        perm_bit(mode & 0o400 != 0, 'r'),
        perm_bit(mode & 0o200 != 0, 'w'),
        perm_bit(mode & 0o100 != 0, 'x'),
        perm_bit(mode & 0o040 != 0, 'r'),
        perm_bit(mode & 0o020 != 0, 'w'),
        perm_bit(mode & 0o010 != 0, 'x'),
        perm_bit(mode & 0o004 != 0, 'r'),
        perm_bit(mode & 0o002 != 0, 'w'),
        perm_bit(mode & 0o001 != 0, 'x'),
    ]
}

/// A 9-character read/write/execute triad over owner, group and other,
/// in fixed position order.
pub struct Permissions {
    repr: String,
}

impl View for Permissions {
    type V = Seq<char>;

    closed spec fn view(&self) -> Seq<char> {
        self.repr@
    }
}

impl Permissions {
    /// Decodes the raw mode bits into the triad string.
    pub fn from_mode(mode: u32) -> (p: Permissions)
        ensures
            p@ == perm_chars(mode),
    {
        proof {
            reveal_strlit("r");
            reveal_strlit("w");
            reveal_strlit("x");
            reveal_strlit("-");
            assert("r"@ =~= seq!['r']);
            assert("w"@ =~= seq!['w']);
            assert("x"@ =~= seq!['x']);
            assert("-"@ =~= seq!['-']);
        }
        let mut s = String::new();
        s.append(if mode & 0o400 != 0 { "r" } else { "-" });
        s.append(if mode & 0o200 != 0 { "w" } else { "-" });
        s.append(if mode & 0o100 != 0 { "x" } else { "-" });
        s.append(if mode & 0o040 != 0 { "r" } else { "-" });
        s.append(if mode & 0o020 != 0 { "w" } else { "-" });
        s.append(if mode & 0o010 != 0 { "x" } else { "-" });
        s.append(if mode & 0o004 != 0 { "r" } else { "-" });
        s.append(if mode & 0o002 != 0 { "w" } else { "-" });
        s.append(if mode & 0o001 != 0 { "x" } else { "-" });
        proof {
            assert(s@ =~= perm_chars(mode));
        }
        Permissions { repr: s }
    }

    /// The triad as text.
    pub fn text(&self) -> (r: &str)
        ensures
            r@ == self@,
    {
        self.repr.as_str()
    }

    /// Whether any execute bit is set: some position shows `x`.
    pub fn is_executable(&self) -> (r: bool)
        ensures
            r == self@.contains('x'),
    {
        str_contains_char(self.repr.as_str(), 'x')
    }
}

impl Clone for Permissions {
    fn clone(&self) -> (r: Self)
        ensures
            r == *self,
    {
        Permissions { repr: self.repr.clone() }
    }
}

/// The recognized file-name extensions, plus a catch-all carrying the
/// lower-cased raw suffix.
#[derive(Debug)]
pub enum Extensions {
    Rust,
    Toml,
    C,
    Cpp,
    CMake,
    CppHeader,
    CHeader,
    Go,
    Txt,
    Json,
    Other(String),
}

/// The suffix of a name after its last `.`, or empty when the name has
/// no dot.
pub open spec fn suffix_of(name: Seq<char>) -> Seq<char> {
    let i = last_index_of(name, '.');
    if i < 0 {
        Seq::empty()
    } else {
        name.subrange(i + 1, name.len() as int)
    }
}

/// The lower-cased suffix a name is classified by; empty when the name
/// has no dot or the suffix is empty.
pub open spec fn ext_key(name: Seq<char>) -> Seq<char> {
    if suffix_of(name).len() == 0 {
        Seq::empty()
    } else {
        lower_of(suffix_of(name))
    }
}

/// Whether `e` is the classification of the name: each recognized
/// variant stands for its exact key, and the catch-all carries any
/// other key verbatim.
pub open spec fn ext_matches(e: Extensions, name: Seq<char>) -> bool {
    let s = ext_key(name);
    match e {
        Extensions::Rust => s == "rs"@,
        Extensions::Toml => s == "toml"@,
        Extensions::C => s == "c"@,
        Extensions::Cpp => s == "cpp"@,
        Extensions::CMake => s == "cmake"@,
        Extensions::CppHeader => s == "hpp"@,
        Extensions::CHeader => s == "h"@,
        Extensions::Go => s == "go"@,
        Extensions::Txt => s == "txt"@,
        Extensions::Json => s == "json"@,
        Extensions::Other(o) => o@ == s && s != "rs"@ && s != "toml"@ && s != "c"@ && s != "cpp"@
            && s != "cmake"@ && s != "hpp"@ && s != "h"@ && s != "go"@ && s != "txt"@ && s
            != "json"@,
    }
}

impl Extensions {
    /// Classifies a file name by the lower-cased suffix after its last
    /// dot.
    pub fn from(name: &str) -> (e: Extensions)
        ensures
            ext_matches(e, name@),
    {
        let n = name.unicode_len();
        let last_dot = find_last_char(name, '.');
        match last_dot {
            None => {
                proof {
                    lemma_recognized_nonempty();
                }
                Extensions::Other(String::new())
            },
            Some(i) => {
                proof {
                    crate::text::lemma_last_index_of(name@, '.');
                }
                if i + 1 == n {
                    proof {
                        lemma_recognized_nonempty();
                        assert(suffix_of(name@).len() == 0);
                    }
                    Extensions::Other(String::new())
                } else {
                    let suf = name.substring_char(i + 1, n);
                    let low = lowercase(suf);
                    proof {
                        assert(suf@ == suffix_of(name@));
                        assert(low@ == ext_key(name@));
                    }
                    if str_eq(low.as_str(), "rs") {
                        Extensions::Rust
                    } else if str_eq(low.as_str(), "toml") {
                        Extensions::Toml
                    } else if str_eq(low.as_str(), "c") {
                        Extensions::C
                    } else if str_eq(low.as_str(), "cpp") {
                        Extensions::Cpp
                    } else if str_eq(low.as_str(), "cmake") {
                        Extensions::CMake
                    } else if str_eq(low.as_str(), "hpp") {
                        Extensions::CppHeader
                    } else if str_eq(low.as_str(), "h") {
                        Extensions::CHeader
                    } else if str_eq(low.as_str(), "go") {
                        Extensions::Go
                    } else if str_eq(low.as_str(), "txt") {
                        Extensions::Txt
                    } else if str_eq(low.as_str(), "json") {
                        Extensions::Json
                    } else {
                        Extensions::Other(low)
                    }
                }
            },
        }
    }
}

/// The recognized extension keys are all non-empty, so an empty key
/// always falls to the catch-all.
proof fn lemma_recognized_nonempty()
    ensures
        "rs"@.len() == 2,
        "toml"@.len() == 4,
        "c"@.len() == 1,
        "cpp"@.len() == 3,
        "cmake"@.len() == 5,
        "hpp"@.len() == 3,
        "h"@.len() == 1,
        "go"@.len() == 2,
        "txt"@.len() == 3,
        "json"@.len() == 4,
{
    reveal_strlit("rs");
    reveal_strlit("toml");
    reveal_strlit("c");
    reveal_strlit("cpp");
    reveal_strlit("cmake");
    reveal_strlit("hpp");
    reveal_strlit("h");
    reveal_strlit("go");
    reveal_strlit("txt");
    reveal_strlit("json");
}

impl Clone for Extensions {
    fn clone(&self) -> (r: Self)
        ensures
            r == *self,
    {
        match self {
            Extensions::Rust => Extensions::Rust,
            Extensions::Toml => Extensions::Toml,
            Extensions::C => Extensions::C,
            Extensions::Cpp => Extensions::Cpp,
            Extensions::CMake => Extensions::CMake,
            Extensions::CppHeader => Extensions::CppHeader,
            Extensions::CHeader => Extensions::CHeader,
            Extensions::Go => Extensions::Go,
            Extensions::Txt => Extensions::Txt,
            Extensions::Json => Extensions::Json,
            Extensions::Other(s) => Extensions::Other(s.clone()),
        }
    }
}

/// The styling prefix for directory names.
pub open spec fn dir_deco() -> Seq<char> {
    "\x1b[1;34m"@
}

/// The styling prefix for symlink names and targets.
pub open spec fn link_deco() -> Seq<char> {
    "\x1b[1;35m"@
}

/// The styling prefix for executable regular files.
pub open spec fn exec_deco() -> Seq<char> {
    "\x1b[1;32m"@
}

/// The styling reset suffix.
pub open spec fn reset_deco() -> Seq<char> {
    "\x1b[0m"@
}

/// The decorated display form of a name: directories, symlinks and
/// executables each get their own styling; everything else is the
/// plain name.
pub open spec fn decorated(name: Seq<char>, kind: FileKind, is_exec: bool) -> Seq<char> {
    match kind {
        FileKind::Dir => dir_deco() + name + reset_deco(),
        FileKind::Symlink => link_deco() + name + reset_deco(),
        FileKind::File => if is_exec {
            exec_deco() + name + reset_deco()
        } else {
            name
        },
        FileKind::Other => if is_exec {
            exec_deco() + name + reset_deco()
        } else {
            name
        },
    }
}

/// Wraps a name in a styling prefix and the reset suffix.
fn decorate(name: &str, prefix: &str) -> (r: String)
    ensures
        r@ == prefix@ + name@ + reset_deco(),
{
    let mut s = String::from_str(prefix);
    s.append(name);
    s.append("\x1b[0m");
    proof {
        assert(s@ =~= prefix@ + name@ + reset_deco());
    }
    s
}

/// Relies on chrono: converting `UNIX_EPOCH + secs` to a
/// `DateTime<Local>` and formatting it as `%Y-%m-%d %H:%M:%S`. The
/// result depends on the machine's time zone, so only shape is stated:
/// the pattern emits digits, `-`, `:` and spaces, never a newline or
/// `>`. The bound keeps the timestamp inside chrono's range, where the
/// conversion cannot panic.
#[verifier::external_body]
fn format_epoch_secs(secs: u64) -> (r: String)
    requires
        secs <= MAX_MTIME_SECS,
    ensures
        !r@.contains('\n'),
        !r@.contains('>'),
{
    let t = std::time::UNIX_EPOCH + std::time::Duration::from_secs(secs);
    let local: chrono::DateTime<chrono::Local> = t.into();
    local.format("%Y-%m-%d %H:%M:%S").to_string()
}

/// One directory entry with its derived metadata.
pub struct FileInfo {
    /// The canonical absolute path of the entry.
    pub path: String,
    /// The raw entry name; the sort key and the undecorated display form.
    pub name: String,
    /// The filesystem type classification.
    pub kind: FileKind,
    /// The advisory extension classification of the name.
    pub extension: Extensions,
    /// The read/write/execute triad.
    pub permissions: Permissions,
    /// Size in bytes.
    pub size: u64,
    /// The raw symlink target; present exactly for symlinks.
    pub link_target: Option<String>,
    /// Hard-link count.
    pub nlink: u64,
    /// Numeric owner id.
    pub owner: u32,
    /// Numeric group id.
    pub group: u32,
    /// The modification time, formatted `YYYY-MM-DD HH:MM:SS` in the
    /// local time zone.
    pub mtime: String,
}

/// Whether an entry's name marks it as hidden: the raw name starts
/// with a dot.
pub open spec fn is_dot_spec(f: FileInfo) -> bool {
    f.name@.len() > 0 && f.name@[0] == '.'
}

/// Whether `c` may stand in a permission triad.
pub open spec fn is_perm_char(c: char) -> bool {
    c == 'r' || c == 'w' || c == 'x' || c == '-'
}

/// Internal consistency of an entry: a link target exactly for
/// symlinks, a nine-character permission triad, and a timestamp free
/// of newlines and arrows.
pub open spec fn wf_entry(f: FileInfo) -> bool {
    &&& (f.kind == FileKind::Symlink <==> f.link_target is Some)
    &&& f.permissions@.len() == 9
    &&& forall|i: int| 0 <= i < f.permissions@.len() ==> is_perm_char(#[trigger] f.permissions@[i])
    &&& !f.mtime@.contains('\n')
    &&& !f.mtime@.contains('>')
}

impl FileInfo {
    /// Builds one entry record from the raw facts of a directory
    /// child: its canonical path, name, type classification, mode
    /// bits, size, hard-link count, owner and group ids, modification
    /// time in epoch seconds, and — for symlinks exactly — the raw
    /// link target.
    pub fn new(
        path: String,
        name: String,
        kind: FileKind,
        mode: u32,
        size: u64,
        nlink: u64,
        owner: u32,
        group: u32,
        mtime_secs: u64,
        link_target: Option<String>,
    ) -> (r: FileInfo)
        requires
            (kind == FileKind::Symlink) <==> (link_target is Some),
            mtime_secs <= MAX_MTIME_SECS,
        ensures
            r.path == path,
            r.name == name,
            r.kind == kind,
            ext_matches(r.extension, name@),
            r.permissions@ == perm_chars(mode),
            r.size == size,
            r.link_target == link_target,
            r.nlink == nlink,
            r.owner == owner,
            r.group == group,
            wf_entry(r),
    {
        let extension = Extensions::from(name.as_str());
        let permissions = Permissions::from_mode(mode);
        let mtime = format_epoch_secs(mtime_secs);
        FileInfo { path, name, kind, extension, permissions, size, link_target, nlink, owner, group, mtime }
    }

    /// The decorated display name, derived from kind and
    /// executability.
    pub fn colored_file_name(&self) -> (r: String)
        ensures
            r@ == decorated(self.name@, self.kind, self.permissions@.contains('x')),
    {
        match self.kind {
            FileKind::Dir => decorate(self.name.as_str(), "\x1b[1;34m"),
            FileKind::Symlink => decorate(self.name.as_str(), "\x1b[1;35m"),
            _ => {
                if self.permissions.is_executable() {
                    decorate(self.name.as_str(), "\x1b[1;32m")
                } else {
                    self.name.clone()
                }
            },
        }
    }

    /// The raw, undecorated name.
    pub fn file_name(&self) -> (r: String)
        ensures
            r@ == self.name@,
    {
        self.name.clone()
    }

    /// Whether the entry is hidden.
    pub fn is_dot(&self) -> (r: bool)
        ensures
            r == is_dot_spec(*self),
    {
        let n = self.name.as_str().unicode_len();
        if n == 0 {
            false
        } else {
            self.name.as_str().get_char(0) == '.'
        }
    }
}

/// A single space, as a column separator.
pub open spec fn sp() -> Seq<char> {
    " "@
}

/// The literal arrow between a symlink and its target.
pub open spec fn arrow() -> Seq<char> {
    " -> "@
}

/// The full-detail row of an entry: fixed-width left-padded columns
/// for permissions, hard-link count, owner, group, size and
/// timestamp, then the decorated name, and for symlinks the arrow and
/// the decorated target.
pub open spec fn detail_spec(f: FileInfo) -> Seq<char> {
    let base = pad_right(f.permissions@, 10) + sp() + pad_right(dec_str(f.nlink as int), 2) + sp()
        + pad_right(dec_str(f.owner as int), 4) + sp() + pad_right(dec_str(f.group as int), 4)
        + sp() + pad_right(dec_str(f.size as int), 6) + sp() + pad_right(f.mtime@, 19) + sp()
        + decorated(f.name@, f.kind, f.permissions@.contains('x'));
    match f.link_target {
        Some(t) => base + arrow() + (link_deco() + t@ + reset_deco()),
        None => base,
    }
}

impl FileInfo {
    /// Renders the entry as one full-detail row.
    pub fn detail_line(&self) -> (r: String)
        ensures
            r@ == detail_spec(*self),
    {
        let mut s = String::from_str(self.permissions.text());
        pad_to(&mut s, 10);
        s.append(" ");
        let mut col = u64_to_dec(self.nlink);
        pad_to(&mut col, 2);
        s.append(col.as_str());
        s.append(" ");
        let mut col = u64_to_dec(self.owner as u64);
        pad_to(&mut col, 4);
        s.append(col.as_str());
        s.append(" ");
        let mut col = u64_to_dec(self.group as u64);
        pad_to(&mut col, 4);
        s.append(col.as_str());
        s.append(" ");
        let mut col = u64_to_dec(self.size);
        pad_to(&mut col, 6);
        s.append(col.as_str());
        s.append(" ");
        let mut col = self.mtime.clone();
        pad_to(&mut col, 19);
        s.append(col.as_str());
        s.append(" ");
        let colored = self.colored_file_name();
        s.append(colored.as_str());
        match &self.link_target {
            Some(t) => {
                s.append(" -> ");
                let deco = decorate(t.as_str(), "\x1b[1;35m");
                s.append(deco.as_str());
            },
            None => {},
        }
        proof {
            assert(s@ =~= detail_spec(*self));
        }
        s
    }
}

impl PartialEq for FileInfo {
    /// Entry equality is deliberately narrow: two entries are equal
    /// exactly when their raw names are, whatever their other fields.
    fn eq(&self, other: &Self) -> (r: bool) {
        str_eq(self.name.as_str(), other.name.as_str())
    }
}

impl vstd::std_specs::cmp::PartialEqSpecImpl for FileInfo {
    open spec fn obeys_eq_spec() -> bool {
        true
    }

    open spec fn eq_spec(&self, other: &Self) -> bool {
        self.name@ == other.name@
    }
}

impl Clone for FileInfo {
    fn clone(&self) -> (r: Self)
        ensures
            r == *self,
    {
        let link_target = match &self.link_target {
            Some(t) => Some(t.clone()),
            None => None,
        };
        FileInfo {
            path: self.path.clone(),
            name: self.name.clone(),
            kind: self.kind,
            extension: self.extension.clone(),
            permissions: self.permissions.clone(),
            size: self.size,
            link_target,
            nlink: self.nlink,
            owner: self.owner,
            group: self.group,
            mtime: self.mtime.clone(),
        }
    }
}

/// The collection order: entries compare by raw name alone,
/// lexicographically; no other field takes part.
pub open spec fn entry_le(a: FileInfo, b: FileInfo) -> bool {
    lex_le(a.name@, b.name@)
}

/// Whether a sequence of entries is in ascending name order.
pub open spec fn sorted_entries(s: Seq<FileInfo>) -> bool {
    forall|i: int, j: int| 0 <= i < j < s.len() ==> #[trigger] entry_le(s[i], s[j])
}

/// `x` placed into the sorted sequence `r`, after any entries of equal
/// name already present.
pub open spec fn insert_sorted(r: Seq<FileInfo>, x: FileInfo) -> Seq<FileInfo>
    decreases r.len(),
{
    if r.len() == 0 {
        seq![x]
    } else if entry_le(r[0], x) {
        seq![r[0]] + insert_sorted(r.drop_first(), x)
    } else {
        seq![x] + r
    }
}

/// The position `insert_sorted` places its element at: past every
/// leading entry that compares at-or-below it.
pub open spec fn ins_pos(r: Seq<FileInfo>, x: FileInfo) -> int
    decreases r.len(),
{
    if r.len() == 0 {
        0
    } else if entry_le(r[0], x) {
        1 + ins_pos(r.drop_first(), x)
    } else {
        0
    }
}

/// A stable insertion sort over entries, by name.
pub open spec fn sort_by_name(s: Seq<FileInfo>) -> Seq<FileInfo>
    decreases s.len(),
{
    if s.len() == 0 {
        Seq::empty()
    } else {
        insert_sorted(sort_by_name(s.drop_last()), s.last())
    }
}

/// `insert_sorted` splices its element in at `ins_pos`.
pub proof fn lemma_insert_sorted_shape(r: Seq<FileInfo>, x: FileInfo)
    ensures
        0 <= ins_pos(r, x) <= r.len(),
        forall|k: int| 0 <= k < ins_pos(r, x) ==> entry_le(#[trigger] r[k], x),
        ins_pos(r, x) < r.len() ==> !entry_le(r[ins_pos(r, x)], x),
        insert_sorted(r, x) == r.take(ins_pos(r, x)) + seq![x] + r.skip(ins_pos(r, x)),
    decreases r.len(),
{
    let j = ins_pos(r, x);
    if r.len() == 0 {
        assert(insert_sorted(r, x) =~= r.take(0) + seq![x] + r.skip(0));
    } else if entry_le(r[0], x) {
        lemma_insert_sorted_shape(r.drop_first(), x);
        let df = r.drop_first();
        assert(forall|k: int| 0 <= k < j - 1 ==> entry_le(#[trigger] df[k], x));
        assert(forall|k: int| 1 <= k < j ==> r[k] == df[k - 1]);
        assert(seq![r[0]] + (df.take(j - 1) + seq![x] + df.skip(j - 1)) =~= r.take(j) + seq![x]
            + r.skip(j));
        assert(insert_sorted(r, x) =~= r.take(j) + seq![x] + r.skip(j));
    } else {
        assert(seq![x] + r =~= r.take(0) + seq![x] + r.skip(0));
    }
}

/// Inserting into a sorted sequence keeps it sorted.
pub proof fn lemma_insert_sorted_sorted(r: Seq<FileInfo>, x: FileInfo)
    requires
        sorted_entries(r),
    ensures
        sorted_entries(insert_sorted(r, x)),
{
    lemma_insert_sorted_shape(r, x);
    let j = ins_pos(r, x);
    let out = insert_sorted(r, x);
    if j < r.len() {
        lemma_lex_le_total(r[j].name@, x.name@);
    }
    assert forall|a: int, b: int| 0 <= a < b < out.len() implies #[trigger] entry_le(
        out[a],
        out[b],
    ) by {
        let ra = if a < j {
            a
        } else {
            a - 1
        };
        let rb = if b < j {
            b
        } else {
            b - 1
        };
        if a < j {
            assert(out[a] == r[a]);
        }
        if b > j {
            assert(out[b] == r[b - 1]);
        }
        if a == j && b > j {
            // x against a later entry: x is below r[j], which is below r[b-1]
            if b - 1 > j {
                assert(entry_le(r[j], r[b - 1]));
                lemma_lex_le_transitive(x.name@, r[j].name@, r[b - 1].name@);
            }
        } else if a < j && b == j {
            assert(entry_le(r[a], x));
        } else if a < j && b > j {
            if a < b - 1 {
                assert(entry_le(r[a], r[b - 1]));
            } else {
                assert(entry_le(r[a], x));
                lemma_lex_le_transitive(r[a].name@, x.name@, r[j].name@);
                assert(r[a] == r[b - 1]);
                lemma_lex_le_total(r[a].name@, r[a].name@);
            }
        }
    }
}

/// Inserting adds exactly the one element to the contents.
pub proof fn lemma_insert_sorted_multiset(r: Seq<FileInfo>, x: FileInfo)
    ensures
        insert_sorted(r, x).to_multiset() == r.to_multiset().insert(x),
{
    lemma_insert_sorted_shape(r, x);
    let j = ins_pos(r, x);
    assert(insert_sorted(r, x) =~= r.insert(j, x));
    vstd::seq_lib::to_multiset_insert(r, j, x);
}

/// The sort yields an ascending sequence with the same contents.
pub proof fn lemma_sort_by_name_ensures(s: Seq<FileInfo>)
    ensures
        sorted_entries(sort_by_name(s)),
        sort_by_name(s).to_multiset() == s.to_multiset(),
        sort_by_name(s).len() == s.len(),
    decreases s.len(),
{
    broadcast use vstd::seq_lib::group_to_multiset_ensures;

    if s.len() == 0 {
        assert(s.to_multiset() =~= Seq::<FileInfo>::empty().to_multiset());
    } else {
        lemma_sort_by_name_ensures(s.drop_last());
        lemma_insert_sorted_shape(sort_by_name(s.drop_last()), s.last());
        lemma_insert_sorted_sorted(sort_by_name(s.drop_last()), s.last());
        lemma_insert_sorted_multiset(sort_by_name(s.drop_last()), s.last());
        assert(s.drop_last().push(s.last()) =~= s);
        assert(s.drop_last().push(s.last()).to_multiset() =~= s.drop_last().to_multiset().insert(
            s.last(),
        ));
    }
}

/// Inserts an entry into a name-sorted vector, after any entries of
/// equal name.
fn insert_entry(list: &mut Vec<FileInfo>, x: FileInfo)
    ensures
        final(list)@ == insert_sorted(old(list)@, x),
{
    let mut j: usize = 0;
    loop
        invariant
            j <= list@.len(),
            list@ == old(list)@,
            forall|k: int| 0 <= k < j ==> entry_le(#[trigger] list@[k], x),
        ensures
            j <= list@.len(),
            list@ == old(list)@,
            forall|k: int| 0 <= k < j ==> entry_le(#[trigger] list@[k], x),
            j < list@.len() ==> !entry_le(list@[j as int], x),
        decreases list@.len() - j,
    {
        if j == list.len() {
            break ;
        }
        if !str_le(list[j].name.as_str(), x.name.as_str()) {
            break ;
        }
        j = j + 1;
    }
    proof {
        lemma_insert_sorted_shape(list@, x);
        let p = ins_pos(list@, x);
        // the loop stops exactly at the spec insertion point
        if p < j {
            assert(entry_le(list@[p], x));
        }
        if j < p {
            assert(entry_le(list@[j as int], x));
        }
        assert(j == p);
    }
    let ghost pre = list@;
    list.insert(j, x);
    proof {
        assert(pre.insert(j as int, x) =~= pre.take(j as int) + seq![x] + pre.skip(j as int));
    }
}

/// The failures of loading a directory: the directory itself cannot be
/// read, or one entry's metadata (or canonical path, or link target)
/// cannot be resolved — the latter carries the offending name and
/// fails the whole load; no partial listing is produced.
#[derive(Debug)]
pub enum LoadError {
    DirectoryUnavailable,
    MetadataUnavailable(String),
}

impl LoadError {
    /// A human-readable description of the failure.
    pub fn message(&self) -> (r: String)
        ensures
            match self {
                LoadError::DirectoryUnavailable => r@ == "cannot open directory"@,
                LoadError::MetadataUnavailable(n) => r@ == "cannot read entry metadata: "@ + n@,
            },
    {
        match self {
            LoadError::DirectoryUnavailable => String::from_str("cannot open directory"),
            LoadError::MetadataUnavailable(n) => {
                let mut s = String::from_str("cannot read entry metadata: ");
                s.append(n.as_str());
                s
            },
        }
    }
}

/// The decorated display form of one entry.
pub open spec fn deco_of(f: FileInfo) -> Seq<char> {
    decorated(f.name@, f.kind, f.permissions@.contains('x'))
}

/// The decorated display forms of a sequence of entries.
pub open spec fn colored_seq(s: Seq<FileInfo>) -> Seq<Seq<char>> {
    s.map_values(|f: FileInfo| deco_of(f))
}

/// The raw names of a sequence of entries.
pub open spec fn names_seq(s: Seq<FileInfo>) -> Seq<Seq<char>> {
    s.map_values(|f: FileInfo| f.name@)
}

/// The full-detail rows of a sequence of entries.
pub open spec fn detail_lines(s: Seq<FileInfo>) -> Seq<Seq<char>> {
    s.map_values(|f: FileInfo| detail_spec(f))
}

/// An ordered collection of entries, ascending by name from
/// construction on.
pub struct Entries {
    list: Vec<FileInfo>,
}

impl View for Entries {
    type V = Seq<FileInfo>;

    closed spec fn view(&self) -> Seq<FileInfo> {
        self.list@
    }
}

impl Entries {
    /// Builds the collection from the loaded records, sorting them
    /// ascending by name (stable: records of equal name keep their
    /// arrival order).
    pub fn new(records: Vec<FileInfo>) -> (r: Entries)
        ensures
            r@ == sort_by_name(records@),
            sorted_entries(r@),
            r@.to_multiset() == records@.to_multiset(),
            r@.len() == records@.len(),
    {
        let ghost orig = records@;
        let mut rest = records;
        let mut out: Vec<FileInfo> = Vec::new();
        proof {
            assert(orig.take(0) =~= Seq::<FileInfo>::empty());
            assert(orig.skip(0) =~= orig);
        }
        loop
            invariant
                rest@.len() <= orig.len(),
                rest@ == orig.skip(orig.len() - rest@.len()),
                out@ == sort_by_name(orig.take(orig.len() - rest@.len())),
            ensures
                rest@.len() == 0,
                out@ == sort_by_name(orig),
            decreases rest@.len(),
        {
            let ghost i = orig.len() - rest@.len();
            if rest.len() == 0 {
                proof {
                    assert(orig.take(orig.len() as int) =~= orig);
                }
                break ;
            }
            let ghost pre = rest@;
            let x = rest.remove(0);
            proof {
                assert(0 <= i < orig.len());
                assert(pre[0] == orig.skip(i)[0]);
                assert(x == orig[i]);
                assert(rest@ =~= orig.skip(i + 1));
            }
            insert_entry(&mut out, x);
            proof {
                assert(orig.take(i + 1).drop_last() =~= orig.take(i));
                assert(orig.take(i + 1).last() == orig[i]);
            }
        }
        proof {
            lemma_sort_by_name_ensures(orig);
        }
        Entries { list: out }
    }

    /// How many entries the collection holds.
    pub fn len(&self) -> (n: usize)
        ensures
            n == self@.len(),
    {
        self.list.len()
    }

    /// Renders every entry as a full-detail row and joins the rows
    /// with newlines.
    pub fn show(&self) -> (r: String)
        ensures
            r@ == join_with(detail_lines(self@), "\n"@),
    {
        let mut items: Vec<String> = Vec::new();
        let n = self.list.len();
        let mut i: usize = 0;
        while i < n
            invariant
                n == self@.len(),
                i <= n,
                items@.len() == i,
                forall|j: int| 0 <= j < i ==> (#[trigger] items@[j])@ == detail_spec(self@[j]),
            decreases n - i,
        {
            let line = self.list[i].detail_line();
            items.push(line);
            i = i + 1;
        }
        proof {
            assert(items.deep_view() =~~= detail_lines(self@));
        }
        join_strings(&items, "\n")
    }

    /// Joins every entry's decorated name with single spaces.
    pub fn only_names(&self) -> (r: String)
        ensures
            r@ == join_with(colored_seq(self@), " "@),
    {
        let mut items: Vec<String> = Vec::new();
        let n = self.list.len();
        let mut i: usize = 0;
        while i < n
            invariant
                n == self@.len(),
                i <= n,
                items@.len() == i,
                forall|j: int| 0 <= j < i ==> (#[trigger] items@[j])@ == deco_of(self@[j]),
            decreases n - i,
        {
            let s = self.list[i].colored_file_name();
            items.push(s);
            i = i + 1;
        }
        proof {
            assert(items.deep_view() =~~= colored_seq(self@));
        }
        join_strings(&items, " ")
    }

    /// A copy of the collection without the hidden entries; the
    /// remainder keeps its relative order.
    pub fn hide_dots(&self) -> (r: Entries)
        ensures
            r@ == self@.filter(|f: FileInfo| !is_dot_spec(f)),
    {
        let mut out: Vec<FileInfo> = Vec::new();
        let n = self.list.len();
        let mut i: usize = 0;
        proof {
            reveal(Seq::filter);
            assert(self@.take(0) =~= Seq::<FileInfo>::empty());
        }
        while i < n
            invariant
                n == self@.len(),
                i <= n,
                out@ == self@.take(i as int).filter(|f: FileInfo| !is_dot_spec(f)),
            decreases n - i,
        {
            proof {
                reveal(Seq::filter);
                assert(self@.take(i + 1).drop_last() =~= self@.take(i as int));
                assert(self@.take(i + 1).last() == self@[i as int]);
            }
            if !self.list[i].is_dot() {
                let copy = self.list[i].clone();
                out.push(copy);
            }
            i = i + 1;
        }
        proof {
            assert(self@.take(n as int) =~= self@);
        }
        Entries { list: out }
    }

    /// A name-sorted copy of the collection.
    fn sorted_clone(&self) -> (r: Vec<FileInfo>)
        ensures
            r@ == sort_by_name(self@),
    {
        let mut out: Vec<FileInfo> = Vec::new();
        let n = self.list.len();
        let mut i: usize = 0;
        proof {
            assert(self@.take(0) =~= Seq::<FileInfo>::empty());
        }
        while i < n
            invariant
                n == self@.len(),
                i <= n,
                out@ == sort_by_name(self@.take(i as int)),
            decreases n - i,
        {
            let copy = self.list[i].clone();
            insert_entry(&mut out, copy);
            proof {
                assert(self@.take(i + 1).drop_last() =~= self@.take(i as int));
                assert(self@.take(i + 1).last() == self@[i as int]);
            }
            i = i + 1;
        }
        proof {
            assert(self@.take(n as int) =~= self@);
        }
        out
    }

    /// The directories-first grouping: in this design the underlying
    /// order is by name alone, so the result is simply the collection
    /// re-sorted ascending by name.
    pub fn sort_dirs_up(&self) -> (r: Entries)
        ensures
            r@ == sort_by_name(self@),
            sorted_entries(r@),
            r@.to_multiset() == self@.to_multiset(),
    {
        proof {
            lemma_sort_by_name_ensures(self@);
        }
        Entries { list: self.sorted_clone() }
    }

    /// The files-first grouping: the exact reversal of the
    /// directories-first order.
    pub fn sort_files_up(&self) -> (r: Entries)
        ensures
            r@ == sort_by_name(self@).reverse(),
            r@.to_multiset() == self@.to_multiset(),
    {
        let mut sorted = self.sorted_clone();
        let ghost base = sorted@;
        let mut rev: Vec<FileInfo> = Vec::new();
        proof {
            assert(base.skip(base.len() as int).reverse() =~= Seq::<FileInfo>::empty());
            assert(base.take(base.len() as int) =~= base);
        }
        loop
            invariant
                sorted@.len() <= base.len(),
                sorted@ == base.take(sorted@.len() as int),
                rev@ == base.skip(sorted@.len() as int).reverse(),
            ensures
                rev@ == base.reverse(),
            decreases sorted@.len(),
        {
            if sorted.len() == 0 {
                proof {
                    assert(base.skip(0) =~= base);
                }
                break ;
            }
            let ghost k = sorted@.len() as int;
            let x = sorted.pop().unwrap();
            rev.push(x);
            proof {
                assert(x == base[k - 1]);
                assert(sorted@ =~= base.take(k - 1));
                assert(rev@ =~= base.skip(k - 1).reverse());
            }
        }
        proof {
            lemma_sort_by_name_ensures(self@);
            base.lemma_reverse_to_multiset();
        }
        Entries { list: rev }
    }
}

/// The decorated-name projection of one entry.
fn render_colored(fi: &FileInfo) -> (s: String)
    ensures
        s@ == deco_of(*fi),
{
    fi.colored_file_name()
}

/// The raw-name projection of one entry.
fn render_plain(fi: &FileInfo) -> (s: String)
    ensures
        s@ == fi.name@,
{
    fi.file_name()
}

/// A rendered projection of a collection: one string per chosen entry,
/// ready to be flattened into a single row or multiple rows.
pub struct Output {
    /// The per-entry strings, in collection order.
    pub items: Vec<String>,
}

impl Output {
    /// The rendered rows as character sequences.
    pub open spec fn rows(&self) -> Seq<Seq<char>> {
        self.items.deep_view()
    }

    /// Renders every entry through the given projection, in collection
    /// order.
    pub fn new_fn<F: Fn(&FileInfo) -> String>(e: &Entries, f: F) -> (r: Output)
        requires
            forall|i: int| 0 <= i < e@.len() ==> call_requires(f, (&e@[i],)),
        ensures
            r.items@.len() == e@.len(),
            forall|i: int|
                0 <= i < e@.len() ==> call_ensures(f, (&e@[i],), #[trigger] r.items@[i]),
    {
        let mut items: Vec<String> = Vec::new();
        let n = e.len();
        let mut i: usize = 0;
        while i < n
            invariant
                n == e@.len(),
                i <= n,
                items@.len() == i,
                forall|k: int| 0 <= k < e@.len() ==> call_requires(f, (&e@[k],)),
                forall|k: int| 0 <= k < i ==> call_ensures(f, (&e@[k],), #[trigger] items@[k]),
            decreases n - i,
        {
            let s = f(e.index(i));
            items.push(s);
            i = i + 1;
        }
        Output { items }
    }

    /// The colorized name-only projection.
    pub fn new_color(e: &Entries) -> (r: Output)
        ensures
            r.rows() == colored_seq(e@),
    {
        let out = Output::new_fn(e, render_colored);
        proof {
            assert(out.rows() =~~= colored_seq(e@));
        }
        out
    }

    /// The plain name-only projection: raw names, no decoration.
    pub fn new_no_color(entries: &Entries) -> (r: Output)
        ensures
            r.rows() == names_seq(entries@),
    {
        let out = Output::new_fn(entries, render_plain);
        proof {
            assert(out.rows() =~~= names_seq(entries@));
        }
        out
    }

    /// The colorized name-only projection over the visible entries
    /// alone: hidden entries are left out, the rest keep their order.
    pub fn new_hide_dots(entries: &Entries) -> (r: Output)
        ensures
            r.rows() == colored_seq(entries@.filter(|f: FileInfo| !is_dot_spec(f))),
    {
        let visible = entries.hide_dots();
        let mut items: Vec<String> = Vec::new();
        let n = visible.len();
        let mut i: usize = 0;
        while i < n
            invariant
                n == visible@.len(),
                i <= n,
                items@.len() == i,
                forall|j: int| 0 <= j < i ==> (#[trigger] items@[j])@ == deco_of(visible@[j]),
            decreases n - i,
        {
            let s = visible.index(i).colored_file_name();
            items.push(s);
            i = i + 1;
        }
        proof {
            assert(items.deep_view() =~~= colored_seq(visible@));
        }
        Output { items }
    }

    /// Flattens the rows into one line, space-separated.
    pub fn show_single_row(&self) -> (r: String)
        ensures
            r@ == join_with(self.rows(), " "@),
    {
        join_strings(&self.items, " ")
    }

    /// Flattens the rows into one string with one row per line.
    pub fn show_multiple_rows(&self) -> (r: String)
        ensures
            r@ == join_with(self.rows(), "\n"@),
    {
        join_strings(&self.items, "\n")
    }
}

impl Entries {
    /// The entry at a position.
    pub fn index(&self, i: usize) -> (r: &FileInfo)
        requires
            i < self@.len(),
        ensures
            *r == self@[i as int],
    {
        &self.list[i]
    }
}

} // verus!
