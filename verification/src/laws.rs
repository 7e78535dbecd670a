//! The library-wide laws: facts that relate several operations, stated
//! over the same spec functions the operations' contracts use.
use vstd::prelude::*;

use crate::files::{
    arrow, decorated, detail_lines, detail_spec, dir_deco, entry_le, exec_deco, is_perm_char,
    link_deco, perm_chars, reset_deco, sort_by_name, sorted_entries, sp, wf_entry, Entries,
    FileInfo, FileKind,
};
use crate::text::{
    contains_sub, count_char, dec_str, is_digit_char, join_with, lemma_contains_concat,
    lemma_count_char_concat, lemma_count_char_contains, lemma_dec_str_digits,
    lemma_lex_le_antisymmetric, lemma_lex_le_total, lemma_spaces_chars, lemma_split_undoes_join,
    pad_right, spaces, split_on,
};

verus! {

/// The collection order consults the raw name alone: two entries
/// compare as equal — at-or-below in both directions — exactly when
/// their names are equal, whatever their other fields hold.
pub proof fn lemma_equal_names_equal_order(a: FileInfo, b: FileInfo)
    ensures
        (entry_le(a, b) && entry_le(b, a)) <==> (a.name@ == b.name@),
{
    if entry_le(a, b) && entry_le(b, a) {
        lemma_lex_le_antisymmetric(a.name@, b.name@);
    }
    if a.name@ == b.name@ {
        lemma_lex_le_total(a.name@, b.name@);
    }
}

/// The files-first grouping is exactly the reversal of the
/// directories-first grouping of the same collection.
pub proof fn lemma_files_first_reverses_dirs_first(
    c: Entries,
    dirs_first: Entries,
    files_first: Entries,
)
    requires
        dirs_first@ == sort_by_name(c@),
        files_first@ == sort_by_name(c@).reverse(),
    ensures
        files_first@ == dirs_first@.reverse(),
{
}

/// A permission string is always exactly nine characters, each one of
/// `r`, `w`, `x` or `-`.
pub proof fn lemma_permission_string_shape(mode: u32)
    ensures
        perm_chars(mode).len() == 9,
        forall|i: int|
            0 <= i < 9 ==> (#[trigger] perm_chars(mode)[i] == 'r' || perm_chars(mode)[i] == 'w'
                || perm_chars(mode)[i] == 'x' || perm_chars(mode)[i] == '-'),
{
}

/// An executable and a non-executable regular file of the same name
/// get different decorated names.
pub proof fn lemma_executable_decoration_differs(name: Seq<char>)
    ensures
        decorated(name, FileKind::File, true) != decorated(name, FileKind::File, false),
{
    reveal_strlit("\x1b[1;32m");
    reveal_strlit("\x1b[0m");
    assert(decorated(name, FileKind::File, true).len() == name.len() + 11);
}

/// The characters a full-detail row can contain besides those of the
/// entry's own name, timestamp and link target: the permission triad,
/// spaces, digits, and the styling sequences.
spec fn render_atom(c: char) -> bool {
    ||| is_perm_char(c)
    ||| c == ' '
    ||| is_digit_char(c)
    ||| dir_deco().contains(c)
    ||| link_deco().contains(c)
    ||| exec_deco().contains(c)
    ||| reset_deco().contains(c)
}

/// A padded column contains a character only if its content does, or
/// the character is a space.
proof fn lemma_pad_contains(s: Seq<char>, w: int, c: char)
    requires
        c != ' ',
        !s.contains(c),
    ensures
        !pad_right(s, w).contains(c),
{
    lemma_spaces_chars(w - s.len());
    lemma_contains_concat(s, spaces(w - s.len()), c);
    let run = spaces(w - s.len());
    if run.contains(c) {
        let j = choose|j: int| 0 <= j < run.len() && #[trigger] run[j] == c;
    }
}

/// A decorated name contains a character only if the name does, or the
/// character is one of the styling characters.
proof fn lemma_decorated_contains(name: Seq<char>, kind: FileKind, is_exec: bool, c: char)
    requires
        !render_atom(c),
        !name.contains(c),
    ensures
        !decorated(name, kind, is_exec).contains(c),
{
    lemma_contains_concat(dir_deco(), name, c);
    lemma_contains_concat(dir_deco() + name, reset_deco(), c);
    lemma_contains_concat(link_deco(), name, c);
    lemma_contains_concat(link_deco() + name, reset_deco(), c);
    lemma_contains_concat(exec_deco(), name, c);
    lemma_contains_concat(exec_deco() + name, reset_deco(), c);
}

/// A full-detail row contains no character that is not a rendering
/// atom, not in the name or timestamp, and — for symlinks — not in
/// the target and not the arrow's `>`.
proof fn lemma_detail_char_absent(f: FileInfo, c: char)
    requires
        wf_entry(f),
        !render_atom(c),
        !f.name@.contains(c),
        !f.mtime@.contains(c),
        match f.link_target {
            Option::Some(t) => c != '>' && !t@.contains(c),
            Option::None => true,
        },
    ensures
        !detail_spec(f).contains(c),
{
    reveal_strlit(" ");
    assert(" "@[0] == ' ');
    assert(!sp().contains(c)) by {
        if sp().contains(c) {
            let j = choose|j: int| 0 <= j < sp().len() && sp()[j] == c;
        }
    }
    let perm_col = pad_right(f.permissions@, 10);
    assert(!f.permissions@.contains(c)) by {
        if f.permissions@.contains(c) {
            let j = choose|j: int|
                0 <= j < f.permissions@.len() && f.permissions@[j] == c;
        }
    }
    lemma_pad_contains(f.permissions@, 10, c);
    let nlink_col = pad_right(dec_str(f.nlink as int), 2);
    let owner_col = pad_right(dec_str(f.owner as int), 4);
    let group_col = pad_right(dec_str(f.group as int), 4);
    let size_col = pad_right(dec_str(f.size as int), 6);
    assert(!nlink_col.contains(c) && !owner_col.contains(c) && !group_col.contains(c)
        && !size_col.contains(c)) by {
        lemma_dec_str_digits(f.nlink as int);
        lemma_dec_str_digits(f.owner as int);
        lemma_dec_str_digits(f.group as int);
        lemma_dec_str_digits(f.size as int);
        assert(!dec_str(f.nlink as int).contains(c)) by {
            if dec_str(f.nlink as int).contains(c) {
                let j = choose|j: int|
                    0 <= j < dec_str(f.nlink as int).len() && dec_str(f.nlink as int)[j] == c;
            }
        }
        assert(!dec_str(f.owner as int).contains(c)) by {
            if dec_str(f.owner as int).contains(c) {
                let j = choose|j: int|
                    0 <= j < dec_str(f.owner as int).len() && dec_str(f.owner as int)[j] == c;
            }
        }
        assert(!dec_str(f.group as int).contains(c)) by {
            if dec_str(f.group as int).contains(c) {
                let j = choose|j: int|
                    0 <= j < dec_str(f.group as int).len() && dec_str(f.group as int)[j] == c;
            }
        }
        assert(!dec_str(f.size as int).contains(c)) by {
            if dec_str(f.size as int).contains(c) {
                let j = choose|j: int|
                    0 <= j < dec_str(f.size as int).len() && dec_str(f.size as int)[j] == c;
            }
        }
        lemma_pad_contains(dec_str(f.nlink as int), 2, c);
        lemma_pad_contains(dec_str(f.owner as int), 4, c);
        lemma_pad_contains(dec_str(f.group as int), 4, c);
        lemma_pad_contains(dec_str(f.size as int), 6, c);
    }
    let mtime_col = pad_right(f.mtime@, 19);
    lemma_pad_contains(f.mtime@, 19, c);
    let deco = decorated(f.name@, f.kind, f.permissions@.contains('x'));
    lemma_decorated_contains(f.name@, f.kind, f.permissions@.contains('x'), c);
    let s1 = perm_col + sp();
    let s2 = s1 + nlink_col;
    let s3 = s2 + sp();
    let s4 = s3 + owner_col;
    let s5 = s4 + sp();
    let s6 = s5 + group_col;
    let s7 = s6 + sp();
    let s8 = s7 + size_col;
    let s9 = s8 + sp();
    let s10 = s9 + mtime_col;
    let s11 = s10 + sp();
    let base = s11 + deco;
    lemma_contains_concat(perm_col, sp(), c);
    lemma_contains_concat(s1, nlink_col, c);
    lemma_contains_concat(s2, sp(), c);
    lemma_contains_concat(s3, owner_col, c);
    lemma_contains_concat(s4, sp(), c);
    lemma_contains_concat(s5, group_col, c);
    lemma_contains_concat(s6, sp(), c);
    lemma_contains_concat(s7, size_col, c);
    lemma_contains_concat(s8, sp(), c);
    lemma_contains_concat(s9, mtime_col, c);
    lemma_contains_concat(s10, sp(), c);
    lemma_contains_concat(s11, deco, c);
    match f.link_target {
        Option::Some(t) => {
            reveal_strlit(" -> ");
            assert(!arrow().contains(c)) by {
                assert(" -> "@[0] == ' ' && " -> "@[1] == '-' && " -> "@[2] == '>' && " -> "@[3]
                    == ' ');
                if arrow().contains(c) {
                    let j = choose|j: int| 0 <= j < arrow().len() && arrow()[j] == c;
                }
            }
            let target_deco = link_deco() + t@ + reset_deco();
            lemma_contains_concat(link_deco(), t@, c);
            lemma_contains_concat(link_deco() + t@, reset_deco(), c);
            lemma_contains_concat(base, arrow(), c);
            lemma_contains_concat(base + arrow(), target_deco, c);
        },
        Option::None => {},
    }
}

/// A symlink's full-detail row always contains the literal arrow
/// immediately before the decorated target.
pub proof fn lemma_symlink_arrow_present(f: FileInfo)
    requires
        wf_entry(f),
        f.kind == FileKind::Symlink,
    ensures
        contains_sub(detail_spec(f), " -> "@),
{
    reveal_strlit(" -> ");
    let t = f.link_target->0;
    let base = pad_right(f.permissions@, 10) + sp() + pad_right(dec_str(f.nlink as int), 2) + sp()
        + pad_right(dec_str(f.owner as int), 4) + sp() + pad_right(dec_str(f.group as int), 4)
        + sp() + pad_right(dec_str(f.size as int), 6) + sp() + pad_right(f.mtime@, 19) + sp()
        + decorated(f.name@, f.kind, f.permissions@.contains('x'));
    let line = detail_spec(f);
    let i = base.len() as int;
    assert(line == base + arrow() + (link_deco() + t@ + reset_deco()));
    assert(line.subrange(i, i + arrow().len() as int) =~= arrow());
    assert(line.subrange(i, i + " -> "@.len() as int) == " -> "@);
}

/// A non-symlink's full-detail row never contains the arrow, provided
/// the entry's own name is free of `>`.
pub proof fn lemma_no_arrow_without_symlink(f: FileInfo)
    requires
        wf_entry(f),
        f.kind != FileKind::Symlink,
        !f.name@.contains('>'),
    ensures
        !contains_sub(detail_spec(f), " -> "@),
{
    reveal_strlit(" -> ");
    reveal_strlit("\x1b[1;34m");
    reveal_strlit("\x1b[1;35m");
    reveal_strlit("\x1b[1;32m");
    reveal_strlit("\x1b[0m");
    assert(!render_atom('>'));
    lemma_detail_char_absent(f, '>');
    if contains_sub(detail_spec(f), " -> "@) {
        let i = choose|i: int|
            0 <= i && i + " -> "@.len() <= detail_spec(f).len() && #[trigger] detail_spec(
                f,
            ).subrange(i, i + " -> "@.len()) == " -> "@;
        assert(detail_spec(f)[i + 2] == " -> "@[2]);
        assert(detail_spec(f).contains('>'));
    }
}

/// One full-detail row per loaded entry: rendering the sorted
/// collection multi-line yields a string that splits on newlines back
/// into exactly the per-entry rows, one per entry, with the entries in
/// ascending name order.
pub proof fn lemma_one_row_per_entry(records: Seq<FileInfo>, rendered: Seq<char>)
    requires
        records.len() > 0,
        forall|i: int|
            0 <= i < records.len() ==> wf_entry(#[trigger] records[i]) && !records[i].name@.contains(
                '\n',
            ) && match records[i].link_target {
                Option::Some(t) => !t@.contains('\n'),
                Option::None => true,
            },
        rendered == join_with(detail_lines(sort_by_name(records)), "\n"@),
    ensures
        sorted_entries(sort_by_name(records)),
        sort_by_name(records).len() == records.len(),
        split_on(rendered, '\n') == detail_lines(sort_by_name(records)),
        split_on(rendered, '\n').len() == records.len(),
        count_char(rendered, '\n') == records.len() - 1,
{
    broadcast use vstd::seq_lib::group_to_multiset_ensures;

    reveal_strlit("\n");
    reveal_strlit("\x1b[1;34m");
    reveal_strlit("\x1b[1;35m");
    reveal_strlit("\x1b[1;32m");
    reveal_strlit("\x1b[0m");
    assert(!render_atom('\n'));
    crate::files::lemma_sort_by_name_ensures(records);
    let sorted = sort_by_name(records);
    assert forall|i: int| 0 <= i < sorted.len() implies !(#[trigger] detail_lines(sorted)[i])
        .contains('\n') by {
        assert(sorted.contains(sorted[i]));
        assert(records.to_multiset().count(sorted[i]) > 0);
        assert(records.contains(sorted[i]));
        let j = choose|j: int| 0 <= j < records.len() && records[j] == sorted[i];
        lemma_detail_char_absent(sorted[i], '\n');
    }
    assert("\n"@ =~= seq!['\n']);
    lemma_join_separator_count(detail_lines(sorted), '\n');
    lemma_split_undoes_join(detail_lines(sorted), '\n');
}

/// Joining newline-free rows with a single-character separator puts
/// exactly one separator between neighbours.
proof fn lemma_join_separator_count(ss: Seq<Seq<char>>, c: char)
    requires
        ss.len() > 0,
        forall|i: int| 0 <= i < ss.len() ==> !(#[trigger] ss[i]).contains(c),
    ensures
        count_char(join_with(ss, seq![c]), c) == ss.len() - 1,
    decreases ss.len(),
{
    if ss.len() == 1 {
        lemma_count_char_contains(ss[0], c);
    } else {
        assert(forall|i: int| 0 <= i < ss.len() - 1 ==> ss.drop_last()[i] == ss[i]);
        lemma_join_separator_count(ss.drop_last(), c);
        let front = join_with(ss.drop_last(), seq![c]);
        lemma_count_char_concat(front, seq![c], c);
        lemma_count_char_concat(front + seq![c], ss.last(), c);
        lemma_count_char_contains(ss.last(), c);
        assert(count_char(seq![c], c) == 1) by {
            assert(seq![c].len() == 1);
            assert(seq![c].last() == c);
            assert(seq![c].drop_last() =~= Seq::<char>::empty());
            assert(count_char(Seq::<char>::empty(), c) == 0);
            assert(count_char(seq![c].drop_last(), c) == 0);
        }
    }
}

} // verus!
