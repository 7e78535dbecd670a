//! Plain text helpers: character-wise string equality and lexicographic
//! comparison, decimal rendering of integers, space padding, and joining
//! a sequence of strings with a separator.
use vstd::prelude::*;

verus! {

/// Character-wise equality of two string slices.
pub fn str_eq(a: &str, b: &str) -> (r: bool)
    ensures
        r == (a@ == b@),
{
    let alen = a.unicode_len();
    let blen = b.unicode_len();
    if alen != blen {
        return false;
    }
    let mut i: usize = 0;
    while i < alen
        invariant
            alen == a@.len(),
            blen == b@.len(),
            alen == blen,
            i <= alen,
            forall|j: int| 0 <= j < i ==> a@[j] == b@[j],
        decreases alen - i,
    {
        if a.get_char(i) != b.get_char(i) {
            return false;
        }
        i = i + 1;
    }
    proof {
        assert(a@ =~= b@);
    }
    true
}

/// Lexicographic "less than or equal" over character sequences, ordered
/// by Unicode code point.
pub open spec fn lex_le(a: Seq<char>, b: Seq<char>) -> bool
    decreases a.len(),
{
    if a.len() == 0 {
        true
    } else if b.len() == 0 {
        false
    } else if (a[0] as u32) < (b[0] as u32) {
        true
    } else if (a[0] as u32) > (b[0] as u32) {
        false
    } else {
        lex_le(a.drop_first(), b.drop_first())
    }
}

/// `lex_le` holds in at least one direction: the order is total.
pub proof fn lemma_lex_le_total(a: Seq<char>, b: Seq<char>)
    ensures
        lex_le(a, b) || lex_le(b, a),
    decreases a.len(),
{
    if a.len() == 0 || b.len() == 0 {
    } else if (a[0] as u32) < (b[0] as u32) || (a[0] as u32) > (b[0] as u32) {
    } else {
        lemma_lex_le_total(a.drop_first(), b.drop_first());
    }
}

/// `lex_le` in both directions forces equality.
pub proof fn lemma_lex_le_antisymmetric(a: Seq<char>, b: Seq<char>)
    requires
        lex_le(a, b),
        lex_le(b, a),
    ensures
        a == b,
    decreases a.len(),
{
    if a.len() == 0 {
        assert(b.len() == 0);
        assert(a =~= b);
    } else {
        assert(a[0] as u32 == b[0] as u32);
        let x = a[0];
        let y = b[0];
        assert(x == y) by {
            vstd::utf8::char_u32_cast(x, x as u32);
            vstd::utf8::char_u32_cast(y, y as u32);
        }
        lemma_lex_le_antisymmetric(a.drop_first(), b.drop_first());
        assert(a =~= seq![a[0]] + a.drop_first());
        assert(b =~= seq![b[0]] + b.drop_first());
    }
}

/// `lex_le` is transitive.
pub proof fn lemma_lex_le_transitive(a: Seq<char>, b: Seq<char>, c: Seq<char>)
    requires
        lex_le(a, b),
        lex_le(b, c),
    ensures
        lex_le(a, c),
    decreases a.len(),
{
    if a.len() == 0 || b.len() == 0 || c.len() == 0 {
    } else {
        if (a[0] as u32) < (b[0] as u32) {
        } else if (b[0] as u32) < (c[0] as u32) {
        } else {
            lemma_lex_le_transitive(a.drop_first(), b.drop_first(), c.drop_first());
        }
    }
}

/// Decides `lex_le` on two string slices.
pub fn str_le(a: &str, b: &str) -> (r: bool)
    ensures
        r == lex_le(a@, b@),
{
    let alen = a.unicode_len();
    let blen = b.unicode_len();
    let mut i: usize = 0;
    proof {
        assert(a@.skip(0) =~= a@);
        assert(b@.skip(0) =~= b@);
    }
    loop
        invariant
            alen == a@.len(),
            blen == b@.len(),
            i <= alen,
            i <= blen,
            lex_le(a@, b@) == lex_le(a@.skip(i as int), b@.skip(i as int)),
        decreases alen - i,
    {
        if i == alen {
            proof {
                assert(a@.skip(i as int).len() == 0);
            }
            return true;
        }
        if i == blen {
            proof {
                assert(b@.skip(i as int).len() == 0);
                assert(a@.skip(i as int).len() > 0);
            }
            return false;
        }
        let ca = a.get_char(i);
        let cb = b.get_char(i);
        proof {
            assert(a@.skip(i as int)[0] == a@[i as int]);
            assert(b@.skip(i as int)[0] == b@[i as int]);
        }
        if (ca as u32) < (cb as u32) {
            return true;
        }
        if (ca as u32) > (cb as u32) {
            return false;
        }
        proof {
            assert(a@.skip(i as int).drop_first() =~= a@.skip(i + 1));
            assert(b@.skip(i as int).drop_first() =~= b@.skip(i + 1));
        }
        i = i + 1;
    }
}

/// The character for one decimal digit.
pub open spec fn dec_digit(d: int) -> char {
    if d == 0 {
        '0'
    } else if d == 1 {
        '1'
    } else if d == 2 {
        '2'
    } else if d == 3 {
        '3'
    } else if d == 4 {
        '4'
    } else if d == 5 {
        '5'
    } else if d == 6 {
        '6'
    } else if d == 7 {
        '7'
    } else if d == 8 {
        '8'
    } else {
        '9'
    }
}

/// The decimal rendering of a non-negative integer, most significant
/// digit first, with no leading zeros (except for zero itself).
pub open spec fn dec_str(n: int) -> Seq<char>
    decreases n,
{
    if n < 10 {
        seq![dec_digit(n)]
    } else {
        dec_str(n / 10) + seq![dec_digit(n % 10)]
    }
}

fn digit_str(d: u64) -> (r: &'static str)
    requires
        d < 10,
    ensures
        r@ == seq![dec_digit(d as int)],
{
    proof {
        reveal_strlit("0");
        reveal_strlit("1");
        reveal_strlit("2");
        reveal_strlit("3");
        reveal_strlit("4");
        reveal_strlit("5");
        reveal_strlit("6");
        reveal_strlit("7");
        reveal_strlit("8");
        reveal_strlit("9");
    }
    let r = if d == 0 {
        "0"
    } else if d == 1 {
        "1"
    } else if d == 2 {
        "2"
    } else if d == 3 {
        "3"
    } else if d == 4 {
        "4"
    } else if d == 5 {
        "5"
    } else if d == 6 {
        "6"
    } else if d == 7 {
        "7"
    } else if d == 8 {
        "8"
    } else {
        "9"
    };
    proof {
        assert(r@ =~= seq![dec_digit(d as int)]);
    }
    r
}

/// Renders an unsigned integer in decimal.
pub fn u64_to_dec(n: u64) -> (r: String)
    ensures
        r@ == dec_str(n as int),
    decreases n,
{
    if n < 10 {
        String::from_str(digit_str(n))
    } else {
        let mut s = u64_to_dec(n / 10);
        s.append(digit_str(n % 10));
        s
    }
}

/// A run of `n` spaces.
pub open spec fn spaces(n: int) -> Seq<char>
    decreases n,
{
    if n <= 0 {
        Seq::empty()
    } else {
        spaces(n - 1).push(' ')
    }
}

/// A sequence padded on the right with spaces up to width `w`
/// (unchanged when already at least that wide).
pub open spec fn pad_right(s: Seq<char>, w: int) -> Seq<char> {
    s + spaces(w - s.len())
}

/// Appends spaces to `s` until its length reaches `w`.
pub fn pad_to(s: &mut String, w: usize)
    ensures
        final(s)@ == pad_right(old(s)@, w as int),
{
    let mut n = s.as_str().unicode_len();
    proof {
        assert(s@ + spaces(0) =~= s@);
    }
    while n < w
        invariant
            n == s@.len(),
            s@ == old(s)@ + spaces(n - old(s)@.len()),
            old(s)@.len() <= n,
            n <= w || n == old(s)@.len(),
        decreases w - n,
    {
        s.append(" ");
        n = n + 1;
        proof {
            reveal_strlit(" ");
            assert(" "@ =~= seq![' ']);
            assert(old(s)@ + spaces(n - old(s)@.len()) =~= (old(s)@ + spaces(
                n - 1 - old(s)@.len(),
            )).push(' '));
        }
    }
    proof {
        assert(s@ =~= pad_right(old(s)@, w as int));
    }
}

/// The strings of `ss` joined with the separator `sep` between
/// neighbours, with no leading or trailing separator.
pub open spec fn join_with(ss: Seq<Seq<char>>, sep: Seq<char>) -> Seq<char>
    decreases ss.len(),
{
    if ss.len() == 0 {
        Seq::empty()
    } else if ss.len() == 1 {
        ss[0]
    } else {
        join_with(ss.drop_last(), sep) + sep + ss.last()
    }
}

/// Joins rendered strings with a separator.
pub fn join_strings(items: &Vec<String>, sep: &str) -> (r: String)
    ensures
        r@ == join_with(items.deep_view(), sep@),
{
    let mut out = String::new();
    let n = items.len();
    let mut i: usize = 0;
    while i < n
        invariant
            n == items@.len(),
            i <= n,
            out@ == join_with(items.deep_view().take(i as int), sep@),
        decreases n - i,
    {
        if i > 0 {
            out.append(sep);
        }
        out.append(items[i].as_str());
        proof {
            let dv = items.deep_view();
            assert(dv.take(i + 1).drop_last() =~= dv.take(i as int));
            assert(dv.take(i + 1).last() == dv[i as int]);
            if i == 0 {
                assert(out@ =~= join_with(dv.take(1), sep@));
            } else {
                assert(out@ =~= join_with(dv.take(i + 1), sep@));
            }
        }
        i = i + 1;
    }
    proof {
        assert(items.deep_view().take(n as int) =~= items.deep_view());
    }
    out
}

/// Whether `c` occurs in `s`; decided character by character.
pub fn str_contains_char(s: &str, c: char) -> (r: bool)
    ensures
        r == s@.contains(c),
{
    let n = s.unicode_len();
    let mut i: usize = 0;
    while i < n
        invariant
            n == s@.len(),
            i <= n,
            forall|j: int| 0 <= j < i ==> s@[j] != c,
        decreases n - i,
    {
        if s.get_char(i) == c {
            return true;
        }
        i = i + 1;
    }
    false
}

/// A character occurs in a concatenation exactly when it occurs in one
/// of the parts.
pub proof fn lemma_contains_concat(a: Seq<char>, b: Seq<char>, c: char)
    ensures
        (a + b).contains(c) <==> (a.contains(c) || b.contains(c)),
{
    if (a + b).contains(c) {
        let j = choose|j: int| 0 <= j < (a + b).len() && (a + b)[j] == c;
        if j < a.len() {
            assert(a[j] == c);
        } else {
            assert(b[j - a.len()] == c);
        }
    }
    if a.contains(c) {
        let j = choose|j: int| 0 <= j < a.len() && a[j] == c;
        assert((a + b)[j] == c);
    }
    if b.contains(c) {
        let j = choose|j: int| 0 <= j < b.len() && b[j] == c;
        assert((a + b)[a.len() + j] == c);
    }
}

/// Every character of a space run is a space.
pub proof fn lemma_spaces_chars(n: int)
    ensures
        spaces(n).len() == if n <= 0 {
            0int
        } else {
            n
        },
        forall|j: int| 0 <= j < spaces(n).len() ==> spaces(n)[j] == ' ',
    decreases n,
{
    if n > 0 {
        lemma_spaces_chars(n - 1);
    }
}

/// Whether `c` is a decimal digit character.
pub open spec fn is_digit_char(c: char) -> bool {
    c == '0' || c == '1' || c == '2' || c == '3' || c == '4' || c == '5' || c == '6' || c == '7'
        || c == '8' || c == '9'
}

/// Every character of a decimal rendering is a digit.
pub proof fn lemma_dec_str_digits(n: int)
    ensures
        dec_str(n).len() > 0,
        forall|j: int| 0 <= j < dec_str(n).len() ==> is_digit_char(#[trigger] dec_str(n)[j]),
    decreases n,
{
    if n < 10 {
    } else {
        lemma_dec_str_digits(n / 10);
        assert(forall|j: int|
            0 <= j < dec_str(n / 10).len() ==> dec_str(n)[j] == dec_str(n / 10)[j]);
        assert(dec_str(n).last() == dec_digit(n % 10));
    }
}

/// The index of the first occurrence of `c` in `s`, or -1 when absent.
pub open spec fn first_index_of(s: Seq<char>, c: char) -> int
    decreases s.len(),
{
    if s.len() == 0 {
        -1
    } else if s[0] == c {
        0
    } else if first_index_of(s.drop_first(), c) < 0 {
        -1
    } else {
        1 + first_index_of(s.drop_first(), c)
    }
}

/// The pieces of `s` between occurrences of the separator `c`: `s`
/// itself when the separator is absent, else everything before the
/// first occurrence followed by the split of everything after it.
pub open spec fn split_on(s: Seq<char>, c: char) -> Seq<Seq<char>>
    decreases s.len(),
{
    let i = first_index_of(s, c);
    if 0 <= i && i < s.len() {
        seq![s.take(i)] + split_on(s.skip(i + 1), c)
    } else {
        seq![s]
    }
}

/// Where the first separator of a separated concatenation sits: right
/// after the first piece, when the piece itself is free of it.
proof fn lemma_first_index_after_piece(a: Seq<char>, rest: Seq<char>, c: char)
    requires
        !a.contains(c),
    ensures
        first_index_of(a + seq![c] + rest, c) == a.len(),
    decreases a.len(),
{
    let s = a + seq![c] + rest;
    if a.len() == 0 {
        assert(s[0] == c);
    } else {
        assert(a[0] != c);
        assert(s[0] == a[0]);
        lemma_first_index_after_piece(a.drop_first(), rest, c);
        assert(s.drop_first() =~= a.drop_first() + seq![c] + rest);
    }
}

/// A sequence without the separator has no first occurrence of it.
proof fn lemma_first_index_absent(s: Seq<char>, c: char)
    requires
        !s.contains(c),
    ensures
        first_index_of(s, c) == -1,
    decreases s.len(),
{
    if s.len() > 0 {
        assert(s[0] != c);
        assert(forall|j: int| 0 <= j < s.len() - 1 ==> s.drop_first()[j] == s[j + 1]);
        lemma_first_index_absent(s.drop_first(), c);
    }
}

/// A join of at least two strings is its first string, the separator,
/// and the join of the rest.
proof fn lemma_join_front(ss: Seq<Seq<char>>, sep: Seq<char>)
    requires
        ss.len() >= 2,
    ensures
        join_with(ss, sep) == ss.first() + sep + join_with(ss.drop_first(), sep),
    decreases ss.len(),
{
    if ss.len() == 2 {
        assert(ss.drop_last().len() == 1);
        assert(ss.drop_last()[0] == ss[0]);
        assert(ss.drop_first().len() == 1);
        assert(ss.drop_first()[0] == ss[1]);
        assert(join_with(ss.drop_last(), sep) == ss[0]);
        assert(join_with(ss.drop_first(), sep) == ss[1]);
        assert(join_with(ss, sep) == join_with(ss.drop_last(), sep) + sep + ss.last());
        assert(join_with(ss, sep) =~= ss.first() + sep + join_with(ss.drop_first(), sep));
    } else {
        lemma_join_front(ss.drop_last(), sep);
        assert(ss.drop_last().first() == ss.first());
        assert(ss.drop_last().drop_first() =~= ss.drop_first().drop_last());
        assert(ss.drop_first().last() == ss.last());
        assert(ss.drop_first().len() >= 2);
        assert(join_with(ss, sep) == join_with(ss.drop_last(), sep) + sep + ss.last());
        assert(join_with(ss.drop_first(), sep) == join_with(ss.drop_first().drop_last(), sep)
            + sep + ss.drop_first().last());
        assert(join_with(ss, sep) =~= ss.first() + sep + join_with(ss.drop_first(), sep));
    }
}

/// Splitting on a single-character separator undoes joining with it,
/// for pieces that are free of the separator.
pub proof fn lemma_split_undoes_join(ss: Seq<Seq<char>>, c: char)
    requires
        ss.len() > 0,
        forall|i: int| 0 <= i < ss.len() ==> !(#[trigger] ss[i]).contains(c),
    ensures
        split_on(join_with(ss, seq![c]), c) == ss,
    decreases ss.len(),
{
    let joined = join_with(ss, seq![c]);
    if ss.len() == 1 {
        lemma_first_index_absent(ss[0], c);
        assert(split_on(joined, c) =~= ss);
    } else {
        lemma_join_front(ss, seq![c]);
        let rest = join_with(ss.drop_first(), seq![c]);
        assert(joined == ss.first() + seq![c] + rest);
        lemma_first_index_after_piece(ss.first(), rest, c);
        let i = first_index_of(joined, c);
        assert(i == ss.first().len());
        assert(joined.take(i) =~= ss.first());
        assert(joined.skip(i + 1) =~= rest);
        assert(forall|j: int|
            0 <= j < ss.len() - 1 ==> ss.drop_first()[j] == ss[j + 1]);
        lemma_split_undoes_join(ss.drop_first(), c);
        assert(split_on(joined, c) =~= ss);
    }
}

/// The index of the last occurrence of `c` in `s`, or -1 when absent.
pub open spec fn last_index_of(s: Seq<char>, c: char) -> int
    decreases s.len(),
{
    if s.len() == 0 {
        -1
    } else if s.last() == c {
        s.len() - 1
    } else {
        last_index_of(s.drop_last(), c)
    }
}

/// Position facts of `last_index_of`.
pub proof fn lemma_last_index_of(s: Seq<char>, c: char)
    ensures
        last_index_of(s, c) >= 0 ==> last_index_of(s, c) < s.len() && s[last_index_of(s, c)] == c
            && forall|j: int| last_index_of(s, c) < j < s.len() ==> s[j] != c,
        last_index_of(s, c) < 0 ==> forall|j: int| 0 <= j < s.len() ==> s[j] != c,
    decreases s.len(),
{
    if s.len() > 0 && s.last() != c {
        lemma_last_index_of(s.drop_last(), c);
        assert(forall|j: int| 0 <= j < s.len() - 1 ==> s[j] == s.drop_last()[j]);
    }
}

/// Finds the last occurrence of `c` in `s`.
pub fn find_last_char(s: &str, c: char) -> (r: Option<usize>)
    ensures
        match r {
            Some(i) => last_index_of(s@, c) == i as int,
            None => last_index_of(s@, c) == -1,
        },
{
    let n = s.unicode_len();
    let mut i: usize = n;
    proof {
        assert(s@.take(n as int) =~= s@);
    }
    while i > 0
        invariant
            n == s@.len(),
            i <= n,
            last_index_of(s@, c) == last_index_of(s@.take(i as int), c),
        decreases i,
    {
        let ch = s.get_char(i - 1);
        proof {
            assert(s@.take(i as int).last() == s@[i - 1]);
            assert(s@.take(i as int).drop_last() =~= s@.take(i - 1));
        }
        if ch == c {
            return Some(i - 1);
        }
        i = i - 1;
    }
    proof {
        assert(s@.take(0).len() == 0);
    }
    None
}

/// The Unicode lowercase form of a character sequence. The mapping is a
/// function of the characters alone; it is not written out here.
pub uninterp spec fn lower_of(s: Seq<char>) -> Seq<char>;

/// Relies on str::to_lowercase: the result is the Unicode lowercase form
/// of the input, a function of the characters alone, and an empty string
/// stays empty.
#[verifier::external_body]
pub fn lowercase(s: &str) -> (r: String)
    ensures
        r@ == lower_of(s@),
        s@.len() == 0 ==> r@.len() == 0,
{
    s.to_lowercase()
}

/// Whether `sub` occurs contiguously inside `s`.
pub open spec fn contains_sub(s: Seq<char>, sub: Seq<char>) -> bool {
    exists|i: int| 0 <= i && i + sub.len() <= s.len() && #[trigger] s.subrange(i, i + sub.len())
        == sub
}

/// How many times the character `c` occurs in `s`.
pub open spec fn count_char(s: Seq<char>, c: char) -> int
    decreases s.len(),
{
    if s.len() == 0 {
        0
    } else {
        count_char(s.drop_last(), c) + if s.last() == c {
            1int
        } else {
            0int
        }
    }
}

/// Occurrence counts add up over concatenation.
pub proof fn lemma_count_char_concat(a: Seq<char>, b: Seq<char>, c: char)
    ensures
        count_char(a + b, c) == count_char(a, c) + count_char(b, c),
    decreases b.len(),
{
    if b.len() == 0 {
        assert(a + b =~= a);
    } else {
        lemma_count_char_concat(a, b.drop_last(), c);
        assert((a + b).drop_last() =~= a + b.drop_last());
        assert((a + b).last() == b.last());
    }
}

/// A character occurs somewhere in `s` exactly when its count is positive.
pub proof fn lemma_count_char_contains(s: Seq<char>, c: char)
    ensures
        count_char(s, c) >= 0,
        s.contains(c) <==> count_char(s, c) > 0,
    decreases s.len(),
{
    if s.len() > 0 {
        lemma_count_char_contains(s.drop_last(), c);
        if s.contains(c) && s.last() != c {
            let i = choose|i: int| 0 <= i < s.len() && s[i] == c;
            assert(s.drop_last()[i] == c);
        }
        if s.drop_last().contains(c) {
            let i = choose|i: int| 0 <= i < s.len() - 1 && s.drop_last()[i] == c;
            assert(s[i] == c);
        }
    }
}

} // verus!
