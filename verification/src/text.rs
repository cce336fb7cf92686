//! Line-oriented text primitives: ASCII case folding, case-insensitive
//! pattern matching, splitting a sensor dump into lines, and digit runs.

use vstd::prelude::*;

verus! {

/// ASCII lower-casing of one character; anything outside 'A'..='Z' is kept.
pub open spec fn lower_char_spec(c: char) -> char {
    if 65 <= c as u32 && c as u32 <= 90 {
        (((c as u32) + 32) as u8) as char
    } else {
        c
    }
}

/// The pattern `pat` occurs at position `i` of `s`, compared
/// case-insensitively (ASCII).
pub open spec fn matches_ci_at(s: Seq<char>, i: int, pat: Seq<char>) -> bool {
    &&& 0 <= i
    &&& i + pat.len() <= s.len()
    &&& forall|j: int|
        0 <= j < pat.len() ==> lower_char_spec(s[i + j]) == lower_char_spec(#[trigger] pat[j])
}

/// `s` starts with `pat`, compared case-insensitively (ASCII).
pub open spec fn starts_with_ci(s: Seq<char>, pat: Seq<char>) -> bool {
    matches_ci_at(s, 0, pat)
}

/// `pat` occurs somewhere in `s`, compared case-insensitively (ASCII).
pub open spec fn contains_ci(s: Seq<char>, pat: Seq<char>) -> bool {
    exists|i: int| matches_ci_at(s, i, pat)
}

/// Number of characters before the first '\n' of `s` (all of `s` if none).
pub open spec fn line_len(s: Seq<char>) -> nat
    decreases s.len(),
{
    if s.len() == 0 {
        0
    } else if s[0] == '\n' {
        0
    } else {
        1 + line_len(s.drop_first())
    }
}

/// A line with one trailing carriage return removed.
pub open spec fn strip_cr(l: Seq<char>) -> Seq<char> {
    if l.len() > 0 && l.last() == '\r' {
        l.drop_last()
    } else {
        l
    }
}

/// The lines of `s`, split at '\n', as `str::lines` yields them: each
/// newline-terminated segment loses its '\n' and one '\r' before it; a
/// final segment without '\n' is kept as it stands, and a trailing
/// newline opens no empty last line.
pub open spec fn spec_lines(s: Seq<char>) -> Seq<Seq<char>>
    decreases s.len(),
{
    if s.len() == 0 {
        Seq::empty()
    } else {
        let e = line_len(s);
        if e >= s.len() {
            seq![s]
        } else {
            seq![strip_cr(s.take(e as int))] + spec_lines(s.skip(e as int + 1))
        }
    }
}

pub proof fn lemma_line_len(s: Seq<char>)
    ensures
        line_len(s) <= s.len(),
        forall|k: int| 0 <= k < line_len(s) ==> s[k] != '\n',
        line_len(s) < s.len() ==> s[line_len(s) as int] == '\n',
    decreases s.len(),
{
    if s.len() == 0 {
    } else if s[0] == '\n' {
    } else {
        lemma_line_len(s.drop_first());
        assert forall|k: int| 0 <= k < line_len(s) implies s[k] != '\n' by {
            if k > 0 {
                assert(s.drop_first()[k - 1] != '\n');
            }
        }
    }
}

/// The whitespace characters accepted between a reading and its unit
/// word (ASCII whitespace, apart from the line break itself).
pub open spec fn is_space_char(c: char) -> bool {
    c == ' ' || c == '\t' || c == '\r' || c == '\u{b}' || c == '\u{c}'
}

/// `c` is one of '0'..='9'.
pub open spec fn is_ascii_digit(c: char) -> bool {
    48 <= c as u32 && c as u32 <= 57
}

/// The numeric value of a decimal digit character.
pub open spec fn digit_val(c: char) -> nat {
    (c as u32 - 48) as nat
}

/// The number a run of decimal digit characters denotes.
pub open spec fn digits_val(d: Seq<char>) -> nat
    decreases d.len(),
{
    if d.len() == 0 {
        0
    } else {
        digits_val(d.drop_last()) * 10 + digit_val(d.last())
    }
}

/// Dropping digits from the right never increases the denoted value.
pub proof fn lemma_digits_val_prefix(d: Seq<char>, k: int)
    requires
        0 <= k <= d.len(),
    ensures
        digits_val(d.take(k)) <= digits_val(d),
    decreases d.len(),
{
    if k == d.len() {
        assert(d.take(k) =~= d);
    } else {
        lemma_digits_val_prefix(d.drop_last(), k);
        assert(d.drop_last().take(k) =~= d.take(k));
    }
}

/// Start of the maximal run of decimal digits that ends right before
/// position `j`.
pub open spec fn run_start(l: Seq<char>, j: int) -> int
    decreases j,
{
    if j <= 0 {
        0
    } else if is_ascii_digit(l[j - 1]) {
        run_start(l, j - 1)
    } else {
        j
    }
}

/// The maximal run of decimal digits that ends right before position `j`.
pub open spec fn digit_run(l: Seq<char>, j: int) -> Seq<char> {
    l.subrange(run_start(l, j), j)
}

pub proof fn lemma_run_start(l: Seq<char>, j: int)
    requires
        0 <= j,
    ensures
        0 <= run_start(l, j) <= j,
        forall|k: int| run_start(l, j) <= k < j ==> is_ascii_digit(l[k]),
    decreases j,
{
    if j > 0 && is_ascii_digit(l[j - 1]) {
        lemma_run_start(l, j - 1);
    }
}

/// ASCII lower-casing of one character, executable form.
pub fn lower_char(c: char) -> (r: char)
    ensures
        r == lower_char_spec(c),
{
    let u = c as u32;
    if 65 <= u && u <= 90 {
        ((u as u8) + 32) as char
    } else {
        c
    }
}

/// Whether `pat` occurs at character position `i` of `s`, compared
/// case-insensitively (ASCII).
pub fn str_matches_ci_at(s: &str, i: usize, pat: &str) -> (r: bool)
    requires
        i <= s@.len(),
    ensures
        r == matches_ci_at(s@, i as int, pat@),
{
    let n = s.unicode_len();
    let m = pat.unicode_len();
    if m > n - i {
        return false;
    }
    let mut j: usize = 0;
    while j < m
        invariant
            n == s@.len(),
            m == pat@.len(),
            i + m <= n,
            j <= m,
            forall|k: int|
                0 <= k < j ==> lower_char_spec(s@[i + k]) == lower_char_spec(#[trigger] pat@[k]),
        decreases m - j,
    {
        let a = lower_char(s.get_char(i + j));
        let b = lower_char(pat.get_char(j));
        if a != b {
            return false;
        }
        j += 1;
    }
    true
}

/// Whether `c` sits between a reading and its unit word, executable form.
pub fn is_space(c: char) -> (r: bool)
    ensures
        r == is_space_char(c),
{
    c == ' ' || c == '\t' || c == '\r' || c == '\u{b}' || c == '\u{c}'
}

/// Whether `c` is a decimal digit, executable form.
pub fn is_digit(c: char) -> (r: bool)
    ensures
        r == is_ascii_digit(c),
{
    let u = c as u32;
    48 <= u && u <= 57
}

/// One unfolding step of `spec_lines`: the text from line start `i` up to
/// its line end `j` is the first remaining line, and the rest of the
/// lines start after the newline.
pub proof fn lemma_spec_lines_unfold(s: Seq<char>, i: int, j: int)
    requires
        0 <= i <= j <= s.len(),
        i < s.len(),
        line_len(s.skip(i)) == j - i,
    ensures
        j < s.len() ==> spec_lines(s.skip(i)) == seq![strip_cr(s.subrange(i, j))] + spec_lines(
            s.skip(j + 1),
        ),
        j == s.len() ==> spec_lines(s.skip(i)) == seq![s.subrange(i, j)],
{
    let t = s.skip(i);
    assert(t.take(j - i) =~= s.subrange(i, j));
    if j < s.len() {
        assert(t.skip(j - i + 1) =~= s.skip(j + 1));
    } else {
        assert(t =~= s.subrange(i, j));
    }
}

/// Character position of the first '\n' at or after `start` (the text's
/// length if there is none).
pub fn find_line_end(s: &str, start: usize) -> (end: usize)
    requires
        start <= s@.len(),
    ensures
        end == start + line_len(s@.skip(start as int)),
        end <= s@.len(),
{
    let n = s.unicode_len();
    let mut k: usize = start;
    while k < n
        invariant
            n == s@.len(),
            start <= k <= n,
            line_len(s@.skip(start as int)) == (k - start) + line_len(s@.skip(k as int)),
        decreases n - k,
    {
        let c = s.get_char(k);
        proof {
            assert(s@.skip(k as int)[0] == s@[k as int]);
            assert(s@.skip(k as int).drop_first() =~= s@.skip(k as int + 1));
        }
        if c == '\n' {
            return k;
        }
        k += 1;
    }
    proof {
        assert(s@.skip(n as int) =~= Seq::<char>::empty());
    }
    n
}

} // verus!
