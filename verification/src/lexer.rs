//! The lexical layer of the song language: whitespace and `//` comments
//! between tokens, keywords, identifiers, numbers and quoted strings.
//!
//! Positions are character offsets into the text. Each spec function says
//! where a token that starts at a position ends; each executable function
//! computes the same.
use vstd::prelude::*;

verus! {

/// Blank characters between tokens.
pub open spec fn is_blank(c: char) -> bool {
    c == ' ' || c == '\t' || c == '\r' || c == '\n'
}

/// Characters that may start an identifier: ASCII letters and `_`.
pub open spec fn is_ident_start(c: char) -> bool {
    ('a' <= c && c <= 'z') || ('A' <= c && c <= 'Z') || c == '_'
}

/// Decimal digits.
pub open spec fn is_digit(c: char) -> bool {
    '0' <= c && c <= '9'
}

/// Characters that may continue an identifier: ASCII letters, digits and `_`.
pub open spec fn is_ident_char(c: char) -> bool {
    is_ident_start(c) || is_digit(c)
}

/// Where skipping blanks and comments from `i` stops; `in_comment` tells
/// whether `i` lies inside a `//` comment, which runs up to the end of its
/// line.
pub open spec fn skip_from(s: Seq<char>, i: int, in_comment: bool) -> int
    decreases s.len() - i,
{
    if i < 0 || i >= s.len() {
        i
    } else if in_comment {
        skip_from(s, i + 1, s[i] != '\n')
    } else if is_blank(s[i]) {
        skip_from(s, i + 1, false)
    } else if s[i] == '/' && i + 1 < s.len() && s[i + 1] == '/' {
        skip_from(s, i + 2, true)
    } else {
        i
    }
}

/// The first position at or after `i` that is neither blank nor in a comment.
pub open spec fn skip(s: Seq<char>, i: int) -> int {
    skip_from(s, i, false)
}

/// Whether the text `t` appears in `s` at position `i`.
pub open spec fn lit(s: Seq<char>, i: int, t: Seq<char>) -> bool {
    0 <= i && i + t.len() <= s.len() && s.subrange(i, i + t.len()) == t
}

/// The end of the run of identifier characters that starts at `i`.
pub open spec fn ident_end(s: Seq<char>, i: int) -> int
    decreases s.len() - i,
{
    if 0 <= i < s.len() && is_ident_char(s[i]) {
        ident_end(s, i + 1)
    } else {
        i
    }
}

/// The end of the run of digits that starts at `i`.
pub open spec fn digits_end(s: Seq<char>, i: int) -> int
    decreases s.len() - i,
{
    if 0 <= i < s.len() && is_digit(s[i]) {
        digits_end(s, i + 1)
    } else {
        i
    }
}

/// The end of a dotted name (identifiers joined by `.`) continued from `i`.
pub open spec fn dotted_end(s: Seq<char>, i: int) -> int
    decreases s.len() - i,
{
    if 0 <= i < s.len() && (is_ident_char(s[i]) || (s[i] == '.' && i + 1 < s.len() && is_ident_start(
        s[i + 1],
    ))) {
        dotted_end(s, i + 1)
    } else {
        i
    }
}

/// The position of the first `"` at or after `i` (the end of the text if none).
pub open spec fn quote_end(s: Seq<char>, i: int) -> int
    decreases s.len() - i,
{
    if 0 <= i < s.len() && s[i] != '"' {
        quote_end(s, i + 1)
    } else {
        i
    }
}

/// The value of a string of decimal digits.
pub open spec fn digits_value(t: Seq<char>) -> nat
    decreases t.len(),
{
    if t.len() == 0 {
        0
    } else {
        digits_value(t.drop_last()) * 10 + (t.last() as nat - '0' as nat) as nat
    }
}

/// A number as a `u32`, if it fits.
pub open spec fn fit_u32(n: nat) -> Option<u32> {
    if n <= u32::MAX {
        Some(n as u32)
    } else {
        None
    }
}

/// The value of the digits `s[from..to]`, if it fits in a `u32`.
pub open spec fn number_at(s: Seq<char>, from: int, to: int) -> Option<u32> {
    fit_u32(digits_value(s.subrange(from, to)))
}

/// A run of digits ends within the text, at or after its start.
pub proof fn lemma_digits_end_bounds(s: Seq<char>, i: int)
    requires
        0 <= i <= s.len(),
    ensures
        i <= digits_end(s, i) <= s.len(),
    decreases s.len() - i,
{
    if i < s.len() && is_digit(s[i]) {
        lemma_digits_end_bounds(s, i + 1);
    }
}

/// Whether `c` is blank (see `is_blank`).
pub fn blank(c: char) -> (r: bool)
    ensures
        r == is_blank(c),
{
    c == ' ' || c == '\t' || c == '\r' || c == '\n'
}

/// Whether `c` may start an identifier (see `is_ident_start`).
pub fn ident_start(c: char) -> (r: bool)
    ensures
        r == is_ident_start(c),
{
    ('a' <= c && c <= 'z') || ('A' <= c && c <= 'Z') || c == '_'
}

/// Whether `c` is a decimal digit.
pub fn digit_char(c: char) -> (r: bool)
    ensures
        r == is_digit(c),
{
    '0' <= c && c <= '9'
}

/// Whether `c` may continue an identifier (see `is_ident_char`).
pub fn ident_char(c: char) -> (r: bool)
    ensures
        r == is_ident_char(c),
{
    ident_start(c) || digit_char(c)
}

/// Skips blanks and comments from `i` (see `skip`).
pub fn skip_exec(s: &Vec<char>, i: usize) -> (r: usize)
    requires
        i <= s@.len(),
    ensures
        r == skip(s@, i as int),
        i <= r <= s@.len(),
{
    let mut j: usize = i;
    let mut in_comment = false;
    while j < s.len()
        invariant
            i <= j <= s@.len(),
            skip_from(s@, j as int, in_comment) == skip(s@, i as int),
        decreases s@.len() - j,
    {
        let c = s[j];
        if in_comment {
            in_comment = c != '\n';
            j = j + 1;
        } else if blank(c) {
            j = j + 1;
        } else if c == '/' && j + 1 < s.len() && s[j + 1] == '/' {
            in_comment = true;
            j = j + 2;
        } else {
            return j;
        }
    }
    j
}

/// Whether the characters `t` appear in `s` at position `i`.
pub fn lit_at(s: &Vec<char>, i: usize, t: &[char]) -> (r: bool)
    requires
        i <= s@.len(),
    ensures
        r == lit(s@, i as int, t@),
{
    if t.len() > s.len() - i {
        return false;
    }
    let n = s.len();
    let mut k: usize = 0;
    while k < t.len()
        invariant
            n == s@.len(),
            k <= t@.len(),
            i + t@.len() <= s@.len(),
            forall|m: int| 0 <= m < k ==> s@[i + m] == t@[m],
        decreases t@.len() - k,
    {
        if s[i + k] != t[k] {
            assert(s@.subrange(i as int, i + t@.len())[k as int] != t@[k as int]);
            return false;
        }
        k = k + 1;
    }
    assert(s@.subrange(i as int, i + t@.len()) =~= t@);
    true
}

/// The end of the run of identifier characters from `i` (see `ident_end`).
pub fn ident_end_exec(s: &Vec<char>, i: usize) -> (r: usize)
    requires
        i <= s@.len(),
    ensures
        r == ident_end(s@, i as int),
        i <= r <= s@.len(),
{
    let mut j: usize = i;
    while j < s.len() && ident_char(s[j])
        invariant
            i <= j <= s@.len(),
            ident_end(s@, j as int) == ident_end(s@, i as int),
        decreases s@.len() - j,
    {
        j = j + 1;
    }
    j
}

/// The end of the run of digits from `i` (see `digits_end`).
pub fn digits_end_exec(s: &Vec<char>, i: usize) -> (r: usize)
    requires
        i <= s@.len(),
    ensures
        r == digits_end(s@, i as int),
        i <= r <= s@.len(),
{
    let mut j: usize = i;
    while j < s.len() && digit_char(s[j])
        invariant
            i <= j <= s@.len(),
            digits_end(s@, j as int) == digits_end(s@, i as int),
        decreases s@.len() - j,
    {
        j = j + 1;
    }
    j
}

/// The end of a dotted name from `i` (see `dotted_end`).
pub fn dotted_end_exec(s: &Vec<char>, i: usize) -> (r: usize)
    requires
        i <= s@.len(),
    ensures
        r == dotted_end(s@, i as int),
        i <= r <= s@.len(),
{
    let mut j: usize = i;
    while j < s.len() && (ident_char(s[j]) || (s[j] == '.' && j + 1 < s.len() && ident_start(
        s[j + 1],
    )))
        invariant
            i <= j <= s@.len(),
            dotted_end(s@, j as int) == dotted_end(s@, i as int),
        decreases s@.len() - j,
    {
        j = j + 1;
    }
    j
}

/// The position of the first `"` from `i` (see `quote_end`).
pub fn quote_end_exec(s: &Vec<char>, i: usize) -> (r: usize)
    requires
        i <= s@.len(),
    ensures
        r == quote_end(s@, i as int),
        i <= r <= s@.len(),
{
    let mut j: usize = i;
    while j < s.len() && s[j] != '"'
        invariant
            i <= j <= s@.len(),
            quote_end(s@, j as int) == quote_end(s@, i as int),
        decreases s@.len() - j,
    {
        j = j + 1;
    }
    j
}

proof fn lemma_digits_value_grows(t: Seq<char>, c: char)
    requires
        is_digit(c),
        digits_value(t) > u32::MAX,
    ensures
        digits_value(t.push(c)) > u32::MAX,
{
    assert(t.push(c).drop_last() =~= t);
}

/// The value of the digits `s[from..to]`, if it fits in a `u32`.
pub fn number_exec(s: &Vec<char>, from: usize, to: usize) -> (r: Option<u32>)
    requires
        from <= to <= s@.len(),
        forall|k: int| from <= k < to ==> is_digit(#[trigger] s@[k]),
    ensures
        r == number_at(s@, from as int, to as int),
{
    let mut value: u32 = 0;
    let mut too_large = false;
    let mut j: usize = from;
    assert(s@.subrange(from as int, from as int) =~= Seq::<char>::empty());
    while j < to
        invariant
            from <= j <= to,
            to <= s@.len(),
            forall|k: int| from <= k < to ==> is_digit(#[trigger] s@[k]),
            too_large ==> digits_value(s@.subrange(from as int, j as int)) > u32::MAX,
            !too_large ==> digits_value(s@.subrange(from as int, j as int)) == value,
        decreases to - j,
    {
        let c = s[j];
        let d = (c as u32) - ('0' as u32);
        let ghost prev = s@.subrange(from as int, j as int);
        assert(s@.subrange(from as int, j + 1) =~= prev.push(c));
        assert(prev.push(c).drop_last() =~= prev);
        assert(is_digit(s@[j as int]));
        if too_large {
            proof {
                lemma_digits_value_grows(prev, c);
            }
        } else if value > (u32::MAX - d) / 10 {
            too_large = true;
            assert(digits_value(prev.push(c)) > u32::MAX) by (nonlinear_arith)
                requires
                    digits_value(prev.push(c)) == value * 10 + d,
                    value > (u32::MAX - d) / 10,
                    d <= 9,
            ;
        } else {
            assert(value * 10 + d <= u32::MAX) by (nonlinear_arith)
                requires
                    value <= (u32::MAX - d) / 10,
                    d <= 9,
            ;
            value = value * 10 + d;
        }
        j = j + 1;
    }
    if too_large {
        None
    } else {
        Some(value)
    }
}

/// Nothing is skipped at a character that is neither blank nor `/`, nor at the end.
pub proof fn lemma_skip_stays(s: Seq<char>, i: int)
    requires
        0 <= i <= s.len(),
        i < s.len() ==> !is_blank(s[i]) && s[i] != '/',
    ensures
        skip(s, i) == i,
{
}

/// A run of identifier characters ends at the first character that is not one.
pub proof fn lemma_ident_end_run(s: Seq<char>, a: int, b: int)
    requires
        0 <= a <= b <= s.len(),
        forall|k: int| a <= k < b ==> is_ident_char(#[trigger] s[k]),
        b < s.len() ==> !is_ident_char(s[b]),
    ensures
        ident_end(s, a) == b,
    decreases b - a,
{
    if a < b {
        lemma_ident_end_run(s, a + 1, b);
    }
}

/// The first quote from `a` is at `b` when none stands before it.
pub proof fn lemma_quote_end_run(s: Seq<char>, a: int, b: int)
    requires
        0 <= a <= b < s.len(),
        forall|k: int| a <= k < b ==> #[trigger] s[k] != '"',
        s[b] == '"',
    ensures
        quote_end(s, a) == b,
    decreases b - a,
{
    if a < b {
        lemma_quote_end_run(s, a + 1, b);
    }
}

/// A run of digits ends at the first character that is not a digit.
pub proof fn lemma_digits_end_run(s: Seq<char>, a: int, b: int)
    requires
        0 <= a <= b <= s.len(),
        forall|k: int| a <= k < b ==> is_digit(#[trigger] s[k]),
        b < s.len() ==> !is_digit(s[b]),
    ensures
        digits_end(s, a) == b,
    decreases b - a,
{
    if a < b {
        lemma_digits_end_run(s, a + 1, b);
    }
}


/// Identifiers start with an ASCII letter or `_` and go on with ASCII
/// letters, decimal digits and `_`.
pub proof fn law_identifier_characters(c: char)
    ensures
        is_ident_start(c) <==> (('a' <= c && c <= 'z') || ('A' <= c && c <= 'Z') || c == '_'),
        is_ident_char(c) <==> (('a' <= c && c <= 'z') || ('A' <= c && c <= 'Z') || ('0' <= c && c <= '9')
            || c == '_'),
        is_digit(c) <==> ('0' <= c && c <= '9'),
{
}

} // verus!
