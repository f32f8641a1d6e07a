//! Writing statements back as text, and the law that the parser reads back
//! what was written.
use vstd::prelude::*;
use crate::ast::{Modifier, SectionItemView};
use crate::grammar::{Keyword, StatementView, TempoSpec, after_lit, bpm_tok, ident_tok, keyword_text, modifier_opt, parse_file, pattern_def, section, statement, statements, tempo_def, lemma_nothing_at_end, number_tok, section_item, section_items, starts_pattern_def, starts_tempo_def, string_tok, tempo_spec_opt, track_entry, track_list};
use crate::lexer::{dotted_end, digits_value, fit_u32, ident_end, is_blank, is_digit, is_ident_char, is_ident_start, lit, skip, lemma_digits_end_run, lemma_ident_end_run, lemma_quote_end_run, lemma_skip_stays};

verus! {

/// Whether `t` is an identifier: a letter or `_`, then letters, digits or `_`.
pub open spec fn is_ident(t: Seq<char>) -> bool {
    t.len() > 0 && is_ident_start(t[0]) && forall|k: int| 0 < k < t.len() ==> is_ident_char(#[trigger] t[k])
}

/// The character of a decimal digit value.
pub open spec fn digit_char_of(d: nat) -> char {
    ('0' as u32 + d as u32) as char
}

/// The decimal digits of `n`, without leading zeros.
pub open spec fn decimal(n: nat) -> Seq<char>
    decreases n,
{
    if n < 10 {
        seq![digit_char_of(n)]
    } else {
        decimal(n / 10) + seq![digit_char_of(n % 10)]
    }
}

/// Decimal digits read back as their number.
pub proof fn lemma_decimal(n: nat)
    ensures
        decimal(n).len() > 0,
        forall|k: int| 0 <= k < decimal(n).len() ==> is_digit(#[trigger] decimal(n)[k]),
        digits_value(decimal(n)) == n,
    decreases n,
{
    if n < 10 {
        let t = decimal(n);
        assert(t.drop_last() =~= Seq::<char>::empty());
        assert(digits_value(t.drop_last()) == 0);
    } else {
        lemma_decimal(n / 10);
        let t = decimal(n);
        let h = decimal(n / 10);
        assert(t.drop_last() =~= h);
        assert(t.last() == digit_char_of(n % 10));
        assert forall|k: int| 0 <= k < t.len() implies is_digit(#[trigger] t[k]) by {
            if k < h.len() {
                assert(t[k] == h[k]);
            }
        }
        assert(n == (n / 10) * 10 + n % 10);
    }
}

/// Whether the text `w` stands in `s` at position `p`.
pub open spec fn text_at(s: Seq<char>, p: int, w: Seq<char>) -> bool {
    0 <= p && p + w.len() <= s.len() && forall|k: int| 0 <= k < w.len() ==> #[trigger] s[p + k] == w[k]
}

proof fn lemma_text_at_split(s: Seq<char>, p: int, a: Seq<char>, b: Seq<char>)
    requires
        text_at(s, p, a + b),
    ensures
        text_at(s, p, a),
        text_at(s, p + a.len(), b),
{
    assert forall|k: int| 0 <= k < a.len() implies #[trigger] s[p + k] == a[k] by {
        assert(s[p + k] == (a + b)[k]);
    }
    assert forall|k: int| 0 <= k < b.len() implies #[trigger] s[p + a.len() + k] == b[k] by {
        assert(s[p + (a.len() + k)] == (a + b)[a.len() + k]);
    }
}

proof fn lemma_text_at_lit(s: Seq<char>, p: int, w: Seq<char>)
    requires
        text_at(s, p, w),
    ensures
        lit(s, p, w),
{
    assert(s.subrange(p, p + w.len()) =~= w) by {
        assert forall|k: int| 0 <= k < w.len() implies s.subrange(p, p + w.len())[k] == w[k] by {
            assert(s[p + k] == w[k]);
        }
    }
}

/// Whether `t` is a dotted name: identifiers joined by single dots.
pub open spec fn is_dotted(t: Seq<char>) -> bool {
    &&& t.len() > 0
    &&& is_ident_start(t[0])
    &&& forall|k: int|
        1 <= k < t.len() ==> is_ident_char(#[trigger] t[k]) || (t[k] == '.' && k + 1 < t.len()
            && is_ident_start(t[k + 1]))
}

/// Whether `t` begins with the word `only` (not followed by an identifier character).
pub open spec fn begins_with_only(t: Seq<char>) -> bool {
    &&& t.len() >= 4
    &&& t.subrange(0, 4) == keyword_text(Keyword::Only)
    &&& (t.len() == 4 || !is_ident_char(t[4]))
}

/// Whether `t` is a quoted string without quotes inside.
pub open spec fn is_quoted(t: Seq<char>) -> bool {
    &&& t.len() >= 2
    &&& t[0] == '"'
    &&& t[t.len() - 1] == '"'
    &&& forall|k: int| 1 <= k < t.len() - 1 ==> #[trigger] t[k] != '"'
}

/// The text of a section item's modifier.
pub open spec fn render_modifier(m: Option<Modifier>) -> Seq<char> {
    match m {
        None => Seq::empty(),
        Some(Modifier::Only) => seq![' '] + keyword_text(Keyword::Only),
        Some(Modifier::Multiply(v)) => keyword_text(Keyword::Star) + decimal(v as nat),
    }
}

/// The text of a section item, after a blank.
pub open spec fn render_item(it: SectionItemView) -> Seq<char> {
    seq![' '] + it.pattern + render_modifier(it.modifier)
}

/// The text of section items, one after another.
pub open spec fn render_items(items: Seq<SectionItemView>) -> Seq<char>
    decreases items.len(),
{
    if items.len() == 0 {
        Seq::empty()
    } else {
        render_item(items[0]) + render_items(items.drop_first())
    }
}

/// The text of a track of a pattern definition, with its comma.
pub open spec fn render_track(t: (Seq<char>, Seq<char>)) -> Seq<char> {
    t.0 + keyword_text(Keyword::Colon) + t.1 + keyword_text(Keyword::Comma)
}

/// The text of the tracks of a pattern definition.
pub open spec fn render_tracks(ts: Seq<(Seq<char>, Seq<char>)>) -> Seq<char>
    decreases ts.len(),
{
    if ts.len() == 0 {
        Seq::empty()
    } else {
        render_track(ts[0]) + render_tracks(ts.drop_first())
    }
}

/// The text of the tempo after a pattern definition (a name is written `x`).
pub open spec fn render_tempo_spec(t: Option<TempoSpec>) -> Seq<char> {
    match t {
        Some(TempoSpec::Bpm(Some(v))) => keyword_text(Keyword::At) + decimal(v as nat) + keyword_text(
            Keyword::Bpm,
        ),
        Some(TempoSpec::Named) => keyword_text(Keyword::At) + seq!['x'],
        _ => Seq::empty(),
    }
}

/// The text of a statement.
pub open spec fn render_statement(st: StatementView) -> Seq<char> {
    match st {
        StatementView::Tempo { bpm } => keyword_text(Keyword::Tempo) + keyword_text(Keyword::Colon)
            + decimal(
            match bpm {
                Some(v) => v as nat,
                None => 0,
            },
        ) + keyword_text(Keyword::Bpm),
        StatementView::Pattern { name, tracks, tempo } => name + keyword_text(Keyword::Equals)
            + keyword_text(Keyword::Pattern) + keyword_text(Keyword::BraceOpen) + render_tracks(tracks)
            + keyword_text(Keyword::BraceClose) + render_tempo_spec(tempo),
        StatementView::Section { name, bars, items } => keyword_text(Keyword::Open) + name + keyword_text(
            Keyword::Colon,
        ) + decimal(
            match bars {
                Some(b) => b as nat,
                None => 0,
            },
        ) + keyword_text(Keyword::Bars) + keyword_text(Keyword::Close) + render_items(items),
    }
}

/// The text of statements, each on a line of its own.
pub open spec fn render_statements(sts: Seq<StatementView>) -> Seq<char>
    decreases sts.len(),
{
    if sts.len() == 0 {
        Seq::empty()
    } else {
        render_statement(sts[0]) + seq!['\n'] + render_statements(sts.drop_first())
    }
}

/// Whether a section item can be written: its pattern is a dotted name
/// that does not begin with the word `only`.
pub open spec fn writable_item(it: SectionItemView) -> bool {
    is_dotted(it.pattern) && !begins_with_only(it.pattern)
}

/// Whether a statement can be written and read back: names are
/// identifiers, pattern names do not begin with the word `only`, pattern
/// texts are quoted without inner quotes, and every number fits in a `u32`.
pub open spec fn writable_statement(st: StatementView) -> bool {
    match st {
        StatementView::Tempo { bpm } => bpm is Some,
        StatementView::Pattern { name, tracks, tempo } => {
            &&& is_ident(name)
            &&& !begins_with_only(name)
            &&& tempo != Some(TempoSpec::Bpm(None))
            &&& forall|j: int| 0 <= j < tracks.len() ==> is_ident(#[trigger] tracks[j].0) && is_quoted(tracks[j].1)
        },
        StatementView::Section { name, bars, items } => {
            &&& is_ident(name)
            &&& bars is Some
            &&& forall|j: int| 0 <= j < items.len() ==> writable_item(#[trigger] items[j])
        },
    }
}

/// Whether every statement can be written and read back.
pub open spec fn writable_statements(sts: Seq<StatementView>) -> bool {
    forall|i: int| 0 <= i < sts.len() ==> writable_statement(#[trigger] sts[i])
}

proof fn lemma_ident_at(s: Seq<char>, p: int, t: Seq<char>)
    requires
        text_at(s, p, t),
        is_ident(t),
        p + t.len() < s.len() ==> !is_ident_char(s[p + t.len()]),
    ensures
        ident_tok(s, p) == Some((t, p + t.len())),
{
    let n = t.len() as int;
    assert(s[p + 0] == t[0]);
    lemma_skip_stays(s, p);
    assert forall|k: int| p + 1 <= k < p + n implies is_ident_char(#[trigger] s[k]) by {
        assert(s[p + (k - p)] == t[k - p]);
    }
    lemma_ident_end_run(s, p + 1, p + n);
    assert(s.subrange(p, p + n) =~= t) by {
        assert forall|k: int| 0 <= k < n implies s.subrange(p, p + n)[k] == t[k] by {
            assert(s[p + k] == t[k]);
        }
    }
}

proof fn lemma_lit_at(s: Seq<char>, p: int, w: Seq<char>)
    requires
        text_at(s, p, w),
        w.len() > 0,
        !is_blank(w[0]),
        w[0] != '/',
    ensures
        after_lit(s, p, w) == Some(p + w.len()),
{
    assert(s[p + 0] == w[0]);
    lemma_skip_stays(s, p);
    lemma_text_at_lit(s, p, w);
}

proof fn lemma_number_at(s: Seq<char>, p: int, n: nat)
    requires
        text_at(s, p, decimal(n)),
        p + decimal(n).len() < s.len() ==> !is_digit(s[p + decimal(n).len()]),
    ensures
        number_tok(s, p) == Some((fit_u32(n), p + decimal(n).len())),
{
    let d = decimal(n);
    lemma_decimal(n);
    assert(s[p + 0] == d[0]);
    lemma_skip_stays(s, p);
    assert forall|k: int| p <= k < p + d.len() implies is_digit(#[trigger] s[k]) by {
        assert(s[p + (k - p)] == d[k - p]);
    }
    lemma_digits_end_run(s, p, p + d.len());
    assert(s.subrange(p, p + d.len()) =~= d) by {
        assert forall|k: int| 0 <= k < d.len() implies s.subrange(p, p + d.len())[k] == d[k] by {
            assert(s[p + k] == d[k]);
        }
    }
}

proof fn lemma_string_at(s: Seq<char>, p: int, t: Seq<char>)
    requires
        text_at(s, p, t),
        is_quoted(t),
    ensures
        string_tok(s, p) == Some((t, p + t.len())),
{
    let n = t.len() as int;
    assert(s[p + 0] == t[0]);
    lemma_skip_stays(s, p);
    assert forall|k: int| p + 1 <= k < p + n - 1 implies #[trigger] s[k] != '"' by {
        assert(s[p + (k - p)] == t[k - p]);
    }
    assert(s[p + (n - 1)] == t[n - 1]);
    lemma_quote_end_run(s, p + 1, p + n - 1);
    assert(s.subrange(p, p + n) =~= t) by {
        assert forall|k: int| 0 <= k < n implies s.subrange(p, p + n)[k] == t[k] by {
            assert(s[p + k] == t[k]);
        }
    }
}

/// The first character of a keyword is not blank and starts no comment.
proof fn lemma_keyword_start(k: Keyword)
    ensures
        keyword_text(k).len() > 0,
        !is_blank(keyword_text(k)[0]),
        keyword_text(k)[0] != '/',
{
}

proof fn lemma_track_at(s: Seq<char>, p: int, t: (Seq<char>, Seq<char>))
    requires
        text_at(s, p, render_track(t)),
        is_ident(t.0),
        is_quoted(t.1),
    ensures
        track_entry(s, p) == Some((t, p + t.0.len() + 1 + t.1.len())),
        after_lit(s, p + t.0.len() + 1 + t.1.len(), keyword_text(Keyword::Comma)) == Some(
            p + render_track(t).len(),
        ),
{
    let a = t.0 + keyword_text(Keyword::Colon);
    let b = a + t.1;
    lemma_text_at_split(s, p, b, keyword_text(Keyword::Comma));
    lemma_text_at_split(s, p, a, t.1);
    lemma_text_at_split(s, p, t.0, keyword_text(Keyword::Colon));
    let n = t.0.len() as int;
    assert(s[p + n + 0] == ':');
    lemma_ident_at(s, p, t.0);
    lemma_keyword_start(Keyword::Colon);
    lemma_lit_at(s, p + n, keyword_text(Keyword::Colon));
    lemma_string_at(s, p + n + 1, t.1);
    lemma_keyword_start(Keyword::Comma);
    lemma_lit_at(s, p + n + 1 + t.1.len(), keyword_text(Keyword::Comma));
}

/// Whether the word `only` (not followed by an identifier character) begins at `k`.
pub open spec fn only_word_at(s: Seq<char>, k: int) -> bool {
    lit(s, k, keyword_text(Keyword::Only)) && !(k + 4 < s.len() && is_ident_char(s[k + 4]))
}

/// Whether a statement may begin at `k`: the end, or an identifier or `[`
/// that is not the word `only`.
pub open spec fn statement_start(s: Seq<char>, k: int) -> bool {
    k == s.len() || (0 <= k < s.len() && (is_ident_start(s[k]) || s[k] == '[') && !only_word_at(s, k))
}

/// Whether a line ends at `z`: at the end of the text, or at a line break
/// after which a statement may begin and no section item can be read.
pub open spec fn line_end_at(s: Seq<char>, z: int) -> bool {
    z == s.len() || (0 <= z < s.len() && s[z] == '\n' && statement_start(s, skip(s, z)) && section_item(s, z) is None)
}

proof fn lemma_tracks_at(s: Seq<char>, p: int, ts: Seq<(Seq<char>, Seq<char>)>)
    requires
        text_at(s, p, render_tracks(ts) + keyword_text(Keyword::BraceClose)),
        forall|j: int| 0 <= j < ts.len() ==> is_ident(#[trigger] ts[j].0) && is_quoted(ts[j].1),
    ensures
        track_list(s, p) == (ts, p + render_tracks(ts).len()),
    decreases ts.len(),
{
    if ts.len() == 0 {
        assert(s[p + 0] == '}');
        lemma_skip_stays(s, p);
        assert(ident_tok(s, p) is None);
        assert(track_entry(s, p) is None);
        assert(ts =~= Seq::<(Seq<char>, Seq<char>)>::empty());
    } else {
        let t0 = ts[0];
        let rest = ts.drop_first();
        let r0 = render_track(t0);
        let rr = render_tracks(rest);
        let c = keyword_text(Keyword::BraceClose);
        assert(render_tracks(ts) == r0 + rr);
        assert((r0 + rr) + c =~= r0 + (rr + c));
        lemma_text_at_split(s, p, r0, rr + c);
        lemma_track_at(s, p, t0);
        let e2 = p + r0.len();
        assert forall|j: int| 0 <= j < rest.len() implies is_ident(#[trigger] rest[j].0) && is_quoted(
            rest[j].1,
        ) by {
            assert(rest[j] == ts[j + 1]);
        }
        lemma_tracks_at(s, e2, rest);
        assert(seq![t0] + rest =~= ts);
    }
}

proof fn lemma_tempo_spec_at(s: Seq<char>, f: int, t: Option<TempoSpec>)
    requires
        text_at(s, f, render_tempo_spec(t)),
        t != Some(TempoSpec::Bpm(None)),
        line_end_at(s, f + render_tempo_spec(t).len()),
    ensures
        tempo_spec_opt(s, f) == (t, f + render_tempo_spec(t).len()),
{
    let at = keyword_text(Keyword::At);
    match t {
        None => {
            if f < s.len() {
                let k = skip(s, f);
                if k < s.len() {
                    assert(!lit(s, k, at)) by {
                        assert(s.subrange(k, k + 1)[0] == s[k]);
                    }
                }
            }
        },
        Some(TempoSpec::Bpm(Some(v))) => {
            let d = decimal(v as nat);
            let b = keyword_text(Keyword::Bpm);
            lemma_text_at_split(s, f, at + d, b);
            lemma_text_at_split(s, f, at, d);
            lemma_keyword_start(Keyword::At);
            lemma_lit_at(s, f, at);
            assert(s[f + 1 + d.len() + 0] == 'b');
            lemma_number_at(s, f + 1, v as nat);
            lemma_keyword_start(Keyword::Bpm);
            lemma_lit_at(s, f + 1 + d.len(), b);
        },
        Some(TempoSpec::Named) => {
            lemma_text_at_split(s, f, at, seq!['x']);
            lemma_keyword_start(Keyword::At);
            lemma_lit_at(s, f, at);
            assert(s[f + 1 + 0] == 'x');
            lemma_skip_stays(s, f + 1);
            assert(number_tok(s, f + 1) is None);
            assert(bpm_tok(s, f + 1) is None);
            lemma_ident_at(s, f + 1, seq!['x']);
        },
        _ => {},
    }
}

/// Whether a section item may end at `z`: at the end of a line, or before
/// the next item (a blank, then a name that is not the word `only`).
pub open spec fn item_end_at(s: Seq<char>, z: int) -> bool {
    line_end_at(s, z) || (0 <= z && z + 1 < s.len() && s[z] == ' ' && is_ident_start(s[z + 1])
        && !only_word_at(s, z + 1))
}

proof fn lemma_not_only_word(s: Seq<char>, a: int, t: Seq<char>)
    requires
        text_at(s, a, t),
        t.len() > 0,
        !begins_with_only(t),
        forall|k: int| 0 <= k < t.len() ==> is_ident_char(#[trigger] t[k]) || t[k] == '.',
        a + t.len() < s.len() ==> !is_ident_char(s[a + t.len()]),
    ensures
        !only_word_at(s, a),
{
    let w = keyword_text(Keyword::Only);
    if lit(s, a, w) {
        assert forall|k: int| 0 <= k < 4 implies #[trigger] s[a + k] == w[k] by {
            assert(s.subrange(a, a + 4)[k] == s[a + k]);
        }
        if t.len() < 4 {
            let n = t.len() as int;
            assert(s[a + n] == w[n]);
            assert(is_ident_char(w[n]));
        } else {
            assert(t.subrange(0, 4) =~= w) by {
                assert forall|k: int| 0 <= k < 4 implies t.subrange(0, 4)[k] == w[k] by {
                    assert(s[a + k] == t[k]);
                }
            }
            assert(t.len() > 4);
            assert(is_ident_char(t[4]));
            assert(s[a + 4] == t[4]);
        }
    }
}

proof fn lemma_dotted_end_run(s: Seq<char>, a: int, b: int)
    requires
        0 <= a <= b <= s.len(),
        forall|k: int|
            a <= k < b ==> is_ident_char(#[trigger] s[k]) || (s[k] == '.' && k + 1 < s.len()
                && is_ident_start(s[k + 1])),
        b < s.len() ==> !is_ident_char(s[b]) && s[b] != '.',
    ensures
        dotted_end(s, a) == b,
    decreases b - a,
{
    if a < b {
        lemma_dotted_end_run(s, a + 1, b);
    }
}

proof fn lemma_ident_end_within(s: Seq<char>, a: int, r: int)
    requires
        0 <= a <= r <= s.len(),
        forall|k: int| a <= k < r ==> is_ident_char(#[trigger] s[k]) || s[k] == '.',
        r < s.len() ==> !is_ident_char(s[r]),
    ensures
        a <= ident_end(s, a) <= r,
        ident_end(s, a) < r ==> s[ident_end(s, a)] == '.',
    decreases r - a,
{
    if a < r && is_ident_char(s[a]) {
        lemma_ident_end_within(s, a + 1, r);
    }
}

/// After the pattern of a section item ending at `r`, the next token
/// (if any) begins with a letter, `_`, `[` or `*`.
spec fn quiet_after(s: Seq<char>, r: int) -> bool {
    let k = skip(s, r);
    k == s.len() || (0 <= k < s.len() && (is_ident_start(s[k]) || s[k] == '[' || s[k] == '*'))
}

proof fn lemma_line_end_quiet(s: Seq<char>, z: int)
    requires
        line_end_at(s, z),
    ensures
        quiet_after(s, z),
        z < s.len() ==> !is_ident_char(s[z]) && s[z] != '.' && !is_digit(s[z]),
        !only_word_at(s, skip(s, z)),
{
    if z == s.len() {
        lemma_skip_stays(s, z);
    }
}

proof fn lemma_item_at(s: Seq<char>, f: int, it: SectionItemView)
    requires
        text_at(s, f, render_item(it)),
        writable_item(it),
        item_end_at(s, f + render_item(it).len()),
    ensures
        section_item(s, f) == Some((it, f + render_item(it).len())),
{
    let pat = it.pattern;
    let m = it.modifier;
    let rm = render_modifier(m);
    let n = pat.len() as int;
    let r = f + 1 + n;
    let z = r + rm.len();
    lemma_text_at_split(s, f, seq![' '] + pat, rm);
    lemma_text_at_split(s, f, seq![' '], pat);
    assert(s[f + 0] == ' ');
    assert(s[f + 1 + 0] == pat[0]);
    lemma_skip_stays(s, f + 1);
    assert(skip(s, f) == f + 1);
    // what follows the pattern
    match m {
        None => {
            assert(z == r);
            if line_end_at(s, z) {
                lemma_line_end_quiet(s, z);
            } else {
                lemma_skip_stays(s, z + 1);
            }
        },
        Some(Modifier::Only) => {
            lemma_text_at_split(s, r, seq![' '], keyword_text(Keyword::Only));
            assert(s[r + 0] == ' ');
            assert(s[r + 1 + 0] == 'o');
            lemma_skip_stays(s, r + 1);
        },
        Some(Modifier::Multiply(v)) => {
            lemma_text_at_split(s, r, keyword_text(Keyword::Star), decimal(v as nat));
            assert(s[r + 0] == '*');
            lemma_skip_stays(s, r);
        },
    }
    assert(quiet_after(s, r));
    assert(r < s.len() ==> !is_ident_char(s[r]) && s[r] != '.');
    // the pattern is read as a dotted name
    assert forall|k: int| f + 1 <= k < r implies is_ident_char(#[trigger] s[k]) || s[k] == '.' by {
        assert(s[f + 1 + (k - f - 1)] == pat[k - f - 1]);
    }
    assert forall|k: int|
        f + 2 <= k < r implies is_ident_char(#[trigger] s[k]) || (s[k] == '.' && k + 1 < s.len()
            && is_ident_start(s[k + 1])) by {
        assert(s[f + 1 + (k - f - 1)] == pat[k - f - 1]);
        if k + 1 < r {
            assert(s[f + 1 + (k + 1 - f - 1)] == pat[k + 1 - f - 1]);
        }
    }
    lemma_dotted_end_run(s, f + 2, r);
    assert(s.subrange(f + 1, r) =~= pat) by {
        assert forall|k: int| 0 <= k < n implies s.subrange(f + 1, r)[k] == pat[k] by {
            assert(s[f + 1 + k] == pat[k]);
        }
    }
    // it does not begin a pattern definition
    lemma_ident_end_within(s, f + 2, r);
    let q = ident_end(s, f + 2);
    assert(ident_tok(s, f + 1) == Some((s.subrange(f + 1, q), q)));
    if q < r {
        lemma_skip_stays(s, q);
        assert(!lit(s, q, seq!['='])) by {
            assert(s.subrange(q, q + 1)[0] == s[q]);
        }
    } else {
        let k = skip(s, r);
        if k < s.len() {
            assert(!lit(s, k, seq!['='])) by {
                assert(s.subrange(k, k + 1)[0] == s[k]);
            }
        }
    }
    assert(!starts_pattern_def(s, f + 1));
    // nor a tempo definition
    let tw = keyword_text(Keyword::Tempo);
    if lit(s, f + 1, tw) {
        assert forall|k: int| 0 <= k < 5 implies #[trigger] s[f + 1 + k] == tw[k] by {
            assert(s.subrange(f + 1, f + 6)[k] == s[f + 1 + k]);
        }
        if n < 5 {
            assert(s[f + 1 + n] == tw[n]);
            assert(is_ident_char(tw[n]));
        } else if n > 5 {
            assert(s[f + 1 + 5] == pat[5]);
            lemma_skip_stays(s, f + 6);
            assert(!lit(s, f + 6, seq![':'])) by {
                assert(s.subrange(f + 6, f + 7)[0] == s[f + 6]);
            }
        } else {
            let k = skip(s, r);
            if k < s.len() {
                assert(!lit(s, k, seq![':'])) by {
                    assert(s.subrange(k, k + 1)[0] == s[k]);
                }
            }
        }
    }
    assert(!starts_tempo_def(s, f + 1));
    // the modifier
    lemma_modifier_at(s, r, m);
}

proof fn lemma_modifier_at(s: Seq<char>, r: int, m: Option<Modifier>)
    requires
        text_at(s, r, render_modifier(m)),
        item_end_at(s, r + render_modifier(m).len()),
        quiet_after(s, r),
        m is None ==> !only_word_at(s, skip(s, r)),
    ensures
        modifier_opt(s, r) == (m, r + render_modifier(m).len()),
{
    let z = r + render_modifier(m).len();
    let star = keyword_text(Keyword::Star);
    match m {
        None => {
            let k = skip(s, r);
            if k < s.len() {
                assert(!lit(s, k, star)) by {
                    assert(s.subrange(k, k + 1)[0] == s[k]);
                }
            }
        },
        Some(Modifier::Only) => {
            lemma_text_at_split(s, r, seq![' '], keyword_text(Keyword::Only));
            assert(s[r + 0] == ' ');
            assert(s[r + 1 + 0] == 'o');
            lemma_skip_stays(s, r + 1);
            lemma_text_at_lit(s, r + 1, keyword_text(Keyword::Only));
            if line_end_at(s, z) {
                lemma_line_end_quiet(s, z);
            }
        },
        Some(Modifier::Multiply(v)) => {
            let d = decimal(v as nat);
            lemma_text_at_split(s, r, star, d);
            assert(s[r + 0] == '*');
            lemma_skip_stays(s, r);
            if lit(s, r, keyword_text(Keyword::Only)) {
                assert(s.subrange(r, r + 4)[0] == s[r]);
            }
            lemma_keyword_start(Keyword::Star);
            lemma_lit_at(s, r, star);
            if line_end_at(s, z) {
                lemma_line_end_quiet(s, z);
            }
            lemma_number_at(s, r + 1, v as nat);
        },
    }
}

proof fn lemma_items_start_char(s: Seq<char>, g: int, xs: Seq<SectionItemView>)
    requires
        text_at(s, g, render_items(xs)),
        line_end_at(s, g + render_items(xs).len()),
    ensures
        g < s.len() ==> !is_ident_char(s[g]),
{
    if xs.len() > 0 {
        assert(render_items(xs) == render_item(xs[0]) + render_items(xs.drop_first()));
        assert(render_item(xs[0])[0] == ' ');
        assert(s[g + 0] == render_items(xs)[0]);
    } else {
        lemma_line_end_quiet(s, g);
    }
}

proof fn lemma_pattern_follower(s: Seq<char>, z: int, it: SectionItemView, rest: Seq<SectionItemView>)
    requires
        text_at(s, z, render_item(it) + render_items(rest)),
        line_end_at(s, z + render_item(it).len() + render_items(rest).len()),
    ensures
        z + 1 + it.pattern.len() < s.len() ==> !is_ident_char(s[z + 1 + it.pattern.len()]),
{
    let ri = render_item(it);
    lemma_text_at_split(s, z, ri, render_items(rest));
    lemma_text_at_split(s, z, seq![' '] + it.pattern, render_modifier(it.modifier));
    let p1 = z + 1 + it.pattern.len();
    match it.modifier {
        None => {
            assert(p1 == z + ri.len());
            lemma_items_start_char(s, p1, rest);
        },
        Some(Modifier::Only) => {
            assert(s[p1 + 0] == render_modifier(it.modifier)[0]);
        },
        Some(Modifier::Multiply(v)) => {
            assert(s[p1 + 0] == render_modifier(it.modifier)[0]);
        },
    }
}

proof fn lemma_items_at(s: Seq<char>, f: int, items: Seq<SectionItemView>)
    requires
        text_at(s, f, render_items(items)),
        forall|j: int| 0 <= j < items.len() ==> writable_item(#[trigger] items[j]),
        line_end_at(s, f + render_items(items).len()),
    ensures
        section_items(s, f) == (items, f + render_items(items).len()),
    decreases items.len(),
{
    if items.len() == 0 {
        assert(items =~= Seq::<SectionItemView>::empty());
    } else {
        let it = items[0];
        let rest = items.drop_first();
        let ri = render_item(it);
        let rr = render_items(rest);
        assert(render_items(items) == ri + rr);
        lemma_text_at_split(s, f, ri, rr);
        let z = f + ri.len();
        assert forall|j: int| 0 <= j < rest.len() implies writable_item(#[trigger] rest[j]) by {
            assert(rest[j] == items[j + 1]);
        }
        if rest.len() > 0 {
            let it1 = rest[0];
            let rest2 = rest.drop_first();
            assert(rr == render_item(it1) + render_items(rest2));
            lemma_pattern_follower(s, z, it1, rest2);
            lemma_text_at_split(s, z, render_item(it1), render_items(rest2));
            lemma_text_at_split(s, z, seq![' '] + it1.pattern, render_modifier(it1.modifier));
            lemma_text_at_split(s, z, seq![' '], it1.pattern);
            assert(s[z + 0] == ' ');
            assert(s[z + 1 + 0] == it1.pattern[0]);
            assert(writable_item(it1));
            assert forall|k: int| 0 <= k < it1.pattern.len() implies is_ident_char(#[trigger] it1.pattern[k])
                || it1.pattern[k] == '.' by {
                if k > 0 {
                    assert(is_ident_char(it1.pattern[k]) || it1.pattern[k] == '.');
                }
            }
            lemma_not_only_word(s, z + 1, it1.pattern);
        }
        assert(item_end_at(s, z));
        lemma_item_at(s, f, it);
        lemma_items_at(s, z, rest);
        assert(seq![it] + rest =~= items);
    }
}

proof fn lemma_statement_after_blank(s: Seq<char>, e: int)
    requires
        0 <= e < s.len(),
        is_blank(s[e]),
    ensures
        statement(s, e) == statement(s, e + 1),
{
    assert(skip(s, e) == skip(s, e + 1));
    assert(after_lit(s, e, keyword_text(Keyword::Tempo)) == after_lit(s, e + 1, keyword_text(Keyword::Tempo)));
    assert(ident_tok(s, e) == ident_tok(s, e + 1));
    assert(after_lit(s, e, keyword_text(Keyword::Open)) == after_lit(s, e + 1, keyword_text(Keyword::Open)));
    assert(tempo_def(s, e) == tempo_def(s, e + 1));
    assert(pattern_def(s, e) == pattern_def(s, e + 1));
    assert(section(s, e) == section(s, e + 1));
}

proof fn lemma_follow(s: Seq<char>, e: int, rest: Seq<StatementView>)
    requires
        0 <= e < s.len(),
        s[e] == '\n',
        text_at(s, e + 1, render_statements(rest)),
        e + 1 + render_statements(rest).len() == s.len(),
        writable_statements(rest),
    ensures
        line_end_at(s, e),
        skip(s, e) == (if rest.len() == 0 {
            s.len() as int
        } else {
            e + 1
        }),
{
    assert(skip(s, e) == skip(s, e + 1));
    if rest.len() == 0 {
        lemma_skip_stays(s, e + 1);
    } else {
        let st = rest[0];
        let rs = render_statement(st);
        assert(render_statements(rest) == rs + seq!['\n'] + render_statements(rest.drop_first()));
        lemma_text_at_split(s, e + 1, rs + seq!['\n'], render_statements(rest.drop_first()));
        lemma_text_at_split(s, e + 1, rs, seq!['\n']);
        assert(writable_statement(st));
        let a = e + 1;
        match st {
            StatementView::Tempo { bpm } => {
                let t = keyword_text(Keyword::Tempo);
                let c = keyword_text(Keyword::Colon);
                lemma_text_at_split(s, a, t + c + decimal(bpm->0 as nat), keyword_text(Keyword::Bpm));
                lemma_text_at_split(s, a, t + c, decimal(bpm->0 as nat));
                lemma_text_at_split(s, a, t, c);
                assert(s[a + 0] == 't');
                lemma_skip_stays(s, a);
                lemma_keyword_start(Keyword::Tempo);
                lemma_lit_at(s, a, t);
                lemma_keyword_start(Keyword::Colon);
                lemma_lit_at(s, a + 5, c);
                assert(starts_tempo_def(s, a));
                assert(!lit(s, a, keyword_text(Keyword::Only))) by {
                    if lit(s, a, keyword_text(Keyword::Only)) {
                        assert(s.subrange(a, a + 4)[0] == s[a]);
                    }
                }
            },
            StatementView::Pattern { name, tracks, tempo } => {
                let eq = keyword_text(Keyword::Equals);
                assert(rs == name + (eq + keyword_text(Keyword::Pattern) + keyword_text(Keyword::BraceOpen)
                    + render_tracks(tracks) + keyword_text(Keyword::BraceClose) + render_tempo_spec(tempo)));
                lemma_text_at_split(s, a, name, eq + keyword_text(Keyword::Pattern) + keyword_text(
                    Keyword::BraceOpen,
                ) + render_tracks(tracks) + keyword_text(Keyword::BraceClose) + render_tempo_spec(tempo));
                let n = name.len() as int;
                assert(s[a + n + 0] == '=');
                assert(s[a + 0] == name[0]);
                lemma_skip_stays(s, a);
                lemma_ident_at(s, a, name);
                lemma_skip_stays(s, a + n);
                assert(s.subrange(a + n, a + n + 1) =~= eq);
                assert(starts_pattern_def(s, a));
                lemma_not_only_word(s, a, name);
            },
            StatementView::Section { name, bars, items } => {
                assert(s[a + 0] == '[');
                lemma_skip_stays(s, a);
                assert(ident_tok(s, a) is None);
                assert(!starts_pattern_def(s, a));
                assert(!lit(s, a, keyword_text(Keyword::Only))) by {
                    if lit(s, a, keyword_text(Keyword::Only)) {
                        assert(s.subrange(a, a + 4)[0] == s[a]);
                    }
                }
            },
        }
    }
}

proof fn lemma_statement_at(s: Seq<char>, p: int, st: StatementView, rest: Seq<StatementView>)
    requires
        text_at(s, p, render_statement(st) + seq!['\n'] + render_statements(rest)),
        p + render_statement(st).len() + 1 + render_statements(rest).len() == s.len(),
        writable_statement(st),
        writable_statements(rest),
    ensures
        statement(s, p) == Some((st, p + render_statement(st).len())),
{
    let rs = render_statement(st);
    let e = p + rs.len();
    lemma_text_at_split(s, p, rs + seq!['\n'], render_statements(rest));
    lemma_text_at_split(s, p, rs, seq!['\n']);
    assert(s[e + 0] == '\n');
    lemma_follow(s, e, rest);
    match st {
        StatementView::Tempo { bpm } => {
            let v = bpm->0;
            let t = keyword_text(Keyword::Tempo);
            let c = keyword_text(Keyword::Colon);
            let d = decimal(v as nat);
            let b = keyword_text(Keyword::Bpm);
            lemma_text_at_split(s, p, t + c + d, b);
            lemma_text_at_split(s, p, t + c, d);
            lemma_text_at_split(s, p, t, c);
            lemma_keyword_start(Keyword::Tempo);
            lemma_lit_at(s, p, t);
            lemma_keyword_start(Keyword::Colon);
            lemma_lit_at(s, p + 5, c);
            assert(s[p + 6 + d.len() + 0] == 'b');
            lemma_number_at(s, p + 6, v as nat);
            lemma_keyword_start(Keyword::Bpm);
            lemma_lit_at(s, p + 6 + d.len(), b);
            assert(tempo_def(s, p) == Some((st, e)));
        },
        StatementView::Pattern { name, tracks, tempo } => {
            lemma_pattern_statement_at(s, p, name, tracks, tempo);
        },
        StatementView::Section { name, bars, items } => {
            lemma_section_statement_at(s, p, name, bars, items);
        },
    }
}

proof fn lemma_pattern_statement_at(
    s: Seq<char>,
    p: int,
    name: Seq<char>,
    tracks: Seq<(Seq<char>, Seq<char>)>,
    tempo: Option<TempoSpec>,
)
    requires
        text_at(s, p, render_statement(StatementView::Pattern { name, tracks, tempo })),
        line_end_at(s, p + render_statement(StatementView::Pattern { name, tracks, tempo }).len()),
        writable_statement(StatementView::Pattern { name, tracks, tempo }),
    ensures
        statement(s, p) == Some(
            (
                StatementView::Pattern { name, tracks, tempo },
                p + render_statement(StatementView::Pattern { name, tracks, tempo }).len(),
            ),
        ),
{
    let st = StatementView::Pattern { name, tracks, tempo };
    let n = name.len() as int;
    let eq = keyword_text(Keyword::Equals);
    let pk = keyword_text(Keyword::Pattern);
    let bo = keyword_text(Keyword::BraceOpen);
    let bc = keyword_text(Keyword::BraceClose);
    let rt = render_tracks(tracks);
    let ts = render_tempo_spec(tempo);
    let head = name + eq + pk + bo;
    assert(render_statement(st) == head + rt + bc + ts);
    assert(head + rt + bc + ts =~= head + (rt + bc) + ts);
    lemma_text_at_split(s, p, head + (rt + bc), ts);
    lemma_text_at_split(s, p, head, rt + bc);
    lemma_text_at_split(s, p, name + eq + pk, bo);
    lemma_text_at_split(s, p, name + eq, pk);
    lemma_text_at_split(s, p, name, eq);
    lemma_text_at_split(s, p + head.len(), rt, bc);
    // no tempo definition
    let tw = keyword_text(Keyword::Tempo);
    assert(s[p + 0] == name[0]);
    lemma_skip_stays(s, p);
    if lit(s, p, tw) {
        assert forall|k: int| 0 <= k < 5 implies #[trigger] s[p + k] == tw[k] by {
            assert(s.subrange(p, p + 5)[k] == s[p + k]);
        }
        if n < 5 {
            assert(s[p + n] == '=');
            assert(s[p + n] == tw[n]);
        } else {
            if n > 5 {
                assert(is_ident_char(name[5]));
                assert(s[p + 5] == name[5]);
            } else {
                assert(s[p + n + 0] == '=');
            }
            lemma_skip_stays(s, p + 5);
            assert(!lit(s, p + 5, seq![':'])) by {
                assert(s.subrange(p + 5, p + 6)[0] == s[p + 5]);
            }
        }
    }
    assert(tempo_def(s, p) is None);
    // the definition
    assert(s[p + n + 0] == '=');
    lemma_ident_at(s, p, name);
    lemma_keyword_start(Keyword::Equals);
    lemma_lit_at(s, p + n, eq);
    lemma_keyword_start(Keyword::Pattern);
    lemma_lit_at(s, p + n + 1, pk);
    lemma_keyword_start(Keyword::BraceOpen);
    lemma_lit_at(s, p + n + 8, bo);
    lemma_tracks_at(s, p + n + 9, tracks);
    lemma_keyword_start(Keyword::BraceClose);
    lemma_lit_at(s, p + n + 9 + rt.len(), bc);
    lemma_tempo_spec_at(s, p + n + 10 + rt.len(), tempo);
    assert(pattern_def(s, p) == Some((st, p + render_statement(st).len())));
}

proof fn lemma_section_statement_at(
    s: Seq<char>,
    p: int,
    name: Seq<char>,
    bars: Option<u32>,
    items: Seq<SectionItemView>,
)
    requires
        text_at(s, p, render_statement(StatementView::Section { name, bars, items })),
        line_end_at(s, p + render_statement(StatementView::Section { name, bars, items }).len()),
        writable_statement(StatementView::Section { name, bars, items }),
    ensures
        statement(s, p) == Some(
            (
                StatementView::Section { name, bars, items },
                p + render_statement(StatementView::Section { name, bars, items }).len(),
            ),
        ),
{
    let st = StatementView::Section { name, bars, items };
    let v = bars->0;
    let n = name.len() as int;
    let op = keyword_text(Keyword::Open);
    let c = keyword_text(Keyword::Colon);
    let d = decimal(v as nat);
    let bk = keyword_text(Keyword::Bars);
    let cl = keyword_text(Keyword::Close);
    let ri = render_items(items);
    let head = op + name + c + d + bk + cl;
    assert(render_statement(st) == head + ri);
    lemma_text_at_split(s, p, head, ri);
    lemma_text_at_split(s, p, op + name + c + d + bk, cl);
    lemma_text_at_split(s, p, op + name + c + d, bk);
    lemma_text_at_split(s, p, op + name + c, d);
    lemma_text_at_split(s, p, op + name, c);
    lemma_text_at_split(s, p, op, name);
    assert(s[p + 0] == '[');
    lemma_skip_stays(s, p);
    assert(!lit(s, p, keyword_text(Keyword::Tempo))) by {
        if lit(s, p, keyword_text(Keyword::Tempo)) {
            assert(s.subrange(p, p + 5)[0] == s[p]);
        }
    }
    assert(tempo_def(s, p) is None);
    assert(ident_tok(s, p) is None);
    assert(pattern_def(s, p) is None);
    lemma_keyword_start(Keyword::Open);
    lemma_lit_at(s, p, op);
    assert(s[p + 1 + n + 0] == ':');
    lemma_ident_at(s, p + 1, name);
    lemma_keyword_start(Keyword::Colon);
    lemma_lit_at(s, p + 1 + n, c);
    assert(s[p + 2 + n + d.len() + 0] == 'b');
    lemma_number_at(s, p + 2 + n, v as nat);
    lemma_keyword_start(Keyword::Bars);
    lemma_lit_at(s, p + 2 + n + d.len(), bk);
    lemma_keyword_start(Keyword::Close);
    lemma_lit_at(s, p + 6 + n + d.len(), cl);
    lemma_items_at(s, p + head.len(), items);
    assert(section(s, p) == Some((st, p + render_statement(st).len())));
}

proof fn lemma_statements_at(s: Seq<char>, p: int, sts: Seq<StatementView>)
    requires
        text_at(s, p, render_statements(sts)),
        p + render_statements(sts).len() == s.len(),
        writable_statements(sts),
    ensures
        statements(s, p).0 == sts,
        skip(s, statements(s, p).1) == s.len(),
    decreases sts.len(),
{
    if sts.len() == 0 {
        lemma_nothing_at_end(s);
        lemma_skip_stays(s, p);
        assert(sts =~= Seq::<StatementView>::empty());
    } else {
        let st = sts[0];
        let rest = sts.drop_first();
        let rs = render_statement(st);
        assert(render_statements(sts) == rs + seq!['\n'] + render_statements(rest));
        assert(writable_statement(sts[0]));
        assert forall|i: int| 0 <= i < rest.len() implies writable_statement(#[trigger] rest[i]) by {
            assert(rest[i] == sts[i + 1]);
        }
        lemma_statement_at(s, p, st, rest);
        let e = p + rs.len();
        lemma_text_at_split(s, p, rs + seq!['\n'], render_statements(rest));
        lemma_text_at_split(s, p, rs, seq!['\n']);
        assert(s[e + 0] == '\n');
        lemma_statement_after_blank(s, e);
        lemma_statements_at(s, e + 1, rest);
        lemma_follow(s, e, rest);
        if rest.len() == 0 {
            lemma_nothing_at_end(s);
            assert(statement(s, e + 1) is None);
            assert(statements(s, e) == (Seq::<StatementView>::empty(), e));
        } else {
            lemma_text_at_split(s, e + 1, render_statement(rest[0]) + seq!['\n'], render_statements(rest.drop_first()));
            assert(render_statements(rest) == render_statement(rest[0]) + seq!['\n'] + render_statements(rest.drop_first()));
            assert(writable_statement(rest[0]));
            assert forall|i: int| 0 <= i < rest.drop_first().len() implies writable_statement(
                #[trigger] rest.drop_first()[i],
            ) by {
                assert(rest.drop_first()[i] == rest[i + 1]);
            }
            lemma_statement_at(s, e + 1, rest[0], rest.drop_first());
            assert(statements(s, e) == statements(s, e + 1));
        }
        assert(seq![st] + rest =~= sts);
    }
}

/// Statements written out as text, one per line, read back as the same
/// statements, provided they can be written: names are identifiers (section
/// items dotted names), neither pattern names nor section items begin with
/// the word `only`, pattern texts are quoted without inner quotes, and all
/// numbers fit in a `u32`.
pub proof fn law_render_then_parse(sts: Seq<StatementView>)
    requires
        writable_statements(sts),
    ensures
        parse_file(render_statements(sts)) == Ok::<Seq<StatementView>, int>(sts),
{
    let s = render_statements(sts);
    assert(text_at(s, 0, s)) by {
        assert forall|k: int| 0 <= k < s.len() implies #[trigger] s[0 + k] == s[k] by {}
    }
    lemma_statements_at(s, 0, sts);
}

} // verus!
