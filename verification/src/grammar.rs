//! The grammar of the song language, as a parser from text to statements.
//!
//! ```text
//! file         = statement* end        (blanks and // comments may stand between any two tokens)
//! statement    = tempo_def | pattern_def | section
//! tempo_def    = "tempo" ":" number "bpm"
//! pattern_def  = ident "=" "pattern" "{" (track ","?)* "}" ("@" (number "bpm" | ident))?
//! track        = ident ":" string
//! section      = "[" ident ":" number "bars" "]" item*
//! item         = dotted ("only" | "*" number)?      (not where a pattern_def or tempo_def begins)
//! ident        = [A-Za-z_][A-Za-z0-9_]*
//! dotted       = ident ("." ident)*
//! number       = [0-9]+
//! string       = '"' [^"]* '"'
//! ```
//!
//! Each rule is a spec function from a position to what it reads and where
//! it stops (`None` where it does not match); each has an executable twin
//! proved to compute the same.
use vstd::prelude::*;
use crate::ast::{Modifier, SectionItem, SectionItemView};
use crate::lexer::{digit_char, digits_end, digits_end_exec, dotted_end, dotted_end_exec, ident_char, ident_end, ident_end_exec, ident_start, is_digit, is_ident_char, is_ident_start, lit, lit_at, number_at, number_exec, quote_end, quote_end_exec, skip, skip_exec, lemma_skip_stays};
use crate::text::text_from;

verus! {

/// The tempo given after `@` in a pattern definition: a number of beats per
/// minute (`None` when it does not fit in a `u32`), or an instrument name.
#[derive(Clone, Copy, Debug, PartialEq, Eq, Structural)]
pub enum TempoSpec {
    Bpm(Option<u32>),
    Named,
}

/// One statement of a song file. Numbers that do not fit in a `u32` are
/// kept as `None`.
#[derive(Clone, Debug)]
pub enum Statement {
    Tempo { bpm: Option<u32> },
    Pattern { name: String, tracks: Vec<(String, String)>, tempo: Option<TempoSpec> },
    Section { name: String, bars: Option<u32>, items: Vec<SectionItem> },
}

/// What a statement holds, as text.
pub enum StatementView {
    Tempo { bpm: Option<u32> },
    Pattern { name: Seq<char>, tracks: Seq<(Seq<char>, Seq<char>)>, tempo: Option<TempoSpec> },
    Section { name: Seq<char>, bars: Option<u32>, items: Seq<SectionItemView> },
}

/// The text of a list of (name, text) pairs.
pub open spec fn pairs_view(v: Seq<(String, String)>) -> Seq<(Seq<char>, Seq<char>)> {
    v.map_values(|e: (String, String)| (e.0@, e.1@))
}

/// The views of a list of section items.
pub open spec fn items_view(v: Seq<SectionItem>) -> Seq<SectionItemView> {
    v.map_values(|it: SectionItem| it@)
}

impl View for Statement {
    type V = StatementView;

    open spec fn view(&self) -> StatementView {
        match self {
            Statement::Tempo { bpm } => StatementView::Tempo { bpm: *bpm },
            Statement::Pattern { name, tracks, tempo } => StatementView::Pattern {
                name: name@,
                tracks: pairs_view(tracks@),
                tempo: *tempo,
            },
            Statement::Section { name, bars, items } => StatementView::Section {
                name: name@,
                bars: *bars,
                items: items_view(items@),
            },
        }
    }
}

/// The views of a list of statements.
pub open spec fn statements_view(v: Seq<Statement>) -> Seq<StatementView> {
    v.map_values(|st: Statement| st@)
}

/// The fixed words and signs of the language.
#[derive(Clone, Copy, PartialEq, Eq, Structural)]
pub enum Keyword {
    Star,
    Comma,
    Colon,
    Equals,
    At,
    Open,
    Close,
    Bars,
    Bpm,
    Only,
    Pattern,
    Tempo,
    BraceOpen,
    BraceClose,
}

/// The text of a fixed word or sign.
pub open spec fn keyword_text(k: Keyword) -> Seq<char> {
    match k {
        Keyword::Star => seq!['*'],
        Keyword::Comma => seq![','],
        Keyword::Colon => seq![':'],
        Keyword::Equals => seq!['='],
        Keyword::At => seq!['@'],
        Keyword::Open => seq!['['],
        Keyword::Close => seq![']'],
        Keyword::Bars => seq!['b', 'a', 'r', 's'],
        Keyword::Bpm => seq!['b', 'p', 'm'],
        Keyword::Only => seq!['o', 'n', 'l', 'y'],
        Keyword::Pattern => seq!['p', 'a', 't', 't', 'e', 'r', 'n'],
        Keyword::Tempo => seq!['t', 'e', 'm', 'p', 'o'],
        Keyword::BraceOpen => seq!['{'],
        Keyword::BraceClose => seq!['}'],
    }
}

/// After blanks, the text `t`: where it ends.
pub open spec fn after_lit(s: Seq<char>, i: int, t: Seq<char>) -> Option<int> {
    let a = skip(s, i);
    if lit(s, a, t) {
        Some(a + t.len())
    } else {
        None
    }
}

/// After blanks, an identifier: its text and where it ends.
pub open spec fn ident_tok(s: Seq<char>, i: int) -> Option<(Seq<char>, int)> {
    let a = skip(s, i);
    if 0 <= a < s.len() && is_ident_start(s[a]) {
        let e = ident_end(s, a + 1);
        Some((s.subrange(a, e), e))
    } else {
        None
    }
}

/// After blanks, a number: its value (if it fits in a `u32`) and where it ends.
pub open spec fn number_tok(s: Seq<char>, i: int) -> Option<(Option<u32>, int)> {
    let a = skip(s, i);
    if 0 <= a < s.len() && is_digit(s[a]) {
        let e = digits_end(s, a);
        Some((number_at(s, a, e), e))
    } else {
        None
    }
}

/// After blanks, a quoted string: its text, quotes included, and where it ends.
pub open spec fn string_tok(s: Seq<char>, i: int) -> Option<(Seq<char>, int)> {
    let a = skip(s, i);
    if 0 <= a < s.len() && s[a] == '"' {
        let q = quote_end(s, a + 1);
        if q < s.len() {
            Some((s.subrange(a, q + 1), q + 1))
        } else {
            None
        }
    } else {
        None
    }
}

/// A number followed by `bpm`.
pub open spec fn bpm_tok(s: Seq<char>, i: int) -> Option<(Option<u32>, int)> {
    match number_tok(s, i) {
        Some((v, d)) => match after_lit(s, d, keyword_text(Keyword::Bpm)) {
            Some(e) => Some((v, e)),
            None => None,
        },
        None => None,
    }
}

/// `tempo: <number>bpm`.
pub open spec fn tempo_def(s: Seq<char>, i: int) -> Option<(StatementView, int)> {
    match after_lit(s, i, keyword_text(Keyword::Tempo)) {
        Some(a) => match after_lit(s, a, keyword_text(Keyword::Colon)) {
            Some(b) => match bpm_tok(s, b) {
                Some((v, e)) => Some((StatementView::Tempo { bpm: v }, e)),
                None => None,
            },
            None => None,
        },
        None => None,
    }
}

/// `<instrument>: "<pattern text>"`.
pub open spec fn track_entry(s: Seq<char>, i: int) -> Option<((Seq<char>, Seq<char>), int)> {
    match ident_tok(s, i) {
        Some((name, a)) => match after_lit(s, a, keyword_text(Keyword::Colon)) {
            Some(b) => match string_tok(s, b) {
                Some((text, e)) => Some(((name, text), e)),
                None => None,
            },
            None => None,
        },
        None => None,
    }
}

/// The tracks of a pattern definition, each optionally followed by a comma.
pub open spec fn track_list(s: Seq<char>, i: int) -> (Seq<(Seq<char>, Seq<char>)>, int)
    decreases s.len() - i,
{
    match track_entry(s, i) {
        Some((t, e)) => {
            let e2 = match after_lit(s, e, keyword_text(Keyword::Comma)) {
                Some(c) => c,
                None => e,
            };
            if i < e2 <= s.len() {
                let (rest, f) = track_list(s, e2);
                (seq![t] + rest, f)
            } else {
                (Seq::empty(), i)
            }
        },
        None => (Seq::empty(), i),
    }
}

/// The optional `@ <number>bpm` or `@ <name>` after a pattern definition.
pub open spec fn tempo_spec_opt(s: Seq<char>, f: int) -> (Option<TempoSpec>, int) {
    match after_lit(s, f, keyword_text(Keyword::At)) {
        Some(h) => match bpm_tok(s, h) {
            Some((v, m)) => (Some(TempoSpec::Bpm(v)), m),
            None => match ident_tok(s, h) {
                Some((_n, k)) => (Some(TempoSpec::Named), k),
                None => (None, f),
            },
        },
        None => (None, f),
    }
}

/// `<name> = pattern { <tracks> } [@ ...]`.
pub open spec fn pattern_def(s: Seq<char>, i: int) -> Option<(StatementView, int)> {
    match ident_tok(s, i) {
        Some((name, a)) => match after_lit(s, a, keyword_text(Keyword::Equals)) {
            Some(b) => match after_lit(s, b, keyword_text(Keyword::Pattern)) {
                Some(c) => match after_lit(s, c, keyword_text(Keyword::BraceOpen)) {
                    Some(d) => {
                        let (tracks, e) = track_list(s, d);
                        match after_lit(s, e, keyword_text(Keyword::BraceClose)) {
                            Some(f) => {
                                let (tempo, g) = tempo_spec_opt(s, f);
                                Some((StatementView::Pattern { name, tracks, tempo }, g))
                            },
                            None => None,
                        }
                    },
                    None => None,
                },
                None => None,
            },
            None => None,
        },
        None => None,
    }
}

/// Whether a pattern definition (`<ident> =`) begins at `a`.
pub open spec fn starts_pattern_def(s: Seq<char>, a: int) -> bool {
    match ident_tok(s, a) {
        Some((_n, e)) => after_lit(s, e, keyword_text(Keyword::Equals)) is Some,
        None => false,
    }
}

/// Whether a tempo definition (`tempo :`) begins at `a`.
pub open spec fn starts_tempo_def(s: Seq<char>, a: int) -> bool {
    match after_lit(s, a, keyword_text(Keyword::Tempo)) {
        Some(e) => after_lit(s, e, keyword_text(Keyword::Colon)) is Some,
        None => false,
    }
}

/// The optional modifier after a section item ending at `r`: the word
/// `only`, or `*` and a number (1 when the number does not fit in a `u32`).
pub open spec fn modifier_opt(s: Seq<char>, r: int) -> (Option<Modifier>, int) {
    let k = skip(s, r);
    if lit(s, k, keyword_text(Keyword::Only)) && !(k + 4 < s.len() && is_ident_char(s[k + 4])) {
        (Some(Modifier::Only), k + 4)
    } else {
        match after_lit(s, r, keyword_text(Keyword::Star)) {
            Some(m) => match number_tok(s, m) {
                Some((v, d)) => (
                    Some(
                        Modifier::Multiply(
                            match v {
                                Some(x) => x,
                                None => 1,
                            },
                        ),
                    ),
                    d,
                ),
                None => (None, r),
            },
            None => (None, r),
        }
    }
}

/// A section item: a (dotted) pattern name and an optional modifier.
pub open spec fn section_item(s: Seq<char>, i: int) -> Option<(SectionItemView, int)> {
    let a = skip(s, i);
    if starts_pattern_def(s, a) || starts_tempo_def(s, a) {
        None
    } else if 0 <= a < s.len() && is_ident_start(s[a]) {
        let r = dotted_end(s, a + 1);
        let (m, e) = modifier_opt(s, r);
        Some((SectionItemView { pattern: s.subrange(a, r), modifier: m }, e))
    } else {
        None
    }
}

/// The items of a section.
pub open spec fn section_items(s: Seq<char>, i: int) -> (Seq<SectionItemView>, int)
    decreases s.len() - i,
{
    match section_item(s, i) {
        Some((it, e)) => if i < e <= s.len() {
            let (rest, f) = section_items(s, e);
            (seq![it] + rest, f)
        } else {
            (Seq::empty(), i)
        },
        None => (Seq::empty(), i),
    }
}

/// `[<name>: <number>bars] <items>`.
pub open spec fn section(s: Seq<char>, i: int) -> Option<(StatementView, int)> {
    match after_lit(s, i, keyword_text(Keyword::Open)) {
        Some(a) => match ident_tok(s, a) {
            Some((name, b)) => match after_lit(s, b, keyword_text(Keyword::Colon)) {
                Some(c) => match number_tok(s, c) {
                    Some((bars, d)) => match after_lit(s, d, keyword_text(Keyword::Bars)) {
                        Some(e) => match after_lit(s, e, keyword_text(Keyword::Close)) {
                            Some(f) => {
                                let (items, g) = section_items(s, f);
                                Some((StatementView::Section { name, bars, items }, g))
                            },
                            None => None,
                        },
                        None => None,
                    },
                    None => None,
                },
                None => None,
            },
            None => None,
        },
        None => None,
    }
}

/// A statement: the first of tempo, pattern and section definitions that matches.
pub open spec fn statement(s: Seq<char>, i: int) -> Option<(StatementView, int)> {
    match tempo_def(s, i) {
        Some(r) => Some(r),
        None => match pattern_def(s, i) {
            Some(r) => Some(r),
            None => section(s, i),
        },
    }
}

/// The statements that follow one another from `i`, and where they stop.
pub open spec fn statements(s: Seq<char>, i: int) -> (Seq<StatementView>, int)
    decreases s.len() - i,
{
    match statement(s, i) {
        Some((st, e)) => if i < e <= s.len() {
            let (rest, f) = statements(s, e);
            (seq![st] + rest, f)
        } else {
            (Seq::empty(), i)
        },
        None => (Seq::empty(), i),
    }
}

/// The statements of a whole text; otherwise the position (after blanks)
/// of the first character that no statement could read.
pub open spec fn parse_file(s: Seq<char>) -> Result<Seq<StatementView>, int> {
    let (sts, e) = statements(s, 0);
    let z = skip(s, e);
    if z == s.len() {
        Ok(sts)
    } else {
        Err(z)
    }
}

fn after_lit_exec(s: &Vec<char>, i: usize, t: &[char]) -> (r: Option<usize>)
    requires
        i <= s@.len(),
    ensures
        r is Some <==> after_lit(s@, i as int, t@) is Some,
        r matches Some(e) ==> after_lit(s@, i as int, t@) == Some(e as int) && i <= e <= s@.len(),
{
    let n = s.len();
    let a = skip_exec(s, i);
    if lit_at(s, a, t) {
        Some(a + t.len())
    } else {
        None
    }
}

fn keyword_slice(k: Keyword) -> (t: &'static [char])
    ensures
        t@ == keyword_text(k),
{
    match k {
        Keyword::Star => {
            let t: &'static [char] = &['*'];
            assert(t@ =~= keyword_text(k));
            t
        },
        Keyword::Comma => {
            let t: &'static [char] = &[','];
            assert(t@ =~= keyword_text(k));
            t
        },
        Keyword::Colon => {
            let t: &'static [char] = &[':'];
            assert(t@ =~= keyword_text(k));
            t
        },
        Keyword::Equals => {
            let t: &'static [char] = &['='];
            assert(t@ =~= keyword_text(k));
            t
        },
        Keyword::At => {
            let t: &'static [char] = &['@'];
            assert(t@ =~= keyword_text(k));
            t
        },
        Keyword::Open => {
            let t: &'static [char] = &['['];
            assert(t@ =~= keyword_text(k));
            t
        },
        Keyword::Close => {
            let t: &'static [char] = &[']'];
            assert(t@ =~= keyword_text(k));
            t
        },
        Keyword::Bars => {
            let t: &'static [char] = &['b', 'a', 'r', 's'];
            assert(t@ =~= keyword_text(k));
            t
        },
        Keyword::Bpm => {
            let t: &'static [char] = &['b', 'p', 'm'];
            assert(t@ =~= keyword_text(k));
            t
        },
        Keyword::Only => {
            let t: &'static [char] = &['o', 'n', 'l', 'y'];
            assert(t@ =~= keyword_text(k));
            t
        },
        Keyword::Pattern => {
            let t: &'static [char] = &['p', 'a', 't', 't', 'e', 'r', 'n'];
            assert(t@ =~= keyword_text(k));
            t
        },
        Keyword::Tempo => {
            let t: &'static [char] = &['t', 'e', 'm', 'p', 'o'];
            assert(t@ =~= keyword_text(k));
            t
        },
        Keyword::BraceOpen => {
            let t: &'static [char] = &['{'];
            assert(t@ =~= keyword_text(k));
            t
        },
        Keyword::BraceClose => {
            let t: &'static [char] = &['}'];
            assert(t@ =~= keyword_text(k));
            t
        },
    }
}

fn after_kw(s: &Vec<char>, i: usize, k: Keyword) -> (r: Option<usize>)
    requires
        i <= s@.len(),
    ensures
        r is Some <==> after_lit(s@, i as int, keyword_text(k)) is Some,
        r matches Some(e) ==> after_lit(s@, i as int, keyword_text(k)) == Some(e as int) && i <= e
            <= s@.len(),
{
    after_lit_exec(s, i, keyword_slice(k))
}

fn lit_kw(s: &Vec<char>, i: usize, k: Keyword) -> (r: bool)
    requires
        i <= s@.len(),
    ensures
        r == lit(s@, i as int, keyword_text(k)),
{
    lit_at(s, i, keyword_slice(k))
}

fn ident_tok_exec(s: &Vec<char>, i: usize) -> (r: Option<(String, usize)>)
    requires
        i <= s@.len(),
    ensures
        r is Some <==> ident_tok(s@, i as int) is Some,
        r matches Some((n, e)) ==> ident_tok(s@, i as int) == Some((n@, e as int)) && i < e <= s@.len(),
{
    let a = skip_exec(s, i);
    if a < s.len() && ident_start(s[a]) {
        let e = ident_end_exec(s, a + 1);
        Some((text_from(s, a, e), e))
    } else {
        None
    }
}

fn number_tok_exec(s: &Vec<char>, i: usize) -> (r: Option<(Option<u32>, usize)>)
    requires
        i <= s@.len(),
    ensures
        r is Some <==> number_tok(s@, i as int) is Some,
        r matches Some((v, e)) ==> number_tok(s@, i as int) == Some((v, e as int)) && i < e <= s@.len(),
{
    let a = skip_exec(s, i);
    if a < s.len() && digit_char(s[a]) {
        let e = digits_end_exec(s, a);
        proof {
            lemma_digits_run(s@, a as int);
        }
        Some((number_exec(s, a, e), e))
    } else {
        None
    }
}

proof fn lemma_digits_run(s: Seq<char>, a: int)
    requires
        0 <= a <= s.len(),
    ensures
        forall|k: int| a <= k < digits_end(s, a) ==> is_digit(#[trigger] s[k]),
        a < s.len() && is_digit(s[a]) ==> a < digits_end(s, a),
    decreases s.len() - a,
{
    if a < s.len() && is_digit(s[a]) {
        lemma_digits_run(s, a + 1);
        crate::lexer::lemma_digits_end_bounds(s, a + 1);
    }
}

fn string_tok_exec(s: &Vec<char>, i: usize) -> (r: Option<(String, usize)>)
    requires
        i <= s@.len(),
    ensures
        r is Some <==> string_tok(s@, i as int) is Some,
        r matches Some((t, e)) ==> string_tok(s@, i as int) == Some((t@, e as int)) && i < e <= s@.len(),
{
    let a = skip_exec(s, i);
    if a < s.len() && s[a] == '"' {
        let q = quote_end_exec(s, a + 1);
        if q < s.len() {
            Some((text_from(s, a, q + 1), q + 1))
        } else {
            None
        }
    } else {
        None
    }
}

fn bpm_tok_exec(s: &Vec<char>, i: usize) -> (r: Option<(Option<u32>, usize)>)
    requires
        i <= s@.len(),
    ensures
        r is Some <==> bpm_tok(s@, i as int) is Some,
        r matches Some((v, e)) ==> bpm_tok(s@, i as int) == Some((v, e as int)) && i < e <= s@.len(),
{
    match number_tok_exec(s, i) {
        Some((v, d)) => match after_kw(s, d, Keyword::Bpm) {
            Some(e) => Some((v, e)),
            None => None,
        },
        None => None,
    }
}

fn tempo_def_exec(s: &Vec<char>, i: usize) -> (r: Option<(Statement, usize)>)
    requires
        i <= s@.len(),
    ensures
        r is Some <==> tempo_def(s@, i as int) is Some,
        r matches Some((st, e)) ==> tempo_def(s@, i as int) == Some((st@, e as int)) && i < e <= s@.len(),
{
    match after_kw(s, i, Keyword::Tempo) {
        Some(a) => match after_kw(s, a, Keyword::Colon) {
            Some(b) => match bpm_tok_exec(s, b) {
                Some((v, e)) => Some((Statement::Tempo { bpm: v }, e)),
                None => None,
            },
            None => None,
        },
        None => None,
    }
}

fn track_entry_exec(s: &Vec<char>, i: usize) -> (r: Option<((String, String), usize)>)
    requires
        i <= s@.len(),
    ensures
        r is Some <==> track_entry(s@, i as int) is Some,
        r matches Some((t, e)) ==> track_entry(s@, i as int) == Some(((t.0@, t.1@), e as int)) && i < e
            <= s@.len(),
{
    match ident_tok_exec(s, i) {
        Some((name, a)) => match after_kw(s, a, Keyword::Colon) {
            Some(b) => match string_tok_exec(s, b) {
                Some((text, e)) => Some(((name, text), e)),
                None => None,
            },
            None => None,
        },
        None => None,
    }
}

fn track_list_exec(s: &Vec<char>, i: usize) -> (r: (Vec<(String, String)>, usize))
    requires
        i <= s@.len(),
    ensures
        pairs_view(r.0@) == track_list(s@, i as int).0,
        r.1 == track_list(s@, i as int).1,
        i <= r.1 <= s@.len(),
{
    let mut acc: Vec<(String, String)> = Vec::new();
    let mut j: usize = i;
    loop
        invariant
            i <= j <= s@.len(),
            pairs_view(acc@) + track_list(s@, j as int).0 == track_list(s@, i as int).0,
            track_list(s@, j as int).1 == track_list(s@, i as int).1,
        decreases s@.len() - j,
    {
        match track_entry_exec(s, j) {
            Some((t, e)) => {
                let e2 = match after_kw(s, e, Keyword::Comma) {
                    Some(c) => c,
                    None => e,
                };
                let ghost tv = (t.0@, t.1@);
                let ghost old_acc = pairs_view(acc@);
                acc.push(t);
                assert(pairs_view(acc@) =~= old_acc.push(tv));
                assert(old_acc.push(tv) + track_list(s@, e2 as int).0 =~= old_acc + (seq![tv]
                    + track_list(s@, e2 as int).0));
                j = e2;
            },
            None => {
                assert(pairs_view(acc@) + track_list(s@, j as int).0 =~= pairs_view(acc@));
                return (acc, j);
            },
        }
    }
}

fn tempo_spec_opt_exec(s: &Vec<char>, f: usize) -> (r: (Option<TempoSpec>, usize))
    requires
        f <= s@.len(),
    ensures
        r.0 == tempo_spec_opt(s@, f as int).0,
        r.1 == tempo_spec_opt(s@, f as int).1,
        f <= r.1 <= s@.len(),
{
    match after_kw(s, f, Keyword::At) {
        Some(h) => match bpm_tok_exec(s, h) {
            Some((v, m)) => (Some(TempoSpec::Bpm(v)), m),
            None => match ident_tok_exec(s, h) {
                Some((_n, k)) => (Some(TempoSpec::Named), k),
                None => (None, f),
            },
        },
        None => (None, f),
    }
}

fn pattern_def_exec(s: &Vec<char>, i: usize) -> (r: Option<(Statement, usize)>)
    requires
        i <= s@.len(),
    ensures
        r is Some <==> pattern_def(s@, i as int) is Some,
        r matches Some((st, e)) ==> pattern_def(s@, i as int) == Some((st@, e as int)) && i < e
            <= s@.len(),
{
    match ident_tok_exec(s, i) {
        Some((name, a)) => match after_kw(s, a, Keyword::Equals) {
            Some(b) => match after_kw(s, b, Keyword::Pattern) {
                Some(c) => match after_kw(s, c, Keyword::BraceOpen) {
                    Some(d) => {
                        let (tracks, e) = track_list_exec(s, d);
                        match after_kw(s, e, Keyword::BraceClose) {
                            Some(f) => {
                                let (tempo, g) = tempo_spec_opt_exec(s, f);
                                Some((Statement::Pattern { name, tracks, tempo }, g))
                            },
                            None => None,
                        }
                    },
                    None => None,
                },
                None => None,
            },
            None => None,
        },
        None => None,
    }
}

fn starts_pattern_def_exec(s: &Vec<char>, a: usize) -> (r: bool)
    requires
        a <= s@.len(),
    ensures
        r == starts_pattern_def(s@, a as int),
{
    match ident_tok_exec(s, a) {
        Some((_n, e)) => after_kw(s, e, Keyword::Equals).is_some(),
        None => false,
    }
}

fn starts_tempo_def_exec(s: &Vec<char>, a: usize) -> (r: bool)
    requires
        a <= s@.len(),
    ensures
        r == starts_tempo_def(s@, a as int),
{
    match after_kw(s, a, Keyword::Tempo) {
        Some(e) => after_kw(s, e, Keyword::Colon).is_some(),
        None => false,
    }
}

fn modifier_opt_exec(s: &Vec<char>, r: usize) -> (res: (Option<Modifier>, usize))
    requires
        r <= s@.len(),
    ensures
        res.0 == modifier_opt(s@, r as int).0,
        res.1 == modifier_opt(s@, r as int).1,
        r <= res.1 <= s@.len(),
{
    let n = s.len();
    let k = skip_exec(s, r);
    if lit_kw(s, k, Keyword::Only) && !(k + 4 < n && ident_char(s[k + 4])) {
        (Some(Modifier::Only), k + 4)
    } else {
        match after_kw(s, r, Keyword::Star) {
            Some(m) => match number_tok_exec(s, m) {
                Some((v, d)) => {
                    let n = match v {
                        Some(x) => x,
                        None => 1,
                    };
                    (Some(Modifier::Multiply(n)), d)
                },
                None => (None, r),
            },
            None => (None, r),
        }
    }
}

fn section_item_exec(s: &Vec<char>, i: usize) -> (r: Option<(SectionItem, usize)>)
    requires
        i <= s@.len(),
    ensures
        r is Some <==> section_item(s@, i as int) is Some,
        r matches Some((it, e)) ==> section_item(s@, i as int) == Some((it@, e as int)) && i < e
            <= s@.len(),
{
    let a = skip_exec(s, i);
    if starts_pattern_def_exec(s, a) || starts_tempo_def_exec(s, a) {
        None
    } else if a < s.len() && ident_start(s[a]) {
        let r = dotted_end_exec(s, a + 1);
        let (m, e) = modifier_opt_exec(s, r);
        Some((SectionItem { pattern: text_from(s, a, r), modifier: m }, e))
    } else {
        None
    }
}

fn section_items_exec(s: &Vec<char>, i: usize) -> (r: (Vec<SectionItem>, usize))
    requires
        i <= s@.len(),
    ensures
        items_view(r.0@) == section_items(s@, i as int).0,
        r.1 == section_items(s@, i as int).1,
        i <= r.1 <= s@.len(),
{
    let mut acc: Vec<SectionItem> = Vec::new();
    let mut j: usize = i;
    loop
        invariant
            i <= j <= s@.len(),
            items_view(acc@) + section_items(s@, j as int).0 == section_items(s@, i as int).0,
            section_items(s@, j as int).1 == section_items(s@, i as int).1,
        decreases s@.len() - j,
    {
        match section_item_exec(s, j) {
            Some((it, e)) => {
                let ghost iv = it@;
                let ghost old_acc = items_view(acc@);
                acc.push(it);
                assert(items_view(acc@) =~= old_acc.push(iv));
                assert(old_acc.push(iv) + section_items(s@, e as int).0 =~= old_acc + (seq![iv]
                    + section_items(s@, e as int).0));
                j = e;
            },
            None => {
                assert(items_view(acc@) + section_items(s@, j as int).0 =~= items_view(acc@));
                return (acc, j);
            },
        }
    }
}

fn section_exec(s: &Vec<char>, i: usize) -> (r: Option<(Statement, usize)>)
    requires
        i <= s@.len(),
    ensures
        r is Some <==> section(s@, i as int) is Some,
        r matches Some((st, e)) ==> section(s@, i as int) == Some((st@, e as int)) && i < e <= s@.len(),
{
    match after_kw(s, i, Keyword::Open) {
        Some(a) => match ident_tok_exec(s, a) {
            Some((name, b)) => match after_kw(s, b, Keyword::Colon) {
                Some(c) => match number_tok_exec(s, c) {
                    Some((bars, d)) => match after_kw(s, d, Keyword::Bars) {
                        Some(e) => match after_kw(s, e, Keyword::Close) {
                            Some(f) => {
                                let (items, g) = section_items_exec(s, f);
                                Some((Statement::Section { name, bars, items }, g))
                            },
                            None => None,
                        },
                        None => None,
                    },
                    None => None,
                },
                None => None,
            },
            None => None,
        },
        None => None,
    }
}

fn statement_exec(s: &Vec<char>, i: usize) -> (r: Option<(Statement, usize)>)
    requires
        i <= s@.len(),
    ensures
        r is Some <==> statement(s@, i as int) is Some,
        r matches Some((st, e)) ==> statement(s@, i as int) == Some((st@, e as int)) && i < e
            <= s@.len(),
{
    match tempo_def_exec(s, i) {
        Some(r) => Some(r),
        None => match pattern_def_exec(s, i) {
            Some(r) => Some(r),
            None => section_exec(s, i),
        },
    }
}

/// The parser of the song language.
pub struct SongParser;

impl SongParser {
    /// Reads the statements of `input`, or reports the position (after
    /// blanks) of the first character that no statement could read (see
    /// `parse_file`).
    pub fn parse(input: &str) -> (r: Result<Vec<Statement>, usize>)
        ensures
            r matches Ok(v) ==> parse_file(input@) == Ok::<Seq<StatementView>, int>(statements_view(v@)),
            r matches Err(p) ==> parse_file(input@) == Err::<Seq<StatementView>, int>(p as int),
    {
        let s = crate::text::chars_of(input);
        let mut acc: Vec<Statement> = Vec::new();
        let mut j: usize = 0;
        loop
            invariant
                j <= s@.len(),
                s@ == input@,
                statements_view(acc@) + statements(s@, j as int).0 == statements(s@, 0).0,
                statements(s@, j as int).1 == statements(s@, 0).1,
            decreases s@.len() - j,
        {
            match statement_exec(&s, j) {
                Some((st, e)) => {
                    let ghost sv = st@;
                    let ghost old_acc = statements_view(acc@);
                    acc.push(st);
                    assert(statements_view(acc@) =~= old_acc.push(sv));
                    assert(old_acc.push(sv) + statements(s@, e as int).0 =~= old_acc + (seq![sv]
                        + statements(s@, e as int).0));
                    j = e;
                },
                None => {
                    assert(statements_view(acc@) + statements(s@, j as int).0 =~= statements_view(
                        acc@,
                    ));
                    let z = skip_exec(&s, j);
                    if z == s.len() {
                        return Ok(acc);
                    } else {
                        return Err(z);
                    }
                },
            }
        }
    }
}

/// No statement begins at the end of the text.
pub proof fn lemma_nothing_at_end(s: Seq<char>)
    ensures
        statements(s, s.len() as int) == (Seq::<StatementView>::empty(), s.len() as int),
{
    let e = s.len() as int;
    lemma_skip_stays(s, e);
    assert(tempo_def(s, e) is None);
    assert(ident_tok(s, e) is None);
    assert(pattern_def(s, e) is None);
    assert(section(s, e) is None);
    assert(statement(s, e) is None);
}

} // verus!
