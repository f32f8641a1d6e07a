//! From the text of a song file to its parsed form.
use vstd::prelude::*;
use crate::ast::{PatternDef, PatternDefView, Section, SectionItem, SectionItemView, SongFile, SongFileView, SectionView};
use crate::grammar::{Keyword, SongParser, Statement, StatementView, TempoSpec, after_lit, bpm_tok, ident_tok, keyword_text, number_tok, parse_file, pattern_def, section, statement, statements, statements_view, tempo_def, track_entry, track_list, tempo_spec_opt, items_view, pairs_view};
use crate::lexer::{digits_value, fit_u32, is_digit, is_ident_char, lit, lemma_digits_end_run, lemma_ident_end_run, lemma_quote_end_run, lemma_skip_stays};
use crate::grammar::lemma_nothing_at_end;
use crate::render::{is_ident, law_render_then_parse, render_statements, writable_statement, writable_statements};
use crate::ast::{add_pattern_tracks, built_track, song_tracks, track_name};
use crate::patterns::PatternView;
use crate::text::has_note_letter;
use crate::instruments::{builtin_instrument_map, builtin_instruments};
use crate::names::{NameMap, insert_entry};

verus! {

/// Why a song file could not be read.
#[derive(Clone, Copy, Debug, PartialEq, Eq, Structural)]
pub enum ParseError {
    /// No statement could be read at this character offset.
    Syntax { offset: usize },
    /// A tempo or a bar count does not fit in a `u32`.
    NumberTooLarge,
}

/// Whether a statement holds a tempo or bar count too large for a `u32`.
pub open spec fn holds_too_large_number(st: StatementView) -> bool {
    match st {
        StatementView::Tempo { bpm } => bpm is None,
        StatementView::Pattern { tempo, .. } => tempo == Some(TempoSpec::Bpm(None)),
        StatementView::Section { bars, .. } => bars is None,
    }
}

/// The tracks of a pattern definition as a map: a later track of the same
/// instrument replaces an earlier one.
pub open spec fn track_map(tracks: Seq<(Seq<char>, Seq<char>)>) -> Seq<(Seq<char>, Seq<char>)>
    decreases tracks.len(),
{
    if tracks.len() == 0 {
        Seq::empty()
    } else {
        insert_entry(track_map(tracks.drop_last()), tracks.last().0, tracks.last().1)
    }
}

/// The tempo a pattern definition records: the number given after `@`, or
/// 120 when an instrument name is given there.
pub open spec fn pattern_tempo(t: Option<TempoSpec>) -> Option<u32> {
    match t {
        None => None,
        Some(TempoSpec::Bpm(Some(v))) => Some(v),
        Some(TempoSpec::Bpm(None)) => None,
        Some(TempoSpec::Named) => Some(120),
    }
}

/// What one statement does to the song file read so far: a tempo statement
/// sets the tempo, a pattern definition is stored under its name (replacing
/// one of the same name), a section is appended.
pub open spec fn apply_statement(f: SongFileView, st: StatementView) -> SongFileView {
    match st {
        StatementView::Tempo { bpm } => SongFileView {
            tempo: match bpm {
                Some(v) => v,
                None => f.tempo,
            },
            ..f
        },
        StatementView::Pattern { name, tracks, tempo } => SongFileView {
            patterns: insert_entry(
                f.patterns,
                name,
                PatternDefView { tracks: track_map(tracks), tempo: pattern_tempo(tempo) },
            ),
            ..f
        },
        StatementView::Section { name, bars, items } => SongFileView {
            sections: f.sections.push(
                SectionView {
                    name,
                    bars: match bars {
                        Some(b) => b,
                        None => 0,
                    },
                    items,
                },
            ),
            ..f
        },
    }
}

/// The song file after the statements, one after another.
pub open spec fn apply_statements(f: SongFileView, sts: Seq<StatementView>) -> SongFileView
    decreases sts.len(),
{
    if sts.len() == 0 {
        f
    } else {
        apply_statement(apply_statements(f, sts.drop_last()), sts.last())
    }
}

/// A song file before any statement: the built-in instruments, no patterns,
/// no sections, 120 beats per minute.
pub open spec fn initial_song_file() -> SongFileView {
    SongFileView {
        instruments: builtin_instruments(),
        patterns: Seq::empty(),
        sections: Seq::empty(),
        tempo: 120,
    }
}

/// What reading a song file gives: the syntax error's position where the
/// text is not a sequence of statements; else `NumberTooLarge` where a
/// statement holds a tempo or bar count too large for a `u32`; else the
/// statements applied to the initial song file.
pub open spec fn spec_song_file(input: Seq<char>) -> Result<SongFileView, ParseError> {
    match parse_file(input) {
        Err(p) => Err(ParseError::Syntax { offset: p as usize }),
        Ok(sts) => if exists|i: int| 0 <= i < sts.len() && holds_too_large_number(#[trigger] sts[i]) {
            Err(ParseError::NumberTooLarge)
        } else {
            Ok(apply_statements(initial_song_file(), sts))
        },
    }
}

fn build_track_map(tracks: &Vec<(String, String)>) -> (m: NameMap<String>)
    ensures
        m@ == track_map(pairs_view(tracks@)),
{
    let ghost ts = pairs_view(tracks@);
    let mut m: NameMap<String> = NameMap::new();
    let mut i: usize = 0;
    while i < tracks.len()
        invariant
            i <= tracks@.len(),
            ts == pairs_view(tracks@),
            m@ == track_map(ts.take(i as int)),
        decreases tracks@.len() - i,
    {
        let (k, v) = &tracks[i];
        assert(ts.take(i + 1).drop_last() =~= ts.take(i as int));
        assert(ts.take(i + 1).last() == (k@, v@));
        m.insert(k.clone(), v.clone());
        i = i + 1;
    }
    assert(ts.take(i as int) =~= ts);
    m
}

fn copy_items(items: &Vec<SectionItem>) -> (r: Vec<SectionItem>)
    ensures
        items_view(r@) == items_view(items@),
{
    let mut r: Vec<SectionItem> = Vec::new();
    let mut i: usize = 0;
    while i < items.len()
        invariant
            i <= items@.len(),
            items_view(r@) == items_view(items@).take(i as int),
        decreases items@.len() - i,
    {
        let it = &items[i];
        let ghost prev = r@;
        let copy = SectionItem { pattern: it.pattern.clone(), modifier: it.modifier };
        assert(copy@ == it@);
        r.push(copy);
        assert(r@ =~= prev.push(copy));
        assert(items_view(r@) =~= items_view(prev).push(copy@));
        assert(items_view(items@).take(i + 1) =~= items_view(items@).take(i as int).push(it@));
        i = i + 1;
    }
    assert(items_view(items@).take(i as int) =~= items_view(items@));
    r
}

/// Reads a song file (see `spec_song_file`).
pub fn parse_song_file(input: &str) -> (r: Result<SongFile, ParseError>)
    ensures
        match r {
            Ok(f) => spec_song_file(input@) == Ok::<SongFileView, ParseError>(f@),
            Err(e) => spec_song_file(input@) == Err::<SongFileView, ParseError>(e),
        },
{
    let statements = match SongParser::parse(input) {
        Ok(v) => v,
        Err(p) => {
            return Err(ParseError::Syntax { offset: p });
        },
    };
    let ghost sts = statements_view(statements@);
    let mut file = SongFile {
        instruments: builtin_instrument_map(),
        patterns: NameMap::new(),
        sections: Vec::new(),
        tempo: 120,
    };
    assert(file@.sections =~= Seq::<SectionView>::empty());
    assert(sts.take(0) =~= Seq::<StatementView>::empty());
    assert(file@ == apply_statements(initial_song_file(), sts.take(0)));
    let mut i: usize = 0;
    while i < statements.len()
        invariant
            i <= statements@.len(),
            sts == statements_view(statements@),
            parse_file(input@) == Ok::<Seq<StatementView>, int>(sts),
            forall|j: int| 0 <= j < i ==> !holds_too_large_number(#[trigger] sts[j]),
            file@ == apply_statements(initial_song_file(), sts.take(i as int)),
        decreases statements@.len() - i,
    {
        let ghost before = file@;
        assert(sts.take(i + 1).drop_last() =~= sts.take(i as int));
        assert(sts.take(i + 1).last() == sts[i as int]);
        assert(sts[i as int] == statements@[i as int]@);
        match &statements[i] {
            Statement::Tempo { bpm } => match bpm {
                Some(v) => {
                    file.tempo = *v;
                },
                None => {
                    assert(holds_too_large_number(sts[i as int]));
                    return Err(ParseError::NumberTooLarge);
                },
            },
            Statement::Pattern { name, tracks, tempo } => {
                let t = match tempo {
                    None => None,
                    Some(TempoSpec::Bpm(Some(v))) => Some(*v),
                    Some(TempoSpec::Bpm(None)) => {
                        assert(holds_too_large_number(sts[i as int]));
                        return Err(ParseError::NumberTooLarge);
                    },
                    Some(TempoSpec::Named) => Some(120),
                };
                let def = PatternDef { tracks: build_track_map(tracks), tempo: t };
                file.patterns.insert(name.clone(), def);
            },
            Statement::Section { name, bars, items } => match bars {
                Some(b) => {
                    let sec = Section { name: name.clone(), bars: *b, items: copy_items(items) };
                    file.sections.push(sec);
                    assert(file@.sections =~= before.sections.push(sec@));
                },
                None => {
                    assert(holds_too_large_number(sts[i as int]));
                    return Err(ParseError::NumberTooLarge);
                },
            },
        }
        assert(file@ =~= apply_statements(initial_song_file(), sts.take(i + 1)));
        i = i + 1;
    }
    assert(sts.take(i as int) =~= sts);
    Ok(file)
}

/// Statements other than tempo statements leave the tempo and the
/// instruments as they were.
proof fn lemma_no_tempo_keeps(f: SongFileView, sts: Seq<StatementView>)
    requires
        forall|i: int| 0 <= i < sts.len() ==> !(#[trigger] sts[i] is Tempo),
    ensures
        apply_statements(f, sts).tempo == f.tempo,
    decreases sts.len(),
{
    if sts.len() > 0 {
        assert forall|i: int| 0 <= i < sts.drop_last().len() implies !(#[trigger] sts.drop_last()[i] is Tempo) by {
            assert(sts.drop_last()[i] == sts[i]);
        }
        lemma_no_tempo_keeps(f, sts.drop_last());
        assert(!(sts[sts.len() - 1] is Tempo));
    }
}

/// A song file without a tempo statement plays at 120 beats per minute.
pub proof fn law_tempo_default(sts: Seq<StatementView>)
    requires
        forall|i: int| 0 <= i < sts.len() ==> !(#[trigger] sts[i] is Tempo),
    ensures
        apply_statements(initial_song_file(), sts).tempo == 120,
{
    lemma_no_tempo_keeps(initial_song_file(), sts);
}

/// The last tempo statement of a song file sets its tempo.
pub proof fn law_last_tempo_wins(f: SongFileView, sts: Seq<StatementView>, k: int, v: u32)
    requires
        0 <= k < sts.len(),
        sts[k] == (StatementView::Tempo { bpm: Some(v) }),
        forall|j: int| k < j < sts.len() ==> !(#[trigger] sts[j] is Tempo),
    ensures
        apply_statements(f, sts).tempo == v,
    decreases sts.len(),
{
    let last = sts.len() - 1;
    if k < last {
        assert forall|j: int| k < j < sts.drop_last().len() implies !(#[trigger] sts.drop_last()[j] is Tempo) by {
            assert(sts.drop_last()[j] == sts[j]);
        }
        assert(sts.drop_last()[k] == sts[k]);
        law_last_tempo_wins(f, sts.drop_last(), k, v);
        assert(!(sts[last] is Tempo));
    }
}

/// Statements never change the instruments: every song file read holds
/// the built-in kick, snare, hi-hat and bass.
pub proof fn law_instruments_builtin(f: SongFileView, sts: Seq<StatementView>)
    ensures
        apply_statements(f, sts).instruments == f.instruments,
        apply_statements(initial_song_file(), sts).instruments == builtin_instruments(),
    decreases sts.len(),
{
    if sts.len() > 0 {
        law_instruments_builtin(f, sts.drop_last());
    }
}

/// Sections are kept in the order they are written: each section statement
/// adds one section at the end, other statements add none.
pub proof fn law_sections_in_order(f: SongFileView, sts: Seq<StatementView>)
    ensures
        apply_statements(f, sts.push(StatementView::Tempo { bpm: None })).sections
            == apply_statements(f, sts).sections,
        forall|name: Seq<char>, b: u32, items: Seq<SectionItemView>|
            #[trigger] apply_statements(f, sts.push(StatementView::Section { name, bars: Some(b), items })).sections
                == apply_statements(f, sts).sections.push(SectionView { name, bars: b, items }),
{
    assert(sts.push(StatementView::Tempo { bpm: None }).drop_last() =~= sts);
    assert forall|name: Seq<char>, b: u32, items: Seq<SectionItemView>|
        #[trigger] apply_statements(f, sts.push(StatementView::Section { name, bars: Some(b), items })).sections
            == apply_statements(f, sts).sections.push(SectionView { name, bars: b, items }) by {
        assert(sts.push(StatementView::Section { name, bars: Some(b), items }).drop_last() =~= sts);
    }
}

/// The text `<name>=pattern{<inst>:"<body>"}`: a pattern definition with one
/// track.
pub open spec fn one_track_pattern_text(name: Seq<char>, inst: Seq<char>, body: Seq<char>) -> Seq<char> {
    name + seq!['='] + keyword_text(Keyword::Pattern) + seq!['{'] + inst + seq![':', '"'] + body + seq![
        '"',
        '}',
    ]
}

/// Where the parts of `<name>=pattern{<inst>:"<body>"}` stand in `s`.
spec fn one_track_layout(s: Seq<char>, name: Seq<char>, inst: Seq<char>, body: Seq<char>) -> bool {
    let n = name.len() as int;
    let m = inst.len() as int;
    let b = body.len() as int;
    &&& s.len() == n + 13 + m + b
    &&& forall|k: int| 0 <= k < n ==> #[trigger] s[k] == name[k]
    &&& s[n] == '='
    &&& forall|k: int| 0 <= k < 7 ==> #[trigger] s[n + 1 + k] == keyword_text(Keyword::Pattern)[k]
    &&& s[n + 8] == '{'
    &&& forall|k: int| 0 <= k < m ==> #[trigger] s[n + 9 + k] == inst[k]
    &&& s[n + 9 + m] == ':'
    &&& s[n + 10 + m] == '"'
    &&& forall|k: int| 0 <= k < b ==> #[trigger] s[n + 11 + m + k] == body[k]
    &&& s[n + 11 + m + b] == '"'
    &&& s[n + 12 + m + b] == '}'
}

proof fn lemma_one_track_layout(name: Seq<char>, inst: Seq<char>, body: Seq<char>)
    ensures
        one_track_layout(one_track_pattern_text(name, inst, body), name, inst, body),
{
    let s = one_track_pattern_text(name, inst, body);
    let n = name.len() as int;
    let m = inst.len() as int;
    let b = body.len() as int;
    assert forall|k: int| 0 <= k < n implies #[trigger] s[k] == name[k] by {}
    assert forall|k: int| 0 <= k < 7 implies #[trigger] s[n + 1 + k] == keyword_text(Keyword::Pattern)[k] by {}
    assert forall|k: int| 0 <= k < m implies #[trigger] s[n + 9 + k] == inst[k] by {}
    assert forall|k: int| 0 <= k < b implies #[trigger] s[n + 11 + m + k] == body[k] by {}
}

proof fn lemma_one_track_no_tempo(s: Seq<char>, name: Seq<char>, inst: Seq<char>, body: Seq<char>)
    requires
        one_track_layout(s, name, inst, body),
        is_ident(name),
    ensures
        tempo_def(s, 0) is None,
{
    let n = name.len() as int;
    assert(s[0] == name[0]);
    lemma_skip_stays(s, 0);
    if lit(s, 0, keyword_text(Keyword::Tempo)) {
        if n < 5 {
            assert(s.subrange(0, 5)[n] == s[n]);
        }
        if n > 5 {
            assert(is_ident_char(name[5]));
            assert(s[5] == name[5]);
        }
        lemma_skip_stays(s, 5);
        assert(!lit(s, 5, seq![':'])) by {
            assert(s.subrange(5, 6)[0] == s[5]);
        }
    }
}

proof fn lemma_one_track_head(s: Seq<char>, name: Seq<char>, inst: Seq<char>, body: Seq<char>)
    requires
        one_track_layout(s, name, inst, body),
        is_ident(name),
    ensures
        ident_tok(s, 0) == Some((name, name.len() as int)),
        after_lit(s, name.len() as int, seq!['=']) == Some(name.len() + 1int),
        after_lit(s, name.len() + 1int, keyword_text(Keyword::Pattern)) == Some(name.len() + 8int),
        after_lit(s, name.len() + 8int, seq!['{']) == Some(name.len() + 9int),
{
    let n = name.len() as int;
    assert(s[0] == name[0]);
    lemma_skip_stays(s, 0);
    assert forall|k: int| 1 <= k < n implies is_ident_char(#[trigger] s[k]) by {
        assert(s[k] == name[k]);
    }
    lemma_ident_end_run(s, 1, n);
    assert(s.subrange(0, n) =~= name);
    lemma_skip_stays(s, n);
    assert(s.subrange(n, n + 1) =~= seq!['=']);
    assert(s[n + 1 + 0] == keyword_text(Keyword::Pattern)[0]);
    lemma_skip_stays(s, n + 1);
    assert(s.subrange(n + 1, n + 8) =~= keyword_text(Keyword::Pattern)) by {
        assert forall|k: int| 0 <= k < 7 implies s.subrange(n + 1, n + 8)[k] == keyword_text(
            Keyword::Pattern,
        )[k] by {
            assert(s[n + 1 + k] == keyword_text(Keyword::Pattern)[k]);
        }
    }
    lemma_skip_stays(s, n + 8);
    assert(s.subrange(n + 8, n + 9) =~= seq!['{']);
}

proof fn lemma_one_track_tracks(s: Seq<char>, name: Seq<char>, inst: Seq<char>, body: Seq<char>)
    requires
        one_track_layout(s, name, inst, body),
        is_ident(inst),
        forall|k: int| 0 <= k < body.len() ==> body[k] != '"',
    ensures
        track_list(s, name.len() + 9int) == (
            seq![(inst, seq!['"'] + body + seq!['"'])],
            name.len() + 12int + inst.len() + body.len(),
        ),
{
    let n = name.len() as int;
    let m = inst.len() as int;
    let b = body.len() as int;
    let q = seq!['"'] + body + seq!['"'];
    let t0 = n + 9;
    assert(s[t0 + 0] == inst[0]);
    lemma_skip_stays(s, t0);
    assert forall|k: int| t0 + 1 <= k < t0 + m implies is_ident_char(#[trigger] s[k]) by {
        assert(s[t0 + (k - t0)] == inst[k - t0]);
    }
    lemma_ident_end_run(s, t0 + 1, t0 + m);
    assert(s.subrange(t0, t0 + m) =~= inst) by {
        assert forall|k: int| 0 <= k < m implies s.subrange(t0, t0 + m)[k] == inst[k] by {
            assert(s[t0 + k] == inst[k]);
        }
    }
    assert(ident_tok(s, t0) == Some((inst, t0 + m)));
    lemma_skip_stays(s, t0 + m);
    assert(s.subrange(t0 + m, t0 + m + 1) =~= seq![':']);
    lemma_skip_stays(s, t0 + m + 1);
    assert forall|k: int| t0 + m + 2 <= k < t0 + m + 2 + b implies #[trigger] s[k] != '"' by {
        assert(s[n + 11 + m + (k - (t0 + m + 2))] == body[k - (t0 + m + 2)]);
    }
    lemma_quote_end_run(s, t0 + m + 2, t0 + m + 2 + b);
    assert(s.subrange(t0 + m + 1, t0 + m + 3 + b) =~= q) by {
        assert forall|k: int| 0 <= k < b + 2 implies s.subrange(t0 + m + 1, t0 + m + 3 + b)[k] == q[k] by {
            if 1 <= k <= b {
                assert(s[n + 11 + m + (k - 1)] == body[k - 1]);
            }
        }
    }
    assert(track_entry(s, t0) == Some(((inst, q), t0 + m + 3 + b)));
    let e = t0 + m + 3 + b;
    lemma_skip_stays(s, e);
    assert(!lit(s, e, seq![','])) by {
        assert(s.subrange(e, e + 1)[0] == s[e]);
    }
    assert(ident_tok(s, e) is None);
    assert(track_entry(s, e) is None);
    assert(track_list(s, e) == (Seq::<(Seq<char>, Seq<char>)>::empty(), e));
    assert(seq![(inst, q)] + Seq::<(Seq<char>, Seq<char>)>::empty() =~= seq![(inst, q)]);
}

proof fn lemma_one_track_statements(s: Seq<char>, name: Seq<char>, inst: Seq<char>, body: Seq<char>)
    requires
        one_track_layout(s, name, inst, body),
        is_ident(name),
        is_ident(inst),
        forall|k: int| 0 <= k < body.len() ==> body[k] != '"',
    ensures
        parse_file(s) == Ok::<Seq<StatementView>, int>(
            seq![
                StatementView::Pattern {
                    name,
                    tracks: seq![(inst, seq!['"'] + body + seq!['"'])],
                    tempo: None,
                },
            ],
        ),
{
    let n = name.len() as int;
    let len = s.len() as int;
    let q = seq!['"'] + body + seq!['"'];
    lemma_one_track_no_tempo(s, name, inst, body);
    lemma_one_track_head(s, name, inst, body);
    lemma_one_track_tracks(s, name, inst, body);
    let e = len - 1;
    lemma_skip_stays(s, e);
    assert(s.subrange(e, e + 1) =~= seq!['}']);
    assert(after_lit(s, e, seq!['}']) == Some(len));
    lemma_skip_stays(s, len);
    assert(tempo_spec_opt(s, len) == (None::<TempoSpec>, len));
    let st = StatementView::Pattern { name, tracks: seq![(inst, q)], tempo: None };
    assert(pattern_def(s, 0) == Some((st, len)));
    assert(statement(s, 0) == Some((st, len)));
    lemma_nothing_at_end(s);
    assert(seq![st] + Seq::<StatementView>::empty() =~= seq![st]);
    assert(statements(s, 0) == (seq![st], len));
}

/// A text `<name>=pattern{<inst>:"<body>"}` (identifiers `name` and `inst`,
/// no quote in `body`) reads as one pattern definition with that one track
/// and no tempo; the song file holds that pattern and the built-in
/// instruments, at 120 beats per minute; and its song has one track,
/// `<name>_<inst>`, which, when `body` holds no letter other than `x`/`X`,
/// plays one drum step per character of `body`.
pub proof fn law_one_track_pattern(name: Seq<char>, inst: Seq<char>, body: Seq<char>)
    requires
        is_ident(name),
        is_ident(inst),
        forall|k: int| 0 <= k < body.len() ==> body[k] != '"',
    ensures
        ({
            let q = seq!['"'] + body + seq!['"'];
            let file = SongFileView {
                instruments: builtin_instruments(),
                patterns: seq![(name, PatternDefView { tracks: seq![(inst, q)], tempo: None })],
                sections: Seq::empty(),
                tempo: 120,
            };
            &&& parse_file(one_track_pattern_text(name, inst, body)) == Ok::<Seq<StatementView>, int>(
                seq![StatementView::Pattern { name, tracks: seq![(inst, q)], tempo: None }],
            )
            &&& spec_song_file(one_track_pattern_text(name, inst, body)) == Ok::<SongFileView, ParseError>(file)
            &&& song_tracks(file.patterns) == seq![(track_name(name, inst), built_track(name, inst, q))]
            &&& !has_note_letter(body) ==> built_track(name, inst, q).patterns == seq![
                PatternView { name, steps: body, instrument: inst },
            ]
        }),
{
    let s = one_track_pattern_text(name, inst, body);
    let q = seq!['"'] + body + seq!['"'];
    lemma_one_track_layout(name, inst, body);
    lemma_one_track_statements(s, name, inst, body);
    lemma_one_track_file(s, name, inst, q);
    lemma_one_track_song(name, inst, q);
    crate::ast::law_quoted_pattern_text(name, inst, body);
}

proof fn lemma_one_track_file(s: Seq<char>, name: Seq<char>, inst: Seq<char>, q: Seq<char>)
    requires
        parse_file(s) == Ok::<Seq<StatementView>, int>(
            seq![StatementView::Pattern { name, tracks: seq![(inst, q)], tempo: None }],
        ),
    ensures
        spec_song_file(s) == Ok::<SongFileView, ParseError>(
            SongFileView {
                instruments: builtin_instruments(),
                patterns: seq![(name, PatternDefView { tracks: seq![(inst, q)], tempo: None })],
                sections: Seq::empty(),
                tempo: 120,
            },
        ),
{
    let st = StatementView::Pattern { name, tracks: seq![(inst, q)], tempo: None };
    assert(!holds_too_large_number(seq![st][0]));
    let tr = seq![(inst, q)];
    assert(tr.drop_last() =~= Seq::<(Seq<char>, Seq<char>)>::empty());
    assert(track_map(tr.drop_last()) == Seq::<(Seq<char>, Seq<char>)>::empty());
    assert(tr.last() == (inst, q));
    assert(!crate::names::has_key(Seq::<(Seq<char>, Seq<char>)>::empty(), inst));
    assert(insert_entry(Seq::<(Seq<char>, Seq<char>)>::empty(), inst, q) =~= tr);
    assert(track_map(tr) == tr);
    assert(seq![st].drop_last() =~= Seq::<StatementView>::empty());
    assert(apply_statements(initial_song_file(), seq![st].drop_last()) == initial_song_file());
    assert(seq![st].last() == st);
    let def = PatternDefView { tracks: tr, tempo: None };
    assert(!crate::names::has_key(Seq::<(Seq<char>, PatternDefView)>::empty(), name));
    assert(insert_entry(Seq::<(Seq<char>, PatternDefView)>::empty(), name, def) =~= seq![(name, def)]);
    let file = SongFileView {
        instruments: builtin_instruments(),
        patterns: seq![(name, def)],
        sections: Seq::empty(),
        tempo: 120,
    };
    assert(apply_statements(initial_song_file(), seq![st]) == file);
}

proof fn lemma_one_track_song(name: Seq<char>, inst: Seq<char>, q: Seq<char>)
    ensures
        song_tracks(seq![(name, PatternDefView { tracks: seq![(inst, q)], tempo: None })]) == seq![
            (track_name(name, inst), built_track(name, inst, q)),
        ],
{
    let tr = seq![(inst, q)];
    let pats = seq![(name, PatternDefView { tracks: tr, tempo: None })];
    assert(pats.drop_last() =~= Seq::<(Seq<char>, PatternDefView)>::empty());
    assert(tr.drop_last() =~= Seq::<(Seq<char>, Seq<char>)>::empty());
    let entry = (track_name(name, inst), built_track(name, inst, q));
    assert(song_tracks(pats.drop_last()) == Seq::<(Seq<char>, crate::patterns::TrackView)>::empty());
    assert(pats.last().1.tracks == tr);
    assert(add_pattern_tracks(Seq::empty(), name, tr.drop_last()) == Seq::<
        (Seq<char>, crate::patterns::TrackView),
    >::empty());
    assert(tr.last() == (inst, q));
    assert(!crate::names::has_key(Seq::<(Seq<char>, crate::patterns::TrackView)>::empty(), entry.0));
    assert(insert_entry(Seq::<(Seq<char>, crate::patterns::TrackView)>::empty(), entry.0, entry.1)
        =~= seq![entry]);
}

/// The text `tempo:<digits>bpm`.
pub open spec fn tempo_text(digits: Seq<char>) -> Seq<char> {
    keyword_text(Keyword::Tempo) + seq![':'] + digits + keyword_text(Keyword::Bpm)
}

proof fn lemma_tempo_text_chars(digits: Seq<char>)
    ensures
        tempo_text(digits).len() == digits.len() + 9,
        forall|k: int| 0 <= k < 5 ==> #[trigger] tempo_text(digits)[k] == keyword_text(Keyword::Tempo)[k],
        tempo_text(digits)[5] == ':',
        forall|k: int| 0 <= k < digits.len() ==> #[trigger] tempo_text(digits)[6 + k] == digits[k],
        forall|k: int|
            0 <= k < 3 ==> #[trigger] tempo_text(digits)[6 + digits.len() + k] == keyword_text(Keyword::Bpm)[k],
{
}

proof fn lemma_tempo_number(digits: Seq<char>)
    requires
        digits.len() > 0,
        forall|k: int| 0 <= k < digits.len() ==> is_digit(#[trigger] digits[k]),
    ensures
        bpm_tok(tempo_text(digits), 6) == Some((fit_u32(digits_value(digits)), digits.len() + 9int)),
{
    let s = tempo_text(digits);
    let d = digits.len() as int;
    lemma_tempo_text_chars(digits);
    assert(s[6int + 0] == digits[0]);
    lemma_skip_stays(s, 6);
    assert forall|k: int| 6 <= k < 6 + d implies is_digit(#[trigger] s[k]) by {
        assert(s[6 + (k - 6)] == digits[k - 6]);
    }
    assert(s[6 + d + 0] == 'b');
    lemma_digits_end_run(s, 6, 6 + d);
    assert(s.subrange(6, 6 + d) =~= digits) by {
        assert forall|k: int| 0 <= k < d implies s.subrange(6, 6 + d)[k] == digits[k] by {
            assert(s[6 + k] == digits[k]);
        }
    }
    assert(number_tok(s, 6) == Some((fit_u32(digits_value(digits)), 6 + d)));
    lemma_skip_stays(s, 6 + d);
    assert(s.subrange(6 + d, 9 + d) =~= keyword_text(Keyword::Bpm)) by {
        assert forall|k: int| 0 <= k < 3 implies s.subrange(6 + d, 9 + d)[k] == keyword_text(
            Keyword::Bpm,
        )[k] by {
            assert(s[6 + d + k] == keyword_text(Keyword::Bpm)[k]);
        }
    }
}

proof fn lemma_tempo_def(digits: Seq<char>)
    requires
        digits.len() > 0,
        forall|k: int| 0 <= k < digits.len() ==> is_digit(#[trigger] digits[k]),
    ensures
        tempo_def(tempo_text(digits), 0) == Some(
            (StatementView::Tempo { bpm: fit_u32(digits_value(digits)) }, digits.len() + 9int),
        ),
{
    let s = tempo_text(digits);
    lemma_tempo_text_chars(digits);
    lemma_tempo_number(digits);
    assert(s[0] == 't');
    lemma_skip_stays(s, 0);
    assert(s.subrange(0, 5) =~= keyword_text(Keyword::Tempo));
    assert(after_lit(s, 0, keyword_text(Keyword::Tempo)) == Some(5int));
    lemma_skip_stays(s, 5);
    assert(s.subrange(5, 6) =~= seq![':']);
    assert(after_lit(s, 5, seq![':']) == Some(6int));
}

proof fn lemma_tempo_statement(digits: Seq<char>)
    requires
        digits.len() > 0,
        forall|k: int| 0 <= k < digits.len() ==> is_digit(#[trigger] digits[k]),
    ensures
        parse_file(tempo_text(digits)) == Ok::<Seq<StatementView>, int>(
            seq![StatementView::Tempo { bpm: fit_u32(digits_value(digits)) }],
        ),
{
    let s = tempo_text(digits);
    let len = digits.len() + 9int;
    lemma_tempo_text_chars(digits);
    lemma_tempo_def(digits);
    let st = StatementView::Tempo { bpm: fit_u32(digits_value(digits)) };
    assert(statement(s, 0) == Some((st, len)));
    lemma_nothing_at_end(s);
    assert(seq![st] + Seq::<StatementView>::empty() =~= seq![st]);
    assert(statements(s, 0) == (seq![st], len));
    lemma_skip_stays(s, len);
}

/// A text `tempo:<digits>bpm` reads as a song file at that tempo, with the
/// built-in instruments and nothing else, when the number fits in a `u32`,
/// and is refused as too large otherwise.
pub proof fn law_tempo_statement(digits: Seq<char>)
    requires
        digits.len() > 0,
        forall|k: int| 0 <= k < digits.len() ==> is_digit(#[trigger] digits[k]),
    ensures
        digits_value(digits) <= u32::MAX ==> spec_song_file(tempo_text(digits)) == Ok::<SongFileView, ParseError>(
            SongFileView {
                instruments: builtin_instruments(),
                patterns: Seq::empty(),
                sections: Seq::empty(),
                tempo: digits_value(digits) as u32,
            },
        ),
        digits_value(digits) > u32::MAX ==> spec_song_file(tempo_text(digits)) == Err::<SongFileView, ParseError>(
            ParseError::NumberTooLarge,
        ),
{
    lemma_tempo_statement(digits);
    let st = StatementView::Tempo { bpm: fit_u32(digits_value(digits)) };
    let sts = seq![st];
    assert(sts[0] == st);
    assert(sts.drop_last() =~= Seq::<StatementView>::empty());
    assert(apply_statements(initial_song_file(), sts.drop_last()) == initial_song_file());
    assert(sts.last() == st);
}

/// A song file written out from statements reads back as those statements
/// applied, one after another, to the initial song file.
pub proof fn law_written_song_file_reads_back(sts: Seq<StatementView>)
    requires
        writable_statements(sts),
    ensures
        spec_song_file(render_statements(sts)) == Ok::<SongFileView, ParseError>(
            apply_statements(initial_song_file(), sts),
        ),
{
    law_render_then_parse(sts);
    assert forall|i: int| 0 <= i < sts.len() implies !holds_too_large_number(#[trigger] sts[i]) by {
        assert(writable_statement(sts[i]));
    }
}


/// Any name made of an ASCII letter or `_` followed by ASCII letters,
/// digits and `_` (such as `verse2`) names a pattern: the text
/// `<name>=pattern{kick:"x"}` reads as the song file holding that one
/// pattern under that name, with its kick track, at 120 beats per minute.
pub proof fn law_pattern_names(name: Seq<char>)
    requires
        name.len() > 0,
        ('a' <= name[0] && name[0] <= 'z') || ('A' <= name[0] && name[0] <= 'Z') || name[0] == '_',
        forall|k: int|
            0 < k < name.len() ==> ('a' <= #[trigger] name[k] && name[k] <= 'z') || ('A' <= name[k] && name[k]
                <= 'Z') || ('0' <= name[k] && name[k] <= '9') || name[k] == '_',
    ensures
        spec_song_file(one_track_pattern_text(name, seq!['k', 'i', 'c', 'k'], seq!['x']))
            == Ok::<SongFileView, ParseError>(
            SongFileView {
                instruments: builtin_instruments(),
                patterns: seq![
                    (
                        name,
                        PatternDefView {
                            tracks: seq![(seq!['k', 'i', 'c', 'k'], seq!['"', 'x', '"'])],
                            tempo: None,
                        },
                    ),
                ],
                sections: Seq::empty(),
                tempo: 120,
            },
        ),
{
    let kick = seq!['k', 'i', 'c', 'k'];
    assert(is_ident(name));
    assert(is_ident(kick));
    assert(seq!['"'] + seq!['x'] + seq!['"'] =~= seq!['"', 'x', '"']);
    law_one_track_pattern(name, kick, seq!['x']);
}

} // verus!
