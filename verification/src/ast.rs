//! The parsed form of a song file, and how it becomes a playable song.
use vstd::prelude::*;
use crate::instruments::{InstrumentDefinition, InstrumentView};
use crate::names::{NameMap, distinct_keys, has_key, insert_entry, lemma_insert_contents, lemma_insert_distinct};
use crate::patterns::{MelodicPattern, MelodicView, Note, Pattern, PatternView, Song, Track, TrackView, spec_parse_note, parse_note_chars};
use crate::text::{chars_of, contains_note_letter, has_note_letter, is_whitespace, push_char, trim_quote_chars, trim_quotes, words, words_from};

verus! {

broadcast use vstd::string::group_string_axioms;

/// How a pattern is played within a section.
#[derive(Clone, Copy, Debug, PartialEq, Eq, Structural)]
pub enum Modifier {
    Only,
    Multiply(u32),
}

/// A pattern named in a section, with its optional modifier.
#[derive(Clone, Debug)]
pub struct SectionItem {
    pub pattern: String,
    pub modifier: Option<Modifier>,
}

/// What a section item holds, as text.
pub struct SectionItemView {
    pub pattern: Seq<char>,
    pub modifier: Option<Modifier>,
}

impl View for SectionItem {
    type V = SectionItemView;

    open spec fn view(&self) -> SectionItemView {
        SectionItemView { pattern: self.pattern@, modifier: self.modifier }
    }
}

/// A named part of the song, some bars long, listing the patterns it plays.
#[derive(Clone, Debug)]
pub struct Section {
    pub name: String,
    pub bars: u32,
    pub items: Vec<SectionItem>,
}

/// What a section holds, as text and views.
pub struct SectionView {
    pub name: Seq<char>,
    pub bars: u32,
    pub items: Seq<SectionItemView>,
}

impl View for Section {
    type V = SectionView;

    open spec fn view(&self) -> SectionView {
        SectionView {
            name: self.name@,
            bars: self.bars,
            items: self.items@.map_values(|it: SectionItem| it@),
        }
    }
}

/// A pattern definition: the pattern text of each instrument (quotes
/// included, as written), and the tempo given after `@`, if any.
#[derive(Clone, Debug)]
pub struct PatternDef {
    pub tracks: NameMap<String>,
    pub tempo: Option<u32>,
}

/// What a pattern definition holds, as text.
pub struct PatternDefView {
    pub tracks: Seq<(Seq<char>, Seq<char>)>,
    pub tempo: Option<u32>,
}

impl View for PatternDef {
    type V = PatternDefView;

    open spec fn view(&self) -> PatternDefView {
        PatternDefView { tracks: self.tracks@, tempo: self.tempo }
    }
}

/// A parsed song file: its instruments, its named pattern definitions, its
/// sections in order, and its tempo in beats per minute.
#[derive(Clone, Debug)]
pub struct SongFile {
    pub instruments: NameMap<InstrumentDefinition>,
    pub patterns: NameMap<PatternDef>,
    pub sections: Vec<Section>,
    pub tempo: u32,
}

/// What a song file holds, as text and views.
pub struct SongFileView {
    pub instruments: Seq<(Seq<char>, InstrumentView)>,
    pub patterns: Seq<(Seq<char>, PatternDefView)>,
    pub sections: Seq<SectionView>,
    pub tempo: u32,
}

impl View for SongFile {
    type V = SongFileView;

    open spec fn view(&self) -> SongFileView {
        SongFileView {
            instruments: self.instruments@,
            patterns: self.patterns@,
            sections: self.sections@.map_values(|s: Section| s@),
            tempo: self.tempo,
        }
    }
}

/// The name of the track that plays instrument `inst` of pattern `p`:
/// the two names joined by `_`.
pub open spec fn track_name(p: Seq<char>, inst: Seq<char>) -> Seq<char> {
    p + seq!['_'] + inst
}

/// The track built from the pattern text `raw` of instrument `inst` in
/// pattern `p`. Without its surrounding quotes, text holding a letter other
/// than `x`/`X` is a melodic pattern, one note or rest per whitespace-
/// separated word; any other text is a drum pattern, one step per character.
pub open spec fn built_track(p: Seq<char>, inst: Seq<char>, raw: Seq<char>) -> TrackView {
    let body = trim_quotes(raw);
    if has_note_letter(body) {
        TrackView {
            name: track_name(p, inst),
            patterns: Seq::empty(),
            melodic_patterns: seq![
                MelodicView {
                    name: p,
                    notes: words(body).map_values(|w: Seq<char>| spec_parse_note(w)),
                    instrument: inst,
                },
            ],
            volume: 1000,
            muted: false,
            solo: false,
        }
    } else {
        TrackView {
            name: track_name(p, inst),
            patterns: seq![PatternView { name: p, steps: body, instrument: inst }],
            melodic_patterns: Seq::empty(),
            volume: 1000,
            muted: false,
            solo: false,
        }
    }
}

/// Adds to `acc` the tracks of pattern `p`, instrument after instrument,
/// each stored under its track name (a later one replacing an earlier one
/// of the same name).
pub open spec fn add_pattern_tracks(
    acc: Seq<(Seq<char>, TrackView)>,
    p: Seq<char>,
    tracks: Seq<(Seq<char>, Seq<char>)>,
) -> Seq<(Seq<char>, TrackView)>
    decreases tracks.len(),
{
    if tracks.len() == 0 {
        acc
    } else {
        let before = add_pattern_tracks(acc, p, tracks.drop_last());
        let (inst, raw) = tracks.last();
        insert_entry(before, track_name(p, inst), built_track(p, inst, raw))
    }
}

/// The tracks of a song made from pattern definitions, pattern after pattern.
pub open spec fn song_tracks(pats: Seq<(Seq<char>, PatternDefView)>) -> Seq<(Seq<char>, TrackView)>
    decreases pats.len(),
{
    if pats.len() == 0 {
        Seq::empty()
    } else {
        add_pattern_tracks(song_tracks(pats.drop_last()), pats.last().0, pats.last().1.tracks)
    }
}

/// The notes and rests of the words of `body`.
fn notes_of(body: &Vec<char>) -> (r: Vec<Option<Note>>)
    ensures
        r@ == words(body@).map_values(|w: Seq<char>| spec_parse_note(w)),
{
    let ghost s = body@;
    let mut notes: Vec<Option<Note>> = Vec::new();
    let mut cur: Vec<char> = Vec::new();
    let ghost mut done: Seq<Seq<char>> = Seq::empty();
    let mut i: usize = 0;
    while i < body.len()
        invariant
            i <= s.len(),
            s == body@,
            done + words_from(s, i as int, cur@) == words(s),
            notes@ == done.map_values(|w: Seq<char>| spec_parse_note(w)),
        decreases s.len() - i,
    {
        let c = body[i];
        if is_whitespace(c) {
            if cur.len() > 0 {
                let n = parse_note_chars(&cur);
                notes.push(n);
                proof {
                    assert(done + words_from(s, i as int, cur@) =~= done.push(cur@) + words_from(
                        s,
                        i + 1,
                        Seq::empty(),
                    ));
                    done = done.push(cur@);
                }
                assert(notes@ =~= done.map_values(|w: Seq<char>| spec_parse_note(w)));
                cur = Vec::new();
            } else {
                assert(words_from(s, i as int, cur@) == words_from(s, i + 1, Seq::<char>::empty()));
                assert(cur@ =~= Seq::<char>::empty());
            }
        } else {
            cur.push(c);
        }
        i = i + 1;
    }
    if cur.len() > 0 {
        let n = parse_note_chars(&cur);
        notes.push(n);
        proof {
            assert(done + words_from(s, i as int, cur@) =~= done.push(cur@));
            done = done.push(cur@);
        }
        assert(notes@ =~= done.map_values(|w: Seq<char>| spec_parse_note(w)));
    } else {
        assert(done + words_from(s, i as int, cur@) =~= done);
    }
    notes
}

/// The name of the track for instrument `inst` of pattern `p`.
fn joined_name(p: &String, inst: &String) -> (r: String)
    ensures
        r@ == track_name(p@, inst@),
{
    let mut r = p.clone();
    push_char(&mut r, '_');
    let cs = chars_of(inst.as_str());
    let mut i: usize = 0;
    while i < cs.len()
        invariant
            i <= cs@.len(),
            cs@ == inst@,
            r@ == p@ + seq!['_'] + cs@.take(i as int),
        decreases cs@.len() - i,
    {
        push_char(&mut r, cs[i]);
        assert(cs@.take(i + 1) =~= cs@.take(i as int).push(cs@[i as int]));
        i = i + 1;
    }
    assert(cs@.take(cs@.len() as int) =~= cs@);
    r
}

/// The track for instrument `inst` of pattern `p` with pattern text `raw`.
fn build_track(p: &String, inst: &String, raw: &String) -> (r: (String, Track))
    ensures
        r.0@ == track_name(p@, inst@),
        r.1@ == built_track(p@, inst@, raw@),
{
    let key = joined_name(p, inst);
    let mut track = Track::new(key.clone());
    let raw_chars = chars_of(raw.as_str());
    let body = trim_quote_chars(&raw_chars);
    if contains_note_letter(&body) {
        let notes = notes_of(&body);
        track.melodic_patterns.push(
            MelodicPattern { name: p.clone(), notes, instrument: inst.clone() },
        );
        assert(track@.melodic_patterns =~= built_track(p@, inst@, raw@).melodic_patterns);
        assert(track@.patterns =~= built_track(p@, inst@, raw@).patterns);
    } else {
        track.patterns.push(Pattern { name: p.clone(), steps: body, instrument: inst.clone() });
        assert(track@.melodic_patterns =~= built_track(p@, inst@, raw@).melodic_patterns);
        assert(track@.patterns =~= built_track(p@, inst@, raw@).patterns);
    }
    (key, track)
}

impl SongFile {
    /// The song that the file describes: named `demo`, at the file's tempo,
    /// with one track per instrument of each pattern definition (see
    /// `song_tracks`).
    pub fn to_song(&self) -> (song: Song)
        ensures
            song.name@ == seq!['d', 'e', 'm', 'o'],
            song.bpm == self.tempo,
            song.tracks@ == song_tracks(self.patterns@),
    {
        let name = crate::text::chars_text(&['d', 'e', 'm', 'o']);
        let mut song = Song::new(name, self.tempo);
        let ghost pats = self.patterns@;
        let n = self.patterns.len();
        let mut i: usize = 0;
        assert(song.tracks@ =~= song_tracks(pats.take(0)));
        while i < n
            invariant
                i <= n,
                n == pats.len(),
                pats == self.patterns@,
                song.name@ == seq!['d', 'e', 'm', 'o'],
                song.bpm == self.tempo,
                song.tracks@ == song_tracks(pats.take(i as int)),
            decreases n - i,
        {
            let (pname, def) = self.patterns.entry(i);
            let ghost before = song.tracks@;
            let ghost tr = def@.tracks;
            assert(pats.take(i + 1).drop_last() =~= pats.take(i as int));
            assert(pats.take(i + 1).last() == pats[i as int]);
            let m = def.tracks.len();
            let mut k: usize = 0;
            while k < m
                invariant
                    k <= m,
                    m == tr.len(),
                    tr == def.tracks@,
                    song.name@ == seq!['d', 'e', 'm', 'o'],
                    song.bpm == self.tempo,
                    song.tracks@ == add_pattern_tracks(before, pname@, tr.take(k as int)),
                decreases m - k,
            {
                let (iname, raw) = def.tracks.entry(k);
                let (key, track) = build_track(pname, iname, raw);
                assert(tr.take(k + 1).drop_last() =~= tr.take(k as int));
                assert(tr.take(k + 1).last() == tr[k as int]);
                song.tracks.insert(key, track);
                k = k + 1;
            }
            assert(tr.take(m as int) =~= tr);
            i = i + 1;
        }
        assert(pats.take(n as int) =~= pats);
        song
    }
}

/// The track of the `j`-th instrument of pattern `p`, under its track name.
pub open spec fn pattern_track_entry(
    p: Seq<char>,
    tracks: Seq<(Seq<char>, Seq<char>)>,
    j: int,
) -> (Seq<char>, TrackView) {
    (track_name(p, tracks[j].0), built_track(p, tracks[j].0, tracks[j].1))
}

/// Whether `e` is the track of some instrument of some pattern definition.
pub open spec fn is_pattern_track(
    pats: Seq<(Seq<char>, PatternDefView)>,
    e: (Seq<char>, TrackView),
) -> bool {
    exists|i: int, j: int|
        0 <= i < pats.len() && 0 <= j < pats[i].1.tracks.len() && e == #[trigger] pattern_track_entry(
            pats[i].0,
            pats[i].1.tracks,
            j,
        )
}

proof fn lemma_add_pattern_tracks(
    acc: Seq<(Seq<char>, TrackView)>,
    p: Seq<char>,
    tracks: Seq<(Seq<char>, Seq<char>)>,
)
    ensures
        forall|e: (Seq<char>, TrackView)| #[trigger] add_pattern_tracks(acc, p, tracks).contains(e) ==> acc.contains(e)
            || exists|j: int| 0 <= j < tracks.len() && e == #[trigger] pattern_track_entry(p, tracks, j),
        forall|k: Seq<char>| has_key(acc, k) ==> #[trigger] has_key(add_pattern_tracks(acc, p, tracks), k),
        forall|j: int|
            0 <= j < tracks.len() ==> has_key(
                add_pattern_tracks(acc, p, tracks),
                #[trigger] track_name(p, tracks[j].0),
            ),
        distinct_keys(acc) ==> distinct_keys(add_pattern_tracks(acc, p, tracks)),
    decreases tracks.len(),
{
    if tracks.len() > 0 {
        let init = tracks.drop_last();
        let before = add_pattern_tracks(acc, p, init);
        let (inst, raw) = tracks.last();
        let last = tracks.len() - 1;
        lemma_add_pattern_tracks(acc, p, init);
        lemma_insert_contents(before, track_name(p, inst), built_track(p, inst, raw));
        if distinct_keys(before) {
            lemma_insert_distinct(before, track_name(p, inst), built_track(p, inst, raw));
        }
        let after = add_pattern_tracks(acc, p, tracks);
        assert forall|e: (Seq<char>, TrackView)| #[trigger] after.contains(e) implies acc.contains(e)
            || exists|j: int| 0 <= j < tracks.len() && e == #[trigger] pattern_track_entry(p, tracks, j) by {
            if e == (track_name(p, inst), built_track(p, inst, raw)) {
                assert(e == pattern_track_entry(p, tracks, last));
            } else {
                assert(before.contains(e));
                if !acc.contains(e) {
                    let j = choose|j: int| 0 <= j < init.len() && e == #[trigger] pattern_track_entry(p, init, j);
                    assert(init[j] == tracks[j]);
                    assert(e == pattern_track_entry(p, tracks, j));
                }
            }
        }
        assert forall|j: int| 0 <= j < tracks.len() implies has_key(
            after,
            #[trigger] track_name(p, tracks[j].0),
        ) by {
            if j < last {
                assert(init[j] == tracks[j]);
                assert(has_key(before, track_name(p, init[j].0)));
            }
        }
    }
}

/// Every track of the song made from pattern definitions is the track of
/// one instrument of one pattern definition (named by joining the two
/// names with `_`); every such name is the name of a track; and no two
/// tracks share a name.
pub proof fn law_song_tracks_come_from_patterns(pats: Seq<(Seq<char>, PatternDefView)>)
    ensures
        forall|e: (Seq<char>, TrackView)| #[trigger] song_tracks(pats).contains(e) ==> is_pattern_track(pats, e),
        forall|i: int, j: int|
            0 <= i < pats.len() && 0 <= j < pats[i].1.tracks.len() ==> has_key(
                song_tracks(pats),
                #[trigger] track_name(pats[i].0, pats[i].1.tracks[j].0),
            ),
        distinct_keys(song_tracks(pats)),
    decreases pats.len(),
{
    if pats.len() > 0 {
        let init = pats.drop_last();
        let last = pats.len() - 1;
        let before = song_tracks(init);
        law_song_tracks_come_from_patterns(init);
        lemma_add_pattern_tracks(before, pats[last].0, pats[last].1.tracks);
        let after = song_tracks(pats);
        assert(pats.last() == pats[last]);
        assert forall|e: (Seq<char>, TrackView)| #[trigger] after.contains(e) implies is_pattern_track(pats, e) by {
            if before.contains(e) {
                let (i, j) = choose|i: int, j: int|
                    0 <= i < init.len() && 0 <= j < init[i].1.tracks.len() && e
                        == #[trigger] pattern_track_entry(init[i].0, init[i].1.tracks, j);
                assert(init[i] == pats[i]);
                assert(e == pattern_track_entry(pats[i].0, pats[i].1.tracks, j));
            } else {
                let j = choose|j: int|
                    0 <= j < pats[last].1.tracks.len() && e == #[trigger] pattern_track_entry(
                        pats[last].0,
                        pats[last].1.tracks,
                        j,
                    );
                assert(e == pattern_track_entry(pats[last].0, pats[last].1.tracks, j));
            }
        }
        assert forall|i: int, j: int|
            0 <= i < pats.len() && 0 <= j < pats[i].1.tracks.len() implies has_key(
            after,
            #[trigger] track_name(pats[i].0, pats[i].1.tracks[j].0),
        ) by {
            if i < last {
                assert(init[i] == pats[i]);
                assert(has_key(before, track_name(init[i].0, init[i].1.tracks[j].0)));
            }
        }
    }
}

/// Pattern text in quotes, with no quote inside, is read without its
/// quotes: as the steps of a drum pattern when it holds no letter other
/// than `x`/`X`, else as one note or rest per whitespace-separated word.
pub proof fn law_quoted_pattern_text(p: Seq<char>, inst: Seq<char>, body: Seq<char>)
    requires
        forall|k: int| 0 <= k < body.len() ==> body[k] != '"',
    ensures
        trim_quotes(seq!['"'] + body + seq!['"']) == body,
        !has_note_letter(body) ==> built_track(p, inst, seq!['"'] + body + seq!['"']).patterns == seq![
            PatternView { name: p, steps: body, instrument: inst },
        ],
        has_note_letter(body) ==> built_track(p, inst, seq!['"'] + body + seq!['"']).melodic_patterns[0].notes.len()
            == words(body).len(),
{
    let q = seq!['"'] + body + seq!['"'];
    let b2 = body + seq!['"'];
    assert(q.drop_first() =~= b2);
    if body.len() == 0 {
        assert(b2 =~= seq!['"']);
        assert(b2.drop_first() =~= Seq::<char>::empty());
        assert(crate::text::trim_leading_quotes(Seq::<char>::empty()) == Seq::<char>::empty());
        assert(crate::text::trim_leading_quotes(b2) == Seq::<char>::empty());
        assert(crate::text::trim_leading_quotes(q) == Seq::<char>::empty());
        assert(body =~= Seq::<char>::empty());
    } else {
        assert(b2[0] == body[0]);
        assert(crate::text::trim_leading_quotes(q) == crate::text::trim_leading_quotes(b2));
        assert(crate::text::trim_leading_quotes(b2) == b2);
        assert(b2.drop_last() =~= body);
        assert(body.last() == body[body.len() - 1]);
        assert(crate::text::trim_trailing_quotes(body) == body);
    }
    assert(trim_quotes(q) == body);
}

} // verus!
