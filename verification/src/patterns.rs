//! Drum and melodic patterns, notes, tracks and songs, and what a song
//! plays at a given sixteenth-note step.
use vstd::prelude::*;
use crate::names::NameMap;
use crate::text::chars_of;

verus! {

broadcast use vstd::string::group_string_axioms;

/// Whether a step character triggers a hit: `x` or `X`.
pub open spec fn is_hit_char(c: char) -> bool {
    c == 'x' || c == 'X'
}

/// A drum pattern: one character per sixteenth-note step.
#[derive(Clone, Debug)]
pub struct Pattern {
    pub name: String,
    pub steps: Vec<char>,
    pub instrument: String,
}

/// What a drum pattern holds, as text.
pub struct PatternView {
    pub name: Seq<char>,
    pub steps: Seq<char>,
    pub instrument: Seq<char>,
}

impl View for Pattern {
    type V = PatternView;

    open spec fn view(&self) -> PatternView {
        PatternView { name: self.name@, steps: self.steps@, instrument: self.instrument@ }
    }
}

/// Whether the pattern hits at `step`, the steps being repeated cyclically.
pub open spec fn pattern_hits_at(p: PatternView, step: int) -> bool {
    is_hit_char(p.steps[step % (p.steps.len() as int)])
}

impl Pattern {
    /// Builds a pattern whose steps are the characters of `pattern_str`.
    pub fn new(name: String, pattern_str: &str, instrument: String) -> (p: Pattern)
        ensures
            p.name == name,
            p.steps@ == pattern_str@,
            p.instrument == instrument,
    {
        let steps = chars_of(pattern_str);
        Pattern { name, steps, instrument }
    }

    /// Whether step `step` (taken cyclically) holds a hit.
    pub fn is_active(&self, step: usize) -> (r: bool)
        requires
            self.steps.len() > 0,
        ensures
            r == pattern_hits_at(self@, step as int),
    {
        let c = self.steps[step % self.steps.len()];
        c == 'x' || c == 'X'
    }

    /// The number of steps.
    pub fn length(&self) -> (n: usize)
        ensures
            n == self.steps@.len(),
    {
        self.steps.len()
    }
}

/// A pattern repeats: shifting a step by the pattern's length changes
/// nothing.
pub proof fn law_pattern_cyclic(p: PatternView, step: nat)
    requires
        p.steps.len() > 0,
    ensures
        pattern_hits_at(p, (step + p.steps.len()) as int) == pattern_hits_at(p, step as int),
{
    let n = p.steps.len() as int;
    assert((step + n) % n == (step as int) % n) by (nonlinear_arith)
        requires
            n > 0,
            step >= 0,
    {
        vstd::arithmetic::div_mod::lemma_mod_add_multiples_vanish(step as int, n);
    }
}

/// The twelve pitch classes, `s` marking a sharp.
#[derive(Clone, Copy, Debug, PartialEq, Eq, Structural)]
pub enum NotePitch {
    C,
    Cs,
    D,
    Ds,
    E,
    F,
    Fs,
    G,
    Gs,
    A,
    As,
    B,
}

/// The number of semitones from C up to the pitch class.
pub open spec fn semitone_of(p: NotePitch) -> int {
    match p {
        NotePitch::C => 0,
        NotePitch::Cs => 1,
        NotePitch::D => 2,
        NotePitch::Ds => 3,
        NotePitch::E => 4,
        NotePitch::F => 5,
        NotePitch::Fs => 6,
        NotePitch::G => 7,
        NotePitch::Gs => 8,
        NotePitch::A => 9,
        NotePitch::As => 10,
        NotePitch::B => 11,
    }
}

impl NotePitch {
    /// The number of semitones from C up to this pitch class.
    pub fn semitone(self) -> (n: u8)
        ensures
            n == semitone_of(self),
    {
        match self {
            NotePitch::C => 0,
            NotePitch::Cs => 1,
            NotePitch::D => 2,
            NotePitch::Ds => 3,
            NotePitch::E => 4,
            NotePitch::F => 5,
            NotePitch::Fs => 6,
            NotePitch::G => 7,
            NotePitch::Gs => 8,
            NotePitch::A => 9,
            NotePitch::As => 10,
            NotePitch::B => 11,
        }
    }
}

/// A note: pitch class, octave (4 holds middle C and the 440 Hz A), and
/// velocity in thousandths of full strength.
#[derive(Clone, Copy, Debug, PartialEq, Eq, Structural)]
pub struct Note {
    pub pitch: NotePitch,
    pub octave: u8,
    pub velocity: u32,
}

/// The pitch class named by a letter, if it names one.
pub open spec fn pitch_of_letter(c: char) -> Option<NotePitch> {
    if c == 'C' {
        Some(NotePitch::C)
    } else if c == 'D' {
        Some(NotePitch::D)
    } else if c == 'E' {
        Some(NotePitch::E)
    } else if c == 'F' {
        Some(NotePitch::F)
    } else if c == 'G' {
        Some(NotePitch::G)
    } else if c == 'A' {
        Some(NotePitch::A)
    } else if c == 'B' {
        Some(NotePitch::B)
    } else {
        None
    }
}

/// The pitch class a semitone up, for those that have a sharp; `E` and `B`
/// (and the sharps themselves) stay as they are.
pub open spec fn sharpened(p: NotePitch) -> NotePitch {
    match p {
        NotePitch::C => NotePitch::Cs,
        NotePitch::D => NotePitch::Ds,
        NotePitch::F => NotePitch::Fs,
        NotePitch::G => NotePitch::Gs,
        NotePitch::A => NotePitch::As,
        _ => p,
    }
}

/// The value of a decimal digit character.
pub open spec fn digit_value(c: char) -> Option<u8> {
    if '0' <= c && c <= '9' {
        Some((c as u32 - '0' as u32) as u8)
    } else {
        None
    }
}

/// The note that a word of a melodic pattern names: a letter `A`–`G`,
/// an optional `#`, then an optional octave digit (4 when absent); anything
/// after the digit is ignored. Words shorter than two characters (so also
/// `.` and the empty word) name no note. Parsed notes have full velocity.
pub open spec fn spec_parse_note(s: Seq<char>) -> Option<Note> {
    if s.len() < 2 {
        None
    } else {
        match pitch_of_letter(s[0]) {
            None => None,
            Some(letter) => {
                let sharp = s[1] == '#';
                let pitch = if sharp { sharpened(letter) } else { letter };
                let idx: int = if sharp { 2 } else { 1 };
                if idx < s.len() {
                    match digit_value(s[idx]) {
                        Some(d) => Some(Note { pitch, octave: d, velocity: 1000 }),
                        None => None,
                    }
                } else {
                    Some(Note { pitch, octave: 4, velocity: 1000 })
                }
            }
        }
    }
}

/// The number of semitones from A4 (440 Hz) to the note.
pub open spec fn semitones_from_a4_of(n: Note) -> int {
    semitone_of(n.pitch) + (n.octave - 4) * 12 - 9
}

fn letter_pitch(c: char) -> (r: Option<NotePitch>)
    ensures
        r == pitch_of_letter(c),
{
    if c == 'C' {
        Some(NotePitch::C)
    } else if c == 'D' {
        Some(NotePitch::D)
    } else if c == 'E' {
        Some(NotePitch::E)
    } else if c == 'F' {
        Some(NotePitch::F)
    } else if c == 'G' {
        Some(NotePitch::G)
    } else if c == 'A' {
        Some(NotePitch::A)
    } else if c == 'B' {
        Some(NotePitch::B)
    } else {
        None
    }
}

fn sharpen(p: NotePitch) -> (r: NotePitch)
    ensures
        r == sharpened(p),
{
    match p {
        NotePitch::C => NotePitch::Cs,
        NotePitch::D => NotePitch::Ds,
        NotePitch::F => NotePitch::Fs,
        NotePitch::G => NotePitch::Gs,
        NotePitch::A => NotePitch::As,
        _ => p,
    }
}

/// The value of a decimal digit character, if it is one.
pub fn digit(c: char) -> (r: Option<u8>)
    ensures
        r == digit_value(c),
{
    if '0' <= c && c <= '9' {
        Some((c as u32 - '0' as u32) as u8)
    } else {
        None
    }
}

/// Parses one word of a melodic pattern (see `spec_parse_note`).
pub fn parse_note_chars(s: &Vec<char>) -> (r: Option<Note>)
    ensures
        r == spec_parse_note(s@),
{
    if s.len() < 2 {
        return None;
    }
    let letter = match letter_pitch(s[0]) {
        Some(p) => p,
        None => {
            return None;
        },
    };
    let mut idx: usize = 1;
    let pitch = if s[1] == '#' {
        idx = 2;
        sharpen(letter)
    } else {
        letter
    };
    if idx < s.len() {
        match digit(s[idx]) {
            Some(d) => Some(Note { pitch, octave: d, velocity: 1000 }),
            None => None,
        }
    } else {
        Some(Note { pitch, octave: 4, velocity: 1000 })
    }
}

impl Note {
    /// Parses a note name such as `C2`, `F#3` or `A` followed by nothing
    /// but a sharp (see `spec_parse_note`).
    pub fn parse(s: &str) -> (r: Option<Note>)
        ensures
            r == spec_parse_note(s@),
    {
        let chars = chars_of(s);
        parse_note_chars(&chars)
    }

    /// The number of semitones from A4 up to this note (negative below A4).
    pub fn semitones_from_a4(&self) -> (n: i32)
        ensures
            n == semitones_from_a4_of(*self),
    {
        self.pitch.semitone() as i32 + (self.octave as i32 - 4) * 12 - 9
    }
}

/// The letter (and sharp) that writes a pitch class.
pub open spec fn pitch_name(p: NotePitch) -> Seq<char> {
    match p {
        NotePitch::C => seq!['C'],
        NotePitch::Cs => seq!['C', '#'],
        NotePitch::D => seq!['D'],
        NotePitch::Ds => seq!['D', '#'],
        NotePitch::E => seq!['E'],
        NotePitch::F => seq!['F'],
        NotePitch::Fs => seq!['F', '#'],
        NotePitch::G => seq!['G'],
        NotePitch::Gs => seq!['G', '#'],
        NotePitch::A => seq!['A'],
        NotePitch::As => seq!['A', '#'],
        NotePitch::B => seq!['B'],
    }
}

/// Every pitch class in every single-digit octave, written as its name and
/// its octave digit, reads back as that note at full velocity; a `.` reads
/// as a rest.
pub proof fn law_note_name_round_trip(p: NotePitch, octave: u8)
    requires
        octave <= 9,
    ensures
        spec_parse_note(seq!['.']) is None,
        spec_parse_note(pitch_name(p) + seq![('0' as u32 + octave as u32) as char]) == Some(
            Note { pitch: p, octave, velocity: 1000 },
        ),
{
    let d = ('0' as u32 + octave as u32) as char;
    let w = pitch_name(p) + seq![d];
    assert(digit_value(d) == Some(octave));
    match p {
        NotePitch::C | NotePitch::D | NotePitch::E | NotePitch::F | NotePitch::G | NotePitch::A
        | NotePitch::B => {
            assert(w[0] == pitch_name(p)[0]);
            assert(w[1] == d);
        },
        _ => {
            assert(w[0] == pitch_name(p)[0]);
            assert(w[1] == '#');
            assert(w[2] == d);
        },
    }
}

/// Moving a note up an octave moves it twelve semitones further from A4.
pub proof fn law_octave_is_twelve_semitones(n: Note)
    requires
        n.octave < 255,
    ensures
        semitones_from_a4_of(Note { octave: (n.octave + 1) as u8, ..n }) == semitones_from_a4_of(n)
            + 12,
{
}

/// A melodic pattern: one note or rest per step.
#[derive(Clone, Debug)]
pub struct MelodicPattern {
    pub name: String,
    pub notes: Vec<Option<Note>>,
    pub instrument: String,
}

/// What a melodic pattern holds, as text.
pub struct MelodicView {
    pub name: Seq<char>,
    pub notes: Seq<Option<Note>>,
    pub instrument: Seq<char>,
}

impl View for MelodicPattern {
    type V = MelodicView;

    open spec fn view(&self) -> MelodicView {
        MelodicView { name: self.name@, notes: self.notes@, instrument: self.instrument@ }
    }
}

/// A track: drum and melodic patterns played together, with a volume in
/// thousandths of full scale.
#[derive(Clone, Debug)]
pub struct Track {
    pub name: String,
    pub patterns: Vec<Pattern>,
    pub melodic_patterns: Vec<MelodicPattern>,
    pub volume: u32,
    pub muted: bool,
    pub solo: bool,
}

/// What a track holds, as text and views.
pub struct TrackView {
    pub name: Seq<char>,
    pub patterns: Seq<PatternView>,
    pub melodic_patterns: Seq<MelodicView>,
    pub volume: u32,
    pub muted: bool,
    pub solo: bool,
}

impl View for Track {
    type V = TrackView;

    open spec fn view(&self) -> TrackView {
        TrackView {
            name: self.name@,
            patterns: self.patterns@.map_values(|p: Pattern| p@),
            melodic_patterns: self.melodic_patterns@.map_values(|m: MelodicPattern| m@),
            volume: self.volume,
            muted: self.muted,
            solo: self.solo,
        }
    }
}

impl Track {
    /// An empty track at full volume, neither muted nor soloed.
    pub fn new(name: String) -> (t: Track)
        ensures
            t.name == name,
            t@.patterns.len() == 0,
            t@.melodic_patterns.len() == 0,
            t.volume == 1000,
            !t.muted,
            !t.solo,
    {
        let t = Track {
            name,
            patterns: Vec::new(),
            melodic_patterns: Vec::new(),
            volume: 1000,
            muted: false,
            solo: false,
        };
        assert(t@.patterns =~= Seq::<PatternView>::empty());
        assert(t@.melodic_patterns =~= Seq::<MelodicView>::empty());
        t
    }
}

/// A song: a tempo in beats per minute and named tracks.
#[derive(Clone, Debug)]
pub struct Song {
    pub name: String,
    pub bpm: u32,
    pub tracks: NameMap<Track>,
}

/// What a song holds, as text and views.
pub struct SongView {
    pub name: Seq<char>,
    pub bpm: u32,
    pub tracks: Seq<(Seq<char>, TrackView)>,
}

impl View for Song {
    type V = SongView;

    open spec fn view(&self) -> SongView {
        SongView { name: self.name@, bpm: self.bpm, tracks: self.tracks@ }
    }
}

impl Song {
    /// A song with no tracks.
    pub fn new(name: String, bpm: u32) -> (s: Song)
        ensures
            s.name == name,
            s.bpm == bpm,
            s.tracks@.len() == 0,
    {
        Song { name, bpm, tracks: NameMap::new() }
    }
}

/// Something that sounds at a step: a drum hit, or a note, each with the
/// instrument that plays it.
#[derive(Clone, Debug, PartialEq, Eq)]
pub enum StepEvent {
    Hit { instrument: String },
    Tone { note: Note, instrument: String },
}

/// What a step event holds, with the instrument as text.
pub enum StepEventView {
    Hit { instrument: Seq<char> },
    Tone { note: Note, instrument: Seq<char> },
}

impl View for StepEvent {
    type V = StepEventView;

    open spec fn view(&self) -> StepEventView {
        match self {
            StepEvent::Hit { instrument } => StepEventView::Hit { instrument: instrument@ },
            StepEvent::Tone { note, instrument } => StepEventView::Tone {
                note: *note,
                instrument: instrument@,
            },
        }
    }
}

/// The views of a list of step events.
pub open spec fn events_view(v: Seq<StepEvent>) -> Seq<StepEventView> {
    v.map_values(|e: StepEvent| e@)
}

/// The hits of drum patterns at `step`, in pattern order.
pub open spec fn pattern_events(ps: Seq<PatternView>, step: int) -> Seq<StepEventView>
    decreases ps.len(),
{
    if ps.len() == 0 {
        Seq::empty()
    } else {
        pattern_events(ps.drop_last(), step) + if pattern_hits_at(ps.last(), step) {
            seq![StepEventView::Hit { instrument: ps.last().instrument }]
        } else {
            Seq::empty()
        }
    }
}

/// The notes of melodic patterns at `step` (rests give nothing), in
/// pattern order; each pattern's notes are repeated cyclically.
pub open spec fn melodic_events(ms: Seq<MelodicView>, step: int) -> Seq<StepEventView>
    decreases ms.len(),
{
    if ms.len() == 0 {
        Seq::empty()
    } else {
        let m = ms.last();
        melodic_events(ms.drop_last(), step) + match m.notes[step % (m.notes.len() as int)] {
            Some(n) => seq![StepEventView::Tone { note: n, instrument: m.instrument }],
            None => Seq::empty(),
        }
    }
}

/// What a track plays at `step`: nothing when muted, else its drum hits
/// followed by its notes.
pub open spec fn track_events(t: TrackView, step: int) -> Seq<StepEventView> {
    if t.muted {
        Seq::empty()
    } else {
        pattern_events(t.patterns, step) + melodic_events(t.melodic_patterns, step)
    }
}

/// What the tracks play at `step`, track after track.
pub open spec fn song_events(ts: Seq<(Seq<char>, TrackView)>, step: int) -> Seq<StepEventView>
    decreases ts.len(),
{
    if ts.len() == 0 {
        Seq::empty()
    } else {
        song_events(ts.drop_last(), step) + track_events(ts.last().1, step)
    }
}

/// Whether the track's patterns all have at least one step.
pub open spec fn track_playable(t: TrackView) -> bool {
    &&& forall|j: int| 0 <= j < t.patterns.len() ==> (#[trigger] t.patterns[j]).steps.len() > 0
    &&& forall|j: int|
        0 <= j < t.melodic_patterns.len() ==> (#[trigger] t.melodic_patterns[j]).notes.len() > 0
}

/// Whether every pattern of every track that is not muted has at least one step.
pub open spec fn tracks_playable(ts: Seq<(Seq<char>, TrackView)>) -> bool {
    forall|i: int| 0 <= i < ts.len() && !(#[trigger] ts[i]).1.muted ==> track_playable(ts[i].1)
}

fn track_events_exec(t: &Track, step: usize, out: &mut Vec<StepEvent>)
    requires
        !t.muted ==> track_playable(t@),
    ensures
        events_view(final(out)@) == events_view(old(out)@) + track_events(t@, step as int),
{
    if t.muted {
        assert(events_view(old(out)@) + track_events(t@, step as int) =~= events_view(old(out)@));
        return;
    }
    let ghost start = events_view(out@);
    let ghost ps = t@.patterns;
    let ghost ms = t@.melodic_patterns;
    let mut i: usize = 0;
    while i < t.patterns.len()
        invariant
            i <= t.patterns@.len(),
            ps == t@.patterns,
            !t.muted,
            forall|j: int| 0 <= j < ps.len() ==> (#[trigger] ps[j]).steps.len() > 0,
            events_view(out@) == start + pattern_events(ps.take(i as int), step as int),
        decreases t.patterns@.len() - i,
    {
        assert(ps[i as int] == t.patterns@[i as int]@);
        let hit = t.patterns[i].is_active(step);
        assert(ps.take(i + 1).drop_last() =~= ps.take(i as int));
        let ghost before = out@;
        if hit {
            let ev = StepEvent::Hit { instrument: t.patterns[i].instrument.clone() };
            out.push(ev);
            assert(events_view(out@) =~= events_view(before).push(ev@));
        }
        assert(events_view(out@) =~= start + pattern_events(ps.take(i + 1), step as int));
        i = i + 1;
    }
    assert(ps.take(i as int) =~= ps);
    let ghost mid = events_view(out@);
    let mut k: usize = 0;
    while k < t.melodic_patterns.len()
        invariant
            k <= t.melodic_patterns@.len(),
            ms == t@.melodic_patterns,
            !t.muted,
            forall|j: int| 0 <= j < ms.len() ==> (#[trigger] ms[j]).notes.len() > 0,
            events_view(out@) == mid + melodic_events(ms.take(k as int), step as int),
        decreases t.melodic_patterns@.len() - k,
    {
        let m = &t.melodic_patterns[k];
        assert(ms[k as int] == m@);
        assert(m.notes.len() > 0);
        let slot = m.notes[step % m.notes.len()];
        assert(ms.take(k + 1).drop_last() =~= ms.take(k as int));
        let ghost before = out@;
        match slot {
            Some(n) => {
                let ev = StepEvent::Tone { note: n, instrument: m.instrument.clone() };
                out.push(ev);
                assert(events_view(out@) =~= events_view(before).push(ev@));
            },
            None => {},
        }
        assert(events_view(out@) =~= mid + melodic_events(ms.take(k + 1), step as int));
        k = k + 1;
    }
    assert(ms.take(k as int) =~= ms);
    assert(events_view(out@) =~= start + track_events(t@, step as int));
}

/// The number of sixteenth-note steps after which playback starts over.
pub const STEPS_PER_CYCLE: usize = 16;

impl Song {
    /// Whether every pattern of every track that is not muted has a step
    /// (see `tracks_playable`), as finding a step's events requires.
    pub fn playable(&self) -> (r: bool)
        ensures
            r == tracks_playable(self.tracks@),
    {
        let ghost ts = self.tracks@;
        let n = self.tracks.len();
        let mut i: usize = 0;
        while i < n
            invariant
                i <= n,
                n == ts.len(),
                ts == self.tracks@,
                forall|j: int| 0 <= j < i && !(#[trigger] ts[j]).1.muted ==> track_playable(ts[j].1),
            decreases n - i,
        {
            let (_key, t) = self.tracks.entry(i);
            assert(ts[i as int].1 == t@);
            if !t.muted {
                let mut j: usize = 0;
                while j < t.patterns.len()
                    invariant
                        j <= t.patterns@.len(),
                        i < ts.len(),
                        ts[i as int].1 == t@,
                        ts == self.tracks@,
                        !t.muted,
                        forall|k: int| 0 <= k < j ==> (#[trigger] t@.patterns[k]).steps.len() > 0,
                    decreases t.patterns@.len() - j,
                {
                    assert(t@.patterns[j as int] == t.patterns@[j as int]@);
                    if t.patterns[j].steps.len() == 0 {
                        assert(!track_playable(ts[i as int].1));
                        assert(!tracks_playable(ts));
                        return false;
                    }
                    j = j + 1;
                }
                let mut j: usize = 0;
                while j < t.melodic_patterns.len()
                    invariant
                        j <= t.melodic_patterns@.len(),
                        i < ts.len(),
                        ts[i as int].1 == t@,
                        ts == self.tracks@,
                        !t.muted,
                        forall|k: int| 0 <= k < j ==> (#[trigger] t@.melodic_patterns[k]).notes.len() > 0,
                    decreases t.melodic_patterns@.len() - j,
                {
                    assert(t@.melodic_patterns[j as int] == t.melodic_patterns@[j as int]@);
                    if t.melodic_patterns[j].notes.len() == 0 {
                        assert(!track_playable(ts[i as int].1));
                        assert(!tracks_playable(ts));
                        return false;
                    }
                    j = j + 1;
                }
            }
            i = i + 1;
        }
        true
    }

    /// What the song plays at step `step` of its 16-step cycle, track by
    /// track (see `song_events`).
    pub fn events_at(&self, step: usize) -> (r: Vec<StepEvent>)
        requires
            tracks_playable(self.tracks@),
        ensures
            events_view(r@) == song_events(self.tracks@, step as int),
    {
        let ghost ts = self.tracks@;
        let mut out: Vec<StepEvent> = Vec::new();
        let n = self.tracks.len();
        let mut i: usize = 0;
        assert(events_view(out@) =~= song_events(ts.take(0), step as int));
        while i < n
            invariant
                i <= n,
                n == ts.len(),
                ts == self.tracks@,
                tracks_playable(ts),
                events_view(out@) == song_events(ts.take(i as int), step as int),
            decreases n - i,
        {
            let (_key, t) = self.tracks.entry(i);
            assert(ts[i as int].1 == t@);
            assert(ts.take(i + 1).drop_last() =~= ts.take(i as int));
            track_events_exec(t, step, &mut out);
            i = i + 1;
        }
        assert(ts.take(n as int) =~= ts);
        out
    }

    /// What the song plays at the `count`-th sixteenth note from the start:
    /// the events of its step in the 16-step cycle.
    pub fn events_at_count(&self, count: usize) -> (r: Vec<StepEvent>)
        requires
            tracks_playable(self.tracks@),
        ensures
            events_view(r@) == song_events(self.tracks@, (count % STEPS_PER_CYCLE) as int),
    {
        self.events_at(count % STEPS_PER_CYCLE)
    }
}

/// A muted track plays nothing, whatever its patterns.
pub proof fn law_muted_track_silent(t: TrackView, step: int)
    requires
        t.muted,
    ensures
        track_events(t, step) == Seq::<StepEventView>::empty(),
{
}

/// A track that is not muted and holds one drum pattern plays a hit of the
/// pattern's instrument at a step exactly when the pattern's character for
/// that step is `x` or `X`.
pub proof fn law_single_pattern_hits(t: TrackView, step: int)
    requires
        !t.muted,
        t.patterns.len() == 1,
        t.melodic_patterns.len() == 0,
    ensures
        track_events(t, step) == (if is_hit_char(
            t.patterns[0].steps[step % (t.patterns[0].steps.len() as int)],
        ) {
            seq![StepEventView::Hit { instrument: t.patterns[0].instrument }]
        } else {
            Seq::<StepEventView>::empty()
        }),
{
    assert(t.patterns.drop_last() =~= Seq::<PatternView>::empty());
    assert(t.patterns.last() == t.patterns[0]);
    assert(melodic_events(t.melodic_patterns, step) == Seq::<StepEventView>::empty());
    assert(pattern_events(t.patterns.drop_last(), step) == Seq::<StepEventView>::empty());
    if is_hit_char(t.patterns[0].steps[step % (t.patterns[0].steps.len() as int)]) {
        assert(track_events(t, step) =~= seq![StepEventView::Hit { instrument: t.patterns[0].instrument }]);
    } else {
        assert(track_events(t, step) =~= Seq::<StepEventView>::empty());
    }
}

/// The tracks that are not muted, in order.
pub open spec fn unmuted_tracks(ts: Seq<(Seq<char>, TrackView)>) -> Seq<(Seq<char>, TrackView)>
    decreases ts.len(),
{
    if ts.len() == 0 {
        Seq::empty()
    } else if ts.last().1.muted {
        unmuted_tracks(ts.drop_last())
    } else {
        unmuted_tracks(ts.drop_last()).push(ts.last())
    }
}

/// Removing the muted tracks changes nothing that a song plays; a song
/// whose tracks are all muted (or that has none) plays nothing.
pub proof fn law_muted_tracks_do_not_sound(ts: Seq<(Seq<char>, TrackView)>, step: int)
    ensures
        song_events(unmuted_tracks(ts), step) == song_events(ts, step),
        (forall|i: int| 0 <= i < ts.len() ==> (#[trigger] ts[i]).1.muted) ==> song_events(ts, step)
            == Seq::<StepEventView>::empty(),
    decreases ts.len(),
{
    if ts.len() > 0 {
        let init = ts.drop_last();
        law_muted_tracks_do_not_sound(init, step);
        let u = unmuted_tracks(init);
        if !ts.last().1.muted {
            assert(u.push(ts.last()).drop_last() =~= u);
            assert(song_events(u.push(ts.last()), step) == song_events(u, step) + track_events(ts.last().1, step));
        } else {
            assert(track_events(ts.last().1, step) =~= Seq::<StepEventView>::empty());
            assert(song_events(ts, step) =~= song_events(init, step));
        }
        if forall|i: int| 0 <= i < ts.len() ==> (#[trigger] ts[i]).1.muted {
            assert forall|i: int| 0 <= i < init.len() implies (#[trigger] init[i]).1.muted by {
                assert(init[i] == ts[i]);
            }
            assert(ts.last().1.muted);
            assert(song_events(ts, step) =~= Seq::<StepEventView>::empty());
        }
    }
}

/// Whether two sequences have the same length and agree at every position
/// below 16.
pub open spec fn agree_in_cycle<X>(a: Seq<X>, b: Seq<X>) -> bool {
    a.len() == b.len() && forall|k: int| 0 <= k < 16 && k < a.len() ==> #[trigger] a[k] == b[k]
}

/// Whether two lists of tracks differ at most in what their patterns hold
/// from the seventeenth step on (and in names and volumes).
pub open spec fn tracks_agree_in_cycle(a: Seq<(Seq<char>, TrackView)>, b: Seq<(Seq<char>, TrackView)>) -> bool {
    &&& a.len() == b.len()
    &&& forall|i: int| 0 <= i < a.len() ==> #[trigger] track_agrees_in_cycle(a[i].1, b[i].1)
}

/// Whether two tracks differ at most in what their patterns hold from the
/// seventeenth step on (and in names and volumes).
pub open spec fn track_agrees_in_cycle(t: TrackView, u: TrackView) -> bool {
    &&& t.muted == u.muted
    &&& t.patterns.len() == u.patterns.len()
    &&& t.melodic_patterns.len() == u.melodic_patterns.len()
    &&& forall|j: int|
        0 <= j < t.patterns.len() ==> (#[trigger] t.patterns[j]).instrument == u.patterns[j].instrument
            && agree_in_cycle(t.patterns[j].steps, u.patterns[j].steps)
    &&& forall|j: int|
        0 <= j < t.melodic_patterns.len() ==> (#[trigger] t.melodic_patterns[j]).instrument
            == u.melodic_patterns[j].instrument && agree_in_cycle(
            t.melodic_patterns[j].notes,
            u.melodic_patterns[j].notes,
        )
}

proof fn lemma_index_in_cycle(step: int, len: int)
    requires
        0 <= step < 16,
        len > 0,
    ensures
        0 <= step % len < 16,
        step % len < len,
{
    vstd::arithmetic::div_mod::lemma_mod_decreases(step as nat, len as nat);
}

proof fn lemma_patterns_in_cycle(ps: Seq<PatternView>, qs: Seq<PatternView>, step: int)
    requires
        0 <= step < 16,
        ps.len() == qs.len(),
        forall|j: int|
            0 <= j < ps.len() ==> (#[trigger] ps[j]).instrument == qs[j].instrument && agree_in_cycle(
                ps[j].steps,
                qs[j].steps,
            ),
    ensures
        pattern_events(ps, step) == pattern_events(qs, step),
    decreases ps.len(),
{
    if ps.len() > 0 {
        let n = ps.len() - 1;
        assert forall|j: int| 0 <= j < ps.drop_last().len() implies (#[trigger] ps.drop_last()[j]).instrument
            == qs.drop_last()[j].instrument && agree_in_cycle(ps.drop_last()[j].steps, qs.drop_last()[j].steps) by {
            assert(ps.drop_last()[j] == ps[j]);
            assert(qs.drop_last()[j] == qs[j]);
        }
        lemma_patterns_in_cycle(ps.drop_last(), qs.drop_last(), step);
        let p = ps[n];
        let q = qs[n];
        assert(p.instrument == q.instrument && agree_in_cycle(p.steps, q.steps));
        if p.steps.len() > 0 {
            lemma_index_in_cycle(step, p.steps.len() as int);
            assert(p.steps[step % (p.steps.len() as int)] == q.steps[step % (p.steps.len() as int)]);
        } else {
            assert(p.steps =~= q.steps);
        }
        assert(pattern_hits_at(ps.last(), step) == pattern_hits_at(qs.last(), step));
    }
}

proof fn lemma_melodic_in_cycle(ms: Seq<MelodicView>, ns: Seq<MelodicView>, step: int)
    requires
        0 <= step < 16,
        ms.len() == ns.len(),
        forall|j: int|
            0 <= j < ms.len() ==> (#[trigger] ms[j]).instrument == ns[j].instrument && agree_in_cycle(
                ms[j].notes,
                ns[j].notes,
            ),
    ensures
        melodic_events(ms, step) == melodic_events(ns, step),
    decreases ms.len(),
{
    if ms.len() > 0 {
        let n = ms.len() - 1;
        assert forall|j: int| 0 <= j < ms.drop_last().len() implies (#[trigger] ms.drop_last()[j]).instrument
            == ns.drop_last()[j].instrument && agree_in_cycle(ms.drop_last()[j].notes, ns.drop_last()[j].notes) by {
            assert(ms.drop_last()[j] == ms[j]);
            assert(ns.drop_last()[j] == ns[j]);
        }
        lemma_melodic_in_cycle(ms.drop_last(), ns.drop_last(), step);
        let m = ms[n];
        let o = ns[n];
        assert(m.instrument == o.instrument && agree_in_cycle(m.notes, o.notes));
        if m.notes.len() > 0 {
            lemma_index_in_cycle(step, m.notes.len() as int);
            assert(m.notes[step % (m.notes.len() as int)] == o.notes[step % (m.notes.len() as int)]);
        } else {
            assert(m.notes =~= o.notes);
        }
        assert(ms.last() == m);
        assert(ns.last() == o);
    }
}

/// Playback cycles through sixteen steps: what a song plays at any
/// sixteenth note is unchanged when its patterns change only from their
/// seventeenth step on, and it repeats every sixteen sixteenth notes.
pub proof fn law_sixteen_step_cycle(
    ts: Seq<(Seq<char>, TrackView)>,
    us: Seq<(Seq<char>, TrackView)>,
    count: nat,
)
    requires
        tracks_agree_in_cycle(ts, us),
    ensures
        song_events(ts, (count % 16) as int) == song_events(us, (count % 16) as int),
        song_events(ts, ((count + 16) % 16) as int) == song_events(ts, (count % 16) as int),
    decreases ts.len(),
{
    let step = (count % 16) as int;
    assert((count + 16) % 16 == count % 16) by {
        vstd::arithmetic::div_mod::lemma_mod_add_multiples_vanish(count as int, 16);
    }
    if ts.len() > 0 {
        let n = ts.len() - 1;
        assert forall|i: int| 0 <= i < ts.drop_last().len() implies #[trigger] track_agrees_in_cycle(
            ts.drop_last()[i].1,
            us.drop_last()[i].1,
        ) by {
            assert(ts.drop_last()[i] == ts[i]);
            assert(us.drop_last()[i] == us[i]);
        }
        law_sixteen_step_cycle(ts.drop_last(), us.drop_last(), count);
        let t = ts[n].1;
        let u = us[n].1;
        assert(track_agrees_in_cycle(t, u));
        lemma_patterns_in_cycle(t.patterns, u.patterns, step);
        lemma_melodic_in_cycle(t.melodic_patterns, u.melodic_patterns, step);
        assert(ts.last() == ts[n]);
        assert(us.last() == us[n]);
        assert(track_events(t, step) == track_events(u, step));
    }
}


/// The twelve pitch classes are twelve consecutive semitones from C: C is 0,
/// C# 1, D 2, D# 3, E 4, F 5, F# 6, G 7, G# 8, A 9, A# 10, B 11; so each
/// sharp lies one semitone above its natural, and no two classes share a
/// semitone. A4 is the note zero semitones from A4, and F#4 lies three
/// semitones below it.
pub proof fn law_pitch_classes(p: NotePitch, q: NotePitch)
    ensures
        semitone_of(NotePitch::C) == 0,
        semitone_of(NotePitch::Cs) == 1,
        semitone_of(NotePitch::D) == 2,
        semitone_of(NotePitch::Ds) == 3,
        semitone_of(NotePitch::E) == 4,
        semitone_of(NotePitch::F) == 5,
        semitone_of(NotePitch::Fs) == 6,
        semitone_of(NotePitch::G) == 7,
        semitone_of(NotePitch::Gs) == 8,
        semitone_of(NotePitch::A) == 9,
        semitone_of(NotePitch::As) == 10,
        semitone_of(NotePitch::B) == 11,
        0 <= semitone_of(p) < 12,
        semitone_of(p) == semitone_of(q) ==> p == q,
        sharpened(p) != p ==> semitone_of(sharpened(p)) == semitone_of(p) + 1,
        forall|o: u8, v: u32|
            semitones_from_a4_of(Note { pitch: p, octave: o, velocity: v }) == semitone_of(p) + 12 * o - 57,
{
}

/// The drum patterns of a track sound independently: at each step, every
/// pattern whose character for that step is `x` or `X` gives one hit of its
/// own instrument, in the order of the patterns, and the others give
/// nothing. Adding a pattern adds its hit, if any, after the others.
pub proof fn law_drum_hits(ps: Seq<PatternView>, q: PatternView, step: int)
    ensures
        pattern_events(ps, step) == ps.filter_map(
            |p: PatternView|
                if p.steps[step % (p.steps.len() as int)] == 'x' || p.steps[step % (p.steps.len() as int)]
                    == 'X' {
                    Some(StepEventView::Hit { instrument: p.instrument })
                } else {
                    None
                },
        ),
        pattern_events(ps.push(q), step) == pattern_events(ps, step) + if q.steps[step % (q.steps.len() as int)]
            == 'x' || q.steps[step % (q.steps.len() as int)] == 'X' {
            seq![StepEventView::Hit { instrument: q.instrument }]
        } else {
            Seq::<StepEventView>::empty()
        },
    decreases ps.len(),
{
    if ps.len() > 0 {
        law_drum_hits(ps.drop_last(), ps.last(), step);
    }
    assert(ps.push(q).drop_last() =~= ps);
}

} // verus!
