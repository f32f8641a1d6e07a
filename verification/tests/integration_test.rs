use rsynth::ast::Modifier;
use rsynth::parser::{parse_song_file, ParseError};
use rsynth::patterns::{Note, NotePitch, Pattern, Song, StepEvent, Track};

fn hit(instrument: &str) -> StepEvent {
    StepEvent::Hit { instrument: instrument.to_string() }
}

#[test]
fn test_basic_pattern_parsing() {
    let input = r#"
tempo: 120bpm

drums = pattern {
    kick: "x...x...x...x..."
} @ 120bpm

[main: 4bars]
    drums
"#;

    let result = parse_song_file(input);
    assert!(result.is_ok());

    let song_file = result.unwrap();
    assert_eq!(song_file.tempo as f32, 120.0);
    assert!(song_file.patterns.contains_key("drums"));
}

#[test]
fn test_melodic_pattern_parsing() {
    let input = r#"
tempo: 120bpm

bassline = pattern {
    bass: "C2 . E2 . G2 . F2 ."
} @ 120bpm

[main: 4bars]
    bassline
"#;

    let result = parse_song_file(input);
    assert!(result.is_ok());

    let song_file = result.unwrap();
    let song = song_file.to_song();

    // Verify the melodic pattern was created
    let track = song.tracks.entry(0).1;
    assert_eq!(track.melodic_patterns.len(), 1);

    let pattern = &track.melodic_patterns[0];
    assert_eq!(pattern.notes.len(), 8); // "C2 . E2 . G2 . F2 ." = 8 steps

    // Check specific notes
    assert!(pattern.notes[0].is_some());
    assert!(pattern.notes[1].is_none()); // "." means rest
    assert!(pattern.notes[2].is_some());
}

/// The frequency of a note, 440 Hz raised by its semitone distance from A4.
fn frequency_of(note: &Note) -> f32 {
    440.0 * 2.0_f32.powf(note.semitones_from_a4() as f32 / 12.0)
}

#[test]
fn test_note_frequency_calculation() {
    let a4 = Note {
        pitch: NotePitch::A,
        octave: 4,
        velocity: 1000,
    };
    assert!((frequency_of(&a4) - 440.0).abs() < 0.01);

    let c4 = Note {
        pitch: NotePitch::C,
        octave: 4,
        velocity: 1000,
    };
    assert!((frequency_of(&c4) - 261.63).abs() < 0.01);
}

#[test]
fn full_song_parses_into_tracks() {
    let input = r#"
tempo: 128bpm

drums = pattern {
    kick:  "x...x...x...x...",
    snare: "....x.......x...",
    hihat: "..x...x...x...x."
} @ 128bpm

bassline = pattern {
    bass: "C2 . . . E2 . . . G2 . . . F2 . . ."
} @ 128bpm

[intro: 2bars]
    drums

[main: 4bars]
    drums
    bassline
"#;

    let song_file = parse_song_file(input).unwrap();
    assert_eq!(song_file.tempo, 128);
    assert_eq!(song_file.sections.len(), 2);
    assert_eq!(song_file.sections[0].name, "intro");
    assert_eq!(song_file.sections[0].bars, 2);
    assert_eq!(song_file.sections[1].items.len(), 2);
    assert_eq!(song_file.sections[1].items[1].pattern, "bassline");
    assert_eq!(song_file.patterns.get("drums").unwrap().tempo, Some(128));
    assert_eq!(
        song_file.patterns.get("drums").unwrap().tracks.get("kick").unwrap(),
        "\"x...x...x...x...\""
    );
    assert_eq!(song_file.instruments.len(), 4);

    let song = song_file.to_song();
    assert_eq!(song.name, "demo");
    assert_eq!(song.bpm, 128);
    assert_eq!(song.tracks.len(), 4);
    let kick = song.tracks.get("drums_kick").unwrap();
    assert_eq!(kick.patterns.len(), 1);
    assert_eq!(kick.patterns[0].length(), 16);
    assert_eq!(kick.patterns[0].instrument, "kick");
    let bass = song.tracks.get("bassline_bass").unwrap();
    assert_eq!(bass.melodic_patterns[0].notes.len(), 16);
    assert_eq!(
        bass.melodic_patterns[0].notes[4],
        Some(Note { pitch: NotePitch::E, octave: 2, velocity: 1000 })
    );

    // step 0: kick and the bass note C2; step 2: hi-hat only; step 4: kick, snare, E2
    let at0 = song.events_at(0);
    assert_eq!(at0.len(), 2);
    assert!(at0.contains(&hit("kick")));
    assert!(at0.contains(&StepEvent::Tone {
        note: Note { pitch: NotePitch::C, octave: 2, velocity: 1000 },
        instrument: "bass".to_string(),
    }));
    let at2 = song.events_at(2);
    assert_eq!(at2, vec![hit("hihat")]);
    let at4 = song.events_at(4);
    assert_eq!(at4.len(), 3);
    assert!(at4.contains(&hit("kick")));
    assert!(at4.contains(&hit("snare")));
    assert!(at4.contains(&StepEvent::Tone {
        note: Note { pitch: NotePitch::E, octave: 2, velocity: 1000 },
        instrument: "bass".to_string(),
    }));
}

#[test]
fn default_tempo_and_last_tempo_wins() {
    let f = parse_song_file("a = pattern { kick: \"x\" }").unwrap();
    assert_eq!(f.tempo, 120);
    let f = parse_song_file("tempo: 90bpm\ntempo: 140 bpm").unwrap();
    assert_eq!(f.tempo, 140);
    let f = parse_song_file("").unwrap();
    assert_eq!(f.tempo, 120);
    assert_eq!(f.patterns.len(), 0);
}

#[test]
fn syntax_error_reports_offset() {
    assert_eq!(
        parse_song_file("tempo: 120bpm\n  oops").err(),
        Some(ParseError::Syntax { offset: 16 })
    );
    assert_eq!(
        parse_song_file("tempo: bpm").err(),
        Some(ParseError::Syntax { offset: 0 })
    );
    assert_eq!(
        parse_song_file("d = pattern { kick: \"x... }").err(),
        Some(ParseError::Syntax { offset: 0 })
    );
}

#[test]
fn number_too_large_is_refused() {
    assert_eq!(
        parse_song_file("tempo: 99999999999bpm").err(),
        Some(ParseError::NumberTooLarge)
    );
    assert_eq!(
        parse_song_file("[a: 4294967296bars]").err(),
        Some(ParseError::NumberTooLarge)
    );
    assert_eq!(parse_song_file("tempo: 4294967295bpm").unwrap().tempo, u32::MAX);
}

#[test]
fn comments_modifiers_and_named_tempo() {
    let input = "// a comment\nbeat = pattern { kick: \"x.\" snare: \".x\", } @ bass // tail\n[drop: 16bars]\n  beat * 2\n  beat.kick only\n  beat *99999999999\n";
    let f = parse_song_file(input).unwrap();
    let def = f.patterns.get("beat").unwrap();
    assert_eq!(def.tempo, Some(120));
    assert_eq!(def.tracks.len(), 2);
    let sec = &f.sections[0];
    assert_eq!(sec.items.len(), 3);
    assert_eq!(sec.items[0].modifier, Some(Modifier::Multiply(2)));
    assert_eq!(sec.items[1].pattern, "beat.kick");
    assert_eq!(sec.items[1].modifier, Some(Modifier::Only));
    assert_eq!(sec.items[2].modifier, Some(Modifier::Multiply(1)));
}

#[test]
fn section_stops_before_next_definition() {
    let input = "[a: 1bars]\n  x\nb = pattern { kick: \"x\" }\n[c: 2bars] y tempo: 100bpm";
    let f = parse_song_file(input).unwrap();
    assert_eq!(f.sections.len(), 2);
    assert_eq!(f.sections[0].items.len(), 1);
    assert_eq!(f.sections[1].items.len(), 1);
    assert!(f.patterns.contains_key("b"));
    assert_eq!(f.tempo, 100);
}

#[test]
fn later_definition_replaces_earlier() {
    let input = "p = pattern { kick: \"x...\", kick: \"xx\" }\np = pattern { snare: \"..x\" }";
    let f = parse_song_file(input).unwrap();
    assert_eq!(f.patterns.len(), 1);
    let def = f.patterns.get("p").unwrap();
    assert!(def.tracks.get("kick").is_none());
    assert_eq!(def.tracks.get("snare").unwrap(), "\"..x\"");
    let f = parse_song_file("p = pattern { kick: \"x...\", kick: \"xx\" }").unwrap();
    assert_eq!(f.patterns.get("p").unwrap().tracks.get("kick").unwrap(), "\"xx\"");
}

#[test]
fn note_parse_cases() {
    let n = |p, o| Some(Note { pitch: p, octave: o, velocity: 1000 });
    assert_eq!(Note::parse("C2"), n(NotePitch::C, 2));
    assert_eq!(Note::parse("F#3"), n(NotePitch::Fs, 3));
    assert_eq!(Note::parse("C#"), n(NotePitch::Cs, 4));
    assert_eq!(Note::parse("E#5"), n(NotePitch::E, 5));
    assert_eq!(Note::parse("B7x"), n(NotePitch::B, 7));
    assert_eq!(Note::parse("."), None);
    assert_eq!(Note::parse(""), None);
    assert_eq!(Note::parse("C"), None);
    assert_eq!(Note::parse("H2"), None);
    assert_eq!(Note::parse("Cx"), None);
    assert_eq!(Note::parse("c2"), None);
}

#[test]
fn semitones_from_a4() {
    let note = |p, o| Note { pitch: p, octave: o, velocity: 1000 };
    assert_eq!(note(NotePitch::A, 4).semitones_from_a4(), 0);
    assert_eq!(note(NotePitch::C, 4).semitones_from_a4(), -9);
    assert_eq!(note(NotePitch::A, 5).semitones_from_a4(), 12);
    assert_eq!(note(NotePitch::As, 3).semitones_from_a4(), -11);
    assert_eq!(note(NotePitch::B, 255).semitones_from_a4(), 2 + 251 * 12);
    assert_eq!(NotePitch::Gs.semitone(), 8);
}

#[test]
fn pattern_steps_cycle() {
    let p = Pattern::new("p".to_string(), "x..X", "kick".to_string());
    assert_eq!(p.length(), 4);
    assert!(p.is_active(0));
    assert!(!p.is_active(1));
    assert!(p.is_active(3));
    assert!(p.is_active(4));
    assert!(p.is_active(7));
    assert!(!p.is_active(6));
    let u = Pattern::new("u".to_string(), "xé.", "kick".to_string());
    assert_eq!(u.length(), 3);
    assert_eq!(u.steps, vec!['x', 'é', '.']);
}

#[test]
fn muted_track_is_silent() {
    let mut song = Song::new("s".to_string(), 120);
    let mut track = Track::new("t".to_string());
    assert_eq!(track.volume, 1000);
    track.patterns.push(Pattern::new("p".to_string(), "xxxx", "kick".to_string()));
    track.muted = true;
    song.tracks.insert("t".to_string(), track);
    assert!(song.events_at(0).is_empty());
    let mut other = Track::new("o".to_string());
    other.patterns.push(Pattern::new("p".to_string(), "x.", "kick".to_string()));
    song.tracks.insert("o".to_string(), other);
    assert_eq!(song.events_at(0), vec![hit("kick")]);
    assert!(song.events_at(1).is_empty());
    assert_eq!(song.tracks.len(), 2);
}

#[test]
fn song_track_names_join_pattern_and_instrument() {
    let f = parse_song_file("a_b = pattern { c: \"x\" }\na = pattern { b_c: \"C4\" }").unwrap();
    let song = f.to_song();
    // both join to "a_b_c": the later pattern's track replaces the earlier one
    assert_eq!(song.tracks.len(), 1);
    let t = song.tracks.get("a_b_c").unwrap();
    assert_eq!(t.patterns.len(), 0);
    assert_eq!(t.melodic_patterns.len(), 1);
    assert_eq!(t.melodic_patterns[0].name, "a");
}

#[test]
fn pattern_text_classification() {
    let f = parse_song_file("p = pattern { a: \"x.X.\", b: \"xAx\", c: \"\", d: \"  C4   D#2 \" }").unwrap();
    let song = f.to_song();
    assert_eq!(song.tracks.get("p_a").unwrap().patterns[0].steps, vec!['x', '.', 'X', '.']);
    assert_eq!(song.tracks.get("p_b").unwrap().melodic_patterns[0].notes, vec![None]);
    assert_eq!(song.tracks.get("p_c").unwrap().patterns[0].length(), 0);
    assert_eq!(
        song.tracks.get("p_d").unwrap().melodic_patterns[0].notes,
        vec![
            Some(Note { pitch: NotePitch::C, octave: 4, velocity: 1000 }),
            Some(Note { pitch: NotePitch::Ds, octave: 2, velocity: 1000 })
        ]
    );
}

use rsynth::atoms::{Envelope, FilterType, WaveformType};
use rsynth::instruments::{instrument_voice, InstrumentDefinition, InstrumentLibrary, Voice};
use rsynth::sequencer::{frame_count, PositionChange, SequencerState, TransportCommand};

#[test]
fn instrument_library_add_then_get() {
    let mut lib = InstrumentLibrary::default();
    assert_eq!(lib.get("kick").unwrap().amplitude, 800);
    assert!(lib.get("lead").is_none());
    let lead = InstrumentDefinition {
        name: "lead".to_string(),
        oscillator: WaveformType::Square,
        envelope: Envelope::default(),
        filter: None,
        amplitude: 500,
    };
    lib.add(lead);
    assert_eq!(lib.get("lead").unwrap().oscillator, WaveformType::Square);
    assert_eq!(lib.get("snare").unwrap().amplitude, 600);
    let mut louder_kick = InstrumentDefinition::kick();
    louder_kick.amplitude = 1000;
    lib.add(louder_kick);
    assert_eq!(lib.get("kick").unwrap().amplitude, 1000);
    assert_eq!(lib.get("bass").unwrap().oscillator, WaveformType::Saw);
}

#[test]
fn builtin_instruments_and_voices() {
    let kick = InstrumentDefinition::kick();
    assert_eq!(kick.name, "kick");
    assert_eq!(kick.envelope, Envelope { attack: 1, decay: 500, sustain: 0, release: 0 });
    assert_eq!(instrument_voice(&kick), Voice::Kick);
    let snare = InstrumentDefinition::snare();
    assert_eq!(snare.filter, Some(FilterType::HighPass { cutoff: 2_000_000, resonance: 1000 }));
    assert_eq!(
        instrument_voice(&snare),
        Voice::HighPassNoise { cutoff: 2_000_000, resonance: 1000 }
    );
    let hihat = InstrumentDefinition::hihat();
    assert_eq!(hihat.envelope.decay, 50);
    assert_eq!(
        instrument_voice(&hihat),
        Voice::HighPassNoise { cutoff: 8_000_000, resonance: 1000 }
    );
    let bass = InstrumentDefinition::bass();
    assert_eq!(bass.envelope, Envelope::default());
    assert_eq!(instrument_voice(&bass), Voice::LowPassSaw { cutoff: 200_000, resonance: 300 });
    let mut sine = InstrumentDefinition::kick();
    sine.name = "pad".to_string();
    assert_eq!(instrument_voice(&sine), Voice::Sine);
    sine.oscillator = WaveformType::Triangle;
    assert_eq!(instrument_voice(&sine), Voice::Oscillator(WaveformType::Triangle));
    let mut named_kick = InstrumentDefinition::bass();
    named_kick.name = "kick".to_string();
    assert_eq!(instrument_voice(&named_kick), Voice::Kick);
}

#[test]
fn envelope_default_values() {
    assert_eq!(
        Envelope::default(),
        Envelope { attack: 10, decay: 100, sustain: 800, release: 200 }
    );
}

#[test]
fn sequencer_transitions() {
    let mut state = SequencerState::new(Song::new("a".to_string(), 120));
    assert!(!state.sounding());
    assert_eq!(state.handle(TransportCommand::Play), PositionChange::Keep);
    assert!(state.sounding());
    assert_eq!(state.handle(TransportCommand::SetPosition), PositionChange::ToRequested);
    assert!(state.playing);
    assert_eq!(
        state.handle(TransportCommand::UpdateSong(Song::new("b".to_string(), 90))),
        PositionChange::Keep
    );
    assert_eq!(state.song.bpm, 90);
    assert!(state.playing);
    assert_eq!(state.handle(TransportCommand::Stop), PositionChange::ToStart);
    assert!(!state.sounding());
    assert_eq!(frame_count(7), 3);
    assert_eq!(frame_count(8), 4);
}

#[test]
fn one_track_pattern_text() {
    let f = parse_song_file("drums=pattern{kick:\"x..x // ..\"}").unwrap();
    assert_eq!(f.tempo, 120);
    assert_eq!(f.patterns.len(), 1);
    assert_eq!(f.patterns.get("drums").unwrap().tempo, None);
    let song = f.to_song();
    assert_eq!(song.tracks.len(), 1);
    let (name, track) = song.tracks.entry(0);
    assert_eq!(name, "drums_kick");
    let steps: String = track.patterns[0].steps.iter().collect();
    assert_eq!(steps, "x..x // ..");
}

#[test]
fn rest_word_is_no_note() {
    assert_eq!(Note::parse("."), None);
    let f = parse_song_file("m = pattern { lead: \". A3 .\" }").unwrap();
    let song = f.to_song();
    let notes = &song.tracks.get("m_lead").unwrap().melodic_patterns[0].notes;
    assert_eq!(notes.len(), 3);
    assert_eq!(notes[0], None);
    assert_eq!(notes[1], Some(Note { pitch: NotePitch::A, octave: 3, velocity: 1000 }));
}

#[test]
fn events_repeat_every_sixteen_steps() {
    let f = parse_song_file("d = pattern { kick: \"x...x...x...x...xx\" }").unwrap();
    let song = f.to_song();
    assert_eq!(song.events_at_count(0), vec![hit("kick")]);
    assert_eq!(song.events_at_count(16), vec![hit("kick")]);
    assert!(song.events_at_count(17).is_empty());
    assert_eq!(song.events_at(17), vec![hit("kick")]);
    assert_eq!(song.events_at_count(20), vec![hit("kick")]);
}

#[test]
fn written_statements_read_back() {
    let text = "tempo:90bpm\nd=pattern{kick:\"x.\",snare:\".x\",}@120bpm\n[a:2bars] d only b.c*3 e\nm=pattern{}@x\n";
    let f = parse_song_file(text).unwrap();
    assert_eq!(f.tempo, 90);
    let d = f.patterns.get("d").unwrap();
    assert_eq!(d.tempo, Some(120));
    assert_eq!(d.tracks.len(), 2);
    assert_eq!(d.tracks.get("snare").unwrap(), "\".x\"");
    assert_eq!(f.patterns.get("m").unwrap().tempo, Some(120));
    assert_eq!(f.patterns.get("m").unwrap().tracks.len(), 0);
    let sec = &f.sections[0];
    assert_eq!(sec.name, "a");
    assert_eq!(sec.bars, 2);
    assert_eq!(sec.items.len(), 3);
    assert_eq!(sec.items[0].modifier, Some(Modifier::Only));
    assert_eq!(sec.items[1].pattern, "b.c");
    assert_eq!(sec.items[1].modifier, Some(Modifier::Multiply(3)));
    assert_eq!(sec.items[2].pattern, "e");
    assert_eq!(sec.items[2].modifier, None);
}

use rsynth::sequencer::PositionOutcome;
use rsynth::text::is_whitespace;

#[test]
fn playable_needs_steps_in_sounding_tracks() {
    let mut song = Song::new("s".to_string(), 120);
    assert!(song.playable());
    let mut empty = Track::new("e".to_string());
    empty.patterns.push(Pattern::new("p".to_string(), "", "kick".to_string()));
    song.tracks.insert("e".to_string(), empty);
    assert!(!song.playable());
    let mut muted = Track::new("e".to_string());
    muted.patterns.push(Pattern::new("p".to_string(), "", "kick".to_string()));
    muted.muted = true;
    song.tracks.insert("e".to_string(), muted);
    assert!(song.playable());
    let f = parse_song_file("d = pattern { kick: \"x.\", lead: \"A3 .\" }").unwrap();
    assert!(f.to_song().playable());
}

#[test]
fn removing_muted_tracks_changes_no_step() {
    let mut with_muted = Song::new("s".to_string(), 120);
    let mut loud = Track::new("a".to_string());
    loud.patterns.push(Pattern::new("p".to_string(), "x.x.", "snare".to_string()));
    let mut quiet = Track::new("b".to_string());
    quiet.patterns.push(Pattern::new("q".to_string(), "xxxx", "kick".to_string()));
    quiet.muted = true;
    with_muted.tracks.insert("b".to_string(), quiet);
    with_muted.tracks.insert("a".to_string(), loud.clone());
    let mut without = Song::new("s".to_string(), 120);
    without.tracks.insert("a".to_string(), loud);
    for count in 0..40 {
        assert_eq!(with_muted.events_at_count(count), without.events_at_count(count));
    }
    assert_eq!(with_muted.events_at_count(0), vec![hit("snare")]);
    let mut all_muted = Song::new("m".to_string(), 120);
    let mut t = Track::new("t".to_string());
    t.patterns.push(Pattern::new("p".to_string(), "xxxx", "kick".to_string()));
    t.muted = true;
    all_muted.tracks.insert("t".to_string(), t);
    for count in 0..20 {
        assert!(all_muted.events_at_count(count).is_empty());
    }
}

#[test]
fn steps_past_sixteen_never_sound() {
    let a = parse_song_file("d = pattern { kick: \"x...x...x...x...x...\" }").unwrap().to_song();
    let b = parse_song_file("d = pattern { kick: \"x...x...x...x.....xx\" }").unwrap().to_song();
    for count in 0..64 {
        assert_eq!(a.events_at_count(count), b.events_at_count(count));
        assert_eq!(a.events_at_count(count), a.events_at_count(count + 16));
    }
}

#[test]
fn command_queue_applies_in_order() {
    let mut state = SequencerState::new(Song::new("a".to_string(), 120));
    assert_eq!(state.handle_all(vec![]), PositionOutcome::Unchanged);
    assert!(!state.playing);
    let pos = state.handle_all(vec![
        TransportCommand::Play,
        TransportCommand::SetPosition,
        TransportCommand::UpdateSong(Song::new("b".to_string(), 90)),
        TransportCommand::Stop,
        TransportCommand::Play,
    ]);
    assert_eq!(pos, PositionOutcome::Start);
    assert!(state.sounding());
    assert_eq!(state.song.bpm, 90);
    let pos = state.handle_all(vec![
        TransportCommand::SetPosition,
        TransportCommand::Stop,
        TransportCommand::UpdateSong(Song::new("c".to_string(), 100)),
        TransportCommand::UpdateSong(Song::new("d".to_string(), 110)),
        TransportCommand::SetPosition,
    ]);
    assert_eq!(pos, PositionOutcome::Requested(4));
    assert!(!state.sounding());
    assert_eq!(state.song.name, "d");
    assert_eq!(state.song.bpm, 110);
    let pos = state.handle_all(vec![TransportCommand::UpdateSong(Song::new("e".to_string(), 60))]);
    assert_eq!(pos, PositionOutcome::Unchanged);
    assert!(!state.playing);
    assert_eq!(state.song.name, "e");
}

#[test]
fn whitespace_agrees_with_char() {
    for code in 0u32..0x11_0000 {
        if let Some(c) = char::from_u32(code) {
            assert_eq!(is_whitespace(c), c.is_whitespace(), "U+{:04X}", code);
        }
    }
}

#[test]
fn clones_keep_their_contents() {
    let lib = InstrumentLibrary::default();
    let copy = lib.clone();
    assert_eq!(copy.get("bass").unwrap().amplitude, lib.get("bass").unwrap().amplitude);
    assert_eq!(copy.get("kick").unwrap().name, "kick");
    let f = parse_song_file("d = pattern { kick: \"x.\" } @ 90bpm").unwrap();
    let g = f.clone();
    assert_eq!(g.patterns.get("d").unwrap().tempo, Some(90));
    let song = g.to_song();
    let again = song.clone();
    assert_eq!(again.bpm, song.bpm);
    assert_eq!(again.events_at(0), vec![hit("kick")]);
}
