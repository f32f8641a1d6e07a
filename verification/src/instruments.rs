//! Instrument definitions, the built-in drum and bass patches, and the
//! library that finds an instrument by its name.
use vstd::prelude::*;
use crate::atoms::{Envelope, FilterType, WaveformType};
use crate::names::{NameMap, distinct_keys, has_key, insert_entry, key_index, lookup, lemma_insert_distinct, lemma_key_index_unique};

verus! {

/// A synthesizer patch. `amplitude` is in thousandths of full scale.
#[derive(Debug)]
pub struct InstrumentDefinition {
    pub name: String,
    pub oscillator: WaveformType,
    pub envelope: Envelope,
    pub filter: Option<FilterType>,
    pub amplitude: u32,
}

/// What an instrument definition holds, with its name as text.
pub struct InstrumentView {
    pub name: Seq<char>,
    pub oscillator: WaveformType,
    pub envelope: Envelope,
    pub filter: Option<FilterType>,
    pub amplitude: u32,
}

impl View for InstrumentDefinition {
    type V = InstrumentView;

    open spec fn view(&self) -> InstrumentView {
        InstrumentView {
            name: self.name@,
            oscillator: self.oscillator,
            envelope: self.envelope,
            filter: self.filter,
            amplitude: self.amplitude,
        }
    }
}

/// The built-in kick drum: a sine with a short decay, no filter.
pub open spec fn kick_view() -> InstrumentView {
    InstrumentView {
        name: seq!['k', 'i', 'c', 'k'],
        oscillator: WaveformType::Sine,
        envelope: Envelope { attack: 1, decay: 500, sustain: 0, release: 0 },
        filter: None,
        amplitude: 800,
    }
}

/// The built-in snare: noise through a 2 kHz high-pass.
pub open spec fn snare_view() -> InstrumentView {
    InstrumentView {
        name: seq!['s', 'n', 'a', 'r', 'e'],
        oscillator: WaveformType::Noise,
        envelope: Envelope { attack: 1, decay: 150, sustain: 0, release: 0 },
        filter: Some(FilterType::HighPass { cutoff: 2_000_000, resonance: 1000 }),
        amplitude: 600,
    }
}

/// The built-in hi-hat: noise through an 8 kHz high-pass, very short.
pub open spec fn hihat_view() -> InstrumentView {
    InstrumentView {
        name: seq!['h', 'i', 'h', 'a', 't'],
        oscillator: WaveformType::Noise,
        envelope: Envelope { attack: 1, decay: 50, sustain: 0, release: 0 },
        filter: Some(FilterType::HighPass { cutoff: 8_000_000, resonance: 1000 }),
        amplitude: 400,
    }
}

/// The built-in bass: a saw through a 200 Hz low-pass.
pub open spec fn bass_view() -> InstrumentView {
    InstrumentView {
        name: seq!['b', 'a', 's', 's'],
        oscillator: WaveformType::Saw,
        envelope: Envelope { attack: 10, decay: 100, sustain: 800, release: 200 },
        filter: Some(FilterType::LowPass { cutoff: 200_000, resonance: 300 }),
        amplitude: 700,
    }
}

impl InstrumentDefinition {
    /// The built-in kick drum.
    pub fn kick() -> (d: Self)
        ensures
            d@ == kick_view(),
            d.name@ == seq!['k', 'i', 'c', 'k'],
            d.oscillator == WaveformType::Sine,
            d.envelope == (Envelope { attack: 1, decay: 500, sustain: 0, release: 0 }),
            d.filter == None::<FilterType>,
            d.amplitude == 800,
    {
        let name = crate::text::chars_text(&['k', 'i', 'c', 'k']);
        InstrumentDefinition {
            name,
            oscillator: WaveformType::Sine,
            envelope: Envelope { attack: 1, decay: 500, sustain: 0, release: 0 },
            filter: None,
            amplitude: 800,
        }
    }

    /// The built-in snare drum.
    pub fn snare() -> (d: Self)
        ensures
            d@ == snare_view(),
            d.name@ == seq!['s', 'n', 'a', 'r', 'e'],
            d.oscillator == WaveformType::Noise,
            d.envelope == (Envelope { attack: 1, decay: 150, sustain: 0, release: 0 }),
            d.filter == Some(FilterType::HighPass { cutoff: 2_000_000, resonance: 1000 }),
            d.amplitude == 600,
    {
        let name = crate::text::chars_text(&['s', 'n', 'a', 'r', 'e']);
        InstrumentDefinition {
            name,
            oscillator: WaveformType::Noise,
            envelope: Envelope { attack: 1, decay: 150, sustain: 0, release: 0 },
            filter: Some(FilterType::HighPass { cutoff: 2_000_000, resonance: 1000 }),
            amplitude: 600,
        }
    }

    /// The built-in hi-hat.
    pub fn hihat() -> (d: Self)
        ensures
            d@ == hihat_view(),
            d.name@ == seq!['h', 'i', 'h', 'a', 't'],
            d.oscillator == WaveformType::Noise,
            d.envelope == (Envelope { attack: 1, decay: 50, sustain: 0, release: 0 }),
            d.filter == Some(FilterType::HighPass { cutoff: 8_000_000, resonance: 1000 }),
            d.amplitude == 400,
    {
        let name = crate::text::chars_text(&['h', 'i', 'h', 'a', 't']);
        InstrumentDefinition {
            name,
            oscillator: WaveformType::Noise,
            envelope: Envelope { attack: 1, decay: 50, sustain: 0, release: 0 },
            filter: Some(FilterType::HighPass { cutoff: 8_000_000, resonance: 1000 }),
            amplitude: 400,
        }
    }

    /// The built-in bass.
    pub fn bass() -> (d: Self)
        ensures
            d@ == bass_view(),
            d.name@ == seq!['b', 'a', 's', 's'],
            d.oscillator == WaveformType::Saw,
            d.envelope == (Envelope { attack: 10, decay: 100, sustain: 800, release: 200 }),
            d.filter == Some(FilterType::LowPass { cutoff: 200_000, resonance: 300 }),
            d.amplitude == 700,
    {
        let name = crate::text::chars_text(&['b', 'a', 's', 's']);
        InstrumentDefinition {
            name,
            oscillator: WaveformType::Saw,
            envelope: Envelope { attack: 10, decay: 100, sustain: 800, release: 200 },
            filter: Some(FilterType::LowPass { cutoff: 200_000, resonance: 300 }),
            amplitude: 700,
        }
    }
}

/// How an instrument is voiced for a note. `Kick` is a 60 Hz sine whose
/// level is multiplied by a factor that falls from 1 to one half over its
/// first 0.1 s (its pitch stays at 60 Hz); the other shapes play at the
/// note's frequency. All but `Oscillator` are shaped by the instrument's envelope
/// and scaled by its amplitude; `Oscillator` is the bare waveform.
#[derive(Clone, Copy, Debug, PartialEq, Eq, Structural)]
pub enum Voice {
    Kick,
    Sine,
    LowPassSaw { cutoff: u32, resonance: u32 },
    HighPassNoise { cutoff: u32, resonance: u32 },
    Oscillator(WaveformType),
}

/// The voice that an instrument gets: the instrument named `kick` has the
/// kick voice; a sine without filter, a saw with a low-pass and noise with a
/// high-pass have their own voices; any other combination plays its bare
/// oscillator.
pub open spec fn spec_voice(d: InstrumentView) -> Voice {
    if d.name == seq!['k', 'i', 'c', 'k'] {
        Voice::Kick
    } else {
        match (d.oscillator, d.filter) {
            (WaveformType::Sine, None) => Voice::Sine,
            (WaveformType::Saw, Some(FilterType::LowPass { cutoff, resonance })) => Voice::LowPassSaw {
                cutoff,
                resonance,
            },
            (WaveformType::Noise, Some(FilterType::HighPass { cutoff, resonance })) => Voice::HighPassNoise {
                cutoff,
                resonance,
            },
            _ => Voice::Oscillator(d.oscillator),
        }
    }
}

/// Chooses how `def` is voiced (see `spec_voice`).
pub fn instrument_voice(def: &InstrumentDefinition) -> (v: Voice)
    ensures
        v == spec_voice(def@),
{
    let kick = crate::text::chars_text(&['k', 'i', 'c', 'k']);
    if def.name == kick {
        return Voice::Kick;
    }
    match (def.oscillator, def.filter) {
        (WaveformType::Sine, None) => Voice::Sine,
        (WaveformType::Saw, Some(FilterType::LowPass { cutoff, resonance })) => Voice::LowPassSaw {
            cutoff,
            resonance,
        },
        (WaveformType::Noise, Some(FilterType::HighPass { cutoff, resonance })) => Voice::HighPassNoise {
            cutoff,
            resonance,
        },
        _ => Voice::Oscillator(def.oscillator),
    }
}

/// Whether every entry is stored under the name of its instrument.
pub open spec fn keyed_by_name(s: Seq<(Seq<char>, InstrumentView)>) -> bool {
    forall|i: int| 0 <= i < s.len() ==> #[trigger] s[i].0 == s[i].1.name
}

/// The instruments that every library and every song file starts with.
pub open spec fn builtin_instruments() -> Seq<(Seq<char>, InstrumentView)> {
    seq![
        (kick_view().name, kick_view()),
        (snare_view().name, snare_view()),
        (hihat_view().name, hihat_view()),
        (bass_view().name, bass_view()),
    ]
}

/// The four built-in instruments, keyed by their names.
pub fn builtin_instrument_map() -> (m: NameMap<InstrumentDefinition>)
    ensures
        m@ == builtin_instruments(),
{
    let mut m: NameMap<InstrumentDefinition> = NameMap::new();
    let kick = InstrumentDefinition::kick();
    m.insert(kick.name.clone(), kick);
    let snare = InstrumentDefinition::snare();
    m.insert(snare.name.clone(), snare);
    let hihat = InstrumentDefinition::hihat();
    m.insert(hihat.name.clone(), hihat);
    let bass = InstrumentDefinition::bass();
    m.insert(bass.name.clone(), bass);
    proof {
        let s0 = Seq::<(Seq<char>, InstrumentView)>::empty();
        let s1 = s0.push((kick_view().name, kick_view()));
        let s2 = s1.push((snare_view().name, snare_view()));
        let s3 = s2.push((hihat_view().name, hihat_view()));
        assert(!has_key(s0, kick_view().name));
        assert(insert_entry(s0, kick_view().name, kick_view()) =~= s1);
        assert(!has_key(s1, snare_view().name)) by {
            if has_key(s1, snare_view().name) {
                let j = key_index(s1, snare_view().name);
                assert(s1[j].0 == kick_view().name);
            }
        }
        assert(insert_entry(s1, snare_view().name, snare_view()) =~= s2);
        assert(!has_key(s2, hihat_view().name)) by {
            if has_key(s2, hihat_view().name) {
                let j = key_index(s2, hihat_view().name);
                assert(s2[j].0 == kick_view().name || s2[j].0 == snare_view().name);
            }
        }
        assert(insert_entry(s2, hihat_view().name, hihat_view()) =~= s3);
        assert(!has_key(s3, bass_view().name)) by {
            if has_key(s3, bass_view().name) {
                let j = key_index(s3, bass_view().name);
                assert(s3[j].0 == kick_view().name || s3[j].0 == snare_view().name
                    || s3[j].0 == hihat_view().name);
            }
        }
        assert(insert_entry(s3, bass_view().name, bass_view()) =~= builtin_instruments());
    }
    m
}

/// A collection of instruments, found by name.
#[derive(Debug)]
pub struct InstrumentLibrary {
    instruments: NameMap<InstrumentDefinition>,
}

impl View for InstrumentLibrary {
    type V = Seq<(Seq<char>, InstrumentView)>;

    closed spec fn view(&self) -> Seq<(Seq<char>, InstrumentView)> {
        self.instruments@
    }
}

impl Clone for InstrumentDefinition {
    /// An equal copy.
    fn clone(&self) -> (r: Self)
        ensures
            r@ == self@,
    {
        InstrumentDefinition {
            name: self.name.clone(),
            oscillator: self.oscillator,
            envelope: self.envelope,
            filter: self.filter,
            amplitude: self.amplitude,
        }
    }
}

impl Clone for InstrumentLibrary {
    /// A copy holding the same instruments under the same names.
    fn clone(&self) -> (r: Self)
        ensures
            r@ == self@,
    {
        proof {
            use_type_invariant(self);
        }
        proof {
            assert forall|a: InstrumentDefinition, b: InstrumentDefinition| cloned::<InstrumentDefinition>(
                a,
                b,
            ) implies a@ == b@ by {}
        }
        let instruments = self.instruments.clone();
        InstrumentLibrary { instruments }
    }
}

impl InstrumentLibrary {
    #[verifier::type_invariant]
    closed spec fn names_match(self) -> bool {
        keyed_by_name(self.instruments@)
    }
}

impl Default for InstrumentLibrary {
    /// The library holding the built-in kick, snare, hi-hat and bass.
    fn default() -> (lib: Self)
        ensures
            lib@ == builtin_instruments(),
    {
        let instruments = builtin_instrument_map();
        InstrumentLibrary { instruments }
    }
}

impl InstrumentLibrary {
    /// The instrument named `name`, if the library holds one.
    pub fn get(&self, name: &str) -> (r: Option<&InstrumentDefinition>)
        ensures
            r is Some <==> has_key(self@, name@),
            r matches Some(d) ==> lookup(self@, name@) == Some(d@) && d.name@ == name@,
            distinct_keys(self@),
            keyed_by_name(self@),
    {
        proof {
            use_type_invariant(self);
        }
        let r = self.instruments.get(name);
        proof {
            if r is Some {
                let j = key_index(self@, name@);
                assert(self@[j].0 == name@);
            }
        }
        r
    }

    /// Adds `def` under its own name, replacing an instrument of that name.
    pub fn add(&mut self, def: InstrumentDefinition)
        ensures
            final(self)@ == insert_entry(old(self)@, def.name@, def@),
            distinct_keys(final(self)@),
            keyed_by_name(final(self)@),
    {
        proof {
            use_type_invariant(&*self);
        }
        let ghost old_view = self@;
        let name = def.name.clone();
        let mut instruments = NameMap::new();
        std::mem::swap(&mut instruments, &mut self.instruments);
        instruments.insert(name, def);
        proof {
            let t = instruments@;
            assert forall|i: int| 0 <= i < t.len() implies #[trigger] t[i].0 == t[i].1.name by {
                if has_key(old_view, def.name@) {
                    let p = key_index(old_view, def.name@);
                    if i != p {
                        assert(old_view[i].0 == old_view[i].1.name);
                    }
                } else if i < old_view.len() {
                    assert(old_view[i].0 == old_view[i].1.name);
                }
            }
        }
        self.instruments = instruments;
    }
}

/// A library answers a lookup of an added instrument's name with that
/// instrument, and answers every other name as it did before.
pub proof fn law_add_then_get(lib: Seq<(Seq<char>, InstrumentView)>, def: InstrumentView, other: Seq<char>)
    requires
        distinct_keys(lib),
    ensures
        lookup(insert_entry(lib, def.name, def), def.name) == Some(def),
        other != def.name ==> lookup(insert_entry(lib, def.name, def), other) == lookup(lib, other),
        distinct_keys(insert_entry(lib, def.name, def)),
{
    lemma_insert_distinct(lib, def.name, def);
}

/// The built-in library holds exactly the kick, snare, hi-hat and bass,
/// each found under its own name.
pub proof fn law_builtin_lookup()
    ensures
        lookup(builtin_instruments(), kick_view().name) == Some(kick_view()),
        lookup(builtin_instruments(), snare_view().name) == Some(snare_view()),
        lookup(builtin_instruments(), hihat_view().name) == Some(hihat_view()),
        lookup(builtin_instruments(), bass_view().name) == Some(bass_view()),
        builtin_instruments().len() == 4,
        distinct_keys(builtin_instruments()),
        keyed_by_name(builtin_instruments()),
{
    let s = builtin_instruments();
    assert(distinct_keys(s)) by {
        assert forall|i: int, j: int| 0 <= i < s.len() && 0 <= j < s.len() && i != j implies #[trigger] s[i].0
            != #[trigger] s[j].0 by {
            assert(s[i].0.len() != s[j].0.len() || s[i].0[0] != s[j].0[0]);
        }
    }
    lemma_key_index_unique(s, kick_view().name, 0);
    lemma_key_index_unique(s, snare_view().name, 1);
    lemma_key_index_unique(s, hihat_view().name, 2);
    lemma_key_index_unique(s, bass_view().name, 3);
}

/// The built-in kick is voiced as the kick drum, the snare and hi-hat as
/// high-passed noise, the bass as a low-passed saw.
pub proof fn law_builtin_voices()
    ensures
        spec_voice(kick_view()) == Voice::Kick,
        spec_voice(snare_view()) == (Voice::HighPassNoise { cutoff: 2_000_000, resonance: 1000 }),
        spec_voice(hihat_view()) == (Voice::HighPassNoise { cutoff: 8_000_000, resonance: 1000 }),
        spec_voice(bass_view()) == (Voice::LowPassSaw { cutoff: 200_000, resonance: 300 }),
{
    assert(snare_view().name != kick_view().name) by {
        assert(snare_view().name.len() != kick_view().name.len());
    }
    assert(hihat_view().name != kick_view().name) by {
        assert(hihat_view().name.len() != kick_view().name.len());
    }
    assert(bass_view().name != kick_view().name) by {
        assert(bass_view().name[0] != kick_view().name[0]);
    }
}


/// The built-in patches: the kick a sine (decay 0.5 s, level 0.8); the
/// snare noise through a 2 kHz high-pass (decay 0.15 s, level 0.6); the
/// hi-hat noise through an 8 kHz high-pass (decay 0.05 s, level 0.4); the
/// bass a saw through a 200 Hz low-pass with resonance 0.3 (attack 0.01 s,
/// decay 0.1 s, sustain 0.8, release 0.2 s, level 0.7). The drums all have
/// a 0.001 s attack, no sustain and no release.
pub proof fn law_builtin_patches()
    ensures
        lookup(builtin_instruments(), seq!['k', 'i', 'c', 'k']) == Some(
            InstrumentView {
                name: seq!['k', 'i', 'c', 'k'],
                oscillator: WaveformType::Sine,
                envelope: Envelope { attack: 1, decay: 500, sustain: 0, release: 0 },
                filter: None,
                amplitude: 800,
            },
        ),
        lookup(builtin_instruments(), seq!['s', 'n', 'a', 'r', 'e']) == Some(
            InstrumentView {
                name: seq!['s', 'n', 'a', 'r', 'e'],
                oscillator: WaveformType::Noise,
                envelope: Envelope { attack: 1, decay: 150, sustain: 0, release: 0 },
                filter: Some(FilterType::HighPass { cutoff: 2_000_000, resonance: 1000 }),
                amplitude: 600,
            },
        ),
        lookup(builtin_instruments(), seq!['h', 'i', 'h', 'a', 't']) == Some(
            InstrumentView {
                name: seq!['h', 'i', 'h', 'a', 't'],
                oscillator: WaveformType::Noise,
                envelope: Envelope { attack: 1, decay: 50, sustain: 0, release: 0 },
                filter: Some(FilterType::HighPass { cutoff: 8_000_000, resonance: 1000 }),
                amplitude: 400,
            },
        ),
        lookup(builtin_instruments(), seq!['b', 'a', 's', 's']) == Some(
            InstrumentView {
                name: seq!['b', 'a', 's', 's'],
                oscillator: WaveformType::Saw,
                envelope: Envelope { attack: 10, decay: 100, sustain: 800, release: 200 },
                filter: Some(FilterType::LowPass { cutoff: 200_000, resonance: 300 }),
                amplitude: 700,
            },
        ),
{
    law_builtin_lookup();
}

/// An instrument is voiced with its own waveform: only the instrument named
/// `kick` gets the kick voice; otherwise a sine without filter plays as a
/// sine, a saw with a low-pass and noise with a high-pass keep that filter's
/// settings, and every other instrument plays its own oscillator bare.
pub proof fn law_voice_choice(d: InstrumentView)
    ensures
        (spec_voice(d) == Voice::Kick) <==> d.name == seq!['k', 'i', 'c', 'k'],
        spec_voice(d) == Voice::Sine ==> d.oscillator == WaveformType::Sine && d.filter == None::<FilterType>,
        forall|c: u32, r: u32|
            spec_voice(d) == (Voice::LowPassSaw { cutoff: c, resonance: r }) ==> d.oscillator
                == WaveformType::Saw && d.filter == Some(FilterType::LowPass { cutoff: c, resonance: r }),
        forall|c: u32, r: u32|
            spec_voice(d) == (Voice::HighPassNoise { cutoff: c, resonance: r }) ==> d.oscillator
                == WaveformType::Noise && d.filter == Some(FilterType::HighPass { cutoff: c, resonance: r }),
        forall|w: WaveformType| spec_voice(d) == Voice::Oscillator(w) ==> w == d.oscillator,
        d.name != seq!['k', 'i', 'c', 'k'] && d.oscillator == WaveformType::Sine && d.filter == None::<FilterType>
            ==> spec_voice(d) == Voice::Sine,
        d.name != seq!['k', 'i', 'c', 'k'] && !(d.oscillator == WaveformType::Sine && d.filter is None) && !(d.oscillator
            == WaveformType::Saw && d.filter is Some && d.filter.unwrap() is LowPass) && !(d.oscillator
            == WaveformType::Noise && d.filter is Some && d.filter.unwrap() is HighPass)
            ==> spec_voice(d) == Voice::Oscillator(d.oscillator),
{
}

} // verus!
