# rsynth

A pattern-based music language and its synthesizer.

`src/` is the verified library:

- `atoms`, `instruments`: waveforms, envelopes, filters, the built-in kick,
  snare, hi-hat and bass, the voice each instrument gets, and the instrument
  library found by name.
- `patterns`: drum patterns (`x`/`X` hits, anything else rests), notes and
  their names, melodic patterns, tracks, songs, and what a song plays at each
  sixteenth-note step of its 16-step cycle.
- `lexer`, `grammar`, `parser`: the song language, read from text into
  statements and then into a song file; `ast` turns a song file into a song.
- `render`: statements written back as text, and the proof that the parser
  reads back what was written.
- `text`: white space and letters, and strings as lists of characters.
- `names`: maps from names to values that keep insertion order.
- `sequencer`: how the live sequencer reacts to its commands, one at a time
  or as a queue applied in order.

Every quantity that describes a sound is held in thousandths of its unit;
tempos are whole beats per minute.

`app/` is the program around it: the command line, live playback through the
sound card, WAV rendering, and the audio graphs, which work in floating point.

```text
tempo: 120bpm

drums = pattern {
    kick:  "x...x...x...x...",
    snare: "....x.......x..."
} @ 120bpm

bassline = pattern {
    bass: "C2 . . E2 . . G2 . F2 . . E2 . . D2 ."
}

[main: 8bars]
    drums
    bassline * 2
```
