# song

A small song synthesizer: MIDI files are decoded into tracks of notes and
controller curves, instruments render the notes, and songs are saved as RON.

The library under `src/` holds the integer-level core, each function with a
contract that Verus proves:

- `utils`: keyed point series (`XYPairs`) and where a key stands among them;
- `time`, `midi`, `tracks`: ticks, MIDI data bytes and pitches;
- `gens`, `ctrl_f`: generator identifiers and the stores that hold generators;
- `network`: networks of generators that controls follow;
- `io`: decoding the events of a MIDI track, pairing note presses with
  releases and building controller series; `io::smf`: reading a MIDI file's
  bytes with `midly` and decoding its tracks with one time decoder;
  `io::wav`: the WAV layouts read;
- `control`, `resources`, `instr`: control errors and their messages, sample
  registries, instrument bookkeeping.

`app/` is the program around it: file and audio I/O, the WAV reader, saving
and reading songs, and the rendering of sound, which works on floating-point
samples.
