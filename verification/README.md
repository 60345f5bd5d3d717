# fretboard

The audio engine of a fretboard tuner: it captures an input (a cpal device, a
PulseAudio source through `parec`, or the WASAPI loopback of the default output),
hands it to the pitch analysis, records takes to WAV and replays them, and plays a
monitor of the input, a test tone and a drone.

The crate is split in two.

- `src/` is a library verified with Verus. It holds the engine's discrete decisions,
  each with a contract and the laws that relate them:
  - `sample_rate`: exact sample/duration arithmetic at a sample rate;
  - `devices`: parsing `pactl` source listings, classifying inputs, ordering and
    de-duplicating the input picker, the monitor ring and buffer sizes;
  - `capture`: framing a raw s16le byte stream into samples, and the `parec` arguments;
  - `recorder` and `replay`: the take recorder's intent and status, replay status and
    playhead, WAV format checks and the take listing;
  - `engine`: what the audio thread does for each command;
  - `output`: which device configuration the monitor, the drone and the test tone take;
  - `drone`: which notes the drone sounds on each beat, and the arpeggio's walk;
  - `onset`: when an attack may fire an onset;
  - `note_labels` and `analysis_math`: note labels in sharps or flats;
  - `history` (bounded histories, the analysis window), `workers`, and the helpers in
    `text` and `order`.
- `app/` is ordinary Rust around it: the `AudioEngine` facade and its audio thread,
  cpal streams (input, monitor, drone, test tone), processes, files, threads, lock-free
  rings, and the floating-point signal analysis (YIN, pYIN, the pitch trellis, SWIPE',
  the FFT spectrum, the drone's synthesis), which the library cannot hold. The engine
  hands the input of its two analysis planes to sinks its owner supplies.

What is not here: the analysis pipeline that turns the input into readings (its
level, pitch and spectrum readout), the melody tracker with its octave decisions, the
real-time SWIPE' front end, and the resonator bank's snapshot. They rest on modules and
types whose sources are not part of this project (the analysis settings and reading
types, the note types, the octave gate) and on the `resonators` crate. So the engine has
no `status`, `reading`, `melody_since`, `resonator_reading`, `analysis_settings`,
`set_analysis_settings` or `input_level`; it hands each analysis plane's input to a sink
its owner supplies. The pYIN tracker, the pitch trellis, the SWIPE' kernel, the onset
detector and the note segmenter are in `app/` as building blocks for such a pipeline,
not wired into the engine.

`tests/` exercises the library's public functions on concrete values.
