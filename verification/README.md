# swyh-rs

Streams the sound of a machine to network renderers, and measures how long it
takes to be heard there.

- `src/` is the library. It holds the stream headers, the transport of samples,
  the latency pulse and its detection, the calibration and the rules of the
  set-up wizard, with contracts that Verus proves. Samples are carried by their
  bit patterns; arithmetic on them is handed in by the caller.
- `tests/` runs the library.
- `app/` is the program around it: files, audio devices, prompts and threads, and
  the arithmetic on samples.
