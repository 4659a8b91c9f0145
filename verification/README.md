# wt_clipper

Watches War Thunder and Dota 2 and saves clips of what happens in them, with
GPU Screen Recorder as the recorder. A verified library decides; a thin program
around it reads, writes, waits and starts other programs.

- `src/` is the library, verified with Verus.
  - `text`, `number`, `path`, `time`, `json`, `order`, `stamp`: texts, numbers
    with a fraction, paths, spans of time, JSON values, orders, identifiers.
  - `config`: the settings, and what older settings files become.
  - `warthunder`, `dota2`, `games`: what a game reports, and which events of the
    player come out of it.
  - `app`: which events make which clip, when a clip is saved, what is told of it.
  - `capture`: the commands and pipelines of the recorders, the state of GPU
    Screen Recorder, segments of a replay, windows, names of files.
  - `desktop`, `ui`, `commands`, `doctor`: the clip editor, the gallery, the
    preview server, the windows, the command line, the diagnosis.
- `tests/` runs the library on concrete values.
- `app/` is the program. Its recording pipelines need GStreamer on the machine,
  and its frames in `shell.rs` need eframe and Tauri.
