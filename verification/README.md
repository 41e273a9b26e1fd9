# rsbpm

A web editor that draws a beat bar over a video: dots travel along a bar and
reach an end circle on each beat, and ffmpeg composites the drawn frames onto
the video.

- `src/` is the verified library (Verus):
  - `config.rs`: server and render settings and their defaults;
  - `project.rs`: colours, directions, beat changes, and the tempo map that
    places 32nd-note positions in tempo segments;
  - `renderer.rs`: the ffmpeg and ffprobe command lines, and the reading of
    ffprobe's JSON report;
  - `server.rs`: file-name sanitizing, upload destinations, and the command
    line that cuts the audio sample for song recognition;
  - `text.rs`: decimal numerals, parsing of unsigned integers, string helpers.
- `app/` is the program around it: the axum server, config file reading,
  frame drawing with tiny-skia (floating point), and running ffmpeg/ffprobe.
- `tests/` runs the library on concrete values.

The editor page is read from `editor.html` in the working directory.
