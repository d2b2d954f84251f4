# OxiPlay

OxiPlay is a media player for the desktop. This crate is its core, written and
proved in Verus: every function of `src/` states what it returns or changes, and is
proved to do so. The exceptions are the small wrappers around calls into other crates
and into the standard library (JSON, PNG and GIF encoding, Unicode lower case, UTF-8,
the system clock), and the contract of `String::push`: what they state is believed,
and their doc comments say what that is.

## Layout

- `src/` is the library.
  - `playlist/`: the order of entries, shuffling, and M3U files.
  - `subtitles/`: SRT, WebVTT and ASS files, the cues of a track, and image
    subtitles that are drawn into pictures.
  - `streaming`, `ytdlp`: kinds of sources and how they are opened.
  - `decoder/`: what the demuxer and the decoders do next, the streams of a
    container, and the filter graphs as text.
  - `player/`: the master clock, the state of a session, and the presenter.
  - `audio`: the queue of samples on its way to the device.
  - `video`, `render`: screenshots, animated captures, and what the shader gets.
  - `recording`: copying packets to a file.
  - `settings`, `text_map`: what is remembered between sessions.
  - `app/`: what the controls of the interface do.
  - `desktop`, `update`, `opensubtitles`: what is asked of the desktop and of
    services.
  - `text`, `number`, `paths`, `lowercase`, `json`, `utils`: the foundations.
- `tests/` runs the library.
- `app/` is the program around it: the window, the threads, files and the
  network. The window is described in `ui/main.slint`, and the shader of the GPU
  path stands in `app/yuv_hdr.wgsl`; both are assets of the program.

## Units

The library computes with integers. Times are microseconds, speeds and volumes are
thousandths, gains are hundredths of a decibel, and real time is handed to each
operation that needs it.
