# reel_forge

Turns plain-text reel scripts into vertical 1080x1920 MP4 reels: transparent
text overlays drawn per line, composed by FFmpeg over an optional background
video and music track, with a randomised blur/tint treatment.

The library in `src/` is verified with Verus:

- `parser` reads script files: blocks separated by `---` lines with
  `key: value` headers, pause markers and numbered lines, and pipe-row
  files (`niche|Title|Line 1|...|Duration:14 seconds|code`, one reel per
  line, layouts taken in rotation). It also holds the naming rules
  (`slugify`, `normalize_layout`, the blur strengths).
- `overlay` places each text layer on the canvas and drives word wrapping.
- `render` draws the background treatment, times the reveal of the layers
  and builds the FFmpeg filter graph and arguments.
- `batch` decides worker counts, the automatic worker tuning, and the
  bookkeeping of a batch of script files; `natural` orders file names
  naturally (`week2` before `week10`).
- `text` and `patterns` are the string operations the rest is written in,
  the latter over the `regex` crate.
- `laws` states and proves the properties that span several functions.

`app/` is the command-line program around it: file and folder access, font
rasterising and PNG writing, running FFmpeg and FFprobe, the worker pool,
the resource monitor and the saved settings in `config/desktop_state.json`.
