# wmacro

A mouse and keyboard macro recorder and player for Linux desktops. Macros
are stored as `.wmr` scripts: one command per line (`Click x=10 y=20 btn=Left
hold=40`, `Delay us=15000`, `IfPixelColor ...`, `Loop count=3`, ...).

The library in `src/` is written in Verus and verified: every public function
states what it returns or changes in its `requires`/`ensures`, and the
library-wide properties (a written script reads back as the same macro, loop
counts, timeline arithmetic, summed-area rectangle sums, the largest color
region, ...) are proof functions.

- Script format: `script_read`, `reader` (reading), `writer` (writing),
  `readback`/`roundtrip` (what is written reads back as itself), `words`,
  `text`.
- Playback: `flow` (labels, loops, conditionals), `player` (one command at a
  time), `dispatch`, `playback` (held inputs, metrics, the timeline),
  `values`, `expr`, `effects`, `settings`, `hotkeys`, `rng`.
- Recording and the input daemon: `recording`, `daemon`, `uinput`, `bounds`,
  `cursor`.
- Screen checks: `pixels`, `blob`, `retained`, `integral`, `downsample`,
  `smooth`, `outputs`.
- Clipboard: `selection` (the X11 selection protocol's decisions).

`app/` is the command-line program around the library (`wmacro play`,
`wmacro show`, `wmacro path`): file and socket I/O, the clipboard and
virtual-device backends, and the floating-point parts (expression
evaluation, humanized pointer paths, template matching, logical/frame
scaling).

`tests/` exercises the library on concrete macros, frames and replies.
