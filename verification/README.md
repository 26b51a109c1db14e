# gsty

Browse Ghostty terminal themes, preview them live and apply one.

The library in `src/` is written in Verus and verified:

- `text` — character classes, trimming, splitting, searching and comparing
  text, specified over `Seq<char>`;
- `color` — reading `#rrggbb` colours out of theme files and writing them back;
- `theme` — a theme file's colours, the all/dark/light filter, searching and
  the stable ordering of themes by name;
- `config` — the `theme = NAME` file that selects Ghostty's theme, and reading
  the active theme back;
- `process` — finding Ghostty's process ids in `ps` output;
- `picker` — the interactive picker as a state machine: keys, selection,
  previews, displayed texts, and what happens when it closes;
- `preview` — the preview pane's decisions;
- `cli` — the command line.

`app/` is the program around it: the file system, `ps` and `kill`, the
terminal (crossterm), drawing (ratatui), and the luminance computation that
decides whether a theme is dark, which works in floating point.
