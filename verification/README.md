# dbz

A terminal browser and player for Dragon Ball Z episodes, with tools that build its episode
data from the episode web pages.

- `src/` is the verified library: the episode catalogue (`episode`), URL unescaping (`url`),
  data and cache paths (`paths`), cover URLs (`covers`), page metadata (`metadata`), the video
  configuration of a page (`video`), the viewing history (`history`), the browser's state
  machine (`browser`) and the text of its screens (`display`), character-level string helpers
  (`text`), the entry points into the HTML parser, the regular-expression engine and
  the JSON parser (`outside`), and properties of the whole (`laws`).
- `app/` is the program around it: file and network access, the terminal interface, the
  player and cover threads. `dbz` starts the browser; `dbz get_video`, `dbz add_covers` and
  `dbz enrich` run the data tools.
- `tests/` runs the library on concrete inputs.
