# afterglow

Afterglow reads the public star count of every GitHub repo that it tracks, once a day, and keeps
every reading. The numbers come back as a README badge and as a leaderboard.

The library in `src/` is written in Verus. It holds the rules, and each of them is stated as a
contract and proved:

- `time`, `text`, `round`: UTC instants, texts and exact rounding, which everything else rests on
- `velocity`: readings, the rates between them, percentiles and sparklines
- `board`: the leaderboard, its order and its rows
- `badge`: the pill and the card, as SVG
- `cuts`: the pill in the style of a README's other badges, and with the highest day for a number
- `history`: the whole series, drawn as a square
- `likeness`, `markup`: what no image has in common with another, and what some never hold
- `site`: the pages, as HTML
- `names`: what a repo may be called, and what somebody pasted into a box
- `serve`: which badge a name gets, who is enrolled, who is left alone, and the headers around it
- `github`: what is asked of GitHub, how long to wait, and what an answer means
- `snapshot`: the daily scan, the queue and the sweep
- `import`: files of older readings
- `store`: schema versions and opting out

A rule that relates several functions is a public proof function whose name starts with `law_`.

The library works on plain values. What it believes without a proof is small and stands next to
where it is used: how `serde_json` reads a document (`github`), how `maud` escapes a text (`site`)
and how std pushes a character (`text`).

`app/` is the program around it: arguments, the clock, SQLite, HTTP and the server. It asks the
library what comes next, does it, and hands back what came of it.

`tests/` runs the library against a store of plain rows and a GitHub that answers from a list.
