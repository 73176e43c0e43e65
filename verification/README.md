# deck

The model behind deck, a presentation surface for agents: a deck is a
directory of groups, each one claim with the code, pictures and pages that
show it, and a reader walks it, comments, and sends a review back.

The decisions deck makes are in `src/`, written in Verus with their
contracts proved:

- `line`, `layout`, `page` — line ranges, how panes fill a page, how the page
  turns.
- `diagram` — pictures: ranking, packing, and the edges that close a loop.
- `live` — the live walk as a state machine, and what every step keeps.
- `relocate` — following a pinned range when its file changes.
- `refs`, `compose` — reading a `--ref` argument, the checks a group passes,
  and the ids it is given.
- `protocol` — the wire model and what its names mean.
- `theme`, `config` — palettes derived from three colours, overrides, and the
  config's defaults.
- `editor`, `vscode`, `zed`, `nvim`, `json` — what deck takes from an
  editor's settings and themes.
- `text`, `home` — scanning text, and where deck keeps its own things.

`tests/` runs the library on concrete values. `app/` is the part that touches
the machine — files, the environment, other programs, and the JSON on disk —
and the measures that are floating point; it asks the library for the rest.
