# wda_core

The core of Web Design Anchor, a command-line tool that builds a standard web
project (HTML, CSS, TypeScript) into a deployable `dist/` and manages its npm
dependencies through `deno`. Its logic is written in Verus and proved against
its contracts.

## Layout

- `src/`: the verified library.
  - `diagnostics`, `codes`, `cli`: findings, their single-line rendering,
    argument parsing and command summaries.
  - `layout`, `css`, `html`, `expand`, `pages`, `project`: the source-to-`dist/`
    mapping, reference extraction and rewriting, `<wda-include>` expansion and
    the reachable copy set, over the project tree held as plain data.
  - `ids`: the check that no id names two elements of an expanded page.
  - `scripts`, `entries`, `report`: script entries, import reachability, the
    lock-coverage check and the HTTP-requirement detection.
  - `tools`, `resolve`, `toolchain`: finding `deno` from probe results, and
    what its runs report.
  - `deps`, `staging`, `commit`: the dependency commands: decisions before
    `deno` runs, the confined staged run and the ordered commit, as step
    functions.
  - `dist`, `pipeline`: the staged replacement of `dist/` and the build, as
    step functions.
  - `criteria`: rendering the design review criteria template.
  - `tokens`: the token stylesheet (`dist/styles/tokens.css`) of `tokens/tokens.json`.
  - `json`: JSON values as plain data, parsed and printed through `serde_json`.
  - `secrecy`: the proof that no secret file or dotfile reaches the copy set.
- `app/`: the file-system and process side, which performs the operations the
  step functions ask for and hands back how they went.
- `tests/`: tests of the library through its public interface.

Calls into `html5gum` (HTML tokenizing), `serde_json` (parsing and
pretty-printing JSON) and std's Unicode character classes stand behind small
trusted wrappers whose contracts name their results.
