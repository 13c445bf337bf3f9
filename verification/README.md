# cssforge

A forward CSS modernization workbench whose engine is verified with Verus: it scans a
stylesheet, reports advisory findings and statistics, and proposes transformation plans
(native nesting, `:is()` / `:where()` factoring, range media queries, merges of adjacent
blocks and layers), each a replacement of one span of the source.

## Layout

- `src/` — the verified library.
  - `text`, `scanner`, `selector`, `relation`, `layout`: characters, lines, the node scanner,
    selector lists and specificity, how one selector extends another.
  - `transform`: rewrites of a single selector or prelude (`:is()`, `:where()`, `:not()`,
    range media features, selector-list factoring).
  - `render`, `planner`: the texts of nested rules and the plan builders; the contract of
    `build_plans_recursive` (`planned`) relates the plans of a stylesheet to what each
    builder gives, the consolidated `@layer` bodies and the plans inside transparent blocks,
    as a predicate whose witnesses (layer bodies, nested plans) are themselves planned.
  - `plan`: ordering plans without overlaps and splicing them into the source; the laws on
    untouched text live here.
  - `analysis`: file and workspace reports (statistics, findings, numbered plans).
  - `model`, `output`, `discovery`, `banner`, `wizard`: the rule catalogue and presets, what
    each output mode writes where (`write_plan`), which files are eligible, the wordmark, and
    the state machine of the terminal
    wizard (keys in, next state and requested action out).
  - `screens`: the text of every wizard screen, line by line and piece by piece, each with
    its tone; the terminal only maps tones to colours and draws.
  - `listing`: the text reports of the headless commands (analysis, plans, rule catalogue).
- `tests/` — tests of the library on concrete stylesheets and key sequences.
- `app/` — the command-line program and terminal interface: argument parsing, the file
  walk, reading and writing files, JSON, and drawing the screens with ratatui.

lightningcss (stylesheet validation), similar (unified diffs) and std's path operations
(prefix stripping, file names and stems, joining) are called from the library through small
trusted wrappers whose contracts name their results.
