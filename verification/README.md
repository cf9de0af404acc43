# render-component

Pick an Angular component in a file explorer, see it rendered alone in the
browser. Everything that decides something is a library whose behaviour is
stated in contracts and proved by Verus; the rest is ordinary Rust around it.

## Layout

- `src/` is the library.
  - `text`, `scan`, `sort`, `path`, `json`: texts, balanced blocks, stable
    sorting, paths and JSON values, with the models that the contracts speak of.
  - `cli`, `detect`, `logs`: the command line, the kinds of files, the log.
  - `pipeline`, `pipeline_types`: validation of a component's source, and made-up
    values for its inputs.
  - `explorer`: the tree, the finder, what keys and clicks do, what is drawn.
  - `serve`: the selection that is served, the watcher of the selection file and
    the answers of the control API.
  - `host`: the generated files of the Angular host, the bridging of the
    project's TypeScript options and style sheets, package versions, the course
    of an installation, and when the dev server is up or given up.
  - `mcp`: the agent protocol, its tools and the session behind them.
- `app/` reads and writes files, runs processes, listens on sockets and draws on
  the terminal. It hands the library plain values and acts on what it gets back.
- `tests/` runs the library on concrete values.

## What is trusted

The parser and the printers of `serde_json`, in `src/json.rs`, and a few functions
of the standard library on characters and strings, in `src/text.rs`. What is
believed of each is said above it.

The template of the host is looked up in the directory that
`RENDER_COMPONENT_TEMPLATE` names, or in `template` beside the program.
