# reachpy-config

The configuration model and command logic of `reach`, the ReachPy workspace tool,
written in Verus with every function of the library proved against its contract.

## Layout

- `src/` — the verified library
  - `text.rs`: trimming, line splitting, searching, replacing and decimal text,
    each with an exact specification over `Seq<char>`
  - `path.rs`: paths as text, with the component rules of Unix paths (join,
    equality, parent, file name, stem, extension, relative text)
  - `config.rs`: the sections of `reach.toml` as read, and the resolved
    configuration, each with its view
  - `resolve.rs`: resolution — every problem reported in order, defaults
    applied — and its laws
  - `display.rs`: the summary shown by `reach config`
  - `error.rs`: configuration errors and their messages
  - `run.rs`: which node owns a changed file, which nodes `reach run` starts,
    node command lines, and the plan of `reach launch`
  - `reload.rs`: hot reload — which change reloads what, the `# hot-reload-off`
    marker, the debounce
  - `commands.rs`: subcommand dispatch, flags, and reading what ROS 2 tools print
  - `size.rs`: recording sizes with one decimal, rounded as floating-point
    formatting rounds, in exact integer arithmetic
  - `package.rs`: the generated `reach.toml`, `package.xml`, `CMakeLists.txt`,
    `setup.py` and `setup.cfg`
- `tests/` — tests of the library on concrete values
- `app/` — the `reach` binary: argument handling, files, processes, the file
  watcher, TOML and JSON reading, terminal colours
