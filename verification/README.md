# goldsrc

The core of the GoldSrc.rs plugin framework, written in Verus: the functions
in `src/` are verified against `requires` / `ensures` contracts, and the
few that only hand over what an outside crate returns say so.

## Layout

- `src/` — the verified library.
  - `text`, `strmap`, `keymap` — character-level helpers and small ordered maps.
  - `placeholders`, `i18n/` — placeholder substitution, the dictionary
    compiler (`$vars`, `$templates`, `@{macro(..)}` calls), access policies and
    the translation engine with its fallback chains.
  - `ecs`, `schedule` — components, stages, phases, and the system registry
    whose run order honours `before` / `after` constraints (Kahn's algorithm).
  - `config`, `plugins_config`, `paths`, `logging`, `print` — host
    configuration with sanitizing, `plugins.toml` decisions and load order,
    directory resolution, log lines and file names, server print escaping.
  - `cli`, `host_cli` — the built-in management commands, their help texts,
    the routing of a `grs` command line (over the tokens `lexopt` gives), the
    options of `list` and `info`, what the commands that name plugins were
    asked to do, and the `status` and `version` lines.
  - `mrs_cli` — the `mrs` / `meta-rs` command of the Metamod backend: the
    routing of its command line, its help, and the rows of its `list`,
    `info` and `status` reports.
  - `plugin_attr` — the text of `#[plugin(...)]` read into items by `syn`,
    and the attribute grammars that turn the items into a plugin's
    attributes, with their errors.
  - `handler_attrs` — the attributes on the methods of a `#[plugin]` impl
    (`#[system]`, `#[command]`, `#[event]`, `#[menu_action]`) and the helper
    attributes stacked on the impl, read from what `syn` gives.
  - `plugin_cmds` — `grs cmds` and `grs cmd`: the plugins' commands listed or
    looked up by name or alias, and the running of one.
  - `chat` — the decisions of the chat middleware pipeline.
  - `plugin_info` — the report of `grs info`, whole or one field.
  - `plugin_host` — the table of loaded WASM plugins: lookup, pausing,
    unloading, the grouping of plugins into bundles for the tree view of
    `list`, its rows, and the reports of the management CLI.
  - `engine_bridge` — what the engine backend decides from what it reads:
    live entities and clients, a player's team, name and language, cvar
    values, the active player count, and message strings.
  - `placeholder_registry`, `user_msgs`, `menu`, `hooks`, `cstrike`,
    `metamod`, `manifest`, `task` — placeholder providers, user message ids,
    `ShowMenu` chunking, hook payloads, client and server command handling,
    game tables, interface codes, plugin attributes (package defaults,
    `#[plugin(...)]` keys, bundle names) and manifests, and the main-thread
    task queue.
- `tests/` — tests run against the compiled library.
- `app/` — the process around the library: global state, files and
  directories, the `log` facade, serde forms of the configuration, the
  `wasmi` plugin runtime and the `notify` watchers.

Outside crates are reached only through small trusted wrappers whose contracts
state what the crates document: `toml` (parsing), `lexopt` (tokenizing the
command line), `syn` (reading attribute text), `crossbeam-channel` (the task
queue) and `log` (level types).
