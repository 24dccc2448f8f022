# monoripple

monoripple finds the applications of a JavaScript or TypeScript monorepo that a change affects, symbol by symbol. A change is followed from the declarations that it touches to the modules, bindings and deployment targets that consume them; what is only declared but never used does not count.

## Layout

- `src/` is the library, written in Verus: what its functions promise is proved, except for the trusted items below.
- `app/` is the command line around it: files, git, plugins, the terminal, the page that shows a graph, and the language server of the TypeScript compiler.
- `tests/` runs the library with the crates that it calls.

## The library

| Module | What it holds |
| --- | --- |
| `parser` | what one module declares, imports and exports |
| `graph` | the graph of symbols across modules, reachability, impact paths and their explanations |
| `workspace` | packages, source files, targets and the roots that tasks start from |
| `analysis` | the symbols and packages that a list of changes starts from |
| `pnpm`, `package_manager` | what a change of a lockfile means |
| `cargo` | changes that reach packages through crates |
| `query` | answers: affected packages, reasons, pages, commands for task runners |
| `typescript`, `tsgo` | what the compiler is asked about registries, and the session with its language server |
| `plugin` | what plugins add |
| `ui`, `viz` | the interactive view and the page |
| `collections`, `order`, `sorting`, `walk`, `path`, `text`, `words`, `data`, `lookup` | ordered sets and maps, walks, paths, texts and configuration values |

A path is a list of components, and it is shown as these joined by slashes: doubled slashes and a `.` inside a path are not kept.

The library does not touch the disk. What has to be known of it (canonical paths, which paths are files, where the module resolver leads) is gathered first and handed over as `DiskFacts`; `graph::questions` lists what a module asks for.

## Promises

- What changed is affected, and so is everything that consumes it, however far away (`query::laws`).
- The graph of the base revision is merged in, so that a removed declaration still reaches what consumed it.
- A type check reaches at least what a deployment reaches; a larger change reaches at least what a smaller one does.
- A lockfile that cannot be modeled concerns every target; one that did not change concerns none. Every changed lockfile that is not modeled is warned of.
- Where nothing is affected no task runner is started, and the filters that are printed select no package.
- Kept modules change nothing about a graph but the count of what was kept, and a second build with them parses nothing (`graph::rebuilding`).
- A path that explains an effect is never shorter than the one in front of it and comes to no node twice (`graph::routes`).
- A graph that is moved to a directory in which it had nothing, and then moved back, is the same graph. This holds where each of its paths can return, and where the directory is not the path under which targets stand; `graph::moving` says exactly when that is.

What crates outside the project do is stated by trusted items, whose contracts are believed: the syntax tree of oxc, the value types and readers of serde_json and json5, the values of serde_yaml, path_clean, globset, sha2, url, zstd, tar and the hash map of rustc_hash.
