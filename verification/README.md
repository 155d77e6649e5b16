# hotcarpet

Finds the "hot" spots of a codebase from its git history: it ranks the files and,
by digging down, the individual functions and methods that changed most often.

The library under `src/` is verified with [Verus](https://github.com/verus-lang/verus).
Every function states what it returns, and the proofs hold it to that.

- `cli`, `config`, `dates`, `globs`: what the options and the config file come down to.
- `git_history`: which commits are walked, the files and lines a commit changed.
- `analyzer`: the language plugins. Each reduces a parser's syntax tree to an outline
  (`outline`), which is turned into qualified, depth-numbered symbols, once for all
  languages. `registry` maps file extensions to plugins.
- `engine`: crediting changes to functions (`attribution`), what one commit
  contributes (`commit`), merging it into the leaderboards (`reduce`), and what holds
  of every analysis (`laws`).
- `output`: JSON, tables and diagnostics.
- `text`, `lists`, `sorting`: what the other modules share.

Parsers, glob matching, calendar, JSON and table drawing come from outside crates.
Each call stands behind a small function whose contract is not proved: those marked
`external_body`.

Analyzers of TypeScript and JavaScript, Rust, and Go ship in the box
(`AnalyzerRegistry::with_builtins`). Those of Kotlin and Scala are part of the library and
can be registered beside them.

Some of these crates need a word:

- `tree-sitter-kotlin-sg` is the published Kotlin grammar that links with the
  `tree-sitter` the other grammars use. Its scanner aborts the process where more than 512
  strings are open, so Kotlin sources with more than 512 `"` are refused with an error of
  their own. It asks the locale about letters outside of ASCII, so what it makes of them
  is not settled by the source alone.
- `proc_macro2` keeps the place of what a thread has parsed. Reading a Rust source makes
  the calling thread forget those places first, and sources of more than 256 MiB are
  refused as too long. `quote` gives the first and the last token of a definition, from
  whose places its lines are read.
- `globset` and the file names of `oxc_span` follow the target in what separates the
  components of a path. What is stated of them holds on any one target.

The program under `app/` reads the command line, the config file and the repository,
runs the analysis on worker threads and prints the result. The tests are under
`tests/`.

## Adding a language plugin

Implement `analyzer::LanguageAnalyzer`, add it to `BuiltinAnalyzer` in
`analyzer/registry.rs` and register it. Its `name()` doubles as its config key, and its
`extensions()` are the default mapping that a config file can override.
