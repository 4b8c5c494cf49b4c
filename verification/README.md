# migration_assessor

A library that assesses the migration of a project from one language to another
(TypeScript or JavaScript to Rust, and back): it extracts the symbols and imports of
source files, builds the module dependency graph and finds its import cycles,
resolves and compares dependencies, rates their compatibility with the target
ecosystem, translates names and types between the languages, and diffs two versions
of a file or a project.

The library is written in Verus. Every function in `src/` carries a contract
(`requires` / `ensures`) over mathematical models (`Seq`, `Map`, `int`, views of the
data types), and Verus proves that the code meets it. Properties that relate several
functions are stated as public proof functions named `law_*`.

## Layout

- `src/` — the verified library.
  - `graph.rs`, `graph/` — the dependency graph, cycle detection as an index-level
    depth-first search, and import resolution.
  - `symbols/`, `parser/`, `references/`, `ast.rs` — symbols, imports and references
    of Rust, TypeScript and JavaScript sources. The parses themselves are done by
    `syn` and `oxc`, reached through small trusted wrappers whose contracts name
    their results.
  - `diff.rs`, `diff/`, `language.rs`, `language/` — symbol, signature, import and
    documentation diffs.
  - `deps.rs`, `compat.rs`, `matrix.rs`, `recommendation.rs`, `data.rs` — dependency
    resolution, compatibility levels and overrides, recommendations.
  - `naming.rs`, `api_map.rs`, `matcher.rs` — name and type translation, matching
    symbols across languages.
  - `text.rs` — character-level text operations with their specifications.
- `tests/` — tests of the library on concrete inputs.
- `app/` — the code around the library: file, git and database I/O, reading
  configuration and override files, floating-point scoring.
