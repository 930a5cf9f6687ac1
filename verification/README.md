# changelogger_prdoc

Structured pull-request documentation ("prdoc" files) for Rust workspaces,
written in Verus. Every function of the library carries a contract that
Verus proves, except four small trusted wrappers whose contracts are
believed: `String::push` and `str::to_lowercase` (in `src/text.rs`), and
`regex::Regex` matching and replacement (in `src/frontmatter.rs`). Their
doc comments say what each contract claims of the outside code.

- `src/text.rs` – character-level text operations (prefixes, search,
  trimming, replacement, decimal numerals, joining, lexicographic order),
  each specified over `Seq<char>`.
- `src/types.rs` – the prdoc data model: documents, audiences, SemVer bump
  levels and their order, and the error type of reading a prdoc.
- `src/validate.rs` – validation of a prdoc, with the backport-branch rule.
- `src/frontmatter.rs` – YAML front-matter framing and the automatic repair
  of common mistakes (through the `regex` crate).
- `src/config.rs` – the project configuration and its defaults.
- `src/workspace.rs` – workspace crates, the directory index, the lookup
  of the crate that owns a file, and sorted crate names.
- `src/report.rs` – the texts that the command line prints, and the
  decisions of publishing (manifest rewriting, order, outcome).
- `app/` – the `changelogger` command line: clap, files, serde forms of
  the types (YAML, JSON, TOML) and `cargo metadata`.
