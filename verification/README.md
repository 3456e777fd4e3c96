# athena

Athena is a working-protocol CLI for AI agents: work items are Markdown files
with a YAML frontmatter, kept in a git-tracked state root (`~/.Athena`), and
their directory is their state (`pool/ → working/ → finished/`, or
`community/`). This crate is its verified core, written in Verus.

## Layout

- `src/` — the library, verified with Verus:
  - `text.rs`, `path.rs`: string and Unix-path arithmetic with specifications
    (`lines`, `split`, `trim`, `find`, `Path::join`, file names, components);
  - `document.rs`: the document model, headings, the frontmatter framing of a
    file and the body's content hash;
  - `rules.rs`: the validation rules and their findings;
  - `section.rs`, `templates.rs`, `textops.rs`: body editing, `{{key}}`
    rendering, path routing and small text helpers;
  - `workflow.rs`: what each transition (`promote`, `complete`, `freeze`,
    `community`, `resume`, `deepen`, `quick`) decides about an item;
  - `store.rs`: the state root's layout and the path guard;
  - `commands.rs`, `context.rs`, `search.rs`, `vcs.rs`, `items.rs`,
    `config.rs`, `term.rs`, `error.rs`: the texts, reports and decisions the
    commands need, and the git plumbing's arguments and replies;
  - `laws.rs`, `section_laws.rs`, `append_laws.rs`: properties proved across
    functions (framing round trip, the path guard, routing, pending entries,
    the quick lane's counter, pitfall search, where an append to a section
    lands and what two appends add up to).
- `tests/` — tests run against the compiled library.
- `app/` — the `athena` binary: argument parsing, the file system, the
  clock, YAML/TOML (de)serialisation and the git process, around the library.
