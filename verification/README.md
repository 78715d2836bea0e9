# gfind

`gfind` finds repositories, branches, commits, statuses and stashes across collections of Git
repositories. This crate holds the verified library; `app/` holds the command around it.

## Layout

- `src/` — the library, written and proved with Verus:
  - `text.rs`: string slices as char sequences (lines, trimming, splitting, decimal numbers,
    byte searches, ordering);
  - `query.rs`: query modes, matching and match ranges;
  - `style.rs`: ANSI styling and the highlighting of matched ranges;
  - `pattern.rs`: the regular expressions of the `regex` crate;
  - `config.rs`, `options.rs`: settings, their defaults, and how command line flags override them;
  - `help.rs`: reading the command line for help, and what the configuration adds to help;
  - `paths.rs`: relative paths, home expansion, directory exclusions, collecting and ordering
    repositories;
  - `branch.rs`, `stash.rs`, `report.rs`, `commands.rs`: what each command decides and prints;
  - `lookup.rs`: the steps of finding a branch's upstream status, one git command at a time;
  - `error.rs`: the error type.
- `tests/` — tests of the library.
- `app/` — the `gfind` program: clap parsing, git processes, the filesystem and printing.

Calls into `regex`, `owo-colors`, `std::path`, `str::to_lowercase`, `char::to_lowercase` and
`String::push` are behind small trusted wrappers whose contracts say what those crates and std
document; everything else in `src/` is verified.

Besides the contracts of each function, the library proves laws that span several of them: the
upstream and origin status lookups run step by step reach what a single lookup would report,
merged ranges are unique and merging is idempotent, highlighted text with its escape sequences
removed is the text itself, and a relative path followed from its base leads back to the path.
