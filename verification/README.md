# gitui

The decision logic of a terminal git client, written in Verus: what is parsed,
ordered, laid out and decided is stated in contracts and proved; what reads
repositories, runs programs and draws stands around it.

- `src/` is the library.
  - `text`, `unicode`, `paths`, `sorting`: styled text, display widths, paths and
    a stable sort.
  - `ansi`: colored output of programs as styled lines.
  - `asyncgit`: background jobs, status scans, diffs, logs, pushes and fetches as
    state machines; `asyncgit::sync` holds what they compute.
  - `components`, `popups`, `tabs`, `ui`: the state of the panels, their keys and
    what they show. `components::async_delta` fits diffs that `delta` renders.
  - `options`, `external_diff`, `os_theme`, `watcher`: settings, viewers, colors
    and changes on disk.
- `app/` runs what the library decides: it talks to git, to programs, to files
  and to the terminal, and hands back what came of it.
- `tests/` runs the library.

Where a module needs an outside crate to compute something, it calls it through
a small function whose doc comment says what is taken on trust.

`kstring` stands in `Cargo.toml` only to hold it at a version that `gix` builds
with; nothing here names it.
