# uwgit

A small read-only web frontend for a folder of git repositories: pages for
browsing code, history, references and README files.

## Layout

- `src/` — the library, verified with Verus: request checks (repository
  names, paths, references), links and paging, sizes and dates, diff and
  blob rendering, syntax highlighting on top of syntect, README rendering
  on top of pulldown-cmark and ammonia, reference bookkeeping, and the
  settings file.
- `app/` — the server: reads repositories with git2, serves the pages with
  axum, renders them with askama, caches them with moka.
- `tests/` — tests of the library.

## Settings

The server reads `config.toml` from its working directory:

```toml
repos_path = "/path/to/repos"
site_title = "git.example.dev"
owner = "Your Name"
host = "0.0.0.0"
port = 3000
```

Without that file it reads `REPOS_PATH`, `SITE_TITLE`, `OWNER`, `HOST` and
`PORT` from the environment (or a `.env` file).
