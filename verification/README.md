# loc

A small backend that counts lines of code in a public GitHub repository: it
downloads the repository's gzipped tarball, walks its files and builds a
directory tree of line counts broken down by language key (a file's lowercased
extension, or its whole name when it has none).

The library under `src/` is verified with Verus:

- `tree` — the tree built while walking an archive, its model, and insertion
  of a file at a path (with read-after-write and non-interference lemmas);
- `locs` — the line-count tree handed to callers and its aggregation from the
  build tree (totals, per-language totals, consistency at every level);
- `counts` — per-language counts as an association list with distinct keys;
- `files` — line counting (agreeing with `str::lines`), the binary-file
  heuristic and language keys;
- `filters` — the `filter` query parameter: comma-separated regular
  expressions on language keys;
- `scan` — which archive entries are counted, and the walk over a tarball;
- `archive` — the calls into `flate2` and `tar`;
- `forge` — request URLs, headers, and decisions on responses from GitHub;
- `jobs` — bookkeeping for deduplicated concurrent work;
- `platform`, `error`, `text` — platform names, errors and string helpers.

`app/` holds the HTTP server (axum), the GitHub client (reqwest), the JSON
shapes (serde), the concurrent job runner (tokio) and the human-readable badge
formatting, which works on floating-point numbers.

## API

- `GET /:owner/:repo/locs` — the full line-count tree. Query parameters:
  `branch` (defaults to the repository's default branch) and `filter`
  (comma-separated regular expressions matched against each file's language
  key).
- `GET /:owner/:repo/badge` — a shields.io endpoint badge; `format=human`
  abbreviates the count (e.g. `1.2k`).
