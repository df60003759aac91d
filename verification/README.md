# Shelfarrs

A self-hosted ebook hub. It keeps a library of book files, reads their
metadata, searches sources and indexers, hands releases to download clients,
imports what they fetch, and serves the books to browsers, viewer plugins and
OPDS readers.

## Layout

- `src/` is the library, verified with Verus: what the hub decides and computes.
- `app/` is the program around it: the HTTP server and its pages, the SQLite
  database, the files, the network, and the WASM host for plugins.
- `tests/` runs the library on concrete values.

## The library

| Module | What it is about |
| --- | --- |
| `text`, `encode`, `xml`, `paths`, `json` | text, percent and hexadecimal encoding, tag scanning, POSIX paths, JSON values |
| `archive`, `meta` | zip archives; metadata and covers of EPUB and CBZ files |
| `books`, `opds`, `reader`, `page` | the library's pages, the OPDS feed, the reading page, the navigation |
| `sdk`, `source`, `libgen`, `plugin` | the plugin ABI, Project Gutenberg, Library Genesis, the plugin host |
| `install`, `package` | plugin repositories, integrity-checked unpacking, packaging |
| `indexer`, `score`, `autosearch` | torznab and newznab answers, quality profiles, upgrades |
| `downloads`, `jobs`, `discovery` | download clients and their monitor, the job queue, wanted titles |
| `providers` | OpenLibrary and Google Books |
| `auth` | passwords, sessions and admission |

Contracts speak of mathematical values: text is a `Seq<char>`, a list a `Seq`,
a stored record its view. Each module states the laws of its functions as
public proof functions whose names begin with `law_`. What other crates and the
standard library compute is described by a few trusted items, each with a
comment that says what is taken on trust.

Paths are POSIX paths.
