# photo_dupe_resolver

Finds duplicate photos: it walks the folders it is given, records every
image file in a SQLite database, hashes the files, groups the images that
share a content hash, and those of different content that share a
perceptual hash, and shows the groups in a small web interface.

## Layout

- `src/` is the library, verified with Verus:
  - `cli` — the command-line grammar (every setting but the scenarios can
    be given there), as a specification and a parser proved against it;
  - `config` — the defaults and how the command line overrides them;
  - `hasher` — the content and perceptual hashes of a file's bytes
    (SHA-256 by `sha2`), and the decisions of a hashing run;
  - `scanner` — which files are images, the record of a found image and
    the batches in which images are stored;
  - `database` — image records, the grouping of rows by content hash, and
    the groups of perceptually similar images;
  - `shared_state` — the state shared by the tasks and how requests change it;
  - `web_ui` — the rows the web interface lists and the order of the
    duplicate groups (`order` holds the stable sort they rest on).
- `app/` is the program around it: `main`, the TOML configuration file, the
  SQLite store, the file walk, the hashing and scanning tasks, and the axum
  server.
- `tests/` runs the library on concrete values.
