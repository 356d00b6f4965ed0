# crossref-rs

Crossref literature metadata and BibTeX management, with its logic verified by
Verus.

- `src/` is the verified library: citation keys and key-conflict resolution
  (`utils`), BibTeX records and append planning (`bibtex`), configuration
  priority and first-run guidance (`config`), cache file naming and expiry
  (`cache`), the request and response decisions of the Crossref and
  Unpaywall client (`client`), the Nushell plugin's records and flags
  (`plugin`), and the text printed for works and searches (`output`).
  Calls into `serde_bibtex`, `chrono`, `crossref`, `dirs` and `colored` go
  through small trusted wrappers whose contracts are stated in their doc
  comments.
- `app/` is the `crossref` command-line tool: argument parsing, config and
  cache files, `.bib` files and the HTTP client.
- `tests/` runs the library on concrete values.
