# rubrica

An EPUB library manager: import with SHA-256 deduplication, a SQLite
catalogue with full-text search, an OPDS feed, a command line with a REPL
and aliases, and a PDF to EPUB converter that rebuilds chapters from the
page layout.

The library in `src/` is written in Verus. Each public function states what
it returns in its `ensures` clause, over spec functions on sequences and
views, and Verus proves the code against it. The proof functions named
`lemma_*` that are public state properties of the library as a whole: that
running headers never reach a chapter, that blocks between blank lines are
converted independently, that an alias of the in-memory configuration
(`RubricaConfig`, the form exported to TOML) reads back as it was last set,
and others.

- `src/text.rs`, `src/markup.rs`: strings as character sequences: trimming,
  lines, splitting, joining, XML escaping, decimals.
- `src/xhtml.rs`: a scan of tags that defines well-nested markup; the
  Markdown converter (`src/pdf/inline.rs`, `src/pdf/assembler.rs`) is
  proved to produce it for every input.
- `src/pdf/`: the PDF pipeline: the layout XML (`layout_xml`), the chapter
  reconstruction (`layout`), the page split of plain text (`extractor`),
  chapter XHTML (`semantic`), and fragment checking and EPUB planning
  (`assembler`).
- `src/cli.rs`, `src/config.rs`, `src/desktop.rs`: the decisions of the
  command line, the REPL, aliases and the desktop pages.
- `src/library_db.rs`, `src/opds.rs`, `src/pipeline.rs`, `src/sync.rs`,
  `src/organizer.rs`, `src/analytics.rs`, `src/gutencore.rs`: the SQL the
  catalogue runs, the OPDS documents, the import state machine, device
  copies, and EPUB metadata.
- `src/patterns.rs`, `src/unicode.rs`, `src/digest.rs`, `src/xml.rs`: the
  calls into `regex`, the standard library's Unicode tables, `sha2`/`hex`
  and `roxmltree`, each behind a function whose contract is trusted.

`app/` is the program around the library: the command line, the REPL, the
SQLite database, the HTTP server, file and process I/O, and the floating
point page geometry. `tests/` runs the library on concrete values.
