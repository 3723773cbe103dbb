# rustw

A web server for reading and building Rust code: it shows source files with
highlighting, finds definitions and references through the data that the compiler
leaves behind, and tells a browser how a build is going.

`src/` is the library, verified with Verus. It holds everything the server decides
and computes:

- `text`, `number`, `path`: text, decimal numbers and paths.
- `file_controller`: the cache of files (`file_cache`, over the virtual file system
  in `vfs`), the analysis of a project (`analysis`), searches and their outcomes
  (`outcome`, `results`, `span`), what searches leave as it was (`keeping`), and what
  holds of them while files do not change (`steadiness`).
- `server`: which answer a request asks for (`route`, `query`), the answers
  (`files`, `search`, `edit`, `reply`), and builds (`building`, `event`).

Calls into other crates and into parts of the standard library stand behind small
functions marked `external_body`; the comment above each says what is taken on
trust of it.

`app/` is the server around the library: HTTP, processes, threads, the disk and
JSON. The compiler, the highlighter, directory listings and the like come in by the
`Tools` trait.
