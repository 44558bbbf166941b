# pankh

A featherweight Markdown reader for humans and AI agents: a terminal reader, a
token-thrifty cleaner for agents, a heading-aware chunker, an outline and code-block
extractor, a BM25 search over files or over an incremental index, and a stdio MCP
server.

## Layout

- `src/` is the library, written in Verus. Every function there carries a contract
  over a mathematical model of its data (`Seq`, `Map`, views of each type), and the
  laws of the library are stated and proved as public proof functions (`law_*`).
  - `text`: string specifications (lines, trimming, search, words) and helpers.
  - `markdown`: the CommonMark event stream, through `pulldown-cmark`.
  - `agent`: front matter, the cleaner, code blocks, statistics and the diff report.
  - `outline`: the heading tree and its laws.
  - `chunker`: heading-aware chunking under a token budget.
  - `query`: the query syntax and its filters.
  - `search`: the lines of a document with their sections, and the lines a query hits.
  - `index`: the incremental search index (documents, term postings, trigrams).
  - `ranking`: what a query hits in the index, fuzzy matches, and the counts BM25 uses.
  - `mcp`: the decisions of the MCP server (methods, tools, arguments, sections).
  - `gui`: the HTML page of the desktop reader.
  - `report`: the plain-text reports of the command line.
  - `tui`: the reader's state machine and the rich terminal rendering.
- `app/` is the program around the library: the command line, files and the index file
  on disk, the terminal loop and drawing, the clipboard, the file watcher, the MCP
  server's JSON and the floating-point scoring and cost estimates.
- `tests/` exercises the library on concrete inputs.
