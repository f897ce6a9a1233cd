# ddgr

Search the web from the terminal. DuckDuckGo's lite HTML endpoint is asked
first; when it fails (for instance when it answers with its bot-detection
dialog) Mojeek is asked instead. ArXiv can be chosen explicitly. Results are
collected page by page, up to a requested count (at most 40), and printed as
JSON or TOON.

Layout:

- `src/` — the library, verified with Verus:
  - `text.rs`: character-level text operations (whitespace, trimming, words,
    decimal numbers) with their specifications;
  - `parser.rs`: a hand-written tokenizer and state machine for DuckDuckGo's
    lite page, specified as a transition function over a model of its state;
  - `ddg/`, `mojeek/`, `arxiv/`: the request parameters of each engine, the
    reading of its result pages, and the pagination state after each page;
  - `bindings.rs`: the calls into `html_escape`, `url`, `scraper` and
    `roxmltree`, with the contracts the library relies on;
  - `lib.rs`: the shared types, result numbering, pagination and the
    decisions of a search (result cap, engine fallback, page collection).
- `app/` — the program: command line, HTTP requests, the page loop, and the
  JSON / TOON output.
- `tests/` — behaviour tests of the library.
