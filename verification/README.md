# twlaw_core

A verified library for Taiwan legal research over official public sources:
Ministry of Justice laws and datasets, Legislative Yuan law histories,
Judicial Yuan judgments, Constitutional Court decisions, MOJ legal
references, and the data.gov.tw catalog. It is written in Verus: each public
function states its result in `requires`/`ensures` over mathematical models,
and Verus proves the code against them.

## Layout

- `src/` — the library, verified.
  - `text`, `num`, `web`, `rx`, `html`: text, numbers, URLs, regular
    expressions and HTML queries (the last three call `url`,
    `percent-encoding`, `regex` and `scraper` through small trusted items
    whose results are named by uninterpreted spec functions).
  - `data`, `regulations`: the law-code table, name resolution, search, and
    article pages of law.moj.gov.tw.
  - `legislative`: Legislative Yuan search forms, versions and reasons.
  - `judicial`, `judgment`: Judicial Yuan search forms, result pages, the
    result collector and judgment pages.
  - `constitutional`: case ids, the bundled decision index, snippets,
    citations, current judgments and terminal cases.
  - `moj_openapi`, `moj_records`, `updates`, `agreements`, `mojlaw`: MOJ
    datasets, law records, update notices, agreements and the retrieval
    system.
  - `opendata`: the data.gov.tw catalog export and its legal filter.
  - `sources`, `guide`: the source table, coverage figures and the agent guide.
  - `retry`, `error`: retry decisions and error categories.
- `tests/` — tests of the library on fixtures.
- `app/` — the `twlaw` command line: argument parsing, HTTP, files and JSON
  output around the library.

## Bundled snapshots

The law-code table, the law histories and the Constitutional Court
decisions are snapshot files that are not part of this repository:
`pcode_all.json.gz`, `law_histories.json.gz`, `old_cases.json.gz` and
`new_cases.json.gz`. The command line reads them at run time from the
directory named by `TWLAW_DATA_DIR`, else from `data/` beside the
executable. Without them, `regulation`, `interpretation get/search/citations`
and `sources status` answer with a `data_error`; the live commands work
without them.
