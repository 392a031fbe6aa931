# devfolio

Turns a GitHub username into a static portfolio site and a README quality scorecard:

```
devfolio generate octocat -o ./devfolio-out --max-repos 5
```

writes `index.html`, `scorecard.html`, `scorecard.md` and `styles.css`.

## Layout

- `src/` — the library, with its contracts and proofs:
  - `score.rs` — the README rubric (nine weighted checks, 100 points), grades and summaries;
    pattern checks go through the `regex` crate.
  - `generate.rs` — option defaults, the stable ordering and selection of repositories,
    the language tally and the scoring of each repository.
  - `github.rs` — API paths and headers, status handling and the conversion of API records.
  - `emit.rs` — the three pages, with text escaped through `html_escape`.
  - `text.rs` — trimming, decimal numbers and string order.
  - `model.rs` — the records the pages are made of.
- `app/` — the command: HTTP and JSON, the clock, the float average and the files.
- `tests/` — tests of the library.
