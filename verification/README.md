# logo_scraper

A logo scraper: it reads domains on stdin, fetches each home page, and prints
the URL of the best logo it finds (`domain,logo_url`).

- `src/` is the verified library: URL normalisation and icon-size parsing
  (`utils`), the logo search over HTML tokens and JSON-LD with its priority
  rule (`extractor`), the manifest icon choice (`manifest`), the crawler's
  per-page decisions and options (`crawl`), and the token and JSON models
  filled by `html5gum` and `serde_json` (`html`, `json`).
- `app/` is the program: HTTP with `reqwest`, concurrency with `tokio`,
  logging, and the end-of-run summary.
