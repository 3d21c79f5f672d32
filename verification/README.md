# crates_no

A search engine and static catalogue for crates published on crates.io.

- `src/` is the verified library: where pages go (`page_generator`, `paths`,
  `site`), how crates are filed by letter (`letters`), which index entries are
  visited (`walk`), the search index over tantivy (`index`, with the engine
  calls it relies on in `engine`), and how search hits become the result page
  (`search`, `name_order`, `text`).
- `app/` holds the programs: `generate` walks a checkout of the crates.io index,
  asks crates.io about each crate, indexes it and writes its page; `serve` runs
  the web front end.
- `tests/` exercises the library on concrete values.
