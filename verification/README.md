# blogworm

Fetches the latest posts of a list of security blogs and reports the ones
published since the last run.

- `src/` is the library, verified with Verus:
  - `text`, `decimal`: character-level string operations and decimal
    numbers, with the meaning the standard library gives them;
  - `calendar`, `time`: Gregorian dates, UNIX timestamps, and the post
    times read with chrono;
  - `html`, `links`, `posts`: what scraper and regex pick out of a page,
    and the links and post parts a source's pages yield;
  - `sources`, `run`, `config`: source lookup, absolute links, the
    timestamp of the last run and the new posts, the save path.
  Dates are turned into timestamps by chrono; `calendar` states what a
  timestamp is, so that the contracts can say which instant a post gets.
- `app/main.rs` is the command: it fetches pages with reqwest on tokio,
  reads the blog sources from `~/.blogworm/postsrc.json` (a JSON list of
  sources), keeps the last run in `~/.blogworm/timestamp`, and saves the
  new posts as JSON (`-s` chooses where, `-w` lists the sources, `-g name`
  fetches and prints the latest posts of one source).
- `tests/` exercises the library on concrete pages and texts.
