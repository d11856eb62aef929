# atp_tools

Tools for AT Protocol apps (Bluesky, Margin, Tangled): follow reports, a daily digest of the
links your follows share, Markdown export of Margin notes, lexicon syncing and model
generation, and a small API that tracks each actor's latest post.

The library under `src/` is verified with Verus: every public function carries a
`requires`/`ensures` contract over spec functions and views, and the laws the tools rely on
(stable orderings, order-independent hashes, reading back a configuration field after setting
it, the calendar arithmetic behind digest dates, and others) are stated and proved as public
proof functions.

- `src/text.rs`, `src/json.rs`, `src/hashing.rs`: strings, JSON documents, SHA-256 and hex.
- `src/follows.rs`, `src/author_feed.rs`, `src/link_digest.rs`, `src/digest.rs`: Bluesky follow
  reports (cached under a key hashed from the actor's DID, handle and follows count), paging
  through author feeds, external-link extraction and the ranked Markdown digest.
- `src/calendar.rs`: the date a day count names, and its `YYYY-MM-DD` text.
- `src/margin.rs`: grouping notes by source and rendering them as Markdown with front matter.
- `src/codegen.rs`, `src/lexsync.rs`: Rust and TypeScript models from lexicons, and the
  lexicon sync presets and paths.
- `src/api.rs`: request validation, staleness decisions and Jetstream event handling.
- `src/config.rs`, `src/client.rs`, `src/parallel.rs`, `src/cli.rs`: configuration (identity,
  services and the link digest's defaults, with checked number fields), service URLs, bounded
  parallel work and the command line's tables and messages.

`app/` holds the programs around the library: the `atp` command line and `atp-tools-api`
(HTTP server and Jetstream worker), with the network, file system and SQLite access that the
library leaves to its callers.
