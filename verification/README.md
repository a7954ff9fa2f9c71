# arxiv-bluesky-bot

Posts each day's newly announced arXiv papers to a Bluesky account. The
library (`src/`) holds the logic with Verus contracts; `app/` is the program
around it (environment, network, Bluesky client, logging).

- `src/text.rs`    Unicode whitespace, trimming, collapsing, splitting, searching
- `src/arxiv.rs`   papers, ids, abstracts, the day's filter, hashing into posting windows
- `src/time.rs`    instants and IANA time zones (chrono, chrono-tz)
- `src/feed.rs`    reading the RSS feed (rss) into papers
- `src/format.rs`  the post text and link card (unicode-segmentation)
- `src/config.rs`  settings from environment variables
- `src/run.rs`     a run's plan (filter, window, cap) and its bookkeeping
- `app/main.rs`    orchestration; `app/bluesky.rs` login and posting (bsky-sdk)

Laws proved in `src/`: windows partition a batch (`arxiv::law_windows_partition`),
the day's filter keeps wanted papers once each and is idempotent
(`arxiv::law_filter`), window indices stay in range and follow the clock
(`arxiv::law_window_for_hour`), collapsing and trimming leave normal forms
(`text::law_collapse_single_spaced`, `text::law_trim`), and over a day's
windows each wanted paper is posted once (`run::law_each_paper_once`).
`format::compose_post` keeps the post text and both card fields within
300 graphemes, measured with unicode-segmentation.
