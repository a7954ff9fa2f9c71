use arxiv_bluesky_bot::arxiv::{
    current_window_index, filter_papers, hash_id, parse_abstract, parse_id, select_window,
    strip_version, today_in_timezone, window_index_for_hour, ArxivPaper, FilterOptions,
};
use arxiv_bluesky_bot::config::{parse_announce_types, parse_unsigned, Config, ConfigError};
use arxiv_bluesky_bot::feed::{
    paper_from_item, parse_feed, ExtensionElements, ExtensionGroup, FeedError, FeedItem,
};
use arxiv_bluesky_bot::run::{plan_run, posting_cap, PostStats};
use arxiv_bluesky_bot::format::{
    compose_post, fit_graphemes, grapheme_count, shorten_authors, truncate_graphemes,
};
use arxiv_bluesky_bot::text::{collapse_whitespace, trim_str};
use arxiv_bluesky_bot::time::Zone;

fn paper(id: &str, date: &str, ty: &str) -> ArxivPaper {
    ArxivPaper {
        id: id.to_string(),
        title: format!("Title {id}"),
        authors: "A, B".to_string(),
        abstract_text: "abs".to_string(),
        link: format!("https://arxiv.org/abs/{id}"),
        announce_type: ty.to_string(),
        announce_date: date.to_string(),
        categories: vec!["cs.AI".to_string()],
    }
}

fn reference_hash(id: &str) -> u32 {
    let mut h: u32 = 0x811c_9dc5;
    for cu in id.encode_utf16() {
        h ^= cu as u32;
        h = h.wrapping_mul(0x0100_0193);
    }
    h
}

fn env(pairs: &[(&str, &str)]) -> Vec<(String, String)> {
    pairs.iter().map(|(k, v)| (k.to_string(), v.to_string())).collect()
}

fn item() -> FeedItem {
    FeedItem {
        guid: None,
        link: None,
        title: None,
        description: None,
        pub_date: None,
        categories: vec![],
        dc_creators: None,
        extensions: vec![],
    }
}

fn elements(name: &str, texts: Vec<Option<&str>>) -> ExtensionElements {
    ExtensionElements {
        name: name.to_string(),
        texts: texts.into_iter().map(|t| t.map(|s| s.to_string())).collect(),
    }
}

fn group(prefix: &str, elements: Vec<ExtensionElements>) -> ExtensionGroup {
    ExtensionGroup { prefix: prefix.to_string(), elements }
}

// ----- text -----

#[test]
fn collapse_whitespace_leaves_single_inner_spaces() {
    assert_eq!(collapse_whitespace("  a \t\n b  "), "a b");
    assert_eq!(collapse_whitespace("a\u{a0}\u{3000}b"), "a b");
    assert_eq!(collapse_whitespace(" \n\t "), "");
    assert_eq!(collapse_whitespace("already clean"), "already clean");
    let once = collapse_whitespace("  x   y  z ");
    assert_eq!(collapse_whitespace(&once), once);
}

#[test]
fn trim_removes_only_the_ends() {
    assert_eq!(trim_str("  in  side \n"), "in  side");
    assert_eq!(trim_str("\u{2003}x\u{2003}"), "x");
    assert_eq!(trim_str("   "), "");
}

// ----- ids, abstracts, hashing -----

#[test]
fn strip_version_edge_cases() {
    assert_eq!(strip_version("v1"), "");
    assert_eq!(strip_version("1v2v3"), "1v2");
    assert_eq!(strip_version(""), "");
}

#[test]
fn parse_id_other_shapes() {
    assert_eq!(parse_id(Some("2506.01250"), None), "2506.01250");
    assert_eq!(parse_id(Some("a:b:cs/0501001v4"), Some("https://arxiv.org/abs/x")), "cs/0501001");
    assert_eq!(parse_id(None, Some("https://example.org/x")), "https://example.org/x");
}

#[test]
fn parse_abstract_marker_only() {
    assert_eq!(parse_abstract(Some("Abstract:")), "");
    assert_eq!(parse_abstract(Some("x Abstract: a Abstract: b")), "a Abstract: b");
}

#[test]
fn hash_id_agrees_with_utf16_fnv() {
    for id in ["", "2506.01250", "é", "𝔸x", "日本"] {
        assert_eq!(hash_id(id), reference_hash(id), "hash mismatch for {id}");
    }
    assert_eq!(hash_id(""), 0x811c_9dc5);
}

// ----- windows and filter -----

#[test]
fn each_paper_lands_in_exactly_one_window() {
    let papers: Vec<ArxivPaper> =
        (0..60).map(|i| paper(&format!("2401.{i:05}"), "2025-06-30", "new")).collect();
    for p in &papers {
        let mut hits = 0;
        for index in 0..3usize {
            if select_window(&papers, index, 3).iter().any(|q| q.id == p.id) {
                hits += 1;
            }
        }
        assert_eq!(hits, 1);
    }
    assert!(select_window(&papers, 3, 3).is_empty());
    assert_eq!(select_window(&papers, 7, 0).len(), papers.len());
}

#[test]
fn filter_is_idempotent_and_keeps_first_occurrence() {
    let mut first = paper("9", "2025-06-30", "new");
    first.title = "first".to_string();
    let mut second = paper("9", "2025-06-30", "new");
    second.title = "second".to_string();
    let papers = vec![paper("9", "2025-06-29", "new"), first, second];
    let opts = FilterOptions {
        announce_types: vec!["new".to_string(), "cross".to_string()],
        target_date: "2025-06-30".to_string(),
    };
    let once = filter_papers(&papers, &opts);
    assert_eq!(once.len(), 1);
    assert_eq!(once[0].title, "first");
    assert_eq!(filter_papers(&once, &opts), once);
}

#[test]
fn window_for_hour_values() {
    assert_eq!(window_index_for_hour(6, 6), 0);
    assert_eq!(window_index_for_hour(9, 6), 1);
    assert_eq!(window_index_for_hour(11, 6), 1);
    assert_eq!(window_index_for_hour(21, 6), 5);
    assert_eq!(window_index_for_hour(23, 6), 5);
    assert_eq!(window_index_for_hour(0, 6), 0);
    assert_eq!(window_index_for_hour(15, 2), 1);
    assert_eq!(window_index_for_hour(15, 0), 0);
}

// ----- zones and dates -----

#[test]
fn zones_and_dates() {
    assert!(Zone::parse("Not/AZone").is_none());
    let tz = Zone::parse("Asia/Tokyo").unwrap();
    assert_eq!(tz.name(), "Asia/Tokyo");
    // 2025-06-30T20:00:00Z is already July 1st in Tokyo.
    assert_eq!(today_in_timezone(1_751_313_600, &tz), Some("2025-07-01".to_string()));
    assert_eq!(current_window_index(i64::MAX, &tz, 6), None);
    assert_eq!(current_window_index(i64::MAX, &tz, 1), Some(0));
}

// ----- feed -----

#[test]
fn unreadable_feed_is_an_error() {
    let tz = Zone::parse("America/New_York").unwrap();
    assert_eq!(
        parse_feed("not xml at all", &tz).unwrap_err(),
        FeedError::Unreadable("reached end of input without finding a complete channel".to_string())
    );
    assert_eq!(
        parse_feed("<feed></feed>", &tz).unwrap_err(),
        FeedError::Unreadable("the input did not begin with an rss tag".to_string())
    );
}

#[test]
fn feed_item_fallbacks() {
    let tz = Zone::parse("America/New_York").unwrap();
    let xml = r#"<?xml version="1.0"?>
<rss version="2.0"><channel><title>t</title><link>l</link><description>d</description>
<item><title>  Spaced   Title </title><pubDate>2025-06-30T12:00:00Z</pubDate></item>
</channel></rss>"#;
    let papers = parse_feed(xml, &tz).unwrap();
    assert_eq!(papers.len(), 1);
    assert_eq!(papers[0].id, "unknown");
    assert_eq!(papers[0].link, "https://arxiv.org/abs/unknown");
    assert_eq!(papers[0].title, "Spaced Title");
    assert_eq!(papers[0].announce_date, "2025-06-30");
    assert_eq!(papers[0].announce_type, "");
    assert_eq!(papers[0].authors, "");
}

#[test]
fn paper_from_item_reads_every_field() {
    let tz = Zone::parse("America/New_York").unwrap();
    let mut it = item();
    it.link = Some("https://arxiv.org/abs/2401.00001v3".to_string());
    it.extensions = vec![
        group("arxiv", vec![elements("announce_type", vec![Some("  Replace-Cross "), Some("new")])]),
        group("dc", vec![elements("creator", vec![Some(" Ada "), None, Some("Alan")])]),
    ];
    it.description = Some("head Abstract: body".to_string());
    it.pub_date = Some("not a date".to_string());
    let p = paper_from_item(&it, &tz);
    assert_eq!(p.id, "2401.00001");
    assert_eq!(p.link, "https://arxiv.org/abs/2401.00001v3");
    assert_eq!(p.announce_type, "replace-cross");
    assert_eq!(p.authors, "Ada , Alan");
    assert_eq!(p.abstract_text, "body");
    assert_eq!(p.announce_date, "");

    it.dc_creators = Some(vec!["Grace  Hopper".to_string(), "Edsger Dijkstra".to_string()]);
    assert_eq!(paper_from_item(&it, &tz).authors, "Grace Hopper, Edsger Dijkstra");
    it.dc_creators = Some(vec![]);
    assert_eq!(paper_from_item(&it, &tz).authors, "Ada , Alan");
}

#[test]
fn extension_lookup_picks_prefix_and_name() {
    let tz = Zone::parse("America/New_York").unwrap();
    let mut it = item();
    it.extensions = vec![
        group("arxiv", vec![elements("other", vec![Some("x")])]),
        group("dc", vec![elements("contributor", vec![Some("Nobody")])]),
        group("ex", vec![elements("announce_type", vec![Some("new")])]),
    ];
    let p = paper_from_item(&it, &tz);
    assert_eq!(p.announce_type, "");
    assert_eq!(p.authors, "");

    it.extensions = vec![group("arxiv", vec![elements("announce_type", vec![None, Some("new")])])];
    assert_eq!(paper_from_item(&it, &tz).announce_type, "");
    it.extensions = vec![group("arxiv", vec![elements("announce_type", vec![])])];
    assert_eq!(paper_from_item(&it, &tz).announce_type, "");
}

// ----- format -----

#[test]
fn truncation_edges() {
    assert_eq!(truncate_graphemes("abc", 0), "\u{2026}");
    assert_eq!(truncate_graphemes("abc", 1), "\u{2026}");
    assert_eq!(truncate_graphemes("abc", 2), "a\u{2026}");
    assert_eq!(truncate_graphemes("🇮🇹🇫🇷🇩🇪", 2), "🇮🇹\u{2026}");
    assert_eq!(grapheme_count("a\r\nb"), 3);
}

#[test]
fn shorten_authors_skips_empty_pieces() {
    assert_eq!(shorten_authors(", ,A,, B"), "A, B");
    assert_eq!(shorten_authors("  Solo  "), "Solo");
    assert_eq!(shorten_authors("A,B,C,D,E"), "A et al.");
}

#[test]
fn compose_with_huge_author_stays_within_the_limit() {
    let mut p = paper("2506.01250", "2025-06-30", "new");
    p.title = "t".repeat(100);
    p.authors = "x".repeat(400);
    let post = compose_post(&p);
    // Title cut to its 20-grapheme floor, then the whole text cut to 300.
    let expected = format!("{}\u{2026}\n\n{}\u{2026}", "t".repeat(19), "x".repeat(277));
    assert_eq!(post.text, expected);
    assert_eq!(grapheme_count(&post.text), 300);
    assert_eq!(post.embed.title, "t".repeat(100));
    assert_eq!(post.embed.description, "abs");
}

#[test]
fn compose_cuts_long_card_fields() {
    let mut p = paper("2506.01250", "2025-06-30", "new");
    p.title = "T".repeat(350);
    p.abstract_text = "a".repeat(301);
    let post = compose_post(&p);
    assert!(grapheme_count(&post.text) <= 300);
    assert_eq!(post.embed.title, format!("{}\u{2026}", "T".repeat(299)));
    assert_eq!(post.embed.description, format!("{}\u{2026}", "a".repeat(299)));
    assert_eq!(grapheme_count(&post.embed.title), 300);
}

#[test]
fn fit_graphemes_edges() {
    assert_eq!(fit_graphemes("abc", 3), "abc");
    assert_eq!(fit_graphemes("abcd", 3), "ab\u{2026}");
    assert_eq!(fit_graphemes("abc", 0), "");
    assert_eq!(fit_graphemes("", 0), "");
    assert_eq!(fit_graphemes(&fit_graphemes("abcdef", 4), 4), "abc\u{2026}");
}

// ----- config -----

#[test]
fn config_requires_credentials() {
    let missing = Config::from_env(&env(&[])).unwrap_err();
    assert_eq!(missing, ConfigError::MissingVariable("BSKY_HANDLE".to_string()));
    assert_eq!(missing.variable(), "BSKY_HANDLE");
    let no_password = Config::from_env(&env(&[("BSKY_HANDLE", "h"), ("BSKY_APP_PASSWORD", "")]));
    assert_eq!(
        no_password.unwrap_err(),
        ConfigError::MissingVariable("BSKY_APP_PASSWORD".to_string())
    );
}

#[test]
fn config_defaults() {
    let c = Config::from_env(&env(&[("BSKY_HANDLE", "bot"), ("BSKY_APP_PASSWORD", "pw")])).unwrap();
    assert_eq!(c.handle, "bot");
    assert_eq!(c.app_password, "pw");
    assert_eq!(c.service, "https://bsky.social");
    assert_eq!(c.categories, "cs.AI");
    assert_eq!(c.announce_types, vec!["new".to_string()]);
    assert_eq!(c.target_date, None);
    assert_eq!(c.max_posts, 50);
    assert_eq!(c.post_delay_ms, 1500);
    assert!(!c.dry_run);
    assert_eq!(c.time_zone, "America/New_York");
    assert_eq!(c.post_windows, 6);
}

#[test]
fn config_overrides() {
    let c = Config::from_env(&env(&[
        ("BSKY_HANDLE", "bot"),
        ("BSKY_APP_PASSWORD", "pw"),
        ("BSKY_SERVICE", "   "),
        ("ARXIV_CATEGORIES", " cs.LG+cs.AI "),
        ("ARXIV_ANNOUNCE_TYPES", "New, CROSS,,"),
        ("TARGET_DATE", "2025-06-30"),
        ("MAX_POSTS", "+7"),
        ("POST_DELAY_MS", "-1"),
        ("DRY_RUN", " Yes "),
        ("POST_WINDOWS", "99999999999"),
    ]))
    .unwrap();
    assert_eq!(c.service, "https://bsky.social");
    assert_eq!(c.categories, "cs.LG+cs.AI");
    assert_eq!(c.announce_types, vec!["new".to_string(), "cross".to_string()]);
    assert_eq!(c.target_date, Some("2025-06-30".to_string()));
    assert_eq!(c.max_posts, 7);
    assert_eq!(c.post_delay_ms, 1500);
    assert!(c.dry_run);
    assert_eq!(c.post_windows, 6);
}

#[test]
fn unsigned_parsing() {
    assert_eq!(parse_unsigned("42", 100), Some(42));
    assert_eq!(parse_unsigned("+0", 100), Some(0));
    assert_eq!(parse_unsigned("+", 100), None);
    assert_eq!(parse_unsigned("101", 100), None);
    assert_eq!(parse_unsigned("4 2", 100), None);
    assert_eq!(parse_unsigned("18446744073709551615", u64::MAX), Some(u64::MAX));
    assert_eq!(parse_unsigned("18446744073709551616", u64::MAX), None);
    assert_eq!(parse_announce_types(""), Vec::<String>::new());
}

// ----- run bookkeeping -----

#[test]
fn run_counts_outcomes() {
    let mut stats = PostStats::new();
    stats.record(true);
    stats.record(true);
    assert!(!stats.run_failed());
    stats.record(false);
    assert_eq!(stats, PostStats { posted: 2, failed: 1 });
    assert!(stats.run_failed());
    assert_eq!(posting_cap(50, 120), 50);
    assert_eq!(posting_cap(50, 3), 3);
    assert_eq!(posting_cap(0, 3), 0);
}

#[test]
fn stale_batch_posts_nothing() {
    // On weekends the feed still carries the last weekday's batch: nothing
    // matches today's date, so nothing is selected for any window.
    let papers = vec![paper("1", "2025-06-27", "new"), paper("2", "2025-06-27", "new")];
    let opts = FilterOptions {
        announce_types: vec!["new".to_string()],
        target_date: "2025-06-28".to_string(),
    };
    let matched = filter_papers(&papers, &opts);
    assert!(matched.is_empty());
    for index in 0..6usize {
        assert!(select_window(&matched, index, 6).is_empty());
    }
}

#[test]
fn plan_run_filters_windows_and_caps() {
    let ps = vec![
        paper("2506.00001", "2025-06-30", "new"),
        paper("2506.00002", "2025-06-29", "new"),
        paper("2506.00003", "2025-06-30", "cross"),
        paper("2506.00001", "2025-06-30", "new"),
        paper("2506.00004", "2025-06-30", "new"),
        paper("2506.00005", "2025-06-30", "new"),
    ];
    let opts = FilterOptions {
        announce_types: vec!["new".to_string()],
        target_date: "2025-06-30".to_string(),
    };
    let plan = plan_run(&ps, &opts, 0, 1, 2);
    assert_eq!(plan.matched, 3);
    assert_eq!(plan.in_window, 3);
    let ids: Vec<&str> = plan.to_post.iter().map(|p| p.id.as_str()).collect();
    assert_eq!(ids, vec!["2506.00001", "2506.00004"]);

    // Over a day of three windows with no cap, every match is posted once.
    let mut posted: Vec<String> = Vec::new();
    for w in 0..3 {
        let plan = plan_run(&ps, &opts, w, 3, 50);
        assert_eq!(plan.matched, 3);
        assert_eq!(plan.to_post.len(), plan.in_window);
        posted.extend(plan.to_post.iter().map(|p| p.id.clone()));
    }
    posted.sort();
    assert_eq!(posted, vec!["2506.00001", "2506.00004", "2506.00005"]);
}
