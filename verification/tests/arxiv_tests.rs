use arxiv_bluesky_bot::arxiv::{
    current_window_index, date_in_timezone, filter_papers, hash_id, parse_abstract, parse_id,
    select_window, strip_version, ArxivPaper, FilterOptions,
};
use arxiv_bluesky_bot::feed::parse_feed;
use arxiv_bluesky_bot::time::Zone;
use chrono::DateTime;

fn paper(id: &str, date: &str, ty: &str) -> ArxivPaper {
    ArxivPaper {
        id: id.to_string(),
        title: format!("Title {id}"),
        authors: "A, B".to_string(),
        abstract_text: "abs".to_string(),
        link: format!("https://arxiv.org/abs/{id}"),
        announce_type: ty.to_string(),
        announce_date: date.to_string(),
        categories: vec!["cs.AI".to_string()],
    }
}

const SAMPLE_FEED: &str = r#"<?xml version="1.0" encoding="UTF-8"?>
<rss xmlns:dc="http://purl.org/dc/elements/1.1/" xmlns:arxiv="http://arxiv.org/schemas/atom" version="2.0">
  <channel>
<title>cs.AI updates on arXiv.org</title>
<link>https://arxiv.org/</link>
<description>cs.AI updates</description>
<item>
  <title>A New Result
    on Things</title>
  <link>https://arxiv.org/abs/2506.01250</link>
  <description>arXiv:2506.01250v1 Announce Type: new
Abstract: We show   that things  are   true.</description>
  <guid isPermaLink="false">oai:arXiv.org:2506.01250v1</guid>
  <category>cs.AI</category>
  <category>cs.LG</category>
  <pubDate>Mon, 30 Jun 2025 04:00:00 +0000</pubDate>
  <arxiv:announce_type>new</arxiv:announce_type>
  <dc:creator>Ada Lovelace, Alan Turing</dc:creator>
</item>
<item>
  <title>A Cross Listing</title>
  <link>https://arxiv.org/abs/2506.09999</link>
  <description>arXiv:2506.09999v2 Announce Type: cross
Abstract: Cross stuff.</description>
  <guid isPermaLink="false">oai:arXiv.org:2506.09999v2</guid>
  <category>cs.AI</category>
  <pubDate>Mon, 30 Jun 2025 04:00:00 +0000</pubDate>
  <arxiv:announce_type>cross</arxiv:announce_type>
  <dc:creator>Grace Hopper</dc:creator>
</item>
  </channel>
</rss>"#;

#[test]
fn strip_version_cases() {
    assert_eq!(strip_version("2506.01250v1"), "2506.01250");
    assert_eq!(strip_version("2506.01250V12"), "2506.01250");
    assert_eq!(strip_version("2506.01250"), "2506.01250");
    assert_eq!(strip_version("cs/0501001v3"), "cs/0501001");
    // "v" with no digits, or digits with no "v": unchanged.
    assert_eq!(strip_version("abcv"), "abcv");
    assert_eq!(strip_version("abc12"), "abc12");
}

#[test]
fn parse_id_from_guid_and_link() {
    assert_eq!(
        parse_id(Some("oai:arXiv.org:2506.01250v1"), None),
        "2506.01250"
    );
    assert_eq!(
        parse_id(None, Some("https://arxiv.org/abs/2506.01250v2")),
        "2506.01250"
    );
    assert_eq!(parse_id(None, None), "unknown");
}

#[test]
fn parse_abstract_drops_header() {
    let blob = "arXiv:2506.01250v1 Announce Type: new\nAbstract:  hello   world ";
    assert_eq!(parse_abstract(Some(blob)), "hello world");
    assert_eq!(parse_abstract(Some("no marker here")), "no marker here");
    assert_eq!(parse_abstract(None), "");
}

#[test]
fn date_in_timezone_uses_eastern() {
    let tz = Zone::parse("America/New_York").unwrap();
    // 03:30 UTC is still the previous calendar day in US/Eastern.
    assert_eq!(
        date_in_timezone(Some("Mon, 30 Jun 2025 03:30:00 GMT"), &tz),
        "2025-06-29"
    );
    assert_eq!(
        date_in_timezone(Some("Mon, 30 Jun 2025 12:00:00 GMT"), &tz),
        "2025-06-30"
    );
}

#[test]
fn parse_feed_extracts_all_fields() {
    let tz = Zone::parse("America/New_York").unwrap();
    let papers = parse_feed(SAMPLE_FEED, &tz).unwrap();
    assert_eq!(papers.len(), 2);

    let p = &papers[0];
    assert_eq!(p.id, "2506.01250"); // guid segment, vN stripped
    assert_eq!(p.title, "A New Result on Things"); // whitespace collapsed
    assert_eq!(p.authors, "Ada Lovelace, Alan Turing"); // dc:creator
    assert_eq!(p.abstract_text, "We show that things are true."); // after Abstract:
    assert_eq!(p.link, "https://arxiv.org/abs/2506.01250");
    assert_eq!(p.announce_type, "new"); // arxiv:announce_type extension
                                        // 04:00 UTC = 00:00 US/Eastern (EDT) -> still 2025-06-30.
    assert_eq!(p.announce_date, "2025-06-30");
    assert_eq!(p.categories, vec!["cs.AI".to_string(), "cs.LG".to_string()]);

    assert_eq!(papers[1].id, "2506.09999");
    assert_eq!(papers[1].announce_type, "cross");
    assert_eq!(papers[1].authors, "Grace Hopper");
}

#[test]
fn hash_id_matches_reference_implementation() {
    // Reference FNV-1a (UTF-16) values.
    let cases: &[(&str, u32)] = &[
        ("2506.01250", 3_145_968_922),
        ("2506.01251", 3_162_746_541),
        ("hello", 1_335_831_723),
        ("2401.99999", 3_040_828_277),
        ("2312.00001v2", 2_173_715_212),
        ("abc", 440_920_331),
    ];
    for (id, expected) in cases {
        assert_eq!(hash_id(id), *expected, "hash mismatch for {id}");
    }
}

#[test]
fn filter_by_date_type_and_dedup() {
    let papers = vec![
        paper("1", "2025-06-30", "new"),
        paper("2", "2025-06-29", "new"),   // wrong date
        paper("3", "2025-06-30", "cross"), // wrong type
        paper("1", "2025-06-30", "new"),   // duplicate id
        paper("4", "2025-06-30", "new"),
    ];
    let out = filter_papers(
        &papers,
        &FilterOptions {
            announce_types: vec!["new".to_string()],
            target_date: "2025-06-30".to_string(),
        },
    );
    let ids: Vec<&str> = out.iter().map(|p| p.id.as_str()).collect();
    assert_eq!(ids, vec!["1", "4"]);
}

#[test]
fn empty_announce_types_keeps_all_types() {
    let papers = vec![paper("1", "2025-06-30", "cross")];
    let out = filter_papers(
        &papers,
        &FilterOptions {
            announce_types: Vec::new(),
            target_date: "2025-06-30".to_string(),
        },
    );
    assert_eq!(out.len(), 1);
}

#[test]
fn windows_form_a_disjoint_partition() {
    let papers: Vec<ArxivPaper> = (0..500)
        .map(|i| paper(&format!("2506.{i:05}"), "2025-06-30", "new"))
        .collect();
    let window_count = 6;

    let mut union: Vec<String> = Vec::new();
    for index in 0..window_count as usize {
        let slice = select_window(&papers, index, window_count);
        for p in &slice {
            union.push(p.id.clone());
        }
    }
    // Every paper appears exactly once across all windows.
    union.sort();
    let mut expected: Vec<String> = papers.iter().map(|p| p.id.clone()).collect();
    expected.sort();
    assert_eq!(union, expected);
}

#[test]
fn single_window_returns_everything() {
    let papers = vec![
        paper("1", "2025-06-30", "new"),
        paper("2", "2025-06-30", "new"),
    ];
    assert_eq!(select_window(&papers, 0, 1).len(), 2);
}

#[test]
fn window_index_clamps_and_derives_from_hour() {
    let tz = Zone::parse("America/New_York").unwrap();
    // 2025-06-30 is EDT (UTC-4). 10:00 UTC = 06:00 Eastern -> window 0.
    let at = |utc: &str| {
        DateTime::parse_from_rfc3339(utc)
            .unwrap()
            .timestamp()
    };
    assert_eq!(current_window_index(at("2025-06-30T10:00:00Z"), &tz, 6), Some(0)); // 06 ET
    assert_eq!(current_window_index(at("2025-06-30T13:00:00Z"), &tz, 6), Some(1)); // 09 ET
    assert_eq!(current_window_index(at("2025-06-30T08:00:00Z"), &tz, 6), Some(0)); // 04 ET, clamps low
    assert_eq!(current_window_index(at("2025-07-01T03:00:00Z"), &tz, 6), Some(5)); // 23 ET, clamps high
                                                                             // single-batch mode always 0.
    assert_eq!(current_window_index(at("2025-06-30T13:00:00Z"), &tz, 1), Some(0));
}
