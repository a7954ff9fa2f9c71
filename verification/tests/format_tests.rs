use arxiv_bluesky_bot::arxiv::ArxivPaper;
use arxiv_bluesky_bot::format::{
    compose_post, grapheme_count, shorten_authors, truncate_graphemes, MAX_GRAPHEMES,
};

fn paper_with(title: &str, authors: &str) -> ArxivPaper {
    ArxivPaper {
        id: "2506.01250".to_string(),
        title: title.to_string(),
        authors: authors.to_string(),
        abstract_text: "An abstract.".to_string(),
        link: "https://arxiv.org/abs/2506.01250".to_string(),
        announce_type: "new".to_string(),
        announce_date: "2025-06-30".to_string(),
        categories: vec![],
    }
}

#[test]
fn grapheme_count_counts_clusters_not_code_units() {
    // Family emoji (ZWJ sequence) + flag are single graphemes each.
    assert_eq!(grapheme_count("👨‍👩‍👧‍👦"), 1);
    assert_eq!(grapheme_count("🇮🇹"), 1);
    assert_eq!(grapheme_count("é"), 1); // combining acute
    assert_eq!(grapheme_count("abc"), 3);
}

#[test]
fn truncate_appends_ellipsis_when_cut() {
    let out = truncate_graphemes("abcdef", 4);
    assert_eq!(out, "abc\u{2026}");
    assert_eq!(grapheme_count(&out), 4);
    assert_eq!(truncate_graphemes("abc", 4), "abc");
}

#[test]
fn shorten_authors_collapses_long_lists() {
    assert_eq!(shorten_authors(""), "");
    assert_eq!(shorten_authors("Alice, Bob"), "Alice, Bob");
    assert_eq!(shorten_authors("A, B, C"), "A, B, C");
    assert_eq!(shorten_authors("A, B, C, D"), "A et al.");
}

#[test]
fn compose_keeps_text_within_limit() {
    let long_title = "word ".repeat(200);
    let post = compose_post(&paper_with(long_title.trim(), "Alice, Bob, Carol, Dave"));
    assert!(grapheme_count(&post.text) <= MAX_GRAPHEMES);
    assert!(post.text.ends_with("Alice et al."));
    assert_eq!(post.embed.uri, "https://arxiv.org/abs/2506.01250");
}

#[test]
fn compose_falls_back_to_id_when_empty() {
    let mut p = paper_with("", "");
    p.abstract_text = String::new();
    let post = compose_post(&p);
    assert_eq!(post.text, "2506.01250");
    assert_eq!(post.embed.title, "arXiv:2506.01250");
    assert_eq!(post.embed.description, "arXiv:2506.01250");
}
