//! Compose a Bluesky post for a paper, staying within the 300-grapheme limit.
//!
//! The clickable link/title/abstract live in an external embed "card" (here a
//! plain [`ExternalEmbed`], turned into the AT Protocol type by the program)
//! so the post text itself stays short.

use vstd::prelude::*;

use unicode_segmentation::UnicodeSegmentation;

use crate::arxiv::ArxivPaper;
use crate::arxiv::PaperView;
use crate::text;

verus! {

/// The most graphemes a Bluesky post may hold.
pub const MAX_GRAPHEMES: usize = 300;

/// The extended grapheme clusters of a text, in order (UAX #29, as
/// unicode-segmentation computes them).
pub uninterp spec fn graphemes(s: Seq<char>) -> Seq<Seq<char>>;

/// `UnicodeSegmentation::graphemes(s, true)`, each cluster copied out.  The
/// clusters are those named by `graphemes`; as a segmentation they are
/// non-empty and together spell out `s`.
#[verifier::external_body]
fn grapheme_clusters(s: &str) -> (r: Vec<String>)
    ensures
        text::string_views(r@) == graphemes(s@),
        text::string_views(r@).flatten() == s@,
        forall|i: int| 0 <= i < r@.len() ==> (#[trigger] r@[i])@.len() > 0,
{
    s.graphemes(true).map(|g| g.to_string()).collect()
}

proof fn lemma_flatten_len(xs: Seq<Seq<char>>)
    requires
        forall|i: int| 0 <= i < xs.len() ==> (#[trigger] xs[i]).len() > 0,
    ensures
        xs.flatten().len() >= xs.len(),
    decreases xs.len(),
{
    if xs.len() > 0 {
        assert forall|i: int| 0 <= i < xs.drop_first().len() implies (
        #[trigger] xs.drop_first()[i]).len() > 0 by {
            assert(xs.drop_first()[i] == xs[i + 1]);
        }
        lemma_flatten_len(xs.drop_first());
        assert(xs.first() == xs[0]);
    }
}

/// The number of grapheme clusters of `s`; never more than its characters,
/// and none only for the empty text.
pub fn grapheme_count(s: &str) -> (n: usize)
    ensures
        n == graphemes(s@).len(),
        n <= s@.len(),
        n == 0 ==> s@.len() == 0,
{
    let gs = grapheme_clusters(s);
    proof {
        let g = text::string_views(gs@);
        assert forall|i: int| 0 <= i < g.len() implies (#[trigger] g[i]).len() > 0 by {
            assert(g[i] == gs@[i]@);
        }
        lemma_flatten_len(g);
        if g.len() == 0 {
            assert(g.flatten() =~= Seq::<char>::empty());
        }
    }
    gs.len()
}

/// `n - 1`, or 0 when `n` is 0.
pub open spec fn one_less(n: nat) -> nat {
    if n == 0 {
        0
    } else {
        (n - 1) as nat
    }
}

/// The horizontal ellipsis, U+2026.
pub open spec fn ellipsis() -> char {
    '\u{2026}'
}

/// `s` cut to at most `max` graphemes: unchanged when it fits, else its
/// first `max - 1` clusters followed by an ellipsis.
pub open spec fn truncate_of(s: Seq<char>, max: nat) -> Seq<char> {
    if graphemes(s).len() <= max {
        s
    } else {
        graphemes(s).take(one_less(max) as int).flatten().push(ellipsis())
    }
}

/// Truncate to at most `max` graphemes, appending an ellipsis if cut.  The
/// "at most" does not hold for `max` 0: a non-empty text then becomes a lone
/// ellipsis, one grapheme.  [`fit_graphemes`] is the cut that always fits.
pub fn truncate_graphemes(s: &str, max: usize) -> (out: String)
    ensures
        out@ == truncate_of(s@, max as nat),
        graphemes(s@).len() <= max ==> out@ == s@,
        graphemes(s@).len() > max ==> out@.len() > 0 && out@.last() == ellipsis()
            && out@.drop_last().is_prefix_of(s@) && out@.drop_last().len() < s@.len(),
{
    let gs = grapheme_clusters(s);
    let ghost g = graphemes(s@);
    if gs.len() <= max {
        return s.to_string();
    }
    let keep = max.saturating_sub(1);
    let mut out: Vec<char> = Vec::new();
    let mut n: usize = 0;
    while n < keep
        invariant
            g == text::string_views(gs@),
            keep < gs@.len(),
            n <= keep,
            out@ == g.take(n as int).flatten(),
        decreases keep - n,
    {
        let cs = text::chars_of(gs[n].as_str());
        proof {
            g.take(n as int).lemma_flatten_push(g[n as int]);
            assert(g.take(n as int + 1) =~= g.take(n as int).push(g[n as int]));
        }
        text::append_chars(&mut out, &cs);
        n = n + 1;
    }
    proof {
        let k = keep as int;
        vstd::seq_lib::lemma_flatten_concat(g.take(k), g.skip(k));
        assert(g.take(k) + g.skip(k) =~= g);
        assert(g.skip(k).len() > 0);
        assert(g.skip(k) =~= seq![g.skip(k)[0]] + g.skip(k).drop_first());
        vstd::seq_lib::lemma_flatten_concat(seq![g.skip(k)[0]], g.skip(k).drop_first());
        seq![g.skip(k)[0]].lemma_flatten_singleton();
        assert(g.skip(k)[0] == g[k]);
        assert(g[k].len() > 0) by {
            assert(g[k] == (gs@[k])@);
        }
        assert(out@.is_prefix_of(s@));
    }
    out.push('\u{2026}');
    assert(out@.drop_last() =~= g.take(keep as int).flatten());
    text::string_from_chars(out.as_slice())
}

/// The first of the cuts `truncate_of(s, k)`, for `k` from `m` down to 1,
/// that has at most `max` graphemes; empty when none has.
pub open spec fn fit_from(s: Seq<char>, max: nat, m: nat) -> Seq<char>
    decreases m,
{
    if m == 0 {
        seq![]
    } else if graphemes(truncate_of(s, m)).len() <= max {
        truncate_of(s, m)
    } else {
        fit_from(s, max, (m - 1) as nat)
    }
}

/// `s` cut to fit `max` graphemes: `truncate_of(s, max)` whenever that
/// fits (in particular `s` itself when it fits), else the longest shorter
/// cut that does.
pub open spec fn fit_of(s: Seq<char>, max: nat) -> Seq<char> {
    fit_from(s, max, max)
}

/// Cut `s` so that it holds at most `max` graphemes, measuring each cut
/// with [`grapheme_count`]: first `truncate_graphemes(s, max)`, then ever
/// shorter cuts until one fits.
pub fn fit_graphemes(s: &str, max: usize) -> (out: String)
    ensures
        out@ == fit_of(s@, max as nat),
        graphemes(out@).len() <= max,
        graphemes(s@).len() <= max ==> out@ == s@,
        fit_of(out@, max as nat) == out@,
{
    let mut m: usize = max;
    while m > 0
        invariant
            m <= max,
            fit_of(s@, max as nat) == fit_from(s@, max as nat, m as nat),
        decreases m,
    {
        let cut = truncate_graphemes(s, m);
        if grapheme_count(cut.as_str()) <= max {
            proof {
                if max > 0 {
                    assert(truncate_of(cut@, max as nat) == cut@);
                }
            }
            return cut;
        }
        m = m - 1;
    }
    let out = String::new();
    let n = grapheme_count(out.as_str());
    let total = grapheme_count(s);
    proof {
        if max > 0 {
            assert(truncate_of(out@, max as nat) == out@);
            if total <= max {
                assert(truncate_of(s@, max as nat) == s@);
            }
        }
    }
    out
}

// ---------------------------------------------------------------------------
// Authors
// ---------------------------------------------------------------------------

/// The trimmed pieces that are not empty.
pub open spec fn nonempty_trimmed(pieces: Seq<Seq<char>>) -> Seq<Seq<char>> {
    pieces.map_values(|a: Seq<char>| text::trim(a)).filter(|a: Seq<char>| a.len() > 0)
}

/// The author names of a comma-separated list: the pieces between commas,
/// trimmed, empty ones dropped.
pub open spec fn author_names(s: Seq<char>) -> Seq<Seq<char>> {
    nonempty_trimmed(text::split_on(s, ','))
}

/// " et al.".
pub open spec fn et_al() -> Seq<char> {
    seq![' ', 'e', 't', ' ', 'a', 'l', '.']
}

/// Up to three authors joined with ", "; for more, the first one followed
/// by " et al."; empty when there is none.
pub open spec fn shorten_authors_of(s: Seq<char>) -> Seq<char> {
    let names = author_names(s);
    if names.len() == 0 {
        seq![]
    } else if names.len() <= 3 {
        text::join(names, text::comma_space())
    } else {
        names[0] + et_al()
    }
}

proof fn lemma_nonempty_trimmed_push(pieces: Seq<Seq<char>>, p: Seq<char>)
    ensures
        nonempty_trimmed(pieces.push(p)) == (if text::trim(p).len() > 0 {
            nonempty_trimmed(pieces).push(text::trim(p))
        } else {
            nonempty_trimmed(pieces)
        }),
{
    let f = |a: Seq<char>| text::trim(a);
    let pred = |a: Seq<char>| a.len() > 0;
    assert(pieces.push(p).map_values(f) =~= pieces.map_values(f).push(text::trim(p)));
    pieces.map_values(f).lemma_filter_push(text::trim(p), pred);
}

/// arXiv author lists can be enormous; keep posts readable.
pub fn shorten_authors(authors: &str) -> (out: String)
    ensures
        out@ == shorten_authors_of(authors@),
{
    let cs = text::chars_of(authors);
    let n = cs.len();
    let mut names: Vec<String> = Vec::new();
    let mut cur: Vec<char> = Vec::new();
    let mut i: usize = 0;
    while i < n
        invariant
            n == cs@.len(),
            i <= n,
            text::split_on(cs@.take(i as int), ',').len() > 0,
            cur@ == text::split_on(cs@.take(i as int), ',').last(),
            text::string_views(names@) == nonempty_trimmed(
                text::split_on(cs@.take(i as int), ',').drop_last(),
            ),
        decreases n - i,
    {
        let ghost pre = cs@.take(i as int);
        let ghost cur_take = cs@.take(i as int + 1);
        let ghost pieces = text::split_on(pre, ',');
        assert(cur_take.drop_last() =~= pre);
        if cs[i] == ',' {
            let t = text::trim_chars(&cur);
            if t.len() > 0 {
                let ghost old_names = names@;
                names.push(text::string_from_chars(t.as_slice()));
                assert(text::string_views(names@) =~= text::string_views(old_names).push(t@));
            }
            proof {
                lemma_nonempty_trimmed_push(pieces.drop_last(), pieces.last());
                assert(pieces.drop_last().push(pieces.last()) =~= pieces);
                assert(text::split_on(cur_take, ',') == pieces.push(seq![]));
                assert(pieces.push(seq![]).drop_last() =~= pieces);
            }
            cur = Vec::new();
            assert(cur@ =~= seq![]);
        } else {
            cur.push(cs[i]);
            proof {
                let upd = pieces.update(pieces.len() - 1, pieces.last().push(cs@[i as int]));
                assert(text::split_on(cur_take, ',') == upd);
                assert(upd.drop_last() =~= pieces.drop_last());
            }
        }
        i = i + 1;
    }
    assert(cs@.take(n as int) =~= cs@);
    let ghost pieces = text::split_on(cs@, ',');
    let t = text::trim_chars(&cur);
    if t.len() > 0 {
        let ghost old_names = names@;
        names.push(text::string_from_chars(t.as_slice()));
        assert(text::string_views(names@) =~= text::string_views(old_names).push(t@));
    }
    proof {
        lemma_nonempty_trimmed_push(pieces.drop_last(), pieces.last());
        assert(pieces.drop_last().push(pieces.last()) =~= pieces);
    }
    let count = names.len();
    if count == 0 {
        String::new()
    } else if count <= 3 {
        let sep = text::chars_of(", ");
        proof {
            reveal_strlit(", ");
        }
        assert(sep@ =~= text::comma_space());
        let joined = text::join_strings(&names, &sep);
        text::string_from_chars(joined.as_slice())
    } else {
        let mut out = text::chars_of(names[0].as_str());
        let tail = text::chars_of(" et al.");
        proof {
            reveal_strlit(" et al.");
        }
        assert(tail@ =~= et_al());
        text::append_chars(&mut out, &tail);
        text::string_from_chars(out.as_slice())
    }
}


// ---------------------------------------------------------------------------
// The post
/// Appending text free of `d` extends the last piece.
proof fn lemma_split_append(t: Seq<char>, w: Seq<char>, d: char)
    requires
        !w.contains(d),
    ensures
        text::split_on(t + w, d) == text::split_on(t, d).update(
            text::split_on(t, d).len() - 1,
            text::split_on(t, d).last() + w,
        ),
    decreases w.len(),
{
    text::lemma_split_on_nonempty(t, d);
    let r = text::split_on(t, d);
    if w.len() == 0 {
        assert(t + w =~= t);
        assert(r.last() + w =~= r.last());
        assert(r.update(r.len() - 1, r.last() + w) =~= r);
    } else {
        let w1 = w.drop_last();
        assert(!w1.contains(d)) by {
            if w1.contains(d) {
                let j = choose|j: int| 0 <= j < w1.len() && w1[j] == d;
                assert(w[j] == d);
            }
        }
        lemma_split_append(t, w1, d);
        let s = t + w;
        assert(s.drop_last() =~= t + w1);
        assert(s.last() == w[w.len() - 1]);
        assert(s.last() != d);
        let r1 = r.update(r.len() - 1, r.last() + w1);
        assert(r1.last() == r.last() + w1);
        assert((r.last() + w1).push(s.last()) =~= r.last() + w);
        assert(r1.update(r1.len() - 1, r1.last().push(s.last())) =~= r.update(
            r.len() - 1,
            r.last() + w,
        ));
    }
}

/// Splitting pieces joined with `d` gives them back, when none holds `d`.
proof fn lemma_split_join(ns: Seq<Seq<char>>, d: char)
    requires
        ns.len() > 0,
        forall|i: int| 0 <= i < ns.len() ==> !(#[trigger] ns[i]).contains(d),
    ensures
        text::split_on(text::join(ns, seq![d]), d) == ns,
    decreases ns.len(),
{
    let w = ns.last();
    assert(w == ns[ns.len() - 1]);
    if ns.len() == 1 {
        let e = Seq::<char>::empty();
        lemma_split_append(e, w, d);
        assert(e + w =~= w);
        assert(text::split_on(e, d) == seq![e]);
        assert(e + w =~= w);
        assert(seq![e].update(0, e + w) =~= ns);
    } else {
        let front = ns.drop_last();
        assert forall|i: int| 0 <= i < front.len() implies !(#[trigger] front[i]).contains(d) by {
            assert(front[i] == ns[i]);
        }
        lemma_split_join(front, d);
        let j = text::join(front, seq![d]);
        let t = j + seq![d];
        assert(t.drop_last() =~= j);
        assert(t.last() == d);
        assert(text::split_on(t, d) == front.push(seq![]));
        lemma_split_append(t, w, d);
        assert(text::join(ns, seq![d]) == t + w);
        let e = Seq::<char>::empty();
        assert(e + w =~= w);
        assert(front.push(e).update(front.len() as int, e + w) =~= ns);
    }
}

/// The author line keeps the names as written, only trimmed at their ends:
/// for names without commas, each non-blank once trimmed, written as a
/// comma-separated list, one to three names give those trimmed names
/// joined with ", ", and more give the first trimmed name and " et al.".
pub proof fn law_shorten_authors(names: Seq<Seq<char>>)
    requires
        names.len() > 0,
        forall|i: int| 0 <= i < names.len() ==> !(#[trigger] names[i]).contains(','),
        forall|i: int| 0 <= i < names.len() ==> text::trim(#[trigger] names[i]).len() > 0,
    ensures
        names.len() <= 3 ==> shorten_authors_of(text::join(names, seq![','])) == text::join(
            names.map_values(|a: Seq<char>| text::trim(a)),
            seq![',', ' '],
        ),
        names.len() > 3 ==> shorten_authors_of(text::join(names, seq![','])) == text::trim(names[0])
            + seq![' ', 'e', 't', ' ', 'a', 'l', '.'],
{
    lemma_split_join(names, ',');
    let trimmed = names.map_values(|a: Seq<char>| text::trim(a));
    let pred = |a: Seq<char>| a.len() > 0;
    trimmed.filter_lemma(pred);
    assert(trimmed.filter(pred) =~= trimmed) by {
        lemma_filter_all(trimmed, pred);
    }
}

proof fn lemma_filter_all(s: Seq<Seq<char>>, pred: spec_fn(Seq<char>) -> bool)
    requires
        forall|i: int| 0 <= i < s.len() ==> pred(#[trigger] s[i]),
    ensures
        s.filter(pred) == s,
    decreases s.len(),
{
    reveal(Seq::filter);
    if s.len() > 0 {
        assert forall|i: int| 0 <= i < s.drop_last().len() implies pred(
            #[trigger] s.drop_last()[i],
        ) by {
            assert(s.drop_last()[i] == s[i]);
        }
        lemma_filter_all(s.drop_last(), pred);
        assert(pred(s[s.len() - 1]));
        assert(s.drop_last().push(s.last()) =~= s);
    }
}

// ---------------------------------------------------------------------------

/// External embed card fields, kept independent of the AT Protocol types.
#[derive(Debug, Clone, PartialEq, Eq)]
pub struct ExternalEmbed {
    pub uri: String,
    pub title: String,
    pub description: String,
}

/// A post: its text and its link card.
#[derive(Debug, Clone, PartialEq, Eq)]
pub struct ComposedPost {
    pub text: String,
    pub embed: ExternalEmbed,
}

/// The plain content of an [`ExternalEmbed`].
pub struct EmbedView {
    pub uri: Seq<char>,
    pub title: Seq<char>,
    pub description: Seq<char>,
}

/// The plain content of a [`ComposedPost`].
pub struct PostView {
    pub text: Seq<char>,
    pub embed: EmbedView,
}

impl View for ExternalEmbed {
    type V = EmbedView;

    open spec fn view(&self) -> EmbedView {
        EmbedView { uri: self.uri@, title: self.title@, description: self.description@ }
    }
}

impl View for ComposedPost {
    type V = PostView;

    open spec fn view(&self) -> PostView {
        PostView { text: self.text@, embed: self.embed@ }
    }
}

/// The blank line between title and authors, when there are authors.
pub open spec fn separator_of(authors_line: Seq<char>) -> Seq<char> {
    if authors_line.len() == 0 {
        seq![]
    } else {
        seq!['\n', '\n']
    }
}

/// What is left of the 300 graphemes once `reserved` are taken, but never
/// less than 20.
pub open spec fn title_budget(reserved: int) -> nat {
    let left = if MAX_GRAPHEMES - reserved > 0 {
        MAX_GRAPHEMES - reserved
    } else {
        0
    };
    if left > 20 {
        left as nat
    } else {
        20
    }
}

/// "arXiv:" followed by the id.
pub open spec fn arxiv_label(id: Seq<char>) -> Seq<char> {
    seq!['a', 'r', 'X', 'i', 'v', ':'] + id
}

/// The post for a paper: the title (or the id when there is no title) cut
/// to the graphemes the authors line leaves (at least 20), a blank line and
/// the shortened authors, the whole cut to fit 300 graphemes; the card links
/// to the paper and carries its title and abstract (or "arXiv:<id>" for
/// either when missing), each cut to fit 300 graphemes.
pub open spec fn compose_of(p: PaperView) -> PostView {
    let authors_line = shorten_authors_of(p.authors);
    let sep = separator_of(authors_line);
    let reserved = graphemes(sep).len() + graphemes(authors_line).len();
    let source = if p.title.len() == 0 {
        p.id
    } else {
        p.title
    };
    let card_title = if p.title.len() == 0 {
        arxiv_label(p.id)
    } else {
        p.title
    };
    let card_description = if p.abstract_text.len() == 0 {
        arxiv_label(p.id)
    } else {
        p.abstract_text
    };
    PostView {
        text: fit_of(
            truncate_of(source, title_budget(reserved as int)) + sep + authors_line,
            MAX_GRAPHEMES as nat,
        ),
        embed: EmbedView {
            uri: p.link,
            title: fit_of(card_title, MAX_GRAPHEMES as nat),
            description: fit_of(card_description, MAX_GRAPHEMES as nat),
        },
    }
}

/// "arXiv:" followed by the id.
fn arxiv_label_string(id: &String) -> (out: String)
    ensures
        out@ == arxiv_label(id@),
{
    let mut out = String::from_str("arXiv:");
    proof {
        reveal_strlit("arXiv:");
    }
    out.append(id.as_str());
    assert(out@ =~= arxiv_label(id@));
    out
}

/// The clickable link lives in the external embed "card", so the post text
/// itself stays short: title + authors, trimmed to fit 300 graphemes.
pub fn compose_post(paper: &ArxivPaper) -> (post: ComposedPost)
    ensures
        post@ == compose_of(paper@),
        graphemes(post.text@).len() <= MAX_GRAPHEMES,
        graphemes(post.embed.title@).len() <= MAX_GRAPHEMES,
        graphemes(post.embed.description@).len() <= MAX_GRAPHEMES,
        post.embed.uri@ == paper.link@,
{
    let authors_line = shorten_authors(paper.authors.as_str());
    let separator = if authors_line.as_str().is_empty() {
        String::new()
    } else {
        let s = String::from_str("\n\n");
        proof {
            reveal_strlit("\n\n");
        }
        assert(s@ =~= seq!['\n', '\n']);
        s
    };
    assert(separator@ == separator_of(authors_line@));
    let sep_count = grapheme_count(separator.as_str());
    let authors_count = grapheme_count(authors_line.as_str());
    let left = MAX_GRAPHEMES.saturating_sub(sep_count).saturating_sub(authors_count);
    let budget = if left > 20 {
        left
    } else {
        20
    };
    assert(budget == title_budget(sep_count + authors_count));
    let title_source = if paper.title.as_str().is_empty() {
        paper.id.as_str()
    } else {
        paper.title.as_str()
    };
    let title = truncate_graphemes(title_source, budget);
    let mut full = title;
    full.append(separator.as_str());
    full.append(authors_line.as_str());
    let text = fit_graphemes(full.as_str(), MAX_GRAPHEMES);
    let card_title = if paper.title.as_str().is_empty() {
        arxiv_label_string(&paper.id)
    } else {
        paper.title.clone()
    };
    let card_description = if paper.abstract_text.as_str().is_empty() {
        arxiv_label_string(&paper.id)
    } else {
        paper.abstract_text.clone()
    };
    ComposedPost {
        text: text,
        embed: ExternalEmbed {
            uri: paper.link.clone(),
            title: fit_graphemes(card_title.as_str(), MAX_GRAPHEMES),
            description: fit_graphemes(card_description.as_str(), MAX_GRAPHEMES),
        },
    }
}

/// A paper whose title and author line fit is posted whole: the text is the
/// title, a blank line and the author line, so it ends with the author line.
pub proof fn law_compose_fitting_post(p: PaperView)
    requires
        p.title.len() > 0,
        shorten_authors_of(p.authors).len() > 0,
        graphemes(p.title).len() + graphemes(seq!['\n', '\n']).len() + graphemes(
            shorten_authors_of(p.authors),
        ).len() <= MAX_GRAPHEMES,
        graphemes(p.title + seq!['\n', '\n'] + shorten_authors_of(p.authors)).len()
            <= MAX_GRAPHEMES,
    ensures
        compose_of(p).text == p.title + seq!['\n', '\n'] + shorten_authors_of(p.authors),
        shorten_authors_of(p.authors).is_suffix_of(compose_of(p).text),
{
    let line = shorten_authors_of(p.authors);
    let full = p.title + seq!['\n', '\n'] + line;
    assert(separator_of(line) == seq!['\n', '\n']);
    assert(truncate_of(p.title, title_budget(
        (graphemes(seq!['\n', '\n']).len() + graphemes(line).len()) as int,
    )) == p.title);
    assert(truncate_of(full, MAX_GRAPHEMES as nat) == full);
    assert(fit_of(full, MAX_GRAPHEMES as nat) == full);
    assert(full.subrange(full.len() - line.len(), full.len() as int) =~= line);
}

} // verus!
