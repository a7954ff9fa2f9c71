//! Papers of an arXiv announcement: identifiers, abstracts, the per-day
//! filter and the hashing that spreads one day's batch over posting windows.

use vstd::prelude::*;

use vstd::multiset::Multiset;

use crate::text;
use crate::time;
use crate::time::Zone;

pub use crate::feed::parse_feed;

verus! {

/// One paper of the feed.
#[derive(Debug, Clone, PartialEq, Eq)]
pub struct ArxivPaper {
    /// Canonical id without version suffix, e.g. "2506.01250".
    pub id: String,
    pub title: String,
    pub authors: String,
    pub abstract_text: String,
    /// Abstract landing page, e.g. https://arxiv.org/abs/2506.01250
    pub link: String,
    /// "new" | "cross" | "replace" | "replace-cross" | ...
    pub announce_type: String,
    /// Announcement date as YYYY-MM-DD in the arXiv timezone.
    pub announce_date: String,
    pub categories: Vec<String>,
}

/// The mathematical content of an [`ArxivPaper`].
pub struct PaperView {
    pub id: Seq<char>,
    pub title: Seq<char>,
    pub authors: Seq<char>,
    pub abstract_text: Seq<char>,
    pub link: Seq<char>,
    pub announce_type: Seq<char>,
    pub announce_date: Seq<char>,
    pub categories: Seq<Seq<char>>,
}

impl View for ArxivPaper {
    type V = PaperView;

    open spec fn view(&self) -> PaperView {
        PaperView {
            id: self.id@,
            title: self.title@,
            authors: self.authors@,
            abstract_text: self.abstract_text@,
            link: self.link@,
            announce_type: self.announce_type@,
            announce_date: self.announce_date@,
            categories: text::string_views(self.categories@),
        }
    }
}

/// The views of a list of papers.
pub open spec fn paper_views(ps: Seq<ArxivPaper>) -> Seq<PaperView> {
    ps.map_values(|p: ArxivPaper| p@)
}

/// A copy of a list of strings.
pub fn copy_strings(v: &Vec<String>) -> (r: Vec<String>)
    ensures
        text::string_views(r@) == text::string_views(v@),
{
    let mut r: Vec<String> = Vec::new();
    let n = v.len();
    let mut i: usize = 0;
    while i < n
        invariant
            n == v@.len(),
            i <= n,
            r@.len() == i,
            forall|j: int| 0 <= j < i ==> (#[trigger] r@[j])@ == v@[j]@,
        decreases n - i,
    {
        let c = v[i].clone();
        r.push(c);
        i = i + 1;
    }
    assert(text::string_views(r@) =~= text::string_views(v@));
    r
}

/// A copy of a paper.
pub fn copy_paper(p: &ArxivPaper) -> (r: ArxivPaper)
    ensures
        r@ == p@,
{
    ArxivPaper {
        id: p.id.clone(),
        title: p.title.clone(),
        authors: p.authors.clone(),
        abstract_text: p.abstract_text.clone(),
        link: p.link.clone(),
        announce_type: p.announce_type.clone(),
        announce_date: p.announce_date.clone(),
        categories: copy_strings(&p.categories),
    }
}

// ---------------------------------------------------------------------------
// Identifiers and abstracts
// ---------------------------------------------------------------------------

/// The number of ASCII digits at the end of `s`.
pub open spec fn trailing_digits(s: Seq<char>) -> nat
    decreases s.len(),
{
    if s.len() > 0 && text::is_digit(s.last()) {
        1 + trailing_digits(s.drop_last())
    } else {
        0
    }
}

/// `s` without a trailing version suffix `v<digits>` / `V<digits>`; the
/// suffix is only removed when at least one digit follows the `v`.
pub open spec fn strip_version_of(s: Seq<char>) -> Seq<char> {
    let k = trailing_digits(s);
    let i = s.len() - k;
    if k > 0 && i > 0 && (s[i - 1] == 'v' || s[i - 1] == 'V') {
        s.take(i - 1)
    } else {
        s
    }
}

/// Whether `c` is an ASCII decimal digit.
fn is_digit_char(c: char) -> (b: bool)
    ensures
        b == text::is_digit(c),
{
    let u = c as u32;
    48 <= u && u <= 57
}

fn strip_version_chars(cs: &Vec<char>) -> (out: Vec<char>)
    ensures
        out@ == strip_version_of(cs@),
{
    let n = cs.len();
    let mut i: usize = n;
    assert(cs@.take(n as int) =~= cs@);
    while i > 0 && is_digit_char(cs[i - 1])
        invariant
            n == cs@.len(),
            i <= n,
            trailing_digits(cs@) == (n - i) + trailing_digits(cs@.take(i as int)),
        decreases i,
    {
        assert(cs@.take(i as int).drop_last() =~= cs@.take(i - 1));
        i = i - 1;
    }
    assert(trailing_digits(cs@.take(i as int)) == 0);
    if i < n && i > 0 && (cs[i - 1] == 'v' || cs[i - 1] == 'V') {
        let mut out: Vec<char> = Vec::new();
        let mut k: usize = 0;
        while k < i - 1
            invariant
                n == cs@.len(),
                0 < i <= n,
                k <= i - 1,
                out@ == cs@.take(k as int),
            decreases i - 1 - k,
        {
            out.push(cs[k]);
            k = k + 1;
            assert(out@ =~= cs@.take(k as int));
        }
        out
    } else {
        let mut out: Vec<char> = Vec::new();
        let mut k: usize = 0;
        while k < n
            invariant
                n == cs@.len(),
                k <= n,
                out@ == cs@.take(k as int),
            decreases n - k,
        {
            out.push(cs[k]);
            k = k + 1;
            assert(out@ =~= cs@.take(k as int));
        }
        out
    }
}

/// Strip a trailing `vN` version suffix (`v\d+$`, case-insensitive).
pub fn strip_version(s: &str) -> (out: String)
    ensures
        out@ == strip_version_of(s@),
{
    let cs = text::chars_of(s);
    let out = strip_version_chars(&cs);
    text::string_from_chars(out.as_slice())
}

/// The characters of an optional string.
pub open spec fn opt_view(o: Option<&str>) -> Option<Seq<char>> {
    match o {
        Some(s) => Some(s@),
        None => None,
    }
}

/// The id of an entry: the last `:`-separated segment of its guid, else
/// what follows `abs/` in its link, else the link itself, else "unknown";
/// a version suffix is stripped from the first two.
pub open spec fn parse_id_of(guid: Option<Seq<char>>, link: Option<Seq<char>>) -> Seq<char> {
    match guid {
        Some(g) => strip_version_of(text::split_on(g, ':').last()),
        None => match link {
            Some(l) => match text::find(l, "abs/"@) {
                Some(i) => strip_version_of(l.skip(i + "abs/"@.len())),
                None => l,
            },
            None => "unknown"@,
        },
    }
}

/// "oai:arXiv.org:2506.01250v1" -> "2506.01250" (also handles old-style ids).
pub fn parse_id(guid: Option<&str>, link: Option<&str>) -> (id: String)
    ensures
        id@ == parse_id_of(opt_view(guid), opt_view(link)),
{
    match guid {
        Some(g) => {
            let cs = text::chars_of(g);
            let last = text::last_piece(&cs, ':');
            let out = strip_version_chars(&last);
            text::string_from_chars(out.as_slice())
        },
        None => match link {
            Some(l) => {
                let cs = text::chars_of(l);
                let pat = text::chars_of("abs/");
                match text::find_chars(&cs, &pat) {
                    Some(i) => {
                        let len = cs.len();
                        assert(text::occurs_at(cs@, pat@, i as int));
                        assert(i + pat.len() <= len);
                        let rest = text::skip_chars(&cs, i + pat.len());
                        let out = strip_version_chars(&rest);
                        text::string_from_chars(out.as_slice())
                    },
                    None => text::string_from_chars(cs.as_slice()),
                }
            },
            None => {
                let u = text::chars_of("unknown");
                text::string_from_chars(u.as_slice())
            },
        },
    }
}

/// The abstract of an entry's description: what follows the first
/// "Abstract:" marker (or the whole description when there is none), with
/// whitespace collapsed; empty when there is no description.
pub open spec fn parse_abstract_of(description: Option<Seq<char>>) -> Seq<char> {
    match description {
        None => seq![],
        Some(d) => text::collapse(
            match text::find(d, "Abstract:"@) {
                Some(i) => d.skip(i + "Abstract:"@.len()),
                None => d,
            },
        ),
    }
}

/// Pull the abstract out of the description blob, dropping the
/// "arXiv:.. Announce Type:" header.
pub fn parse_abstract(description: Option<&str>) -> (out: String)
    ensures
        out@ == parse_abstract_of(opt_view(description)),
{
    match description {
        None => String::new(),
        Some(d) => {
            let cs = text::chars_of(d);
            let marker = text::chars_of("Abstract:");
            let len = cs.len();
            let raw = match text::find_chars(&cs, &marker) {
                Some(i) => {
                    assert(text::occurs_at(cs@, marker@, i as int));
                    assert(i + marker.len() <= len);
                    text::skip_chars(&cs, i + marker.len())
                },
                None => cs,
            };
            let out = text::collapse_chars(&raw);
            text::string_from_chars(out.as_slice())
        },
    }
}

// ---------------------------------------------------------------------------
// Hashing ids into posting windows
// ---------------------------------------------------------------------------

/// The UTF-16 code units of one character.
pub open spec fn utf16_of_char(c: char) -> Seq<u16> {
    let u = c as u32;
    if u < 0x10000 {
        seq![u as u16]
    } else {
        seq![(0xd800 + (u - 0x10000) / 0x400) as u16, (0xdc00 + (u - 0x10000) % 0x400) as u16]
    }
}

/// The UTF-16 encoding of a character sequence.
pub open spec fn utf16(s: Seq<char>) -> Seq<u16>
    decreases s.len(),
{
    if s.len() == 0 {
        seq![]
    } else {
        utf16(s.drop_last()) + utf16_of_char(s.last())
    }
}

/// The FNV-1a offset basis (32-bit).
pub const FNV_OFFSET: u32 = 0x811c_9dc5;

/// The FNV-1a prime (32-bit).
pub const FNV_PRIME: u32 = 0x0100_0193;

/// 32-bit FNV-1a over a sequence of code units.
pub open spec fn fnv1a(units: Seq<u16>) -> u32
    decreases units.len(),
{
    if units.len() == 0 {
        FNV_OFFSET
    } else {
        (fnv1a(units.drop_last()) ^ (units.last() as u32)).wrapping_mul(FNV_PRIME)
    }
}

/// The hash of an id: FNV-1a over its UTF-16 code units.
pub open spec fn hash_of(id: Seq<char>) -> u32 {
    fnv1a(utf16(id))
}

proof fn lemma_fnv1a_push(units: Seq<u16>, x: u16)
    ensures
        fnv1a(units.push(x)) == (fnv1a(units) ^ (x as u32)).wrapping_mul(FNV_PRIME),
{
    assert(units.push(x).drop_last() =~= units);
}

/// Tiny deterministic string hash (FNV-1a, 32-bit) over UTF-16 code units.
pub fn hash_id(id: &str) -> (h: u32)
    ensures
        h == hash_of(id@),
{
    let cs = text::chars_of(id);
    let n = cs.len();
    let mut h: u32 = FNV_OFFSET;
    let mut i: usize = 0;
    while i < n
        invariant
            n == cs@.len(),
            i <= n,
            h == fnv1a(utf16(cs@.take(i as int))),
        decreases n - i,
    {
        let c = cs[i];
        let ghost pre = utf16(cs@.take(i as int));
        assert(cs@.take(i as int + 1).drop_last() =~= cs@.take(i as int));
        let u = c as u32;
        if u < 0x10000 {
            let unit = u as u16;
            proof {
                lemma_fnv1a_push(pre, unit);
                assert(pre + utf16_of_char(c) =~= pre.push(unit));
            }
            h = (h ^ (unit as u32)).wrapping_mul(FNV_PRIME);
        } else {
            let hi = (0xd800 + (u - 0x10000) / 0x400) as u16;
            let lo = (0xdc00 + (u - 0x10000) % 0x400) as u16;
            proof {
                lemma_fnv1a_push(pre, hi);
                lemma_fnv1a_push(pre.push(hi), lo);
                assert(pre + utf16_of_char(c) =~= pre.push(hi).push(lo));
            }
            h = (h ^ (hi as u32)).wrapping_mul(FNV_PRIME);
            h = (h ^ (lo as u32)).wrapping_mul(FNV_PRIME);
        }
        i = i + 1;
    }
    assert(cs@.take(n as int) =~= cs@);
    h
}

/// The window an id falls in when a batch is spread over `window_count`
/// windows.
pub open spec fn window_of(id: Seq<char>, window_count: u32) -> int {
    (hash_of(id) % window_count) as int
}

/// The papers of window `index`: all of them when there is at most one
/// window, else those whose id hashes to `index`.
pub open spec fn select_window_of(ps: Seq<PaperView>, index: int, window_count: u32) -> Seq<
    PaperView,
> {
    if window_count <= 1 {
        ps
    } else {
        ps.filter(|p: PaperView| window_of(p.id, window_count) == index)
    }
}

/// Partition a day's filtered papers into `window_count` disjoint slices and
/// return the slice for `index`. Each paper maps to exactly one window via a
/// stable hash of its id, so across all indices every paper is posted exactly
/// once. Returns the input unchanged when `window_count <= 1`.
pub fn select_window(papers: &[ArxivPaper], index: usize, window_count: u32) -> (out: Vec<
    ArxivPaper,
>)
    ensures
        paper_views(out@) == select_window_of(paper_views(papers@), index as int, window_count),
{
    let n = papers.len();
    let mut out: Vec<ArxivPaper> = Vec::new();
    let ghost pred = |p: PaperView| window_of(p.id, window_count) == index as int;
    let mut i: usize = 0;
    while i < n
        invariant
            n == papers@.len(),
            i <= n,
            pred == (|p: PaperView| window_of(p.id, window_count) == index as int),
            window_count <= 1 ==> paper_views(out@) == paper_views(papers@.take(i as int)),
            window_count > 1 ==> paper_views(out@) == paper_views(papers@.take(i as int)).filter(
                pred,
            ),
        decreases n - i,
    {
        let p = &papers[i];
        let ghost before = paper_views(papers@.take(i as int));
        assert(paper_views(papers@.take(i as int + 1)) =~= before.push(p@));
        proof {
            before.lemma_filter_push(p@, pred);
        }
        if window_count <= 1 {
            out.push(copy_paper(p));
            assert(paper_views(out@) =~= before.push(p@));
        } else if (hash_id(&p.id) % window_count) as usize == index {
            out.push(copy_paper(p));
            assert(paper_views(out@) =~= before.filter(pred).push(p@));
        }
        i = i + 1;
    }
    assert(papers@.take(n as int) =~= papers@);
    out
}


// ---------------------------------------------------------------------------
// The day's filter
// ---------------------------------------------------------------------------

/// What to keep of a feed.
pub struct FilterOptions {
    /// Allowed announce types, already lowercased/canonical. Empty = any type.
    /// (Each type is listed once; membership is all that matters.)
    pub announce_types: Vec<String>,
    pub target_date: String,
}

/// Whether a paper was announced on `date` with one of `types` (any type
/// when `types` is empty).
pub open spec fn wanted(p: PaperView, types: Seq<Seq<char>>, date: Seq<char>) -> bool {
    p.announce_date == date && (types.len() == 0 || types.contains(p.announce_type))
}

/// The ids of a list of papers.
pub open spec fn ids_of(ps: Seq<PaperView>) -> Seq<Seq<char>> {
    ps.map_values(|p: PaperView| p.id)
}

/// The wanted papers, in order, each id kept only at its first wanted
/// occurrence.
pub open spec fn filter_of(ps: Seq<PaperView>, types: Seq<Seq<char>>, date: Seq<char>) -> Seq<
    PaperView,
>
    decreases ps.len(),
{
    if ps.len() == 0 {
        seq![]
    } else {
        let rest = filter_of(ps.drop_last(), types, date);
        let p = ps.last();
        if wanted(p, types, date) && !ids_of(rest).contains(p.id) {
            rest.push(p)
        } else {
            rest
        }
    }
}

/// Whether `s` is one of `v`.
pub fn contains_string(v: &Vec<String>, s: &String) -> (b: bool)
    ensures
        b == text::string_views(v@).contains(s@),
{
    let n = v.len();
    let mut i: usize = 0;
    while i < n
        invariant
            n == v@.len(),
            i <= n,
            forall|j: int| 0 <= j < i ==> (#[trigger] v@[j])@ != s@,
        decreases n - i,
    {
        if v[i] == *s {
            assert(text::string_views(v@)[i as int] == s@);
            return true;
        }
        i = i + 1;
    }
    assert(!text::string_views(v@).contains(s@)) by {
        if text::string_views(v@).contains(s@) {
            let j = choose|j: int| 0 <= j < n && text::string_views(v@)[j] == s@;
            assert(v@[j]@ == s@);
        }
    }
    false
}

/// Keep only papers (a) announced on the target date and (b) of a wanted
/// announce type, de-duplicated by id (a paper can appear twice when several
/// categories are combined with "+").
pub fn filter_papers(papers: &[ArxivPaper], opts: &FilterOptions) -> (out: Vec<ArxivPaper>)
    ensures
        paper_views(out@) == filter_of(
            paper_views(papers@),
            text::string_views(opts.announce_types@),
            opts.target_date@,
        ),
{
    let ghost types = text::string_views(opts.announce_types@);
    let ghost date = opts.target_date@;
    let n = papers.len();
    let mut seen: Vec<String> = Vec::new();
    let mut out: Vec<ArxivPaper> = Vec::new();
    let mut i: usize = 0;
    while i < n
        invariant
            n == papers@.len(),
            i <= n,
            types == text::string_views(opts.announce_types@),
            date == opts.target_date@,
            paper_views(out@) == filter_of(paper_views(papers@.take(i as int)), types, date),
            text::string_views(seen@) == ids_of(paper_views(out@)),
        decreases n - i,
    {
        let p = &papers[i];
        let ghost before = paper_views(papers@.take(i as int));
        assert(paper_views(papers@.take(i as int + 1)) =~= before.push(p@));
        assert(before.push(p@).drop_last() =~= before);
        if p.announce_date == opts.target_date && (opts.announce_types.len() == 0
            || contains_string(&opts.announce_types, &p.announce_type)) {
            if !contains_string(&seen, &p.id) {
                let ghost old_out = paper_views(out@);
                let ghost old_seen = seen@;
                let id = p.id.clone();
                assert(id@ == p.id@);
                seen.push(id);
                out.push(copy_paper(p));
                assert(paper_views(out@) =~= old_out.push(p@));
                assert(text::string_views(seen@) =~= text::string_views(old_seen).push(p.id@));
                assert(ids_of(old_out.push(p@)) =~= ids_of(old_out).push(p.id@));
            }
        }
        i = i + 1;
    }
    assert(papers@.take(n as int) =~= papers@);
    out
}

// ---------------------------------------------------------------------------
// Posting windows
// ---------------------------------------------------------------------------

/// The first posting window opens at this hour of the arXiv timezone.
pub const WINDOW_START_HOUR: u32 = 6;

/// Each later window opens this many hours after the previous one.
pub const WINDOW_SPACING_HOURS: u32 = 3;

/// The window of a wall-clock hour: `(hour - 6) div 3` (rounding down),
/// clamped to `[0, window_count - 1]`; 0 when `window_count <= 1`.
pub open spec fn window_for_hour(hour: int, window_count: u32) -> int {
    if window_count <= 1 {
        0
    } else {
        let raw = (hour - WINDOW_START_HOUR) / (WINDOW_SPACING_HOURS as int);
        if raw < 0 {
            0
        } else if raw > window_count - 1 {
            window_count - 1
        } else {
            raw
        }
    }
}

/// Which posting window a wall-clock hour falls in, as an index in
/// `[0, window_count-1]`; 0 when `window_count <= 1` (single-batch mode).
pub fn window_index_for_hour(hour: u32, window_count: u32) -> (r: usize)
    ensures
        r == window_for_hour(hour as int, window_count),
        window_count >= 1 ==> r < window_count,
{
    if window_count <= 1 {
        return 0;
    }
    if hour < WINDOW_START_HOUR {
        assert((hour - WINDOW_START_HOUR) / (WINDOW_SPACING_HOURS as int) < 0);
        return 0;
    }
    let raw = (hour - WINDOW_START_HOUR) / WINDOW_SPACING_HOURS;
    if raw > window_count - 1 {
        (window_count - 1) as usize
    } else {
        raw as usize
    }
}


// ---------------------------------------------------------------------------
// Dates and the current window
// ---------------------------------------------------------------------------

/// The announcement date of a feed `pubDate` in `zone`: the local
/// `YYYY-MM-DD` date of the instant it denotes (RFC 2822, else RFC 3339);
/// empty when the date is missing or unreadable.
pub open spec fn announce_date_of(raw: Option<Seq<char>>, zone: Seq<char>) -> Seq<char> {
    match raw {
        None => seq![],
        Some(s) => match time::feed_instant(s) {
            None => seq![],
            Some(t) => match time::local_time(t, zone) {
                Some((d, _)) => d,
                None => seq![],
            },
        },
    }
}

/// Format a `pubDate` (RFC 822/2822, with an RFC 3339 fallback) as YYYY-MM-DD
/// in the given timezone — the announcement *date*.
pub fn date_in_timezone(raw: Option<&str>, tz: &Zone) -> (out: String)
    ensures
        out@ == announce_date_of(opt_view(raw), tz.name_view()),
{
    match raw {
        None => String::new(),
        Some(s) => match time::parse_feed_instant(s) {
            None => String::new(),
            Some(t) => match time::local_date_hour(t, tz) {
                Some((d, _)) => d,
                None => String::new(),
            },
        },
    }
}

/// The local date of an instant in `zone`, `None` when chrono cannot
/// represent the instant.
pub open spec fn date_at(instant: int, zone: Seq<char>) -> Option<Seq<char>> {
    match time::local_time(instant, zone) {
        Some((d, _)) => Some(d),
        None => None,
    }
}

/// Today's date as YYYY-MM-DD in the given timezone, for the instant `now`
/// (seconds since the epoch).
pub fn today_in_timezone(now: i64, tz: &Zone) -> (out: Option<String>)
    ensures
        match out {
            Some(d) => date_at(now as int, tz.name_view()) == Some(d@),
            None => date_at(now as int, tz.name_view()) is None,
        },
{
    match time::local_date_hour(now, tz) {
        Some((d, _)) => Some(d),
        None => None,
    }
}

/// The window of the instant `now`: window 0 with at most one window, else
/// the window of its wall-clock hour in `zone`; `None` when chrono cannot
/// represent the instant.
pub open spec fn window_at(now: int, zone: Seq<char>, window_count: u32) -> Option<int> {
    if window_count <= 1 {
        Some(0)
    } else {
        match time::local_time(now, zone) {
            Some((_, h)) => Some(window_for_hour(h, window_count)),
            None => None,
        }
    }
}

/// Which posting window `now` falls in, as an index in `[0, window_count-1]`.
/// Derived from the *actual* wall-clock hour in `tz` (not from which cron
/// fired), so it tolerates cron jitter and DST shifts. Returns 0 when
/// `window_count <= 1` (single-batch mode).
pub fn current_window_index(now: i64, tz: &Zone, window_count: u32) -> (r: Option<usize>)
    ensures
        match r {
            Some(i) => window_at(now as int, tz.name_view(), window_count) == Some(i as int),
            None => window_at(now as int, tz.name_view(), window_count) is None,
        },
        window_count >= 1 ==> (r matches Some(i) ==> i < window_count),
{
    if window_count <= 1 {
        return Some(0);
    }
    match time::local_date_hour(now, tz) {
        Some((_, h)) => Some(window_index_for_hour(h, window_count)),
        None => None,
    }
}

// ---------------------------------------------------------------------------
// Laws
// ---------------------------------------------------------------------------

/// The papers of windows `0 .. n`, counted with multiplicity.
pub open spec fn windows_union(ps: Seq<PaperView>, window_count: u32, n: nat) -> Multiset<
    PaperView,
>
    decreases n,
{
    if n == 0 {
        Multiset::empty()
    } else {
        windows_union(ps, window_count, (n - 1) as nat).add(
            select_window_of(ps, n - 1, window_count).to_multiset(),
        )
    }
}

proof fn lemma_windows_union_push(ps: Seq<PaperView>, p: PaperView, window_count: u32, n: nat)
    requires
        window_count > 1,
    ensures
        windows_union(ps.push(p), window_count, n) == (if window_of(p.id, window_count) < n {
            windows_union(ps, window_count, n).insert(p)
        } else {
            windows_union(ps, window_count, n)
        }),
    decreases n,
{
    broadcast use vstd::multiset::group_multiset_axioms;
    broadcast use Seq::to_multiset_ensures;

    if n > 0 {
        lemma_windows_union_push(ps, p, window_count, (n - 1) as nat);
        let pred = |q: PaperView| window_of(q.id, window_count) == n - 1;
        ps.lemma_filter_push(p, pred);
        let w = select_window_of(ps, n - 1, window_count);
        w.to_multiset_ensures();
        if window_of(p.id, window_count) == n - 1 {
            assert(select_window_of(ps.push(p), n - 1, window_count) == w.push(p));
            assert(windows_union(ps.push(p), window_count, n) =~= windows_union(
                ps,
                window_count,
                n,
            ).insert(p));
        } else {
            assert(select_window_of(ps.push(p), n - 1, window_count) == w);
            if window_of(p.id, window_count) < n - 1 {
                assert(windows_union(ps.push(p), window_count, n) =~= windows_union(
                    ps,
                    window_count,
                    n,
                ).insert(p));
            } else {
                assert(windows_union(ps.push(p), window_count, n) =~= windows_union(
                    ps,
                    window_count,
                    n,
                ));
            }
        }
    }
}

/// Windows partition a batch: with more than one window, every paper has a
/// window below `window_count`, window `i` holds only papers whose window is
/// `i` (so no paper is in two windows), and the windows `0 .. window_count`
/// together hold every paper of the batch exactly as often as the batch does.
pub proof fn law_windows_partition(ps: Seq<PaperView>, window_count: u32)
    requires
        window_count > 1,
    ensures
        forall|k: int| 0 <= k < ps.len() ==> 0 <= #[trigger] window_of(ps[k].id, window_count) < window_count,
        forall|i: int, k: int|
            0 <= k < select_window_of(ps, i, window_count).len() ==> window_of(
                (#[trigger] select_window_of(ps, i, window_count)[k]).id,
                window_count,
            ) == i,
        windows_union(ps, window_count, window_count as nat) == ps.to_multiset(),
    decreases ps.len(),
{
    broadcast use vstd::multiset::group_multiset_axioms;
    broadcast use Seq::to_multiset_ensures;

    assert forall|i: int, k: int|
        0 <= k < select_window_of(ps, i, window_count).len() implies window_of(
        (#[trigger] select_window_of(ps, i, window_count)[k]).id,
        window_count,
    ) == i by {
        let pred = |q: PaperView| window_of(q.id, window_count) == i;
        ps.lemma_filter_pred(pred, k);
    }
    if ps.len() == 0 {
        assert(windows_union(ps, window_count, window_count as nat) =~= Multiset::empty()) by {
            lemma_windows_union_empty(ps, window_count, window_count as nat);
        }
        ps.to_multiset_ensures();
        assert(ps.to_multiset() =~= Multiset::empty());
    } else {
        let rest = ps.drop_last();
        let p = ps.last();
        law_windows_partition(rest, window_count);
        assert(rest.push(p) =~= ps);
        lemma_windows_union_push(rest, p, window_count, window_count as nat);
        rest.to_multiset_ensures();
    }
}

proof fn lemma_windows_union_empty(ps: Seq<PaperView>, window_count: u32, n: nat)
    requires
        ps.len() == 0,
    ensures
        windows_union(ps, window_count, n) =~= Multiset::empty(),
    decreases n,
{
    broadcast use vstd::multiset::group_multiset_axioms;
    broadcast use Seq::to_multiset_ensures;

    reveal(Seq::filter);
    if n > 0 {
        lemma_windows_union_empty(ps, window_count, (n - 1) as nat);
        assert(select_window_of(ps, n - 1, window_count).len() == 0);
        select_window_of(ps, n - 1, window_count).to_multiset_ensures();
        assert(select_window_of(ps, n - 1, window_count).to_multiset() =~= Multiset::empty());
    }
}

/// What the day's filter keeps: only wanted papers, each id once, each one
/// the first wanted paper of the input with its id, and every wanted input
/// paper is represented by its id; filtering again changes nothing.
pub proof fn law_filter(ps: Seq<PaperView>, types: Seq<Seq<char>>, date: Seq<char>)
    ensures
        forall|k: int|
            0 <= k < filter_of(ps, types, date).len() ==> wanted(
                #[trigger] filter_of(ps, types, date)[k],
                types,
                date,
            ),
        ids_of(filter_of(ps, types, date)).no_duplicates(),
        forall|k: int|
            0 <= k < filter_of(ps, types, date).len() ==> ps.contains(
                #[trigger] filter_of(ps, types, date)[k],
            ),
        forall|j: int|
            0 <= j < ps.len() && wanted(#[trigger] ps[j], types, date) ==> ids_of(
                filter_of(ps, types, date),
            ).contains(ps[j].id),
        forall|k: int|
            0 <= k < filter_of(ps, types, date).len() ==> exists|j: int|
                0 <= j < ps.len() && ps[j] == #[trigger] filter_of(ps, types, date)[k] && forall|
                    i: int,
                |
                    0 <= i < j ==> !(wanted(#[trigger] ps[i], types, date) && ps[i].id
                        == filter_of(ps, types, date)[k].id),
        filter_of(filter_of(ps, types, date), types, date) == filter_of(ps, types, date),
    decreases ps.len(),
{
    if ps.len() > 0 {
        let rest = ps.drop_last();
        let p = ps.last();
        law_filter(rest, types, date);
        let r = filter_of(rest, types, date);
        let out = filter_of(ps, types, date);
        assert forall|k: int| 0 <= k < out.len() implies ps.contains(#[trigger] out[k]) by {
            if k < r.len() {
                assert(out[k] == r[k]);
                assert(rest.contains(r[k]));
                let j = choose|j: int| 0 <= j < rest.len() && rest[j] == r[k];
                assert(ps[j] == rest[j]);
            } else {
                assert(ps[ps.len() - 1] == p);
            }
        }
        assert forall|j: int|
            0 <= j < ps.len() && wanted(#[trigger] ps[j], types, date) implies ids_of(
            out,
        ).contains(ps[j].id) by {
            if j < rest.len() {
                assert(rest[j] == ps[j]);
                assert(ids_of(r).contains(rest[j].id));
                let k = choose|k: int| 0 <= k < ids_of(r).len() && ids_of(r)[k] == rest[j].id;
                if out != r {
                    assert(ids_of(out)[k] == ids_of(r)[k]);
                }
            } else {
                if out != r {
                    assert(ids_of(out)[out.len() - 1] == p.id);
                } else {
                    let k = choose|k: int| 0 <= k < ids_of(r).len() && ids_of(r)[k] == p.id;
                    assert(ids_of(out)[k] == p.id);
                }
            }
        }
        assert forall|k: int| 0 <= k < out.len() implies exists|j: int|
            0 <= j < ps.len() && ps[j] == #[trigger] out[k] && forall|i: int|
                0 <= i < j ==> !(wanted(#[trigger] ps[i], types, date) && ps[i].id
                    == out[k].id) by {
            if k < r.len() {
                assert(out[k] == r[k]);
                let j = choose|j: int|
                    0 <= j < rest.len() && rest[j] == #[trigger] r[k] && forall|i: int|
                        0 <= i < j ==> !(wanted(#[trigger] rest[i], types, date) && rest[i].id
                            == r[k].id);
                assert(ps[j] == rest[j]);
                assert forall|i: int| 0 <= i < j implies !(wanted(#[trigger] ps[i], types, date)
                    && ps[i].id == out[k].id) by {
                    assert(ps[i] == rest[i]);
                }
            } else {
                let j = ps.len() - 1;
                assert(ps[j] == p);
                assert forall|i: int| 0 <= i < j implies !(wanted(#[trigger] ps[i], types, date)
                    && ps[i].id == out[k].id) by {
                    assert(ps[i] == rest[i]);
                    if wanted(rest[i], types, date) {
                        assert(ids_of(r).contains(rest[i].id));
                    }
                }
            }
        }
        if wanted(p, types, date) && !ids_of(r).contains(p.id) {
            assert(ids_of(out) =~= ids_of(r).push(p.id));
            assert(out.drop_last() =~= r);
            assert(filter_of(out, types, date) == out);
        }
    }
}

/// Window indices stay in `[0, window_count - 1]`, never decrease as the
/// hour goes on, and the hour at which window `i` opens (06, 09, 12, ...)
/// falls in window `i`.
pub proof fn law_window_for_hour(h1: int, h2: int, i: int, window_count: u32)
    requires
        window_count >= 1,
    ensures
        0 <= window_for_hour(h1, window_count) < window_count,
        h1 <= h2 ==> window_for_hour(h1, window_count) <= window_for_hour(h2, window_count),
        window_count > 1 && 0 <= i < window_count ==> window_for_hour(
            WINDOW_START_HOUR + WINDOW_SPACING_HOURS * i,
            window_count,
        ) == i,
{
    if h1 <= h2 {
        assert((h1 - 6) / 3 <= (h2 - 6) / 3) by (nonlinear_arith)
            requires
                h1 <= h2,
        ;
    }
    assert((6 + 3 * i - 6) / 3 == i) by (nonlinear_arith);
}

/// The day's filter decides by the date and by membership in the type list:
/// every paper of the feed announced on `date` whose type is one of `types`
/// (any type when `types` is empty) has its id in the result, and every
/// paper of the result is such a paper.
pub proof fn law_filter_by_type_list(ps: Seq<PaperView>, types: Seq<Seq<char>>, date: Seq<char>)
    ensures
        forall|j: int|
            0 <= j < ps.len() && (#[trigger] ps[j]).announce_date == date && (types.len() == 0
                || types.contains(ps[j].announce_type)) ==> ids_of(
                filter_of(ps, types, date),
            ).contains(ps[j].id),
        forall|k: int|
            0 <= k < filter_of(ps, types, date).len() ==> (#[trigger] filter_of(
                ps,
                types,
                date,
            )[k]).announce_date == date && (types.len() == 0 || types.contains(
                filter_of(ps, types, date)[k].announce_type,
            )),
{
    law_filter(ps, types, date);
    assert forall|j: int|
        0 <= j < ps.len() && (#[trigger] ps[j]).announce_date == date && (types.len() == 0
            || types.contains(ps[j].announce_type)) implies ids_of(
        filter_of(ps, types, date),
    ).contains(ps[j].id) by {
        assert(wanted(ps[j], types, date));
    }
    assert forall|k: int| 0 <= k < filter_of(ps, types, date).len() implies (
    #[trigger] filter_of(ps, types, date)[k]).announce_date == date && (types.len() == 0
        || types.contains(filter_of(ps, types, date)[k].announce_type)) by {
        assert(wanted(filter_of(ps, types, date)[k], types, date));
    }
}

/// With more than one window, a paper goes to window `i` exactly when the
/// FNV-1a hash of its id's UTF-16 code units leaves remainder `i` modulo
/// `window_count`: each paper of the batch is in the window its hash names,
/// and a window holds only papers whose hash names it, in batch order.
pub proof fn law_window_by_hash(ps: Seq<PaperView>, window_count: u32, i: int)
    requires
        window_count > 1,
    ensures
        select_window_of(ps, i, window_count) == ps.filter(
            |p: PaperView| (fnv1a(utf16(p.id)) % window_count) as int == i,
        ),
        forall|k: int|
            0 <= k < ps.len() ==> select_window_of(
                ps,
                (fnv1a(utf16((#[trigger] ps[k]).id)) % window_count) as int,
                window_count,
            ).contains(ps[k]),
        forall|k: int|
            0 <= k < select_window_of(ps, i, window_count).len() ==> (fnv1a(
                utf16((#[trigger] select_window_of(ps, i, window_count)[k]).id),
            ) % window_count) as int == i,
{
    let pred = |p: PaperView| (fnv1a(utf16(p.id)) % window_count) as int == i;
    assert(select_window_of(ps, i, window_count) =~= ps.filter(pred)) by {
        let q = |p: PaperView| window_of(p.id, window_count) == i;
        assert(q =~= pred);
    }
    assert forall|k: int| 0 <= k < ps.len() implies select_window_of(
        ps,
        (fnv1a(utf16((#[trigger] ps[k]).id)) % window_count) as int,
        window_count,
    ).contains(ps[k]) by {
        let w = (fnv1a(utf16(ps[k].id)) % window_count) as int;
        let q = |p: PaperView| window_of(p.id, window_count) == w;
        ps.filter_lemma(q);
        assert(ps.filter(q).contains(ps[k]));
    }
    assert forall|k: int| 0 <= k < select_window_of(ps, i, window_count).len() implies (fnv1a(
        utf16((#[trigger] select_window_of(ps, i, window_count)[k]).id),
    ) % window_count) as int == i by {
        ps.filter_lemma(pred);
    }
}

} // verus!



