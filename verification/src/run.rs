//! The bookkeeping of one posting run: how many posts to attempt, how the
//! outcomes are counted, and whether the run ends in failure.

use vstd::prelude::*;

use crate::arxiv;
use crate::arxiv::ArxivPaper;
use crate::arxiv::FilterOptions;
use crate::arxiv::PaperView;
use crate::text;

verus! {

/// How many posts succeeded and failed so far.
#[derive(Debug, Clone, Copy, PartialEq, Eq)]
pub struct PostStats {
    pub posted: u32,
    pub failed: u32,
}

impl PostStats {
    /// No post attempted yet.
    pub fn new() -> (s: PostStats)
        ensures
            s.posted == 0,
            s.failed == 0,
    {
        PostStats { posted: 0, failed: 0 }
    }

    /// Count the outcome of one post.
    pub fn record(&mut self, succeeded: bool)
        requires
            succeeded ==> old(self).posted < u32::MAX,
            !succeeded ==> old(self).failed < u32::MAX,
        ensures
            succeeded ==> final(self).posted == old(self).posted + 1 && final(self).failed == old(
                self,
            ).failed,
            !succeeded ==> final(self).failed == old(self).failed + 1 && final(self).posted == old(
                self,
            ).posted,
    {
        if succeeded {
            self.posted = self.posted + 1;
        } else {
            self.failed = self.failed + 1;
        }
    }

    /// Whether the run must report failure: some post failed.
    pub fn run_failed(&self) -> (b: bool)
        ensures
            b == (self.failed > 0),
    {
        self.failed > 0
    }
}

/// How many of the `available` papers a run posts: at most `max_posts`.
pub fn posting_cap(max_posts: usize, available: usize) -> (cap: usize)
    ensures
        cap <= available,
        cap <= max_posts,
        cap == max_posts || cap == available,
{
    if max_posts < available {
        max_posts
    } else {
        available
    }
}

/// The smaller of two counts.
pub open spec fn cap_of(max_posts: nat, available: nat) -> nat {
    if max_posts < available {
        max_posts
    } else {
        available
    }
}

/// What one run does with a feed: the papers it posts and the counts it
/// reports along the way.
pub struct RunPlan {
    /// How many papers match the date and type after de-duplication.
    pub matched: usize,
    /// How many of those fall in the current window.
    pub in_window: usize,
    /// The papers to post, in order: the window's first `max_posts`.
    pub to_post: Vec<ArxivPaper>,
}

/// The papers of window `index` among the wanted papers of a feed.
pub open spec fn window_slice_of(
    ps: Seq<PaperView>,
    types: Seq<Seq<char>>,
    date: Seq<char>,
    index: int,
    window_count: u32,
) -> Seq<PaperView> {
    arxiv::select_window_of(arxiv::filter_of(ps, types, date), index, window_count)
}

/// The papers a run posts: the window's slice of the wanted papers, cut to
/// at most `max_posts`.
pub open spec fn plan_of(
    ps: Seq<PaperView>,
    types: Seq<Seq<char>>,
    date: Seq<char>,
    index: int,
    window_count: u32,
    max_posts: nat,
) -> Seq<PaperView> {
    let slice = window_slice_of(ps, types, date, index, window_count);
    slice.take(cap_of(max_posts, slice.len()) as int)
}

/// Filter the feed, take the current window's slice and cap it at
/// `max_posts`.
pub fn plan_run(
    papers: &[ArxivPaper],
    opts: &FilterOptions,
    index: usize,
    window_count: u32,
    max_posts: usize,
) -> (plan: RunPlan)
    ensures
        plan.matched == arxiv::filter_of(
            arxiv::paper_views(papers@),
            text::string_views(opts.announce_types@),
            opts.target_date@,
        ).len(),
        plan.in_window == window_slice_of(
            arxiv::paper_views(papers@),
            text::string_views(opts.announce_types@),
            opts.target_date@,
            index as int,
            window_count,
        ).len(),
        arxiv::paper_views(plan.to_post@) == plan_of(
            arxiv::paper_views(papers@),
            text::string_views(opts.announce_types@),
            opts.target_date@,
            index as int,
            window_count,
            max_posts as nat,
        ),
{
    let matched = arxiv::filter_papers(papers, opts);
    let slice = arxiv::select_window(matched.as_slice(), index, window_count);
    let cap = posting_cap(max_posts, slice.len());
    let ghost sv = arxiv::paper_views(slice@);
    let mut to_post: Vec<ArxivPaper> = Vec::new();
    let mut i: usize = 0;
    while i < cap
        invariant
            cap <= slice@.len(),
            sv == arxiv::paper_views(slice@),
            i <= cap,
            arxiv::paper_views(to_post@) == sv.take(i as int),
        decreases cap - i,
    {
        let ghost before = arxiv::paper_views(to_post@);
        to_post.push(arxiv::copy_paper(&slice[i]));
        assert(arxiv::paper_views(to_post@) =~= before.push(slice@[i as int]@));
        assert(sv.take(i as int + 1) =~= sv.take(i as int).push(sv[i as int]));
        i = i + 1;
    }
    RunPlan { matched: matched.len(), in_window: slice.len(), to_post }
}

/// Each wanted paper is posted once over a day: when the cap does not bite,
/// window `i` posts exactly its slice, the slices of windows
/// `0 .. window_count` together hold the day's wanted papers exactly as
/// often as they occur, and no id occurs among them twice.
pub proof fn law_each_paper_once(
    ps: Seq<PaperView>,
    types: Seq<Seq<char>>,
    date: Seq<char>,
    window_count: u32,
    max_posts: nat,
)
    requires
        window_count > 1,
        max_posts >= arxiv::filter_of(ps, types, date).len(),
    ensures
        forall|i: int|
            #[trigger] plan_of(ps, types, date, i, window_count, max_posts) == window_slice_of(
                ps,
                types,
                date,
                i,
                window_count,
            ),
        arxiv::windows_union(arxiv::filter_of(ps, types, date), window_count, window_count as nat)
            == arxiv::filter_of(ps, types, date).to_multiset(),
        arxiv::ids_of(arxiv::filter_of(ps, types, date)).no_duplicates(),
{
    let f = arxiv::filter_of(ps, types, date);
    assert forall|i: int|
        #[trigger] plan_of(ps, types, date, i, window_count, max_posts) == window_slice_of(
            ps,
            types,
            date,
            i,
            window_count,
        ) by {
        let slice = window_slice_of(ps, types, date, i, window_count);
        let pred = |p: PaperView| arxiv::window_of(p.id, window_count) == i;
        f.filter_lemma(pred);
        assert(slice.len() <= f.len());
        assert(slice.take(slice.len() as int) =~= slice);
    }
    arxiv::law_windows_partition(f, window_count);
    arxiv::law_filter(ps, types, date);
}

/// A run posts the head of its window's slice: the first
/// `min(max_posts, slice length)` papers of the slice, in order, so it posts
/// as many as the cap allows out of that slice and nothing from elsewhere.
pub proof fn law_plan_is_slice_head(
    ps: Seq<PaperView>,
    types: Seq<Seq<char>>,
    date: Seq<char>,
    index: int,
    window_count: u32,
    max_posts: nat,
)
    ensures
        plan_of(ps, types, date, index, window_count, max_posts).len() == (if max_posts
            < window_slice_of(ps, types, date, index, window_count).len() {
            max_posts
        } else {
            window_slice_of(ps, types, date, index, window_count).len()
        }),
        plan_of(ps, types, date, index, window_count, max_posts).is_prefix_of(
            window_slice_of(ps, types, date, index, window_count),
        ),
        window_slice_of(ps, types, date, index, window_count) == arxiv::select_window_of(
            arxiv::filter_of(ps, types, date),
            index,
            window_count,
        ),
{
}

} // verus!
