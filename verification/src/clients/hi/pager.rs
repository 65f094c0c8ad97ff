//! Paging decisions for walking a player's full match history.
use vstd::prelude::*;

verus! {

/// Halo caps a single match-history page at this many entries.
pub const MAX_PAGE_SIZE: u32 = 25;

/// Where a match-history walk stands: the next start index, and whether a short
/// page ended it.
#[derive(Debug, Clone, Copy, PartialEq, Eq, Structural)]
pub struct PageCursor {
    pub start: u32,
    pub done: bool,
}

/// The request a cursor makes next: `(start, MAX_PAGE_SIZE)`, or none once done.
pub open spec fn next_request_spec(c: PageCursor) -> Option<(u32, u32)> {
    if c.done {
        None
    } else {
        Some((c.start, MAX_PAGE_SIZE))
    }
}

/// The cursor after a page of `len` entries: the start advances by the page's length
/// and a page shorter than the maximum ends the walk.
pub open spec fn after_page(c: PageCursor, len: u32) -> PageCursor {
    PageCursor { start: (c.start + len) as u32, done: len < MAX_PAGE_SIZE }
}

impl PageCursor {
    /// A walk from the first entry.
    pub fn new() -> (r: Self)
        ensures
            r.start == 0,
            !r.done,
    {
        PageCursor { start: 0, done: false }
    }

    /// The next request's start and count, or `None` once the history is exhausted.
    pub fn next_request(&self) -> (r: Option<(u32, u32)>)
        ensures
            r == next_request_spec(*self),
    {
        if self.done {
            None
        } else {
            Some((self.start, MAX_PAGE_SIZE))
        }
    }

    /// Records a fetched page of `len` entries.
    pub fn record_page(&mut self, len: u32)
        requires
            old(self).start + len <= u32::MAX,
        ensures
            *final(self) == after_page(*old(self), len),
    {
        self.start = self.start + len;
        self.done = len < MAX_PAGE_SIZE;
    }

    /// Whether a short page has ended the walk.
    pub fn is_done(&self) -> (r: bool)
        ensures
            r == self.done,
    {
        self.done
    }
}

/// After a page, the next request starts right after the returned entries, so no
/// entry is skipped or fetched twice; the walk ends exactly when a page was short.
pub proof fn lemma_pages_are_contiguous(c: PageCursor, len: u32)
    requires
        !c.done,
        c.start + len <= u32::MAX,
    ensures
        next_request_spec(after_page(c, len)) is Some <==> len >= MAX_PAGE_SIZE,
        len >= MAX_PAGE_SIZE ==> next_request_spec(after_page(c, len)) == Some(
            ((c.start + len) as u32, MAX_PAGE_SIZE),
        ),
{
}

/// Total number of entries in a run of pages.
pub open spec fn page_total(lens: Seq<u32>) -> int
    decreases lens.len(),
{
    if lens.len() == 0 {
        0
    } else {
        lens[0] + page_total(lens.drop_first())
    }
}

proof fn lemma_page_total_nonneg(lens: Seq<u32>)
    ensures
        page_total(lens) >= 0,
    decreases lens.len(),
{
    if lens.len() > 0 {
        lemma_page_total_nonneg(lens.drop_first());
    }
}

/// The cursor after offering it a run of fetched pages in order: pages are recorded
/// while the walk goes on, and once it is done no further page is requested or recorded.
pub open spec fn walk(c: PageCursor, lens: Seq<u32>) -> PageCursor
    decreases lens.len(),
{
    if lens.len() == 0 || c.done {
        c
    } else {
        walk(after_page(c, lens[0]), lens.drop_first())
    }
}

/// Over a run of full pages the walk goes on, and the next request starts right after
/// every entry fetched so far.
pub proof fn lemma_full_pages_continue(c: PageCursor, lens: Seq<u32>)
    requires
        !c.done,
        forall|i: int| 0 <= i < lens.len() ==> #[trigger] lens[i] == MAX_PAGE_SIZE,
        c.start + page_total(lens) <= u32::MAX,
    ensures
        walk(c, lens) == (PageCursor { start: (c.start + page_total(lens)) as u32, done: false }),
        next_request_spec(walk(c, lens)) == Some(((c.start + page_total(lens)) as u32, MAX_PAGE_SIZE)),
    decreases lens.len(),
{
    if lens.len() > 0 {
        let rest = lens.drop_first();
        assert forall|i: int| 0 <= i < rest.len() implies #[trigger] rest[i] == MAX_PAGE_SIZE by {
            assert(rest[i] == lens[i + 1]);
        }
        lemma_page_total_nonneg(rest);
        assert(page_total(lens) == lens[0] + page_total(rest));
        lemma_full_pages_continue(after_page(c, lens[0]), rest);
    }
}

/// The first short page (possibly empty) ends the walk: the cursor has counted every
/// entry up to and including that page, requests nothing more, and ignores later pages.
pub proof fn lemma_short_page_ends_walk(c: PageCursor, lens: Seq<u32>, s: int)
    requires
        !c.done,
        0 <= s < lens.len(),
        forall|i: int| 0 <= i < s ==> #[trigger] lens[i] == MAX_PAGE_SIZE,
        lens[s] < MAX_PAGE_SIZE,
        c.start + page_total(lens.take(s + 1)) <= u32::MAX,
    ensures
        walk(c, lens) == (PageCursor { start: (c.start + page_total(lens.take(s + 1))) as u32, done: true }),
        walk(c, lens) == walk(c, lens.take(s + 1)),
        next_request_spec(walk(c, lens)) is None,
    decreases s,
{
    let rest = lens.drop_first();
    let t = lens.take(s + 1);
    assert(t[0] == lens[0]);
    assert(t.drop_first() =~= rest.take(s));
    lemma_page_total_nonneg(rest.take(s));
    assert(page_total(t) == lens[0] + page_total(rest.take(s)));
    if s == 0 {
        assert(rest.take(0) =~= Seq::<u32>::empty());
        assert(page_total(t) == lens[0]);
        assert(walk(after_page(c, lens[0]), rest) == after_page(c, lens[0]));
        assert(walk(after_page(c, lens[0]), t.drop_first()) == after_page(c, lens[0]));
    } else {
        assert forall|i: int| 0 <= i < s - 1 implies #[trigger] rest[i] == MAX_PAGE_SIZE by {
            assert(rest[i] == lens[i + 1]);
        }
        assert(rest[s - 1] == lens[s]);
        assert(rest.take(s) =~= rest.take((s - 1) + 1));
        lemma_short_page_ends_walk(after_page(c, lens[0]), rest, s - 1);
    }
}

} // verus!
