use vstd::prelude::*;

verus! {

/// Where a paginated scan of the event stream stands.
pub enum Cursor {
    /// No page has been requested yet.
    NotStarted,
    /// The next page is requested with this continuation token.
    Continue(String),
    /// The last page has been received.
    Exhausted,
    /// Fetching failed more often in a row than the scan allows.
    Failed,
}

/// The mathematical form of a cursor: a token is its characters.
pub enum CursorModel {
    NotStarted,
    Continue(Seq<char>),
    Exhausted,
    Failed,
}

impl View for Cursor {
    type V = CursorModel;

    open spec fn view(&self) -> CursorModel {
        match self {
            Cursor::NotStarted => CursorModel::NotStarted,
            Cursor::Continue(t) => CursorModel::Continue(t@),
            Cursor::Exhausted => CursorModel::Exhausted,
            Cursor::Failed => CursorModel::Failed,
        }
    }
}

impl CursorModel {
    /// Whether another page is to be fetched.
    pub open spec fn wants_page(self) -> bool {
        self is NotStarted || self is Continue
    }

    /// The continuation token that the next fetch carries: none for the first
    /// page.
    pub open spec fn request(self) -> Option<Option<Seq<char>>> {
        match self {
            CursorModel::NotStarted => Some(None),
            CursorModel::Continue(t) => Some(Some(t)),
            _ => None,
        }
    }
}

/// The cursor after a page whose response carried `next`: the scan goes on
/// while a token is present and ends when none is.
pub open spec fn cursor_after_page(next: Option<Seq<char>>) -> CursorModel {
    match next {
        Some(t) => CursorModel::Continue(t),
        None => CursorModel::Exhausted,
    }
}

/// The state of a scan: its cursor and the fetch failures seen in a row.
pub struct Scanner {
    pub cursor: Cursor,
    pub failures: u32,
    pub max_retries: u32,
}

impl Scanner {
    /// A scan that has fetched nothing yet and gives up after `max_retries`
    /// failed fetches in a row.
    pub fn new(max_retries: u32) -> (r: Scanner)
        ensures
            r.cursor@ == CursorModel::NotStarted,
            r.failures == 0,
            r.max_retries == max_retries,
    {
        Scanner { cursor: Cursor::NotStarted, failures: 0, max_retries }
    }

    /// The continuation token of the next fetch (`Some(None)` for the first
    /// page), or `None` when the scan is over.
    pub fn next_request(&self) -> (r: Option<Option<String>>)
        ensures
            r is Some <==> self.cursor@.wants_page(),
            self.cursor@.request() == match r {
                Some(Some(t)) => Some(Some(t@)),
                Some(None) => Some(None),
                None => None::<Option<Seq<char>>>,
            },
    {
        match &self.cursor {
            Cursor::NotStarted => Some(None),
            Cursor::Continue(t) => Some(Some(t.clone())),
            _ => None,
        }
    }

    /// Whether the scan is over, having read the last page or given up.
    pub fn is_done(&self) -> (r: bool)
        ensures
            r == !self.cursor@.wants_page(),
    {
        match &self.cursor {
            Cursor::NotStarted => false,
            Cursor::Continue(_) => false,
            _ => true,
        }
    }

    /// Whether the scan gave up after repeated fetch failures.
    pub fn has_failed(&self) -> (r: bool)
        ensures
            r == (self.cursor@ is Failed),
    {
        match &self.cursor {
            Cursor::Failed => true,
            _ => false,
        }
    }

    /// Records a page received with continuation token `next`.
    pub fn page_received(&mut self, next: Option<String>)
        requires
            old(self).cursor@.wants_page(),
        ensures
            final(self).cursor@ == cursor_after_page(
                match next {
                    Some(t) => Some(t@),
                    None => None::<Seq<char>>,
                },
            ),
            final(self).failures == 0,
            final(self).max_retries == old(self).max_retries,
    {
        self.cursor = match next {
            Some(t) => Cursor::Continue(t),
            None => Cursor::Exhausted,
        };
        self.failures = 0;
    }

    /// Records a failed fetch: the same page is asked for again, until more than
    /// `max_retries` fetches in a row have failed and the scan fails.
    pub fn fetch_failed(&mut self)
        requires
            old(self).cursor@.wants_page(),
        ensures
            final(self).max_retries == old(self).max_retries,
            old(self).failures < old(self).max_retries ==> final(self).failures == old(self).failures
                + 1 && final(self).cursor@ == old(self).cursor@,
            old(self).failures >= old(self).max_retries ==> final(self).cursor@ is Failed
                && final(self).failures == old(self).failures,
    {
        if self.failures < self.max_retries {
            self.failures = self.failures + 1;
        } else {
            self.cursor = Cursor::Failed;
        }
    }
}

/// A page as an event source hands it out: its rows and the continuation token.
pub type PageModel<A> = (Seq<A>, Option<Seq<char>>);

/// The number of fetches and the rows emitted when a scan at cursor `c` is fed
/// `pages` in order, each fetch answered by the next page.
pub open spec fn scan_outcome<A>(c: CursorModel, pages: Seq<PageModel<A>>) -> (nat, Seq<A>)
    decreases pages.len(),
{
    if !c.wants_page() || pages.len() == 0 {
        (0, Seq::empty())
    } else {
        let rest = scan_outcome(cursor_after_page(pages[0].1), pages.drop_first());
        (rest.0 + 1, pages[0].0 + rest.1)
    }
}

/// The rows of the pages, page after page and in order within each page.
pub open spec fn page_rows<A>(pages: Seq<PageModel<A>>) -> Seq<A>
    decreases pages.len(),
{
    if pages.len() == 0 {
        Seq::empty()
    } else {
        pages[0].0 + page_rows(pages.drop_first())
    }
}

/// A source that answers `k` pages, each but the last with a continuation
/// token, ends a scan begun from scratch after exactly `k` fetches, with the
/// rows of all pages emitted page after page, in order.
pub proof fn lemma_scan_terminates<A>(pages: Seq<PageModel<A>>)
    requires
        pages.len() > 0,
        forall|i: int| 0 <= i < pages.len() - 1 ==> (#[trigger] pages[i]).1 is Some,
        pages.last().1 is None,
    ensures
        scan_outcome(CursorModel::NotStarted, pages) == (pages.len(), page_rows(pages)),
{
    lemma_scan_continuing(pages);
}

/// A scan that wants a page and is fed pages that end with the last token
/// absent fetches each of them once.
proof fn lemma_scan_continuing<A>(pages: Seq<PageModel<A>>)
    requires
        pages.len() > 0,
        forall|i: int| 0 <= i < pages.len() - 1 ==> (#[trigger] pages[i]).1 is Some,
        pages.last().1 is None,
    ensures
        forall|c: CursorModel| c.wants_page() ==> #[trigger] scan_outcome(c, pages) == (
            pages.len(),
            page_rows(pages),
        ),
    decreases pages.len(),
{
    let rest = pages.drop_first();
    let after = cursor_after_page(pages[0].1);
    if pages.len() == 1 {
        assert(after is Exhausted);
        assert(page_rows(rest) =~= Seq::<A>::empty());
        assert(pages[0].0 + Seq::<A>::empty() =~= pages[0].0);
        assert(scan_outcome(after, rest) == (0nat, Seq::<A>::empty()));
    } else {
        assert forall|i: int| 0 <= i < rest.len() - 1 implies (#[trigger] rest[i]).1 is Some by {
            assert(rest[i] == pages[i + 1]);
        }
        assert(rest.last() == pages.last());
        lemma_scan_continuing(rest);
        assert(pages[0].1 is Some);
        assert(after.wants_page());
        assert(scan_outcome(after, rest) == (rest.len(), page_rows(rest)));
    }
    assert forall|c: CursorModel| c.wants_page() implies #[trigger] scan_outcome(c, pages) == (
        pages.len(),
        page_rows(pages),
    ) by {
        assert(scan_outcome(c, pages) == (scan_outcome(after, rest).0 + 1, pages[0].0 + scan_outcome(
            after,
            rest,
        ).1));
    }
}

} // verus!
