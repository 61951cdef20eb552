//! Assembly of paginated fetch results.
//!
//! One record kind of one repository is fetched page by page, at most one
//! outstanding request at a time. The transport performs the requests;
//! this module decides them and accumulates the result. The policy, per
//! page: a delivered page's items are appended and the fetch goes on
//! exactly when the page carries a continuation; a failed request ends
//! the fetch with everything accumulated so far — a failure is absorbed,
//! never propagated. A failed first request therefore yields the empty
//! sequence.

use vstd::prelude::*;

verus! {

/// The page size every request asks for: the transport's maximum, so
/// that a fetch takes as few round trips as the source allows.
pub const MAX_PAGE_SIZE: u8 = 100;

/// One delivered page: its records, and whether a continuation token
/// promises another page.
pub struct FetchedPage<R> {
    pub items: Vec<R>,
    pub has_next: bool,
}

/// The outcome of one page request.
pub enum PageOutcome<R> {
    Delivered(FetchedPage<R>),
    Failed,
}

/// The record sequence that a run of page outcomes yields: items of the
/// delivered pages in order, cut off at the first failure or at the
/// first page without a continuation. Entries past that point belong to
/// requests that are never made.
pub open spec fn assembled<R>(pages: Seq<PageOutcome<R>>) -> Seq<R>
    decreases pages.len(),
{
    if pages.len() == 0 {
        Seq::empty()
    } else {
        match pages[0] {
            PageOutcome::Delivered(p) => p.items@ + (if p.has_next {
                assembled(pages.drop_first())
            } else {
                Seq::empty()
            }),
            PageOutcome::Failed => Seq::empty(),
        }
    }
}

/// A run of outcomes after which the fetch is still going: every page so
/// far was delivered with a continuation.
pub open spec fn open_log<R>(pages: Seq<PageOutcome<R>>) -> bool
    decreases pages.len(),
{
    if pages.len() == 0 {
        true
    } else {
        match pages[0] {
            PageOutcome::Delivered(p) => p.has_next && open_log(pages.drop_first()),
            PageOutcome::Failed => false,
        }
    }
}

/// Extending an open run by one outcome appends that page's items (or
/// nothing, on failure), and the run stays open exactly when the new
/// page was delivered with a continuation.
pub proof fn lemma_assembled_extend<R>(l: Seq<PageOutcome<R>>, x: PageOutcome<R>)
    requires
        open_log(l),
    ensures
        assembled(l.push(x)) == assembled(l) + (match x {
            PageOutcome::Delivered(p) => p.items@,
            PageOutcome::Failed => Seq::<R>::empty(),
        }),
        open_log(l.push(x)) <==> (match x {
            PageOutcome::Delivered(p) => p.has_next,
            PageOutcome::Failed => false,
        }),
    decreases l.len(),
{
    if l.len() == 0 {
        reveal_with_fuel(assembled, 2);
        reveal_with_fuel(open_log, 2);
        assert(l.push(x)[0] == x);
        assert(l.push(x).drop_first() =~= Seq::<PageOutcome<R>>::empty());
        assert(assembled(l) =~= Seq::<R>::empty());
        match x {
            PageOutcome::Delivered(p) => {
                assert(assembled(l.push(x)) =~= p.items@ + Seq::<R>::empty());
                assert(p.items@ + Seq::<R>::empty() =~= p.items@);
                assert(Seq::<R>::empty() + p.items@ =~= p.items@);
            }
            PageOutcome::Failed => {
                assert(assembled(l.push(x)) =~= Seq::<R>::empty());
                assert(Seq::<R>::empty() + Seq::<R>::empty() =~= Seq::<R>::empty());
            }
        }
    } else {
        assert(l.push(x)[0] == l[0]);
        assert(l.push(x).drop_first() =~= l.drop_first().push(x));
        lemma_assembled_extend(l.drop_first(), x);
        match l[0] {
            PageOutcome::Delivered(p0) => {
                match x {
                    PageOutcome::Delivered(p) => {
                        assert(p0.items@ + (assembled(l.drop_first()) + p.items@) =~= (p0.items@
                            + assembled(l.drop_first())) + p.items@);
                    }
                    PageOutcome::Failed => {
                        assert(p0.items@ + (assembled(l.drop_first()) + Seq::<R>::empty()) =~= (
                        p0.items@ + assembled(l.drop_first())) + Seq::<R>::empty());
                    }
                }
            }
            PageOutcome::Failed => {}
        }
    }
}

/// One paginated fetch in progress: what has been collected, and whether
/// another page request is owed. The caller performs each request and
/// reports its outcome; the session never sees the transport.
pub struct PagedFetch<R> {
    items: Vec<R>,
    awaiting: bool,
    log: Ghost<Seq<PageOutcome<R>>>,
}

impl<R> PagedFetch<R> {
    /// The outcomes reported so far, in order.
    pub closed spec fn pages(self) -> Seq<PageOutcome<R>> {
        self.log@
    }

    /// The records collected so far, in delivery order.
    pub closed spec fn collected(self) -> Seq<R> {
        self.items@
    }

    /// Whether the next page request is owed.
    pub closed spec fn awaiting_more(self) -> bool {
        self.awaiting
    }

    /// The session collects exactly what its reported outcomes yield,
    /// and awaits a request exactly while every outcome so far carried a
    /// continuation.
    pub open spec fn wf(self) -> bool {
        &&& self.collected() == assembled(self.pages())
        &&& self.awaiting_more() <==> open_log(self.pages())
    }

    /// A fresh session: nothing collected, the first request owed.
    pub fn new() -> (s: Self)
        ensures
            s.wf(),
            s.pages() == Seq::<PageOutcome<R>>::empty(),
            s.collected() == Seq::<R>::empty(),
            s.awaiting_more(),
    {
        let s = PagedFetch { items: Vec::new(), awaiting: true, log: Ghost(Seq::empty()) };
        proof {
            assert(assembled(s.log@) =~= Seq::<R>::empty());
        }
        s
    }

    /// Report a delivered page: its items are appended, and the fetch
    /// goes on — the result says whether to request again — exactly when
    /// the page carries a continuation.
    pub fn on_page(&mut self, page: FetchedPage<R>) -> (more: bool)
        requires
            old(self).wf(),
            old(self).awaiting_more(),
        ensures
            final(self).wf(),
            final(self).pages() == old(self).pages().push(PageOutcome::Delivered(page)),
            final(self).collected() == old(self).collected() + page.items@,
            more == page.has_next,
            more == final(self).awaiting_more(),
    {
        let ghost snapshot = page;
        proof {
            lemma_assembled_extend(self.log@, PageOutcome::Delivered(snapshot));
        }
        let FetchedPage { mut items, has_next } = page;
        self.items.append(&mut items);
        self.awaiting = has_next;
        proof {
            self.log@ = self.log@.push(PageOutcome::Delivered(snapshot));
        }
        has_next
    }

    /// Report a failed request: nothing is appended and the fetch ends
    /// with what was accumulated — the failure is absorbed here.
    pub fn on_failure(&mut self)
        requires
            old(self).wf(),
            old(self).awaiting_more(),
        ensures
            final(self).wf(),
            final(self).pages() == old(self).pages().push(PageOutcome::Failed),
            final(self).collected() == old(self).collected(),
            !final(self).awaiting_more(),
    {
        proof {
            lemma_assembled_extend(self.log@, PageOutcome::Failed);
        }
        self.awaiting = false;
        proof {
            self.log@ = self.log@.push(PageOutcome::Failed);
            assert(self.items@ + Seq::<R>::empty() =~= self.items@);
        }
    }

    /// The complete record sequence of the finished fetch.
    pub fn into_items(self) -> (r: Vec<R>)
        requires
            self.wf(),
        ensures
            r@ == assembled(self.pages()),
            r@ == self.collected(),
    {
        let PagedFetch { items, awaiting: _, log: _ } = self;
        items
    }
}

/// Replays a full run of page outcomes at once; what a fetch against a
/// source that answers with `pages` collects.
pub fn assemble_pages<R>(pages: Vec<PageOutcome<R>>) -> (r: Vec<R>)
    ensures
        r@ == assembled(pages@),
{
    let ghost orig = pages@;
    let mut rest = pages;
    let mut acc: Vec<R> = Vec::new();
    loop
        invariant_except_break
            acc@ + assembled(rest@) == assembled(orig),
        ensures
            acc@ == assembled(orig),
        decreases rest@.len(),
    {
        if rest.len() == 0 {
            proof {
                assert(assembled(rest@) =~= Seq::<R>::empty());
                assert(acc@ + Seq::<R>::empty() =~= acc@);
            }
            break ;
        }
        let ghost rest0 = rest@;
        let page = rest.remove(0);
        proof {
            assert(rest@ =~= rest0.drop_first());
        }
        match page {
            PageOutcome::Delivered(p) => {
                let FetchedPage { mut items, has_next } = p;
                let ghost items0 = items@;
                acc.append(&mut items);
                if !has_next {
                    proof {
                        assert(assembled(rest0) == items0 + Seq::<R>::empty());
                        assert(items0 + Seq::<R>::empty() =~= items0);
                    }
                    break ;
                }
                proof {
                    assert((acc@ + assembled(rest@)) =~= assembled(orig));
                }
            }
            PageOutcome::Failed => {
                proof {
                    assert(assembled(rest0) =~= Seq::<R>::empty());
                    assert(acc@ + Seq::<R>::empty() =~= acc@);
                }
                break ;
            }
        }
    }
    acc
}

/// Re-running a fetch against an unchanged source collects the same
/// record sequence: what is collected is a function of the reported
/// outcomes alone.
pub proof fn lemma_refetch_same<R>(first: PagedFetch<R>, second: PagedFetch<R>)
    requires
        first.wf(),
        second.wf(),
        first.pages() == second.pages(),
    ensures
        first.collected() == second.collected(),
{
}

} // verus!
