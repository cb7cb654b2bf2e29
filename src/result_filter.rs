//! Collapsing fallible items into plain ones: failures are dropped, or kept
//! aside in a collection, and successes are unwrapped.
use vstd::prelude::*;
use crate::item::{ErrorView, Item, ItemSource, ItemView, TraversalError};

verus! {

/// What collapsing makes of one item: a success is unwrapped, a failure
/// gives `None`, a plain item stays as it is.
pub open spec fn unwrapped(v: ItemView) -> Option<ItemView> {
    match v {
        ItemView::EntryResult(Ok(p)) => Some(ItemView::Entry(p)),
        ItemView::PathResult(Ok(p)) => Some(ItemView::Path(p)),
        ItemView::EntryResult(Err(_)) => None,
        ItemView::PathResult(Err(_)) => None,
        _ => Some(v),
    }
}

/// The items of `s` with failures dropped and successes unwrapped.
pub open spec fn collapsed(s: Seq<ItemView>) -> Seq<ItemView>
    decreases s.len(),
{
    if s.len() == 0 {
        Seq::empty()
    } else {
        match unwrapped(s[0]) {
            Some(u) => seq![u] + collapsed(s.drop_first()),
            None => collapsed(s.drop_first()),
        }
    }
}

/// How many items of `s` a collapser pulls to produce its next item: up to
/// and including the first one that is not a failure, or all of them.
pub open spec fn collapse_pull_count(s: Seq<ItemView>) -> nat
    decreases s.len(),
{
    if s.len() == 0 {
        0
    } else if unwrapped(s[0]) is Some {
        1
    } else {
        1 + collapse_pull_count(s.drop_first())
    }
}

/// The errors carried by the failure items of `s`, in order.
pub open spec fn failure_errors(s: Seq<ItemView>) -> Seq<ErrorView>
    decreases s.len(),
{
    if s.len() == 0 {
        Seq::empty()
    } else {
        match s[0] {
            ItemView::EntryResult(Err(e)) => seq![e] + failure_errors(s.drop_first()),
            ItemView::PathResult(Err(e)) => seq![e] + failure_errors(s.drop_first()),
            _ => failure_errors(s.drop_first()),
        }
    }
}

/// The errors of a single item.
pub proof fn lemma_failure_errors_single(v: ItemView)
    ensures
        failure_errors(seq![v]) == match v {
            ItemView::EntryResult(Err(e)) => seq![e],
            ItemView::PathResult(Err(e)) => seq![e],
            _ => Seq::<ErrorView>::empty(),
        },
{
    assert(seq![v].drop_first() =~= Seq::<ItemView>::empty());
    assert(failure_errors(Seq::<ItemView>::empty()) == Seq::<ErrorView>::empty());
    assert(seq![v][0] == v);
    match v {
        ItemView::EntryResult(Err(e)) => {
            assert(failure_errors(seq![v]) =~= seq![e]);
        },
        ItemView::PathResult(Err(e)) => {
            assert(failure_errors(seq![v]) =~= seq![e]);
        },
        _ => {},
    }
}

/// Views of a sequence of errors.
pub open spec fn errors_view(es: Seq<TraversalError>) -> Seq<ErrorView> {
    es.map_values(|e: TraversalError| e@)
}

/// One item collapsed: `Ok` with the unwrapped or plain item, `Err` with the
/// error of a failure item.
pub fn unwrap_item(item: Item) -> (r: Result<Item, TraversalError>)
    ensures
        r matches Ok(u) ==> unwrapped(item@) == Some(u@),
        r matches Err(e) ==> unwrapped(item@) is None && failure_errors(seq![item@]) == seq![
            e@,
        ],
        r is Ok ==> failure_errors(seq![item@]) == Seq::<ErrorView>::empty(),
{
    proof {
        lemma_failure_errors_single(item@);
    }
    match item {
        Item::EntryResult(Ok(e)) => Ok(Item::Entry(e)),
        Item::PathResult(Ok(p)) => Ok(Item::Path(p)),
        Item::EntryResult(Err(e)) => Err(e),
        Item::PathResult(Err(e)) => Err(e),
        other => Ok(other),
    }
}

/// Drops the failure items of `inner` and unwraps its successes; the errors
/// are discarded.
pub struct ResultFilter<I: ItemSource> {
    pub inner: I,
}

impl<I: ItemSource> ResultFilter<I> {
    /// A collapser over `inner`.
    pub fn new(inner: I) -> (r: ResultFilter<I>)
        ensures
            r.inner == inner,
            r.remaining() == collapsed(inner.remaining()),
    {
        ResultFilter { inner }
    }

    /// Pulls from the upstream until a non-failure item, and returns it
    /// unwrapped; `None` once the upstream has ended. Nothing beyond the
    /// returned item is pulled.
    pub fn pull(&mut self) -> (r: Option<Item>)
        ensures
            final(self).inner.remaining() == old(self).inner.remaining().skip(
                collapse_pull_count(old(self).inner.remaining()) as int,
            ),
            r is None ==> final(self).inner.remaining().len() == 0,
            old(self).remaining().len() == 0 ==> r is None && final(self).remaining() == old(
                self,
            ).remaining(),
            old(self).remaining().len() > 0 ==> (r matches Some(i) && i@ == old(
                self,
            ).remaining()[0]) && final(self).remaining() == old(self).remaining().drop_first(),
    {
        let ghost start = self.remaining();
        let ghost up0 = self.inner.remaining();
        let ghost mut n: int = 0;
        loop
            invariant
                up0 == old(self).inner.remaining(),
                0 <= n <= up0.len(),
                self.inner.remaining() == up0.skip(n),
                collapse_pull_count(up0) == n + collapse_pull_count(self.inner.remaining()),
                self.remaining() == start,
                start == old(self).remaining(),
            decreases self.inner.remaining().len(),
        {
            let ghost up = self.inner.remaining();
            match self.inner.next_item() {
                None => {
                    return None;
                },
                Some(item) => {
                    assert(up.drop_first() == self.inner.remaining());
                    proof {
                        assert(up0.skip(n + 1) =~= up.drop_first());
                        n = n + 1;
                    }
                    match unwrap_item(item) {
                        Ok(u) => {
                            return Some(u);
                        },
                        Err(_) => {},
                    }
                },
            }
        }
    }
}

impl<I: ItemSource> ItemSource for ResultFilter<I> {
    open spec fn remaining(&self) -> Seq<ItemView> {
        collapsed(self.inner.remaining())
    }

    fn next_item(&mut self) -> (r: Option<Item>) {
        self.pull()
    }
}

/// Like [`ResultFilter`], but appends each dropped error to `errors`, so that
/// none is lost.
pub struct ErrorCollector<I: ItemSource> {
    pub inner: I,
    pub errors: Vec<TraversalError>,
}

impl<I: ItemSource> ErrorCollector<I> {
    /// A collapser over `inner` that appends the errors it meets to `errors`.
    pub fn new(inner: I, errors: Vec<TraversalError>) -> (r: ErrorCollector<I>)
        ensures
            r.inner == inner,
            r.errors@ == errors@,
            r.remaining() == collapsed(inner.remaining()),
    {
        ErrorCollector { inner, errors }
    }

    /// Pulls the next unwrapped item, appending to `errors` the errors of the
    /// failure items passed over on the way.
    pub fn next_collecting(&mut self) -> (r: Option<Item>)
        ensures
            old(self).remaining().len() == 0 ==> r is None,
            old(self).remaining().len() > 0 ==> (r matches Some(i) && i@ == old(
                self,
            ).remaining()[0]),
            final(self).remaining() == if old(self).remaining().len() > 0 {
                old(self).remaining().drop_first()
            } else {
                old(self).remaining()
            },
            final(self).inner.remaining() == old(self).inner.remaining().skip(
                collapse_pull_count(old(self).inner.remaining()) as int,
            ),
            r is None ==> final(self).inner.remaining().len() == 0,
            errors_view(final(self).errors@) == errors_view(old(self).errors@) + failure_errors(
                old(self).inner.remaining().take(
                    collapse_pull_count(old(self).inner.remaining()) as int,
                ),
            ),
    {
        let ghost start = self.remaining();
        let ghost up0 = self.inner.remaining();
        let ghost errs0 = errors_view(self.errors@);
        let ghost mut k: int = 0;
        loop
            invariant
                self.remaining() == start,
                start == old(self).remaining(),
                up0 == old(self).inner.remaining(),
                errs0 == errors_view(old(self).errors@),
                0 <= k <= up0.len(),
                collapse_pull_count(up0) == k + collapse_pull_count(self.inner.remaining()),
                self.inner.remaining() == up0.skip(k),
                errors_view(self.errors@) == errs0 + failure_errors(up0.take(k)),
            decreases self.inner.remaining().len(),
        {
            let ghost up = self.inner.remaining();
            match self.inner.next_item() {
                None => {
                    return None;
                },
                Some(item) => {
                    assert(up.drop_first() == self.inner.remaining());
                    let ghost iv = item@;
                    proof {
                        assert(up0[k] == iv);
                        assert(up0.skip(k + 1) =~= up.drop_first());
                        lemma_failure_errors_append(up0.take(k), iv);
                        assert(up0.take(k + 1) =~= up0.take(k).push(iv));
                        k = k + 1;
                    }
                    match unwrap_item(item) {
                        Ok(u) => {
                            return Some(u);
                        },
                        Err(e) => {
                            let ghost before = self.errors@;
                            self.errors.push(e);
                            assert(errors_view(self.errors@) =~= errors_view(before).push(e@));
                        },
                    }
                },
            }
        }
    }
}

/// The errors of a sequence with one more item are those of the sequence
/// followed by the new item's.
pub proof fn lemma_failure_errors_append(s: Seq<ItemView>, v: ItemView)
    ensures
        failure_errors(s.push(v)) == failure_errors(s) + failure_errors(seq![v]),
    decreases s.len(),
{
    if s.len() == 0 {
        assert(s.push(v) =~= seq![v]);
    } else {
        lemma_failure_errors_append(s.drop_first(), v);
        assert(s.push(v).drop_first() =~= s.drop_first().push(v));
        assert(failure_errors(s.push(v)) =~= failure_errors(s) + failure_errors(seq![v]));
    }
}

impl<I: ItemSource> ItemSource for ErrorCollector<I> {
    open spec fn remaining(&self) -> Seq<ItemView> {
        collapsed(self.inner.remaining())
    }

    fn next_item(&mut self) -> (r: Option<Item>) {
        self.next_collecting()
    }
}

} // verus!
