//! Projecting entries to their paths.
use vstd::prelude::*;
use crate::item::{Item, ItemSource, ItemView};

verus! {

/// What projection makes of one item: an entry becomes its path, a fallible
/// entry a fallible path with the same failure; paths stay as they are.
pub open spec fn projected(v: ItemView) -> ItemView {
    match v {
        ItemView::Entry(p) => ItemView::Path(p),
        ItemView::EntryResult(r) => ItemView::PathResult(r),
        _ => v,
    }
}

/// The items of `s`, each projected.
pub open spec fn all_projected(s: Seq<ItemView>) -> Seq<ItemView> {
    s.map_values(|v: ItemView| projected(v))
}

/// One item projected.
pub fn project_item(item: Item) -> (r: Item)
    ensures
        r@ == projected(item@),
{
    match item {
        Item::Entry(e) => Item::Path(e.path),
        Item::EntryResult(Ok(e)) => Item::PathResult(Ok(e.path)),
        Item::EntryResult(Err(e)) => Item::PathResult(Err(e)),
        other => other,
    }
}

/// Maps the entries of `inner` to their paths, keeping failures as they are.
pub struct EntryToPath<I: ItemSource> {
    pub inner: I,
}

impl<I: ItemSource> EntryToPath<I> {
    /// A projection over `inner`.
    pub fn new(inner: I) -> (r: EntryToPath<I>)
        ensures
            r.inner == inner,
            r.remaining() == all_projected(inner.remaining()),
    {
        EntryToPath { inner }
    }

    /// Pulls exactly one upstream item, if there is one, and returns it
    /// projected; `None` once the upstream has ended.
    pub fn pull(&mut self) -> (r: Option<Item>)
        ensures
            old(self).inner.remaining().len() == 0 ==> r is None && final(self).inner.remaining()
                == old(self).inner.remaining(),
            old(self).inner.remaining().len() > 0 ==> (r matches Some(i) && i@ == projected(
                old(self).inner.remaining()[0],
            )) && final(self).inner.remaining() == old(self).inner.remaining().drop_first(),
            old(self).remaining().len() == 0 ==> r is None && final(self).remaining() == old(
                self,
            ).remaining(),
            old(self).remaining().len() > 0 ==> (r matches Some(i) && i@ == old(
                self,
            ).remaining()[0]) && final(self).remaining() == old(self).remaining().drop_first(),
    {
        let ghost up = self.inner.remaining();
        match self.inner.next_item() {
            None => None,
            Some(item) => {
                assert(all_projected(up).drop_first() =~= all_projected(up.drop_first()));
                Some(project_item(item))
            },
        }
    }
}

impl<I: ItemSource> ItemSource for EntryToPath<I> {
    open spec fn remaining(&self) -> Seq<ItemView> {
        all_projected(self.inner.remaining())
    }

    fn next_item(&mut self) -> (r: Option<Item>) {
        self.pull()
    }
}

} // verus!
