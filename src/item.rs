//! The item shapes that traversals and filters pass around, and the pull-based
//! sources that produce them.
use vstd::prelude::*;
use crate::path::{ComponentView, FsPath, extension_spec, has_component_spec};

verus! {

/// A directory entry: one filesystem object found while reading a directory.
#[derive(Debug, Clone, PartialEq, Eq)]
pub struct DirEntry {
    pub path: FsPath,
}

impl View for DirEntry {
    type V = Seq<ComponentView>;

    open spec fn view(&self) -> Seq<ComponentView> {
        self.path@
    }
}

impl DirEntry {
    /// The entry for the object at `path`.
    pub fn new(path: FsPath) -> (r: DirEntry)
        ensures
            r@ == path@,
    {
        DirEntry { path }
    }

    /// The full path of this entry.
    pub fn path(&self) -> (r: FsPath)
        ensures
            r@ == self@,
    {
        self.path.duplicate()
    }
}

/// Where a non-fatal traversal failure happened.
#[derive(Debug, Clone, Copy, PartialEq, Eq, Structural)]
pub enum TraversalErrorKind {
    /// Reading the next entry of a directory failed.
    EntryRead,
    /// Querying an entry's metadata failed.
    MetadataQuery,
    /// Opening a discovered subdirectory failed.
    SubdirectoryOpen,
}

/// A failure met during traversal, with its message and the path it concerns.
#[derive(Debug, Clone, PartialEq, Eq)]
pub struct TraversalError {
    pub kind: TraversalErrorKind,
    pub message: String,
    pub path: FsPath,
}

/// Mathematical view of a [`TraversalError`].
pub struct ErrorView {
    pub kind: TraversalErrorKind,
    pub message: Seq<char>,
    pub path: Seq<ComponentView>,
}

impl View for TraversalError {
    type V = ErrorView;

    open spec fn view(&self) -> ErrorView {
        ErrorView { kind: self.kind, message: self.message@, path: self.path@ }
    }
}

/// One item of a traversal or filter output, in one of four shapes.
#[derive(Debug, PartialEq, Eq)]
pub enum Item {
    Entry(DirEntry),
    EntryResult(Result<DirEntry, TraversalError>),
    Path(FsPath),
    PathResult(Result<FsPath, TraversalError>),
}

/// Mathematical view of an [`Item`].
pub enum ItemView {
    Entry(Seq<ComponentView>),
    EntryResult(Result<Seq<ComponentView>, ErrorView>),
    Path(Seq<ComponentView>),
    PathResult(Result<Seq<ComponentView>, ErrorView>),
}

pub open spec fn result_view<T: View>(r: Result<T, TraversalError>) -> Result<T::V, ErrorView> {
    match r {
        Ok(v) => Ok(v@),
        Err(e) => Err(e@),
    }
}

impl View for Item {
    type V = ItemView;

    open spec fn view(&self) -> ItemView {
        match self {
            Item::Entry(e) => ItemView::Entry(e@),
            Item::EntryResult(r) => ItemView::EntryResult(result_view(*r)),
            Item::Path(p) => ItemView::Path(p@),
            Item::PathResult(r) => ItemView::PathResult(result_view(*r)),
        }
    }
}

/// The path that a predicate is tested on, or `None` for a failure item,
/// which filters pass through untested.
pub open spec fn subject_of(v: ItemView) -> Option<Seq<ComponentView>> {
    match v {
        ItemView::Entry(p) => Some(p),
        ItemView::Path(p) => Some(p),
        ItemView::EntryResult(Ok(p)) => Some(p),
        ItemView::PathResult(Ok(p)) => Some(p),
        _ => None,
    }
}

impl Item {
    /// The path that filters test, or `None` for a failure item.
    pub fn subject(&self) -> (r: Option<&FsPath>)
        ensures
            r matches Some(p) ==> subject_of(self@) == Some(p@),
            r is None ==> subject_of(self@) is None,
    {
        match self {
            Item::Entry(e) => Some(&e.path),
            Item::Path(p) => Some(p),
            Item::EntryResult(Ok(e)) => Some(&e.path),
            Item::PathResult(Ok(p)) => Some(p),
            _ => None,
        }
    }
}

/// A rule by which a filter keeps items.
pub enum KeepRule {
    /// Failures, and items whose path holding the component agrees with the
    /// flag (true: keep holders; false: keep the others).
    Component(Seq<u8>, bool),
    /// Failures, and items whose path has an extension among these.
    Extensions(Seq<Seq<u8>>),
    /// Failure items only.
    Failures,
    /// Items that carry a path only.
    Successes,
}

/// Whether `rule` keeps the item `v`.
pub open spec fn admits(rule: KeepRule, v: ItemView) -> bool {
    match rule {
        KeepRule::Component(name, holders) => match subject_of(v) {
            None => true,
            Some(p) => has_component_spec(p, name) == holders,
        },
        KeepRule::Extensions(allowed) => match subject_of(v) {
            None => true,
            Some(p) => match extension_spec(p) {
                None => false,
                Some(e) => allowed.contains(e),
            },
        },
        KeepRule::Failures => subject_of(v) is None,
        KeepRule::Successes => subject_of(v) is Some,
    }
}

/// The items of `s` that `rule` keeps, in their order.
pub open spec fn kept(s: Seq<ItemView>, rule: KeepRule) -> Seq<ItemView>
    decreases s.len(),
{
    if s.len() == 0 {
        Seq::empty()
    } else if admits(rule, s[0]) {
        seq![s[0]] + kept(s.drop_first(), rule)
    } else {
        kept(s.drop_first(), rule)
    }
}

/// How many items of `s` a filter with `rule` pulls to produce its next item:
/// up to and including the first one that `rule` keeps, or all of them.
pub open spec fn pull_count(s: Seq<ItemView>, rule: KeepRule) -> nat
    decreases s.len(),
{
    if s.len() == 0 {
        0
    } else if admits(rule, s[0]) {
        1
    } else {
        1 + pull_count(s.drop_first(), rule)
    }
}

/// Keeping twice by the same rule keeps what keeping once did.
pub proof fn lemma_kept_idempotent(s: Seq<ItemView>, rule: KeepRule)
    ensures
        kept(kept(s, rule), rule) == kept(s, rule),
    decreases s.len(),
{
    if s.len() > 0 {
        lemma_kept_idempotent(s.drop_first(), rule);
        if admits(rule, s[0]) {
            let k = kept(s, rule);
            assert(k.drop_first() =~= kept(s.drop_first(), rule));
        }
    }
}

/// Keeping by two rules gives the same items in either order.
pub proof fn lemma_kept_commute(s: Seq<ItemView>, r1: KeepRule, r2: KeepRule)
    ensures
        kept(kept(s, r1), r2) == kept(kept(s, r2), r1),
    decreases s.len(),
{
    if s.len() > 0 {
        let t = s.drop_first();
        lemma_kept_commute(t, r1, r2);
        let k1 = kept(s, r1);
        let k2 = kept(s, r2);
        if admits(r1, s[0]) {
            assert(k1.drop_first() =~= kept(t, r1));
        }
        if admits(r2, s[0]) {
            assert(k2.drop_first() =~= kept(t, r2));
        }
        if admits(r1, s[0]) && admits(r2, s[0]) {
            assert(kept(k1, r2).drop_first() =~= kept(kept(t, r1), r2));
            assert(kept(k2, r1).drop_first() =~= kept(kept(t, r2), r1));
            assert(kept(k1, r2) =~= kept(k2, r1));
        }
    }
}

/// Number of times `x` occurs in `s`.
pub open spec fn occurrences(s: Seq<ItemView>, x: ItemView) -> nat
    decreases s.len(),
{
    if s.len() == 0 {
        0
    } else {
        (if s[0] == x {
            1nat
        } else {
            0nat
        }) + occurrences(s.drop_first(), x)
    }
}


/// An item that keeping lets through was in the input and is admitted.
pub proof fn lemma_kept_occurrence(s: Seq<ItemView>, rule: KeepRule, x: ItemView)
    requires
        occurrences(kept(s, rule), x) > 0,
    ensures
        occurrences(s, x) > 0,
        admits(rule, x),
    decreases s.len(),
{
    if s.len() > 0 {
        let k = kept(s, rule);
        if admits(rule, s[0]) {
            assert(k.drop_first() =~= kept(s.drop_first(), rule));
            if s[0] != x {
                lemma_kept_occurrence(s.drop_first(), rule, x);
            }
        } else {
            lemma_kept_occurrence(s.drop_first(), rule, x);
        }
    }
}

/// A lazy, single-pass sequence of items.
pub trait ItemSource {
    /// The items that this source will still produce, in order.
    spec fn remaining(&self) -> Seq<ItemView>;

    /// Pulls the next item, or `None` once the sequence has ended.
    fn next_item(&mut self) -> (r: Option<Item>)
        ensures
            old(self).remaining().len() == 0 ==> r is None && final(self).remaining() == old(
                self,
            ).remaining(),
            old(self).remaining().len() > 0 ==> (r matches Some(i) && i@ == old(
                self,
            ).remaining()[0]) && final(self).remaining() == old(self).remaining().drop_first(),
    ;
}

/// A source over items that are already at hand.
pub struct VecSource {
    /// The items still to produce, last one first.
    pub reversed: Vec<Item>,
}

/// Views of a sequence of items.
pub open spec fn items_view(items: Seq<Item>) -> Seq<ItemView> {
    items.map_values(|i: Item| i@)
}

impl VecSource {
    /// A source that produces `items` in order.
    pub fn new(items: Vec<Item>) -> (r: VecSource)
        ensures
            r.remaining() == items_view(items@),
    {
        let ghost all = items@;
        let mut items = items;
        let mut reversed: Vec<Item> = Vec::new();
        while items.len() > 0
            invariant
                items_view(all) == items_view(items@) + items_view(reversed@).reverse(),
            decreases items.len(),
        {
            let ghost before = items@;
            let it = items.pop().unwrap();
            assert(before == items@.push(it));
            assert(items_view(before) =~= items_view(items@).push(it@));
            assert(items_view(reversed@.push(it)).reverse() =~= seq![it@] + items_view(
                reversed@,
            ).reverse());
            reversed.push(it);
        }
        assert(items_view(items@) =~= Seq::<ItemView>::empty());
        assert(items_view(all) =~= items_view(reversed@).reverse());
        VecSource { reversed }
    }
}

impl ItemSource for VecSource {
    open spec fn remaining(&self) -> Seq<ItemView> {
        items_view(self.reversed@).reverse()
    }

    fn next_item(&mut self) -> (r: Option<Item>) {
        let ghost before = self.reversed@;
        let r = self.reversed.pop();
        proof {
            if before.len() > 0 {
                let it = r->Some_0;
                assert(before == self.reversed@.push(it));
                assert(items_view(before).reverse() =~= seq![it@] + items_view(
                    self.reversed@,
                ).reverse());
            }
        }
        r
    }
}

} // verus!
