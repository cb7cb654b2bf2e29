//! Keeping or dropping items by whether their path holds a given component.
use vstd::prelude::*;
use crate::item::{
    Item, ItemSource, ItemView, KeepRule, admits, kept, lemma_kept_commute, lemma_kept_occurrence, occurrences,
    pull_count, subject_of,
};

verus! {

/// Whether matching items are the ones kept or the ones dropped.
#[derive(Debug, Clone, Copy, PartialEq, Eq, Structural)]
pub enum ComponentFilterOperationType {
    Include,
    Exclude,
}

/// The rule of a component filter: failure items pass; an item with a path
/// passes when holding the component agrees with the policy.
pub open spec fn component_rule(name: Seq<u8>, op: ComponentFilterOperationType) -> KeepRule {
    KeepRule::Component(name, op == ComponentFilterOperationType::Include)
}

pub open spec fn passes_component(
    v: ItemView,
    name: Seq<u8>,
    op: ComponentFilterOperationType,
) -> bool {
    admits(component_rule(name, op), v)
}

/// What a component filter lets through from `s`.
pub open spec fn component_kept(
    s: Seq<ItemView>,
    name: Seq<u8>,
    op: ComponentFilterOperationType,
) -> Seq<ItemView> {
    kept(s, component_rule(name, op))
}

/// Filters the items of `inner` by whether any component of their path reads
/// `component`. Failure items pass untouched.
pub struct ComponentFilter<I: ItemSource> {
    pub inner: I,
    pub component: Vec<u8>,
    pub operation: ComponentFilterOperationType,
}

impl<I: ItemSource> ComponentFilter<I> {
    /// A filter over `inner` with the given component and policy.
    pub fn new(inner: I, component: Vec<u8>, operation: ComponentFilterOperationType) -> (r:
        ComponentFilter<I>)
        ensures
            r.inner == inner,
            r.component@ == component@,
            r.operation == operation,
            r.remaining() == component_kept(inner.remaining(), component@, operation),
    {
        ComponentFilter { inner, component, operation }
    }

    /// Pulls from the upstream until an item passes, and returns it; `None`
    /// once the upstream has ended. Failure items pass as soon as they are
    /// pulled, and nothing beyond the returned item is pulled.
    pub fn pull(&mut self) -> (r: Option<Item>)
        ensures
            final(self).component == old(self).component,
            final(self).operation == old(self).operation,
            final(self).inner.remaining() == old(self).inner.remaining().skip(
                pull_count(
                    old(self).inner.remaining(),
                    component_rule(old(self).component@, old(self).operation),
                ) as int,
            ),
            r is None ==> final(self).inner.remaining().len() == 0,
            old(self).remaining().len() == 0 ==> r is None && final(self).remaining() == old(
                self,
            ).remaining(),
            old(self).remaining().len() > 0 ==> (r matches Some(i) && i@ == old(
                self,
            ).remaining()[0]) && final(self).remaining() == old(self).remaining().drop_first(),
    {
        let ghost start = self.remaining();
        let ghost up0 = self.inner.remaining();
        let ghost rule = component_rule(self.component@, self.operation);
        let ghost mut n: int = 0;
        loop
            invariant
                self.component == old(self).component,
                self.operation == old(self).operation,
                rule == component_rule(self.component@, self.operation),
                up0 == old(self).inner.remaining(),
                0 <= n <= up0.len(),
                self.inner.remaining() == up0.skip(n),
                pull_count(up0, rule) == n + pull_count(self.inner.remaining(), rule),
                self.remaining() == start,
                start == old(self).remaining(),
            decreases self.inner.remaining().len(),
        {
            let ghost up = self.inner.remaining();
            match self.inner.next_item() {
                None => {
                    return None;
                },
                Some(item) => {
                    assert(up.drop_first() == self.inner.remaining());
                    proof {
                        assert(up0.skip(n + 1) =~= up.drop_first());
                        n = n + 1;
                    }
                    if self.passes(&item) {
                        return Some(item);
                    }
                },
            }
        }
    }

    fn passes(&self, item: &Item) -> (r: bool)
        ensures
            r == passes_component(item@, self.component@, self.operation),
    {
        passes_component_filter(item, &self.component, self.operation)
    }
}

/// Whether a component filter with `component` and `operation` lets `item`
/// through.
pub fn passes_component_filter(
    item: &Item,
    component: &Vec<u8>,
    operation: ComponentFilterOperationType,
) -> (r: bool)
    ensures
        r == passes_component(item@, component@, operation),
{
    match item.subject() {
        None => true,
        Some(p) => {
            let found = p.has_component(component);
            match operation {
                ComponentFilterOperationType::Include => found,
                ComponentFilterOperationType::Exclude => !found,
            }
        },
    }
}

impl<I: ItemSource> ItemSource for ComponentFilter<I> {
    open spec fn remaining(&self) -> Seq<ItemView> {
        component_kept(self.inner.remaining(), self.component@, self.operation)
    }

    fn next_item(&mut self) -> (r: Option<Item>) {
        self.pull()
    }
}

/// The failure items of `s`, in order.
pub open spec fn failures(s: Seq<ItemView>) -> Seq<ItemView> {
    kept(s, KeepRule::Failures)
}

/// The successful items of `s`, in order.
pub open spec fn successes(s: Seq<ItemView>) -> Seq<ItemView> {
    kept(s, KeepRule::Successes)
}

/// An Include filter and an Exclude filter on the same upstream and component
/// split its successful items in two: the Include side keeps, in order, the
/// successes whose path holds the component, the Exclude side the others; no
/// item is let through by both, and together they let through each item as
/// often as the upstream holds it. Both let through the upstream's failure
/// items, in the same order.
pub proof fn lemma_include_exclude_partition(s: Seq<ItemView>, name: Seq<u8>, x: ItemView)
    ensures
        ({
            let inc = component_kept(s, name, ComponentFilterOperationType::Include);
            let exc = component_kept(s, name, ComponentFilterOperationType::Exclude);
            &&& successes(inc) == kept(successes(s), KeepRule::Component(name, true))
            &&& successes(exc) == kept(successes(s), KeepRule::Component(name, false))
            &&& occurrences(successes(inc), x) == 0 || occurrences(successes(exc), x) == 0
            &&& occurrences(successes(inc), x) + occurrences(successes(exc), x) == occurrences(
                successes(s),
                x,
            )
            &&& failures(inc) == failures(s)
            &&& failures(exc) == failures(s)
        }),
{
    let inc = component_kept(s, name, ComponentFilterOperationType::Include);
    let exc = component_kept(s, name, ComponentFilterOperationType::Exclude);
    lemma_partition_counts(s, name, x);
    lemma_partition_failures(s, name);
    lemma_kept_commute(s, KeepRule::Component(name, true), KeepRule::Successes);
    lemma_kept_commute(s, KeepRule::Component(name, false), KeepRule::Successes);
    if occurrences(successes(inc), x) > 0 && occurrences(successes(exc), x) > 0 {
        lemma_kept_occurrence(inc, KeepRule::Successes, x);
        lemma_kept_occurrence(s, component_rule(name, ComponentFilterOperationType::Include), x);
        lemma_kept_occurrence(exc, KeepRule::Successes, x);
        lemma_kept_occurrence(s, component_rule(name, ComponentFilterOperationType::Exclude), x);
    }
}

proof fn lemma_partition_counts(s: Seq<ItemView>, name: Seq<u8>, x: ItemView)
    ensures
        occurrences(
            successes(component_kept(s, name, ComponentFilterOperationType::Include)),
            x,
        ) + occurrences(
            successes(component_kept(s, name, ComponentFilterOperationType::Exclude)),
            x,
        ) == occurrences(successes(s), x),
    decreases s.len(),
{
    if s.len() > 0 {
        let t = s.drop_first();
        let h = s[0];
        lemma_partition_counts(t, name, x);
        let inc = component_kept(s, name, ComponentFilterOperationType::Include);
        let exc = component_kept(s, name, ComponentFilterOperationType::Exclude);
        let inc_t = component_kept(t, name, ComponentFilterOperationType::Include);
        let exc_t = component_kept(t, name, ComponentFilterOperationType::Exclude);
        if subject_of(h) is Some {
            assert(successes(s).drop_first() =~= successes(t));
            if passes_component(h, name, ComponentFilterOperationType::Include) {
                assert(inc.drop_first() =~= inc_t);
                assert(successes(inc).drop_first() =~= successes(inc_t));
                assert(exc == exc_t);
            } else {
                assert(exc.drop_first() =~= exc_t);
                assert(successes(exc).drop_first() =~= successes(exc_t));
                assert(inc == inc_t);
            }
        } else {
            assert(inc.drop_first() =~= inc_t);
            assert(exc.drop_first() =~= exc_t);
        }
    }
}

proof fn lemma_partition_failures(s: Seq<ItemView>, name: Seq<u8>)
    ensures
        failures(component_kept(s, name, ComponentFilterOperationType::Include)) == failures(s),
        failures(component_kept(s, name, ComponentFilterOperationType::Exclude)) == failures(s),
    decreases s.len(),
{
    if s.len() > 0 {
        let t = s.drop_first();
        let h = s[0];
        lemma_partition_failures(t, name);
        let inc = component_kept(s, name, ComponentFilterOperationType::Include);
        let exc = component_kept(s, name, ComponentFilterOperationType::Exclude);
        let inc_t = component_kept(t, name, ComponentFilterOperationType::Include);
        let exc_t = component_kept(t, name, ComponentFilterOperationType::Exclude);
        if subject_of(h) is None {
            assert(inc.drop_first() =~= inc_t);
            assert(exc.drop_first() =~= exc_t);
            assert(failures(s).drop_first() =~= failures(t));
            assert(failures(inc).drop_first() =~= failures(inc_t));
            assert(failures(exc).drop_first() =~= failures(exc_t));
        } else {
            if passes_component(h, name, ComponentFilterOperationType::Include) {
                assert(inc.drop_first() =~= inc_t);
                assert(exc == exc_t);
            } else {
                assert(exc.drop_first() =~= exc_t);
                assert(inc == inc_t);
            }
        }
    }
}

} // verus!
