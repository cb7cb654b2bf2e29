//! Replacing the leading components of paths.
use vstd::prelude::*;
use crate::item::{Item, ItemSource, ItemView, subject_of};
use crate::path::{ComponentView, FsPath, StripPrefixError, join_spec, starts_with_spec, well_formed_spec};

verus! {

/// `path` with its prefix `find` replaced by `replace_by`, or `None` when
/// `path` does not begin with `find`.
pub open spec fn re_root_spec(
    path: Seq<ComponentView>,
    find: Seq<ComponentView>,
    replace_by: Seq<ComponentView>,
) -> Option<Seq<ComponentView>> {
    if starts_with_spec(path, find) {
        Some(join_spec(replace_by, path.skip(find.len() as int)))
    } else {
        None
    }
}

/// Replaces the prefix `find` of `path` by `replace_by`. Fails exactly when
/// `path` does not begin with the components of `find`.
pub fn path_re_root(path: &FsPath, find: &FsPath, replace_by: &FsPath) -> (r: Result<
    FsPath,
    StripPrefixError,
>)
    ensures
        r is Err <==> !starts_with_spec(path@, find@),
        r is Err <==> re_root_spec(path@, find@, replace_by@) is None,
        r matches Ok(p) ==> re_root_spec(path@, find@, replace_by@) == Some(p@),
{
    match path.strip_prefix(find) {
        Ok(rest) => Ok(replace_by.join(&rest)),
        Err(e) => Err(e),
    }
}

/// View of a re-root outcome: `None` for an item without a path, `Some(None)`
/// for a path without the prefix, `Some(Some(p))` for the rewritten path `p`.
pub open spec fn outcome_view(r: Option<Result<FsPath, StripPrefixError>>) -> Option<
    Option<Seq<ComponentView>>,
> {
    match r {
        None => None,
        Some(Ok(p)) => Some(Some(p@)),
        Some(Err(_)) => Some(None),
    }
}

/// What re-rooting makes of one item: nothing for a failure item, else the
/// outcome of re-rooting its path.
pub open spec fn item_outcome(
    v: ItemView,
    find: Seq<ComponentView>,
    replace_by: Seq<ComponentView>,
) -> Option<Option<Seq<ComponentView>>> {
    match subject_of(v) {
        None => None,
        Some(p) => Some(re_root_spec(p, find, replace_by)),
    }
}

/// Pairs each item of `inner` with the outcome of replacing the prefix
/// `strip_prefix` of its path by `replace_by`. A path without the prefix
/// gives an error for that item only; a failure item gets no outcome.
pub struct PathReRoot<I: ItemSource> {
    pub inner: I,
    pub strip_prefix: FsPath,
    pub replace_by: FsPath,
}

impl<I: ItemSource> PathReRoot<I> {
    /// A re-rooting adapter over `inner`.
    pub fn new(inner: I, strip_prefix: FsPath, replace_by: FsPath) -> (r: PathReRoot<I>)
        ensures
            r.inner == inner,
            r.strip_prefix == strip_prefix,
            r.replace_by == replace_by,
    {
        PathReRoot { inner, strip_prefix, replace_by }
    }

    /// The next item of `inner` with its re-root outcome, or `None` at its end.
    pub fn next(&mut self) -> (r: Option<(Item, Option<Result<FsPath, StripPrefixError>>)>)
        ensures
            final(self).strip_prefix == old(self).strip_prefix,
            final(self).replace_by == old(self).replace_by,
            old(self).inner.remaining().len() == 0 ==> r is None && final(self).inner.remaining()
                == old(self).inner.remaining(),
            old(self).inner.remaining().len() > 0 ==> (r matches Some((i, o)) && i@ == old(
                self,
            ).inner.remaining()[0] && outcome_view(o) == item_outcome(
                i@,
                old(self).strip_prefix@,
                old(self).replace_by@,
            )) && final(self).inner.remaining() == old(self).inner.remaining().drop_first(),
    {
        match self.inner.next_item() {
            None => None,
            Some(item) => {
                let outcome = match item.subject() {
                    None => None,
                    Some(p) => Some(path_re_root(p, &self.strip_prefix, &self.replace_by)),
                };
                Some((item, outcome))
            },
        }
    }
}

/// Re-rooting back undoes a successful re-root: from `path` with `strip`
/// replaced by `replace`, replacing `replace` by `strip` gives `path` again.
/// This holds except where `strip` is empty, `replace` is not, and `path`
/// starts at the root or at `.`: the first re-root then loses that start.
pub proof fn lemma_re_root_round_trip(
    path: Seq<ComponentView>,
    strip: Seq<ComponentView>,
    replace: Seq<ComponentView>,
)
    requires
        well_formed_spec(path),
        re_root_spec(path, strip, replace) is Some,
        !(strip.len() == 0 && replace.len() > 0 && path.len() > 0 && (path[0]
            == ComponentView::Root || path[0] == ComponentView::Current)),
    ensures
        re_root_spec(re_root_spec(path, strip, replace)->Some_0, replace, strip) == Some(path),
{
    let k = strip.len() as int;
    let rest = path.skip(k);
    let mid = join_spec(replace, rest);
    assert(path =~= strip + rest);
    if k > 0 {
        if rest.len() > 0 {
            assert(rest[0] == path[k]);
        }
        assert(mid == replace + rest);
        assert(mid.subrange(0, replace.len() as int) =~= replace);
        assert(mid.skip(replace.len() as int) =~= rest);
    } else {
        assert(rest =~= path);
        if path.len() > 0 && (path[0] == ComponentView::Root || path[0]
            == ComponentView::Current) {
            assert(replace.len() == 0);
            assert(mid == path);
            assert(mid.subrange(0, 0) =~= replace);
            assert(mid.skip(0) =~= path);
        } else {
            assert(mid == replace + path);
            assert(mid.subrange(0, replace.len() as int) =~= replace);
            assert(mid.skip(replace.len() as int) =~= path);
        }
    }
}

} // verus!
