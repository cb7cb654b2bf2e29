//! The pruning traversal: finds directories whose path holds a given
//! component, and does not look inside them.
use vstd::prelude::*;
use crate::item::{DirEntry, ErrorView, TraversalError, TraversalErrorKind};
use crate::path::{ComponentView, FsPath, has_component_spec};
use crate::rdr::{DirEvent, EventView, RootOpenError, Step, StepView, entries_view};

verus! {

/// The state of a search for directories whose path holds `component`.
/// Matching directories are yielded and never entered; other directories are
/// entered, last-discovered first; files are passed over.
#[derive(Debug)]
pub struct FindDirsWithComponent {
    pub component: Vec<u8>,
    /// Directory of the active read handle.
    pub current_dir: FsPath,
    /// Directories discovered, not matching, and not yet entered.
    pub pending_dirs: Vec<DirEntry>,
}

/// Mathematical view of a [`FindDirsWithComponent`].
pub struct FindDirsView {
    pub component: Seq<u8>,
    pub current_dir: Seq<ComponentView>,
    pub pending: Seq<Seq<ComponentView>>,
}

impl View for FindDirsWithComponent {
    type V = FindDirsView;

    open spec fn view(&self) -> FindDirsView {
        FindDirsView {
            component: self.component@,
            current_dir: self.current_dir@,
            pending: entries_view(self.pending_dirs@),
        }
    }
}

/// The search's decision on one event.
pub open spec fn find_step_spec(v: FindDirsView, ev: EventView) -> (FindDirsView, StepView) {
    match ev {
        EventView::File(_) => (v, StepView::ReadNext),
        EventView::Directory(p) => if has_component_spec(p, v.component) {
            (v, StepView::Yield(Ok(p)))
        } else {
            (FindDirsView { pending: v.pending.push(p), ..v }, StepView::ReadNext)
        },
        EventView::MetadataFailed(p, m) => (
            v,
            StepView::Yield(
                Err(ErrorView { kind: TraversalErrorKind::MetadataQuery, message: m, path: p }),
            ),
        ),
        EventView::ReadFailed(m) => (
            v,
            StepView::Yield(
                Err(
                    ErrorView {
                        kind: TraversalErrorKind::EntryRead,
                        message: m,
                        path: v.current_dir,
                    },
                ),
            ),
        ),
        EventView::Exhausted => if v.pending.len() == 0 {
            (v, StepView::Finished)
        } else {
            let next = v.pending.last();
            (
                FindDirsView { current_dir: next, pending: v.pending.drop_last(), ..v },
                StepView::Open(next),
            )
        },
        EventView::Opened => (v, StepView::ReadNext),
        EventView::OpenFailed(m) => (
            v,
            StepView::Yield(
                Err(
                    ErrorView {
                        kind: TraversalErrorKind::SubdirectoryOpen,
                        message: m,
                        path: v.current_dir,
                    },
                ),
            ),
        ),
    }
}

impl FindDirsWithComponent {
    /// Starts a search at `root` for directories with the component
    /// `component`, given the outcome of opening `root`.
    pub fn new(root: FsPath, component: Vec<u8>, root_opened: Result<(), String>) -> (r: Result<
        FindDirsWithComponent,
        RootOpenError,
    >)
        ensures
            r is Err <==> root_opened is Err,
            r matches Err(e) ==> e.path@ == root@ && (root_opened matches Err(m) && e.message@
                == m@),
            r matches Ok(f) ==> f@.current_dir == root@ && f@.pending.len() == 0 && f@.component
                == component@,
    {
        match root_opened {
            Err(message) => Err(RootOpenError { message, path: root }),
            Ok(()) => {
                let r = FindDirsWithComponent {
                    component,
                    current_dir: root,
                    pending_dirs: Vec::new(),
                };
                assert(r@.pending =~= Seq::<Seq<ComponentView>>::empty());
                Ok(r)
            },
        }
    }

    /// Takes one event from the driver and decides what comes next.
    pub fn step(&mut self, ev: DirEvent) -> (r: Step)
        ensures
            (final(self)@, r@) == find_step_spec(old(self)@, ev@),
    {
        match ev {
            DirEvent::File(_) => Step::ReadNext,
            DirEvent::Directory(e) => {
                if e.path.has_component(&self.component) {
                    Step::Yield(Ok(e))
                } else {
                    let ghost before = self.pending_dirs@;
                    self.pending_dirs.push(e);
                    assert(entries_view(self.pending_dirs@) =~= entries_view(before).push(e@));
                    Step::ReadNext
                }
            },
            DirEvent::MetadataFailed(e, message) => Step::Yield(
                Err(TraversalError { kind: TraversalErrorKind::MetadataQuery, message, path: e.path }),
            ),
            DirEvent::ReadFailed(message) => Step::Yield(
                Err(
                    TraversalError {
                        kind: TraversalErrorKind::EntryRead,
                        message,
                        path: self.current_dir.duplicate(),
                    },
                ),
            ),
            DirEvent::Exhausted => {
                let ghost before = self.pending_dirs@;
                match self.pending_dirs.pop() {
                    None => Step::Finished,
                    Some(e) => {
                        assert(before == self.pending_dirs@.push(e));
                        assert(entries_view(self.pending_dirs@) =~= entries_view(before).drop_last());
                        self.current_dir = e.path();
                        Step::Open(e.path)
                    },
                }
            },
            DirEvent::Opened => Step::ReadNext,
            DirEvent::OpenFailed(message) => Step::Yield(
                Err(
                    TraversalError {
                        kind: TraversalErrorKind::SubdirectoryOpen,
                        message,
                        path: self.current_dir.duplicate(),
                    },
                ),
            ),
        }
    }
}

} // verus!
