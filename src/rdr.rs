//! The recursive traversal engine.
//!
//! The engine decides; its driver reads. Each pull, the driver calls
//! [`ReadDirRecursive::begin_pull`] and then feeds [`ReadDirRecursive::step`]
//! with what the directory read handle reported, until a step yields an item or
//! finishes. Subdirectories wait on an explicit stack, so the depth of the
//! tree never becomes call depth. Sibling order is whatever the read handle
//! gives; subdirectories are entered last-discovered first.
use vstd::prelude::*;
use crate::errlog::{ErrorLog, LogView, log_record};
use crate::item::{DirEntry, ErrorView, TraversalError, TraversalErrorKind};
use crate::path::{ComponentView, FsPath};

verus! {

/// Running counters of a traversal.
#[derive(Debug, Clone, Copy, PartialEq, Eq, Structural)]
pub struct TraversalStats {
    /// Number of pulls so far.
    pub total_iterations: u64,
    /// Number of file entries yielded.
    pub total_files_consumed: u64,
    /// Number of directories discovered.
    pub total_dirs_consumed: u64,
    /// Largest number of directories that were awaiting descent at once.
    pub max_pending: usize,
    /// Time of the first pull, in the driver's clock.
    pub started_at: Option<u64>,
}

/// One more, stopping at the largest value.
pub open spec fn bumped(x: u64) -> u64 {
    if x < u64::MAX {
        (x + 1) as u64
    } else {
        x
    }
}

fn bump(x: u64) -> (r: u64)
    ensures
        r == bumped(x),
{
    if x < u64::MAX {
        x + 1
    } else {
        x
    }
}

/// What the driver reports to the engine.
#[derive(Debug)]
pub enum DirEvent {
    /// The handle gave an entry whose metadata says it is not a directory.
    File(DirEntry),
    /// The handle gave an entry whose metadata says it is a directory.
    Directory(DirEntry),
    /// The handle gave an entry whose metadata could not be read.
    MetadataFailed(DirEntry, String),
    /// The handle reported a failure instead of an entry.
    ReadFailed(String),
    /// The handle has no more entries.
    Exhausted,
    /// The directory that the engine asked to open was opened.
    Opened,
    /// The directory that the engine asked to open could not be opened.
    OpenFailed(String),
}

/// Mathematical view of a [`DirEvent`].
pub enum EventView {
    File(Seq<ComponentView>),
    Directory(Seq<ComponentView>),
    MetadataFailed(Seq<ComponentView>, Seq<char>),
    ReadFailed(Seq<char>),
    Exhausted,
    Opened,
    OpenFailed(Seq<char>),
}

impl View for DirEvent {
    type V = EventView;

    open spec fn view(&self) -> EventView {
        match self {
            DirEvent::File(e) => EventView::File(e@),
            DirEvent::Directory(e) => EventView::Directory(e@),
            DirEvent::MetadataFailed(e, m) => EventView::MetadataFailed(e@, m@),
            DirEvent::ReadFailed(m) => EventView::ReadFailed(m@),
            DirEvent::Exhausted => EventView::Exhausted,
            DirEvent::Opened => EventView::Opened,
            DirEvent::OpenFailed(m) => EventView::OpenFailed(m@),
        }
    }
}

/// What the engine asks of the driver next.
#[derive(Debug)]
pub enum Step {
    /// Read the next entry of the active handle.
    ReadNext,
    /// Open this directory as the new active handle and report the outcome.
    Open(FsPath),
    /// Hand this item to the consumer; the pull is over.
    Yield(Result<DirEntry, TraversalError>),
    /// The traversal is over.
    Finished,
}

/// Mathematical view of a [`Step`].
pub enum StepView {
    ReadNext,
    Open(Seq<ComponentView>),
    Yield(Result<Seq<ComponentView>, ErrorView>),
    Finished,
}

impl View for Step {
    type V = StepView;

    open spec fn view(&self) -> StepView {
        match self {
            Step::ReadNext => StepView::ReadNext,
            Step::Open(p) => StepView::Open(p@),
            Step::Yield(Ok(e)) => StepView::Yield(Ok(e@)),
            Step::Yield(Err(e)) => StepView::Yield(Err(e@)),
            Step::Finished => StepView::Finished,
        }
    }
}

/// Failure to open the root directory: the traversal cannot start.
#[derive(Debug, Clone, PartialEq, Eq)]
pub struct RootOpenError {
    pub message: String,
    pub path: FsPath,
}

/// The state of a depth-first traversal of a directory tree.
#[derive(Debug)]
pub struct ReadDirRecursive {
    /// Directory of the active read handle.
    pub current_dir: FsPath,
    /// Directories discovered and not yet entered; the last is entered next.
    pub pending_dirs: Vec<DirEntry>,
    pub stats: TraversalStats,
    /// Metadata failures, logged against the entry's own path.
    pub metadata_errors: ErrorLog,
    /// Read and open failures, logged against the directory being read.
    pub read_errors: ErrorLog,
}

/// Mathematical view of a [`ReadDirRecursive`].
pub struct TraversalView {
    pub current_dir: Seq<ComponentView>,
    pub pending: Seq<Seq<ComponentView>>,
    pub stats: TraversalStats,
    pub metadata_errors: LogView,
    pub read_errors: LogView,
}

pub open spec fn entries_view(es: Seq<DirEntry>) -> Seq<Seq<ComponentView>> {
    es.map_values(|e: DirEntry| e@)
}

impl View for ReadDirRecursive {
    type V = TraversalView;

    open spec fn view(&self) -> TraversalView {
        TraversalView {
            current_dir: self.current_dir@,
            pending: entries_view(self.pending_dirs@),
            stats: self.stats,
            metadata_errors: self.metadata_errors@,
            read_errors: self.read_errors@,
        }
    }
}

/// The high-water mark covers the directories now waiting, and counts no more
/// than were ever discovered.
pub open spec fn traversal_wf(v: TraversalView) -> bool {
    v.pending.len() <= v.stats.max_pending && v.stats.max_pending <= v.stats.total_dirs_consumed
}

/// The engine's decision on one event: the state after it and the step asked
/// of the driver.
pub open spec fn step_spec(v: TraversalView, ev: EventView) -> (TraversalView, StepView) {
    match ev {
        EventView::File(p) => (
            TraversalView {
                stats: TraversalStats {
                    total_files_consumed: bumped(v.stats.total_files_consumed),
                    ..v.stats
                },
                ..v
            },
            StepView::Yield(Ok(p)),
        ),
        EventView::Directory(p) => {
            let pending = v.pending.push(p);
            (
                TraversalView {
                    pending,
                    stats: TraversalStats {
                        total_dirs_consumed: bumped(v.stats.total_dirs_consumed),
                        max_pending: if pending.len() > v.stats.max_pending {
                            pending.len() as usize
                        } else {
                            v.stats.max_pending
                        },
                        ..v.stats
                    },
                    ..v
                },
                StepView::ReadNext,
            )
        },
        EventView::MetadataFailed(p, m) => (
            TraversalView { metadata_errors: log_record(v.metadata_errors, m, p), ..v },
            StepView::Yield(
                Err(ErrorView { kind: TraversalErrorKind::MetadataQuery, message: m, path: p }),
            ),
        ),
        EventView::ReadFailed(m) => (
            TraversalView { read_errors: log_record(v.read_errors, m, v.current_dir), ..v },
            StepView::Yield(
                Err(
                    ErrorView {
                        kind: TraversalErrorKind::EntryRead,
                        message: m,
                        path: v.current_dir,
                    },
                ),
            ),
        ),
        EventView::Exhausted => if v.pending.len() == 0 {
            (v, StepView::Finished)
        } else {
            let next = v.pending.last();
            (
                TraversalView { current_dir: next, pending: v.pending.drop_last(), ..v },
                StepView::Open(next),
            )
        },
        EventView::Opened => (v, StepView::ReadNext),
        EventView::OpenFailed(m) => (
            TraversalView { read_errors: log_record(v.read_errors, m, v.current_dir), ..v },
            StepView::Yield(
                Err(
                    ErrorView {
                        kind: TraversalErrorKind::SubdirectoryOpen,
                        message: m,
                        path: v.current_dir,
                    },
                ),
            ),
        ),
    }
}

/// The state and the steps after feeding `evs` one by one from state `v`.
pub open spec fn run(v: TraversalView, evs: Seq<EventView>) -> (TraversalView, Seq<StepView>)
    decreases evs.len(),
{
    if evs.len() == 0 {
        (v, Seq::empty())
    } else {
        let first = step_spec(v, evs[0]);
        let rest = run(first.0, evs.drop_first());
        (rest.0, seq![first.1] + rest.1)
    }
}

/// Number of entries in `evs` whose metadata succeeded and says non-directory.
pub open spec fn count_file_events(evs: Seq<EventView>) -> nat
    decreases evs.len(),
{
    if evs.len() == 0 {
        0
    } else {
        (if evs[0] is File {
            1nat
        } else {
            0nat
        }) + count_file_events(evs.drop_first())
    }
}

/// Number of entries in `evs` whose metadata succeeded and says directory.
pub open spec fn count_dir_events(evs: Seq<EventView>) -> nat
    decreases evs.len(),
{
    if evs.len() == 0 {
        0
    } else {
        (if evs[0] is Directory {
            1nat
        } else {
            0nat
        }) + count_dir_events(evs.drop_first())
    }
}

/// Number of successful items yielded among `steps`.
pub open spec fn count_ok_yields(steps: Seq<StepView>) -> nat
    decreases steps.len(),
{
    if steps.len() == 0 {
        0
    } else {
        (if steps[0] matches StepView::Yield(Ok(_)) {
            1nat
        } else {
            0nat
        }) + count_ok_yields(steps.drop_first())
    }
}

/// Each event keeps the high-water mark between the waiting and the
/// discovered directories.
pub proof fn lemma_step_wf(v: TraversalView, ev: EventView)
    requires
        traversal_wf(v),
        ev is Directory ==> v.pending.len() < usize::MAX,
    ensures
        traversal_wf(step_spec(v, ev).0),
{
}

/// Over any run, the successful items yielded are exactly the file entries
/// whose metadata succeeded, and the file counter grows by that number as long
/// as it stays below its largest value.
pub proof fn lemma_files_yielded(v: TraversalView, evs: Seq<EventView>)
    ensures
        count_ok_yields(run(v, evs).1) == count_file_events(evs),
        v.stats.total_files_consumed + count_file_events(evs) <= u64::MAX ==> run(
            v,
            evs,
        ).0.stats.total_files_consumed == v.stats.total_files_consumed + count_file_events(evs),
    decreases evs.len(),
{
    if evs.len() > 0 {
        let first = step_spec(v, evs[0]);
        lemma_files_yielded(first.0, evs.drop_first());
        let steps = run(v, evs).1;
        assert(steps.drop_first() =~= run(first.0, evs.drop_first()).1);
    }
}

/// Over any run from a well-formed state, the directory counter grows by the
/// number of directory entries whose metadata succeeded (while below its
/// largest value), and the high-water mark stays between the directories
/// waiting and the directories discovered. The run may not discover more
/// directories than a vector can hold.
pub proof fn lemma_dirs_counted(v: TraversalView, evs: Seq<EventView>)
    requires
        traversal_wf(v),
        v.pending.len() + count_dir_events(evs) < usize::MAX,
    ensures
        traversal_wf(run(v, evs).0),
        v.stats.total_dirs_consumed + count_dir_events(evs) <= u64::MAX ==> run(
            v,
            evs,
        ).0.stats.total_dirs_consumed == v.stats.total_dirs_consumed + count_dir_events(evs),
    decreases evs.len(),
{
    if evs.len() > 0 {
        let first = step_spec(v, evs[0]);
        lemma_step_wf(v, evs[0]);
        assert(first.0.pending.len() <= v.pending.len() + (if evs[0] is Directory {
            1int
        } else {
            0int
        }));
        lemma_dirs_counted(first.0, evs.drop_first());
    }
}

/// The largest number of directories waiting, over the states that feeding
/// `evs` from `v` passes through, `v` included.
pub open spec fn peak_pending(v: TraversalView, evs: Seq<EventView>) -> nat
    decreases evs.len(),
{
    if evs.len() == 0 {
        v.pending.len()
    } else {
        let rest = peak_pending(step_spec(v, evs[0]).0, evs.drop_first());
        if v.pending.len() >= rest {
            v.pending.len()
        } else {
            rest
        }
    }
}

/// Over any run from a well-formed state, the high-water mark ends as the
/// larger of its start value and the most directories waiting at once during
/// the run. The run may not discover more directories than a vector can hold.
pub proof fn lemma_high_water_mark(v: TraversalView, evs: Seq<EventView>)
    requires
        traversal_wf(v),
        v.pending.len() + count_dir_events(evs) < usize::MAX,
    ensures
        run(v, evs).0.stats.max_pending == if v.stats.max_pending >= peak_pending(v, evs) {
            v.stats.max_pending as nat
        } else {
            peak_pending(v, evs)
        },
    decreases evs.len(),
{
    if evs.len() > 0 {
        let first = step_spec(v, evs[0]);
        lemma_step_wf(v, evs[0]);
        assert(first.0.pending.len() <= v.pending.len() + (if evs[0] is Directory {
            1int
        } else {
            0int
        }));
        lemma_high_water_mark(first.0, evs.drop_first());
        lemma_peak_covers_start(first.0, evs.drop_first());
    }
}

proof fn lemma_peak_covers_start(v: TraversalView, evs: Seq<EventView>)
    ensures
        peak_pending(v, evs) >= v.pending.len(),
{
}

impl ReadDirRecursive {
    /// Starts a traversal at `root`, given the outcome of opening it: a root
    /// that could not be opened is fatal and no state is produced.
    pub fn new(root: FsPath, root_opened: Result<(), String>) -> (r: Result<
        ReadDirRecursive,
        RootOpenError,
    >)
        ensures
            r is Err <==> root_opened is Err,
            r matches Err(e) ==> e.path@ == root@ && (root_opened matches Err(m) && e.message@
                == m@),
            r matches Ok(t) ==> t@.current_dir == root@ && t@.pending.len() == 0 && t.stats
                == (TraversalStats {
                total_iterations: 0,
                total_files_consumed: 0,
                total_dirs_consumed: 0,
                max_pending: 0,
                started_at: None,
            }) && t@.metadata_errors.len() == 0 && t@.read_errors.len() == 0,
            r matches Ok(t) ==> traversal_wf(t@),
    {
        match root_opened {
            Err(message) => Err(RootOpenError { message, path: root }),
            Ok(()) => {
                let r = ReadDirRecursive {
                    current_dir: root,
                    pending_dirs: Vec::new(),
                    stats: TraversalStats {
                        total_iterations: 0,
                        total_files_consumed: 0,
                        total_dirs_consumed: 0,
                        max_pending: 0,
                        started_at: None,
                    },
                    metadata_errors: ErrorLog::new(),
                    read_errors: ErrorLog::new(),
                };
                assert(r@.pending =~= Seq::<Seq<ComponentView>>::empty());
                Ok(r)
            },
        }
    }

    /// Marks the start of a pull: counts it, and on the first pull records
    /// `now` as the start time.
    pub fn begin_pull(&mut self, now: u64)
        ensures
            final(self)@ == (TraversalView {
                stats: TraversalStats {
                    total_iterations: bumped(old(self).stats.total_iterations),
                    started_at: if old(self).stats.started_at is None {
                        Some(now)
                    } else {
                        old(self).stats.started_at
                    },
                    ..old(self).stats
                },
                ..old(self)@
            }),
    {
        self.stats.total_iterations = bump(self.stats.total_iterations);
        if self.stats.started_at.is_none() {
            self.stats.started_at = Some(now);
        }
    }

    /// Takes one event from the driver and decides what comes next.
    pub fn step(&mut self, ev: DirEvent) -> (r: Step)
        requires
            traversal_wf(old(self)@),
        ensures
            (final(self)@, r@) == step_spec(old(self)@, ev@),
            traversal_wf(final(self)@),
    {
        match ev {
            DirEvent::File(e) => {
                self.stats.total_files_consumed = bump(self.stats.total_files_consumed);
                Step::Yield(Ok(e))
            },
            DirEvent::Directory(e) => {
                let ghost before = self.pending_dirs@;
                self.pending_dirs.push(e);
                assert(entries_view(self.pending_dirs@) =~= entries_view(before).push(e@));
                self.stats.total_dirs_consumed = bump(self.stats.total_dirs_consumed);
                if self.pending_dirs.len() > self.stats.max_pending {
                    self.stats.max_pending = self.pending_dirs.len();
                }
                Step::ReadNext
            },
            DirEvent::MetadataFailed(e, message) => {
                let path = e.path();
                let logged = e.path;
                let m2 = copy_string(&message);
                self.metadata_errors.record(m2, logged);
                Step::Yield(
                    Err(TraversalError { kind: TraversalErrorKind::MetadataQuery, message, path }),
                )
            },
            DirEvent::ReadFailed(message) => {
                let m2 = copy_string(&message);
                self.read_errors.record(m2, self.current_dir.duplicate());
                Step::Yield(
                    Err(
                        TraversalError {
                            kind: TraversalErrorKind::EntryRead,
                            message,
                            path: self.current_dir.duplicate(),
                        },
                    ),
                )
            },
            DirEvent::Exhausted => {
                let ghost before = self.pending_dirs@;
                match self.pending_dirs.pop() {
                    None => Step::Finished,
                    Some(e) => {
                        assert(before == self.pending_dirs@.push(e));
                        assert(entries_view(self.pending_dirs@) =~= entries_view(before).drop_last());
                        self.current_dir = e.path();
                        Step::Open(e.path)
                    },
                }
            },
            DirEvent::Opened => Step::ReadNext,
            DirEvent::OpenFailed(message) => {
                let m2 = copy_string(&message);
                self.read_errors.record(m2, self.current_dir.duplicate());
                Step::Yield(
                    Err(
                        TraversalError {
                            kind: TraversalErrorKind::SubdirectoryOpen,
                            message,
                            path: self.current_dir.duplicate(),
                        },
                    ),
                )
            },
        }
    }
}

/// Copy of a string.
fn copy_string(s: &String) -> (r: String)
    ensures
        r@ == s@,
{
    s.clone()
}

/// Starts a traversal at `root`; the same as [`ReadDirRecursive::new`].
pub fn read_dir_recursive(root: FsPath, root_opened: Result<(), String>) -> (r: Result<
    ReadDirRecursive,
    RootOpenError,
>)
    ensures
        r is Err <==> root_opened is Err,
        r matches Err(e) ==> e.path@ == root@ && (root_opened matches Err(m) && e.message@ == m@),
        r matches Ok(t) ==> t@.current_dir == root@ && t@.pending.len() == 0 && t.stats == (
        TraversalStats {
            total_iterations: 0,
            total_files_consumed: 0,
            total_dirs_consumed: 0,
            max_pending: 0,
            started_at: None,
        }) && t@.metadata_errors.len() == 0 && t@.read_errors.len() == 0,
        r matches Ok(t) ==> traversal_wf(t@),
{
    ReadDirRecursive::new(root, root_opened)
}

} // verus!
