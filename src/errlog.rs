//! Error logs: for each failure message, the paths at which it occurred, in
//! order of occurrence.
use vstd::prelude::*;
use crate::path::{ComponentView, FsPath};

verus! {

/// Views of a sequence of paths.
pub open spec fn paths_view(ps: Seq<FsPath>) -> Seq<Seq<ComponentView>> {
    ps.map_values(|p: FsPath| p@)
}

/// The paths recorded under one message.
#[derive(Debug, Clone, PartialEq, Eq)]
pub struct ErrorLogEntry {
    pub message: String,
    pub paths: Vec<FsPath>,
}

/// A view of a log: pairs of a message and the paths recorded under it.
pub type LogView = Seq<(Seq<char>, Seq<Seq<ComponentView>>)>;

/// Failure messages, each with the ordered list of paths where it occurred.
#[derive(Debug, Clone, PartialEq, Eq)]
pub struct ErrorLog {
    pub entries: Vec<ErrorLogEntry>,
}

pub open spec fn entry_view(e: ErrorLogEntry) -> (Seq<char>, Seq<Seq<ComponentView>>) {
    (e.message@, paths_view(e.paths@))
}

impl View for ErrorLog {
    type V = LogView;

    open spec fn view(&self) -> LogView {
        self.entries@.map_values(|e: ErrorLogEntry| entry_view(e))
    }
}

/// Index of the last pair of `log` whose message is `m`, or -1.
pub open spec fn find_message(log: LogView, m: Seq<char>) -> int
    decreases log.len(),
{
    if log.len() == 0 {
        -1
    } else if log.last().0 == m {
        log.len() - 1
    } else {
        find_message(log.drop_last(), m)
    }
}

/// `log` with `p` appended to the paths of message `m`; a message not yet in
/// the log starts a new pair.
pub open spec fn log_record(log: LogView, m: Seq<char>, p: Seq<ComponentView>) -> LogView {
    let i = find_message(log, m);
    if i >= 0 {
        log.update(i, (m, log[i].1.push(p)))
    } else {
        log.push((m, seq![p]))
    }
}

/// The paths recorded under message `m`, oldest first.
pub open spec fn log_paths(log: LogView, m: Seq<char>) -> Seq<Seq<ComponentView>> {
    let i = find_message(log, m);
    if i >= 0 {
        log[i].1
    } else {
        Seq::empty()
    }
}

proof fn lemma_find_message_bounds(log: LogView, m: Seq<char>)
    ensures
        -1 <= find_message(log, m) < log.len(),
        find_message(log, m) >= 0 ==> log[find_message(log, m)].0 == m,
    decreases log.len(),
{
    if log.len() > 0 && log.last().0 != m {
        lemma_find_message_bounds(log.drop_last(), m);
    }
}

proof fn lemma_find_message_update(log: LogView, i: int, m: Seq<char>, x: Seq<Seq<ComponentView>>, k: Seq<char>)
    requires
        0 <= i < log.len(),
        log[i].0 == m,
    ensures
        find_message(log.update(i, (m, x)), k) == find_message(log, k),
    decreases log.len(),
{
    let l2 = log.update(i, (m, x));
    if i < log.len() - 1 {
        if log.last().0 != k {
            assert(l2.drop_last() =~= log.drop_last().update(i, (m, x)));
            lemma_find_message_update(log.drop_last(), i, m, x, k);
        }
    } else {
        assert(l2.drop_last() =~= log.drop_last());
    }
}

proof fn lemma_find_message_push(log: LogView, m: Seq<char>, x: Seq<Seq<ComponentView>>, k: Seq<char>)
    requires
        k != m,
    ensures
        find_message(log.push((m, x)), k) == find_message(log, k),
{
    assert(log.push((m, x)).drop_last() =~= log);
}

/// Recording a path under a message adds it at the end of that message's
/// paths and leaves the paths of every other message as they were.
pub proof fn lemma_log_record_paths(log: LogView, m: Seq<char>, p: Seq<ComponentView>, k: Seq<char>)
    ensures
        log_paths(log_record(log, m, p), k) == if k == m {
            log_paths(log, m).push(p)
        } else {
            log_paths(log, k)
        },
{
    lemma_find_message_bounds(log, m);
    lemma_find_message_bounds(log, k);
    let i = find_message(log, m);
    if i >= 0 {
        lemma_find_message_update(log, i, m, log[i].1.push(p), k);
        if k == m {
        } else {
            let j = find_message(log, k);
            if j >= 0 {
                assert(j != i);
            }
        }
    } else {
        let l2 = log.push((m, seq![p]));
        if k == m {
            assert(find_message(l2, k) == log.len());
        } else {
            lemma_find_message_push(log, m, seq![p], k);
        }
    }
}

impl ErrorLog {
    /// An empty log.
    pub fn new() -> (r: ErrorLog)
        ensures
            r@ == Seq::<(Seq<char>, Seq<Seq<ComponentView>>)>::empty(),
    {
        let r = ErrorLog { entries: Vec::new() };
        assert(r@ =~= Seq::<(Seq<char>, Seq<Seq<ComponentView>>)>::empty());
        r
    }

    /// Records that the failure `message` occurred at `path`.
    pub fn record(&mut self, message: String, path: FsPath)
        ensures
            final(self)@ == log_record(old(self)@, message@, path@),
            forall|k: Seq<char>|
                #[trigger] log_paths(final(self)@, k) == if k == message@ {
                    log_paths(old(self)@, k).push(path@)
                } else {
                    log_paths(old(self)@, k)
                },
    {
        let ghost m = message@;
        let ghost p = path@;
        let ghost log0 = self@;
        proof {
            assert forall|k: Seq<char>|
                #[trigger] log_paths(log_record(log0, m, p), k) == if k == m {
                    log_paths(log0, k).push(p)
                } else {
                    log_paths(log0, k)
                } by {
                lemma_log_record_paths(log0, m, p, k);
            }
        }
        let mut k: usize = self.entries.len();
        assert(self@.subrange(0, k as int) =~= self@);
        while k > 0 && !(self.entries[k - 1].message == message)
            invariant
                k <= self.entries.len(),
                m == message@,
                find_message(self@, m) == find_message(self@.subrange(0, k as int), m),
            decreases k,
        {
            assert(self@.subrange(0, k - 1) =~= self@.subrange(0, k as int).drop_last());
            k = k - 1;
        }
        if k > 0 {
            assert(self@.subrange(0, k as int).last() == self@[k - 1]);
            assert(find_message(self@, m) == k - 1);
            let ghost before = self.entries@;
            let mut e = self.entries.remove(k - 1);
            let ghost old_paths = e.paths@;
            e.paths.push(path);
            assert(paths_view(e.paths@) =~= paths_view(old_paths).push(path@));
            self.entries.insert(k - 1, e);
            assert(self.entries@ == before.update(k - 1, e));
            assert(self@ =~= log_record(before.map_values(|e: ErrorLogEntry| entry_view(e)), m, path@));
        } else {
            assert(find_message(self@, m) == -1);
            let ghost before = self.entries@;
            let mut paths: Vec<FsPath> = Vec::new();
            paths.push(path);
            assert(paths_view(paths@) =~= seq![path@]);
            let e = ErrorLogEntry { message, paths };
            self.entries.push(e);
            assert(self@ =~= log_record(before.map_values(|e: ErrorLogEntry| entry_view(e)), m, path@));
        }
    }
}

} // verus!
