//! The trace store: per-source-path ordered sequences of line coverage
//! facts, with deterministic (lexicographic) path ordering.

use vstd::prelude::*;
use crate::strutil::{lex_lt, str_lt, str_eq, lemma_lex_lt_trichotomy, lemma_lex_lt_transitive};

verus! {

/// One line-level coverage fact: a 1-based line number, an optional
/// instrumentation address, and the observed execution count.
#[derive(Clone, Copy, Debug)]
pub struct Trace {
    pub line: u64,
    pub address: Option<u64>,
    pub hits: u64,
}

/// The mathematical value of one store entry: a path and its facts.
pub ghost struct FileEntryV {
    pub path: Seq<char>,
    pub traces: Seq<Trace>,
}

/// One store entry: a canonical source path and its ordered trace facts.
#[derive(Debug)]
pub struct FileTraces {
    pub path: String,
    pub traces: Vec<Trace>,
}

/// The trace store: entries kept sorted by path so that iteration order,
/// and hence every report built from the store, is deterministic.
#[derive(Debug)]
pub struct TraceMap {
    pub entries: Vec<FileTraces>,
}

/// A trace list is well formed when line numbers are 1-based and strictly
/// increasing (so each line occurs at most once).
pub open spec fn traces_wf(ts: Seq<Trace>) -> bool {
    &&& forall|i: int| 0 <= i < ts.len() ==> #[trigger] ts[i].line >= 1
    &&& forall|i: int, j: int| 0 <= i < j < ts.len() ==> #[trigger] ts[i].line < #[trigger] ts[j].line
}

/// How many of the facts were observed to execute at least once.
pub open spec fn covered_of(ts: Seq<Trace>) -> int
    decreases ts.len(),
{
    if ts.len() == 0 {
        0
    } else {
        covered_of(ts.drop_last()) + if ts.last().hits > 0 { 1int } else { 0int }
    }
}

/// The covered count never exceeds the coverable count.
pub proof fn lemma_covered_of_bounds(ts: Seq<Trace>)
    ensures
        0 <= covered_of(ts) <= ts.len(),
    decreases ts.len(),
{
    if ts.len() > 0 {
        lemma_covered_of_bounds(ts.drop_last());
    }
}

impl View for TraceMap {
    type V = Seq<FileEntryV>;

    open spec fn view(&self) -> Seq<FileEntryV> {
        self.entries@.map_values(
            |ft: FileTraces| FileEntryV { path: ft.path@, traces: ft.traces@ },
        )
    }
}

impl TraceMap {
    /// Entries are strictly sorted by path (hence paths are unique) and
    /// every trace list is well formed.
    pub open spec fn wf(&self) -> bool {
        &&& forall|i: int, j: int|
            0 <= i < j < self@.len() ==> lex_lt(#[trigger] self@[i].path, #[trigger] self@[j].path)
        &&& forall|i: int| 0 <= i < self@.len() ==> traces_wf(#[trigger] self@[i].traces)
    }

    /// Whether some entry of the store has this path.
    pub open spec fn contains_path_spec(&self, p: Seq<char>) -> bool {
        exists|i: int| 0 <= i < self@.len() && (#[trigger] self@[i].path) == p
    }

    /// In a well-formed store, no two entries share a path.
    pub proof fn lemma_paths_unique(&self, i: int, j: int)
        requires
            self.wf(),
            0 <= i < self@.len(),
            0 <= j < self@.len(),
            i != j,
        ensures
            self@[i].path != self@[j].path,
    {
        if i < j {
            lemma_lex_lt_trichotomy(self@[i].path, self@[j].path);
        } else {
            lemma_lex_lt_trichotomy(self@[j].path, self@[i].path);
        }
    }

    /// An empty store.
    pub fn new() -> (r: TraceMap)
        ensures
            r@ == Seq::<FileEntryV>::empty(),
            r.wf(),
    {
        let r = TraceMap { entries: Vec::new() };
        proof {
            assert(r@ =~= Seq::<FileEntryV>::empty());
        }
        r
    }

    /// How many source paths the store holds.
    pub fn len(&self) -> (r: usize)
        ensures
            r == self@.len(),
    {
        self.entries.len()
    }

    /// The path of the entry at `i`.
    pub fn path_at(&self, i: usize) -> (r: &String)
        requires
            i < self@.len(),
        ensures
            r@ == self@[i as int].path,
    {
        &self.entries[i].path
    }

    /// The trace list of the entry at `i`.
    pub fn traces_at(&self, i: usize) -> (r: &Vec<Trace>)
        requires
            i < self@.len(),
        ensures
            r@ == self@[i as int].traces,
    {
        &self.entries[i].traces
    }

    /// How many facts of the entry at `i` were hit at least once.
    pub fn covered_at(&self, i: usize) -> (r: usize)
        requires
            i < self@.len(),
        ensures
            r == covered_of(self@[i as int].traces),
    {
        let ts = &self.entries[i].traces;
        let n: usize = ts.len();
        let mut count: usize = 0;
        let mut k: usize = 0;
        proof {
            assert(ts@.take(0) =~= Seq::<Trace>::empty());
        }
        while k < n
            invariant
                k <= n,
                n == ts@.len(),
                ts@ == self@[i as int].traces,
                count == covered_of(ts@.take(k as int)),
                count <= k,
            decreases n - k,
        {
            proof {
                assert(ts@.take(k + 1).drop_last() =~= ts@.take(k as int));
                assert(ts@.take(k + 1).last() == ts@[k as int]);
            }
            if ts[k].hits > 0 {
                count = count + 1;
            }
            k = k + 1;
        }
        proof {
            assert(ts@.take(n as int) =~= ts@);
        }
        count
    }

    /// How many facts the entry at `i` holds (its coverable count).
    pub fn coverable_at(&self, i: usize) -> (r: usize)
        requires
            i < self@.len(),
        ensures
            r == self@[i as int].traces.len(),
    {
        self.entries[i].traces.len()
    }

    /// The covered count for a path: the number of its facts that were hit
    /// at least once, or zero when the path is absent.
    pub fn covered_in_path(&self, p: &str) -> (r: usize)
        requires
            self.wf(),
        ensures
            forall|i: int|
                0 <= i < self@.len() && (#[trigger] self@[i].path) == p@
                    ==> r == covered_of(self@[i].traces),
            !self.contains_path_spec(p@) ==> r == 0,
    {
        let n: usize = self.entries.len();
        let mut k: usize = 0;
        while k < n
            invariant
                self.wf(),
                k <= n,
                n == self@.len(),
                forall|i: int| 0 <= i < k ==> (#[trigger] self@[i].path) != p@,
            decreases n - k,
        {
            if str_eq(self.entries[k].path.as_str(), p) {
                let r = self.covered_at(k);
                proof {
                    assert(self@[k as int].path == p@);
                    assert(self.contains_path_spec(p@));
                    assert forall|i: int|
                        0 <= i < self@.len() && (#[trigger] self@[i].path) == p@
                            implies r == covered_of(self@[i].traces) by {
                        if i != k {
                            self.lemma_paths_unique(i, k as int);
                        }
                    }
                }
                return r;
            }
            k = k + 1;
        }
        0
    }

    /// The coverable count for a path: the length of its trace list, or
    /// zero when the path is absent.
    pub fn coverable_in_path(&self, p: &str) -> (r: usize)
        requires
            self.wf(),
        ensures
            forall|i: int|
                0 <= i < self@.len() && (#[trigger] self@[i].path) == p@
                    ==> r == self@[i].traces.len(),
            !self.contains_path_spec(p@) ==> r == 0,
    {
        let n: usize = self.entries.len();
        let mut k: usize = 0;
        while k < n
            invariant
                self.wf(),
                k <= n,
                n == self@.len(),
                forall|i: int| 0 <= i < k ==> (#[trigger] self@[i].path) != p@,
            decreases n - k,
        {
            if str_eq(self.entries[k].path.as_str(), p) {
                let r = self.coverable_at(k);
                proof {
                    assert(self@[k as int].path == p@);
                    assert(self.contains_path_spec(p@));
                    assert forall|i: int|
                        0 <= i < self@.len() && (#[trigger] self@[i].path) == p@
                            implies r == self@[i].traces.len() by {
                        if i != k {
                            self.lemma_paths_unique(i, k as int);
                        }
                    }
                }
                return r;
            }
            k = k + 1;
        }
        0
    }

    /// Records the trace list for a path, keeping the store sorted: a new
    /// path is inserted at its ordered position, a path already present
    /// has its trace list replaced.
    pub fn insert_file(&mut self, path: String, traces: Vec<Trace>)
        requires
            old(self).wf(),
            traces_wf(traces@),
        ensures
            final(self).wf(),
            old(self).contains_path_spec(path@) ==> exists|k: int|
                0 <= k < old(self)@.len() && old(self)@[k].path == path@
                    && final(self)@ == old(self)@.update(
                    k,
                    FileEntryV { path: path@, traces: traces@ },
                ),
            !old(self).contains_path_spec(path@) ==> exists|k: int|
                0 <= k <= old(self)@.len() && final(self)@ == old(self)@.insert(
                    k,
                    FileEntryV { path: path@, traces: traces@ },
                ),
    {
        let ghost entry = FileEntryV { path: path@, traces: traces@ };
        let n: usize = self.entries.len();
        let mut k: usize = 0;
        loop
            invariant
                k <= n,
                n == self@.len(),
                self == old(self),
                forall|i: int| 0 <= i < k ==> lex_lt(#[trigger] self@[i].path, path@),
            ensures
                k <= n,
                forall|i: int| 0 <= i < k ==> lex_lt(#[trigger] self@[i].path, path@),
                k < n ==> !lex_lt(self@[k as int].path, path@),
            decreases n - k,
        {
            if k >= n {
                break;
            }
            if !str_lt(self.entries[k].path.as_str(), path.as_str()) {
                break;
            }
            k = k + 1;
        }
        let ghost pre = self@;
        if k < n && str_eq(self.entries[k].path.as_str(), path.as_str()) {
            let ghost kk = k as int;
            self.entries.set(k, FileTraces { path, traces });
            proof {
                assert(self@ =~= pre.update(kk, entry));
                assert forall|i: int, j: int| 0 <= i < j < self@.len()
                    implies lex_lt(self@[i].path, self@[j].path) by {
                    assert(pre[kk].path == entry.path);
                }
                assert(0 <= kk < old(self)@.len() && old(self)@[kk].path == path@
                    && self@ == old(self)@.update(kk, FileEntryV { path: path@, traces: traces@ }));
                assert(exists|k2: int|
                    0 <= k2 < old(self)@.len() && old(self)@[k2].path == path@
                        && self@ == old(self)@.update(
                        k2,
                        FileEntryV { path: path@, traces: traces@ },
                    ));
            }
        } else {
            let ghost kk = k as int;
            proof {
                // No entry carries this path: those before k are strictly
                // smaller, those from k on are strictly larger.
                assert forall|j: int| kk <= j < pre.len()
                    implies lex_lt(entry.path, pre[j].path) by {
                    lemma_lex_lt_trichotomy(pre[kk].path, entry.path);
                    if pre[kk].path == entry.path {
                        assert(false);
                    }
                    if kk < j {
                        lemma_lex_lt_transitive(entry.path, pre[kk].path, pre[j].path);
                    }
                }
                assert forall|i: int| 0 <= i < pre.len() && pre[i].path == path@
                    implies false by {
                    lemma_lex_lt_trichotomy(pre[i].path, entry.path);
                }
            }
            self.entries.insert(k, FileTraces { path, traces });
            proof {
                assert(self@ =~= pre.insert(kk, entry));
                assert forall|i: int, j: int| 0 <= i < j < self@.len()
                    implies lex_lt(self@[i].path, self@[j].path) by {
                    if i < kk && j == kk {
                    } else if i == kk && j > kk {
                        assert(self@[j] == pre[j - 1]);
                    } else if i < kk && j > kk {
                        assert(self@[i] == pre[i]);
                        assert(self@[j] == pre[j - 1]);
                    } else if i > kk && j > kk {
                        assert(self@[i] == pre[i - 1]);
                        assert(self@[j] == pre[j - 1]);
                    }
                }
                assert(!old(self).contains_path_spec(path@));
                assert(0 <= kk <= old(self)@.len() && self@ == old(self)@.insert(
                    kk,
                    FileEntryV { path: path@, traces: traces@ },
                ));
                assert(exists|k2: int|
                    0 <= k2 <= old(self)@.len() && self@ == old(self)@.insert(
                        k2,
                        FileEntryV { path: path@, traces: traces@ },
                    ));
            }
        }
    }
}

} // verus!
