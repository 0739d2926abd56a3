//! The append-only run history store: per-widget insertion-ordered run
//! records, with globally unique run ids that strictly increase in
//! assignment order.

use vstd::prelude::*;

use crate::widget::{BackendRun, RunId, RunView, WidgetId};

verus! {

/// A lookup failure of the run history store.
#[derive(Debug, PartialEq, Eq, Structural, Clone, Copy)]
pub enum DatabaseError {
    InvalidRunId,
    InvalidWidgetId,
    NoneAvailable,
}

/// One widget's recorded history, in insertion order.
#[derive(Debug)]
pub struct WidgetHistory {
    pub widget: WidgetId,
    pub runs: Vec<BackendRun>,
}

/// The in-memory run history store.  It creates a widget's history on first
/// insert and assigns every run the next value of a global counter.
#[derive(Debug)]
pub struct InMemoryDatabase {
    pub entries: Vec<WidgetHistory>,
    pub run_id_counter: usize,
}

/// `v` with its run id replaced by `id`, the shape of a record as the store
/// keeps it after assignment.
pub open spec fn with_id(v: RunView, id: RunId) -> RunView {
    RunView {
        id: id,
        widget: v.widget,
        initiated: v.initiated,
        started: v.started,
        ended: v.ended,
        log: v.log,
        result: v.result,
    }
}

impl InMemoryDatabase {
    /// Whether widget `w` has a history.
    pub open spec fn has_widget(self, w: Seq<char>) -> bool {
        exists|i: int| 0 <= i < self.entries@.len() && self.entries@[i].widget@ == w
    }

    /// The index of widget `w`'s history, meaningful when `has_widget(w)`.
    pub open spec fn widget_index(self, w: Seq<char>) -> int {
        choose|i: int| 0 <= i < self.entries@.len() && self.entries@[i].widget@ == w
    }

    /// The runs recorded for widget `w` in insertion order, meaningful when
    /// `has_widget(w)`.
    pub open spec fn runs_of(self, w: Seq<char>) -> Seq<RunView> {
        self.entries@[self.widget_index(w)].runs@.map_values(|r: BackendRun| r@)
    }

    /// The runs recorded for widget `w`, or the empty sequence when the
    /// widget has no history yet.
    pub open spec fn runs_or_empty(self, w: Seq<char>) -> Seq<RunView> {
        if self.has_widget(w) {
            self.runs_of(w)
        } else {
            Seq::empty()
        }
    }

    /// Whether widget `w` has a recorded run with id `rid`.
    pub open spec fn has_run(self, w: Seq<char>, rid: RunId) -> bool {
        exists|k: int| 0 <= k < self.runs_or_empty(w).len() && self.runs_or_empty(w)[k].id == rid
    }

    /// The position of widget `w`'s run with id `rid`, meaningful when
    /// `has_run(w, rid)`.
    pub open spec fn run_index(self, w: Seq<char>, rid: RunId) -> int {
        choose|k: int|
            0 <= k < self.runs_or_empty(w).len() && self.runs_or_empty(w)[k].id == rid
    }

    /// The store's invariant: widget keys are unique, every stored id is
    /// below the counter, ids strictly increase within one widget's history,
    /// and no id occurs in two different histories.
    pub open spec fn wf(self) -> bool {
        &&& forall|i: int, j: int|
            #![trigger self.entries@[i].widget@, self.entries@[j].widget@]
            0 <= i < self.entries@.len() && 0 <= j < self.entries@.len() && i != j
                ==> self.entries@[i].widget@ != self.entries@[j].widget@
        &&& forall|i: int, k: int|
            #![trigger self.entries@[i].runs@[k]]
            0 <= i < self.entries@.len() && 0 <= k < self.entries@[i].runs@.len()
                ==> self.entries@[i].runs@[k].id.0 < self.run_id_counter
        &&& forall|i: int, k1: int, k2: int|
            #![trigger self.entries@[i].runs@[k1], self.entries@[i].runs@[k2]]
            0 <= i < self.entries@.len() && 0 <= k1 < k2 < self.entries@[i].runs@.len()
                ==> self.entries@[i].runs@[k1].id.0 < self.entries@[i].runs@[k2].id.0
        &&& forall|i1: int, k1: int, i2: int, k2: int|
            #![trigger self.entries@[i1].runs@[k1], self.entries@[i2].runs@[k2]]
            0 <= i1 < self.entries@.len() && 0 <= i2 < self.entries@.len() && i1 != i2
                && 0 <= k1 < self.entries@[i1].runs@.len() && 0 <= k2
                < self.entries@[i2].runs@.len()
                ==> self.entries@[i1].runs@[k1].id != self.entries@[i2].runs@[k2].id
    }

    /// An empty store whose first assigned id will be zero.
    pub fn new() -> (r: Self)
        ensures
            r.wf(),
            r.run_id_counter == 0,
            r.entries@.len() == 0,
            forall|w: Seq<char>| !r.has_widget(w),
    {
        InMemoryDatabase { entries: Vec::new(), run_id_counter: 0 }
    }

    /// Finds the position of widget `widget_id`'s history.
    fn find_widget(&self, widget_id: &WidgetId) -> (r: Option<usize>)
        requires
            self.wf(),
        ensures
            (match r {
                Some(i) => i < self.entries@.len() && self.entries@[i as int].widget@
                    == widget_id@ && self.has_widget(widget_id@) && self.widget_index(
                    widget_id@,
                ) == i as int,
                None => !self.has_widget(widget_id@),
            }),
    {
        let mut i: usize = 0;
        while i < self.entries.len()
            invariant
                self.wf(),
                i <= self.entries@.len(),
                forall|k: int| 0 <= k < i ==> self.entries@[k].widget@ != widget_id@,
            decreases self.entries@.len() - i,
        {
            if self.entries[i].widget == *widget_id {
                proof {
                    assert(self.has_widget(widget_id@));
                    let j = self.widget_index(widget_id@);
                    assert(0 <= j < self.entries@.len() && self.entries@[j].widget@
                        == widget_id@);
                    assert(j == i as int);
                }
                return Some(i);
            }
            i += 1;
        }
        None
    }

    /// Get the run with id `run_id` from widget `widget_id`'s history.
    ///
    /// Fails with `InvalidWidgetId` when the widget has no history at all,
    /// and with `NoneAvailable` when it has one without that id.
    pub fn get_run(&self, widget_id: WidgetId, run_id: RunId) -> (r: Result<
        BackendRun,
        DatabaseError,
    >)
        requires
            self.wf(),
        ensures
            r is Ok <==> self.has_widget(widget_id@) && self.has_run(widget_id@, run_id),
            (match r {
                Ok(run) => run@ == self.runs_of(widget_id@)[self.run_index(widget_id@, run_id)]
                    && run@.id == run_id,
                Err(e) => if !self.has_widget(widget_id@) {
                    e == DatabaseError::InvalidWidgetId
                } else {
                    e == DatabaseError::NoneAvailable
                },
            }),
    {
        let idx = match self.find_widget(&widget_id) {
            Some(i) => i,
            None => {
                return Err(DatabaseError::InvalidWidgetId);
            },
        };
        let runs = &self.entries[idx].runs;
        let mut k: usize = 0;
        while k < runs.len()
            invariant
                self.wf(),
                idx < self.entries@.len(),
                self.entries@[idx as int].widget@ == widget_id@,
                self.widget_index(widget_id@) == idx as int,
                self.has_widget(widget_id@),
                runs@ == self.entries@[idx as int].runs@,
                k <= runs@.len(),
                forall|t: int| 0 <= t < k ==> runs@[t].id != run_id,
            decreases runs@.len() - k,
        {
            if runs[k].id == run_id {
                proof {
                    assert(self.runs_of(widget_id@)[k as int] == runs@[k as int]@);
                    assert(self.has_run(widget_id@, run_id));
                    let t = self.run_index(widget_id@, run_id);
                    assert(0 <= t < self.runs_of(widget_id@).len() && self.runs_of(
                        widget_id@,
                    )[t].id == run_id);
                    assert(self.runs_of(widget_id@)[t] == runs@[t]@);
                    if t != k as int {
                        let i = self.widget_index(widget_id@);
                        if t < k as int {
                            assert(self.entries@[i].runs@[t].id.0 < self.entries@[i].runs@[k
                                as int].id.0);
                        } else {
                            assert(self.entries@[i].runs@[k as int].id.0
                                < self.entries@[i].runs@[t].id.0);
                        }
                        assert(false);
                    }
                }
                return Ok(runs[k].clone());
            }
            k += 1;
        }
        proof {
            assert forall|t: int|
                0 <= t < self.runs_or_empty(widget_id@).len() implies self.runs_or_empty(
                widget_id@,
            )[t].id != run_id by {
                assert(self.runs_or_empty(widget_id@)[t] == runs@[t]@);
            }
        }
        Err(DatabaseError::NoneAvailable)
    }

    /// Insert a run into widget `widget_id`'s history, creating the history
    /// on first insert, and assign it the next run id.
    pub fn insert_run(&mut self, widget_id: WidgetId, run: BackendRun) -> (r: Result<
        RunId,
        DatabaseError,
    >)
        requires
            old(self).wf(),
            old(self).run_id_counter < usize::MAX,
        ensures
            final(self).wf(),
            (r == Ok::<RunId, DatabaseError>(RunId(old(self).run_id_counter))),
            final(self).run_id_counter == old(self).run_id_counter + 1,
            final(self).has_widget(widget_id@),
            (final(self).runs_of(widget_id@) == old(self).runs_or_empty(widget_id@).push(
                with_id(run@, RunId(old(self).run_id_counter)),
            )),
            forall|w: Seq<char>|
                w != widget_id@
                    ==> final(self).has_widget(w) == old(self).has_widget(w)
                        && (old(self).has_widget(w)
                            ==> final(self).runs_of(w) == old(self).runs_of(w)),
    {
        let ghost pre = *old(self);
        let id = RunId(self.run_id_counter);
        let mut run = run;
        run.id = id;
        self.run_id_counter = self.run_id_counter + 1;
        proof {
            assert(self.wf());
        }
        match self.find_widget(&widget_id) {
            Some(i) => {
                let mut hist = self.entries.remove(i);
                hist.runs.push(run);
                self.entries.insert(i, hist);
                proof {
                    assert(self.entries@ =~= pre.entries@.update(
                        i as int,
                        self.entries@[i as int],
                    ));
                    lemma_history_updated(pre, *self, i as int);
                    lemma_wf_after_append(pre, *self, i as int);
                }
            },
            None => {
                let mut runs: Vec<BackendRun> = Vec::new();
                runs.push(run);
                self.entries.push(WidgetHistory { widget: widget_id, runs });
                proof {
                    lemma_history_pushed(pre, *self);
                    lemma_wf_after_new_history(pre, *self);
                    assert(self.entries@.last().runs@.map_values(|r: BackendRun| r@)
                        =~= Seq::<RunView>::empty().push(with_id(run@, id)));
                }
            },
        }
        Ok(id)
    }

    /// Returns all runs recorded for widget `widget_id`, in insertion order.
    ///
    /// Fails with `InvalidWidgetId` when the widget has no history.
    pub fn get_runs(&self, widget_id: WidgetId) -> (r: Result<Vec<BackendRun>, DatabaseError>)
        requires
            self.wf(),
        ensures
            r is Ok <==> self.has_widget(widget_id@),
            (match r {
                Ok(runs) => runs@.map_values(|x: BackendRun| x@) == self.runs_of(widget_id@),
                Err(e) => e == DatabaseError::InvalidWidgetId,
            }),
    {
        let idx = match self.find_widget(&widget_id) {
            Some(i) => i,
            None => {
                return Err(DatabaseError::InvalidWidgetId);
            },
        };
        let runs = &self.entries[idx].runs;
        let mut out: Vec<BackendRun> = Vec::new();
        let mut k: usize = 0;
        while k < runs.len()
            invariant
                self.wf(),
                self.widget_index(widget_id@) == idx as int,
                self.has_widget(widget_id@),
                runs@ == self.entries@[idx as int].runs@,
                idx < self.entries@.len(),
                k <= runs@.len(),
                out@.len() == k,
                forall|t: int| 0 <= t < k ==> out@[t]@ == runs@[t]@,
            decreases runs@.len() - k,
        {
            out.push(runs[k].clone());
            k += 1;
        }
        proof {
            assert(out@.map_values(|x: BackendRun| x@) =~= self.runs_of(widget_id@));
        }
        Ok(out)
    }

    /// Returns the most recently inserted run for widget `widget_id`, which
    /// carries the greatest run id in that widget's history.
    ///
    /// Fails with `InvalidWidgetId` when the widget has no history, and with
    /// `NoneAvailable` when the history is empty.
    pub fn get_last_run(&self, widget_id: WidgetId) -> (r: Result<BackendRun, DatabaseError>)
        requires
            self.wf(),
        ensures
            r is Ok <==> self.has_widget(widget_id@) && self.runs_of(widget_id@).len() > 0,
            (match r {
                Ok(run) => run@ == self.runs_of(widget_id@).last() && forall|k: int|
                    0 <= k < self.runs_of(widget_id@).len()
                        ==> self.runs_of(widget_id@)[k].id.0 <= run@.id.0,
                Err(e) => if !self.has_widget(widget_id@) {
                    e == DatabaseError::InvalidWidgetId
                } else {
                    e == DatabaseError::NoneAvailable && self.runs_of(widget_id@).len() == 0
                },
            }),
    {
        let idx = match self.find_widget(&widget_id) {
            Some(i) => i,
            None => {
                return Err(DatabaseError::InvalidWidgetId);
            },
        };
        let runs = &self.entries[idx].runs;
        if runs.len() == 0 {
            return Err(DatabaseError::NoneAvailable);
        }
        let run = runs[runs.len() - 1].clone();
        proof {
            let n = self.runs_of(widget_id@).len();
            assert(run@ == self.runs_of(widget_id@)[n - 1]);
            assert forall|k: int|
                0 <= k < n implies self.runs_of(widget_id@)[k].id.0 <= run@.id.0 by {
                let i = self.widget_index(widget_id@);
                if k < n - 1 {
                    assert(self.entries@[i].runs@[k].id.0 < self.entries@[i].runs@[n - 1].id.0);
                }
                assert(self.runs_of(widget_id@)[k] == self.entries@[i].runs@[k]@);
            }
        }
        Ok(run)
    }
}

/// After replacing widget `at`'s history with one that has one run appended,
/// that widget's runs grow by exactly that record and every other widget
/// keeps its history.
proof fn lemma_history_updated(pre: InMemoryDatabase, post: InMemoryDatabase, at: int)
    requires
        pre.wf(),
        0 <= at < pre.entries@.len(),
        post.entries@.len() == pre.entries@.len(),
        post.entries@ == pre.entries@.update(at, post.entries@[at]),
        post.entries@[at].widget@ == pre.entries@[at].widget@,
        post.entries@[at].runs@ == pre.entries@[at].runs@.push(
            post.entries@[at].runs@.last(),
        ),
    ensures
        post.has_widget(pre.entries@[at].widget@),
        post.widget_index(pre.entries@[at].widget@) == at,
        pre.widget_index(pre.entries@[at].widget@) == at,
        (post.runs_of(pre.entries@[at].widget@) == pre.runs_of(pre.entries@[at].widget@).push(
            post.entries@[at].runs@.last()@,
        )),
        forall|w: Seq<char>|
            w != pre.entries@[at].widget@
                ==> post.has_widget(w) == pre.has_widget(w) && (pre.has_widget(w)
                    ==> post.runs_of(w) == pre.runs_of(w)),
{
    let wid = pre.entries@[at].widget@;
    assert(post.entries@[at].widget@ == wid);
    assert(post.has_widget(wid));
    let ja = post.widget_index(wid);
    assert(0 <= ja < post.entries@.len() && post.entries@[ja].widget@ == wid);
    if ja != at {
        assert(post.entries@[ja] == pre.entries@[ja]);
        assert(pre.entries@[ja].widget@ != pre.entries@[at].widget@);
        assert(false);
    }
    let jb = pre.widget_index(wid);
    assert(0 <= jb < pre.entries@.len() && pre.entries@[jb].widget@ == wid);
    if jb != at {
        assert(false);
    }
    assert(post.runs_of(wid) =~= pre.runs_of(wid).push(post.entries@[at].runs@.last()@));
    assert forall|w: Seq<char>| w != wid implies post.has_widget(w) == pre.has_widget(w) && (
    pre.has_widget(w) ==> post.runs_of(w) == pre.runs_of(w)) by {
        assert forall|i: int|
            0 <= i < pre.entries@.len() && i != at implies post.entries@[i]
            == pre.entries@[i] by {}
        if pre.has_widget(w) {
            let ib = pre.widget_index(w);
            assert(0 <= ib < pre.entries@.len() && pre.entries@[ib].widget@ == w);
            assert(ib != at);
            assert(post.entries@[ib].widget@ == w);
            assert(post.has_widget(w));
            let ia = post.widget_index(w);
            assert(0 <= ia < post.entries@.len() && post.entries@[ia].widget@ == w);
            if ia != ib {
                if ia == at {
                    assert(post.entries@[ia].widget@ == wid);
                    assert(false);
                } else {
                    assert(post.entries@[ia] == pre.entries@[ia]);
                    assert(pre.entries@[ia].widget@ != pre.entries@[ib].widget@);
                    assert(false);
                }
            }
            assert(post.runs_of(w) == pre.runs_of(w));
        } else {
            if post.has_widget(w) {
                let ia = post.widget_index(w);
                assert(0 <= ia < post.entries@.len() && post.entries@[ia].widget@ == w);
                if ia == at {
                    assert(false);
                } else {
                    assert(post.entries@[ia] == pre.entries@[ia]);
                    assert(pre.has_widget(w));
                    assert(false);
                }
            }
        }
    }
}

/// After pushing a new widget's history onto the store, that widget's runs
/// are exactly the new history and every other widget keeps its own.
proof fn lemma_history_pushed(pre: InMemoryDatabase, post: InMemoryDatabase)
    requires
        pre.wf(),
        post.entries@.len() == pre.entries@.len() + 1,
        forall|i: int| 0 <= i < pre.entries@.len() ==> post.entries@[i] == pre.entries@[i],
        !pre.has_widget(post.entries@.last().widget@),
    ensures
        post.has_widget(post.entries@.last().widget@),
        post.widget_index(post.entries@.last().widget@) == post.entries@.len() - 1,
        (post.runs_of(post.entries@.last().widget@) == post.entries@.last().runs@.map_values(
            |r: BackendRun| r@,
        )),
        forall|w: Seq<char>|
            w != post.entries@.last().widget@
                ==> post.has_widget(w) == pre.has_widget(w) && (pre.has_widget(w)
                    ==> post.runs_of(w) == pre.runs_of(w)),
{
    let n = post.entries@.len() - 1;
    let wid = post.entries@.last().widget@;
    assert(post.entries@[n].widget@ == wid);
    assert(post.has_widget(wid));
    let ja = post.widget_index(wid);
    assert(0 <= ja < post.entries@.len() && post.entries@[ja].widget@ == wid);
    if ja != n {
        assert(post.entries@[ja] == pre.entries@[ja]);
        assert(pre.has_widget(wid));
        assert(false);
    }
    assert forall|w: Seq<char>| w != wid implies post.has_widget(w) == pre.has_widget(w) && (
    pre.has_widget(w) ==> post.runs_of(w) == pre.runs_of(w)) by {
        if pre.has_widget(w) {
            let ib = pre.widget_index(w);
            assert(0 <= ib < pre.entries@.len() && pre.entries@[ib].widget@ == w);
            assert(post.entries@[ib].widget@ == w);
            assert(post.has_widget(w));
            let ia = post.widget_index(w);
            assert(0 <= ia < post.entries@.len() && post.entries@[ia].widget@ == w);
            if ia == n {
                assert(false);
            }
            assert(post.entries@[ia] == pre.entries@[ia]);
            if ia != ib {
                assert(pre.entries@[ia].widget@ != pre.entries@[ib].widget@);
                assert(false);
            }
            assert(post.runs_of(w) == pre.runs_of(w));
        } else {
            if post.has_widget(w) {
                let ia = post.widget_index(w);
                assert(0 <= ia < post.entries@.len() && post.entries@[ia].widget@ == w);
                if ia == n {
                    assert(false);
                } else {
                    assert(post.entries@[ia] == pre.entries@[ia]);
                    assert(pre.has_widget(w));
                    assert(false);
                }
            }
        }
    }
}

/// Appending a run that carries the freshly assigned id to one widget's
/// history keeps the store well formed.
proof fn lemma_wf_after_append(pre: InMemoryDatabase, post: InMemoryDatabase, at: int)
    requires
        pre.wf(),
        pre.run_id_counter < usize::MAX,
        0 <= at < pre.entries@.len(),
        post.entries@ == pre.entries@.update(at, post.entries@[at]),
        post.entries@[at].widget@ == pre.entries@[at].widget@,
        post.entries@[at].runs@ == pre.entries@[at].runs@.push(post.entries@[at].runs@.last()),
        post.entries@[at].runs@.last().id.0 == pre.run_id_counter,
        post.run_id_counter == pre.run_id_counter + 1,
    ensures
        post.wf(),
{
    let n = pre.entries@[at].runs@.len() as int;
    assert forall|i: int, k: int|
        0 <= i < post.entries@.len() && 0 <= k < post.entries@[i].runs@.len()
            implies #[trigger] post.entries@[i].runs@[k].id.0 < post.run_id_counter by {
        if i == at {
            if k < n {
                assert(post.entries@[i].runs@[k] == pre.entries@[at].runs@[k]);
            }
        } else {
            assert(post.entries@[i] == pre.entries@[i]);
        }
    }
    assert forall|i: int, k1: int, k2: int|
        0 <= i < post.entries@.len() && 0 <= k1 < k2 < post.entries@[i].runs@.len() implies (
    #[trigger] post.entries@[i].runs@[k1]).id.0 < (#[trigger] post.entries@[i].runs@[k2]).id.0 by {
        if i == at {
            assert(post.entries@[i].runs@[k1] == pre.entries@[at].runs@[k1]);
            if k2 < n {
                assert(post.entries@[i].runs@[k2] == pre.entries@[at].runs@[k2]);
            } else {
                assert(pre.entries@[at].runs@[k1].id.0 < pre.run_id_counter);
            }
        } else {
            assert(post.entries@[i] == pre.entries@[i]);
        }
    }
    assert forall|i1: int, k1: int, i2: int, k2: int|
        0 <= i1 < post.entries@.len() && 0 <= i2 < post.entries@.len() && i1 != i2 && 0 <= k1
            < post.entries@[i1].runs@.len() && 0 <= k2 < post.entries@[i2].runs@.len()
            implies (#[trigger] post.entries@[i1].runs@[k1]).id != (
    #[trigger] post.entries@[i2].runs@[k2]).id by {
        if i1 == at {
            assert(post.entries@[i2] == pre.entries@[i2]);
            assert(pre.entries@[i2].runs@[k2].id.0 < pre.run_id_counter);
            if k1 < n {
                assert(post.entries@[i1].runs@[k1] == pre.entries@[at].runs@[k1]);
            }
        } else if i2 == at {
            assert(post.entries@[i1] == pre.entries@[i1]);
            assert(pre.entries@[i1].runs@[k1].id.0 < pre.run_id_counter);
            if k2 < n {
                assert(post.entries@[i2].runs@[k2] == pre.entries@[at].runs@[k2]);
            }
        } else {
            assert(post.entries@[i1] == pre.entries@[i1]);
            assert(post.entries@[i2] == pre.entries@[i2]);
        }
    }
}

/// Opening a new widget's history with a single run that carries the
/// freshly assigned id keeps the store well formed.
proof fn lemma_wf_after_new_history(pre: InMemoryDatabase, post: InMemoryDatabase)
    requires
        pre.wf(),
        pre.run_id_counter < usize::MAX,
        post.entries@.len() == pre.entries@.len() + 1,
        forall|i: int| 0 <= i < pre.entries@.len() ==> post.entries@[i] == pre.entries@[i],
        !pre.has_widget(post.entries@.last().widget@),
        post.entries@.last().runs@.len() == 1,
        post.entries@.last().runs@[0].id.0 == pre.run_id_counter,
        post.run_id_counter == pre.run_id_counter + 1,
    ensures
        post.wf(),
{
    let n = pre.entries@.len() as int;
    assert forall|i: int, j: int|
        0 <= i < post.entries@.len() && 0 <= j < post.entries@.len() && i != j
            implies #[trigger] post.entries@[i].widget@ != #[trigger] post.entries@[j].widget@ by {
        if i == n {
            assert(post.entries@[j] == pre.entries@[j]);
            if post.entries@[i].widget@ == post.entries@[j].widget@ {
                assert(pre.has_widget(post.entries@.last().widget@));
            }
        } else if j == n {
            assert(post.entries@[i] == pre.entries@[i]);
            if post.entries@[i].widget@ == post.entries@[j].widget@ {
                assert(pre.has_widget(post.entries@.last().widget@));
            }
        } else {
            assert(post.entries@[i] == pre.entries@[i]);
            assert(post.entries@[j] == pre.entries@[j]);
        }
    }
    assert forall|i: int, k: int|
        0 <= i < post.entries@.len() && 0 <= k < post.entries@[i].runs@.len()
            implies #[trigger] post.entries@[i].runs@[k].id.0 < post.run_id_counter by {
        if i < n {
            assert(post.entries@[i] == pre.entries@[i]);
        }
    }
    assert forall|i: int, k1: int, k2: int|
        0 <= i < post.entries@.len() && 0 <= k1 < k2 < post.entries@[i].runs@.len() implies (
    #[trigger] post.entries@[i].runs@[k1]).id.0 < (#[trigger] post.entries@[i].runs@[k2]).id.0 by {
        assert(i < n);
        assert(post.entries@[i] == pre.entries@[i]);
    }
    assert forall|i1: int, k1: int, i2: int, k2: int|
        0 <= i1 < post.entries@.len() && 0 <= i2 < post.entries@.len() && i1 != i2 && 0 <= k1
            < post.entries@[i1].runs@.len() && 0 <= k2 < post.entries@[i2].runs@.len()
            implies (#[trigger] post.entries@[i1].runs@[k1]).id != (
    #[trigger] post.entries@[i2].runs@[k2]).id by {
        if i1 == n {
            assert(post.entries@[i2] == pre.entries@[i2]);
            assert(pre.entries@[i2].runs@[k2].id.0 < pre.run_id_counter);
        } else if i2 == n {
            assert(post.entries@[i1] == pre.entries@[i1]);
            assert(pre.entries@[i1].runs@[k1].id.0 < pre.run_id_counter);
        } else {
            assert(post.entries@[i1] == pre.entries@[i1]);
            assert(post.entries@[i2] == pre.entries@[i2]);
        }
    }
}

/// Any two runs stored at distinct positions of a well-formed store carry
/// distinct run ids, within one widget's history and across histories.
pub proof fn lemma_run_ids_unique(
    db: InMemoryDatabase,
    w1: Seq<char>,
    k1: int,
    w2: Seq<char>,
    k2: int,
)
    requires
        db.wf(),
        db.has_widget(w1),
        db.has_widget(w2),
        0 <= k1 < db.runs_of(w1).len(),
        0 <= k2 < db.runs_of(w2).len(),
        !(w1 == w2 && k1 == k2),
    ensures
        db.runs_of(w1)[k1].id != db.runs_of(w2)[k2].id,
{
    let i1 = db.widget_index(w1);
    let i2 = db.widget_index(w2);
    assert(0 <= i1 < db.entries@.len() && db.entries@[i1].widget@ == w1);
    assert(0 <= i2 < db.entries@.len() && db.entries@[i2].widget@ == w2);
    assert(db.runs_of(w1)[k1] == db.entries@[i1].runs@[k1]@);
    assert(db.runs_of(w2)[k2] == db.entries@[i2].runs@[k2]@);
    if w1 == w2 {
        assert(i1 == i2);
        if k1 < k2 {
            assert(db.entries@[i1].runs@[k1].id.0 < db.entries@[i1].runs@[k2].id.0);
        } else {
            assert(db.entries@[i1].runs@[k2].id.0 < db.entries@[i1].runs@[k1].id.0);
        }
    } else {
        assert(i1 != i2);
        assert(db.entries@[i1].runs@[k1].id != db.entries@[i2].runs@[k2].id);
    }
}

/// Within one widget's history, run ids strictly increase in insertion
/// order.
pub proof fn lemma_run_ids_increase(db: InMemoryDatabase, w: Seq<char>, k1: int, k2: int)
    requires
        db.wf(),
        db.has_widget(w),
        0 <= k1 < k2 < db.runs_of(w).len(),
    ensures
        db.runs_of(w)[k1].id.0 < db.runs_of(w)[k2].id.0,
{
    let i = db.widget_index(w);
    assert(0 <= i < db.entries@.len() && db.entries@[i].widget@ == w);
    assert(db.runs_of(w)[k1] == db.entries@[i].runs@[k1]@);
    assert(db.runs_of(w)[k2] == db.entries@[i].runs@[k2]@);
    assert(db.entries@[i].runs@[k1].id.0 < db.entries@[i].runs@[k2].id.0);
}

/// Assigned run ids strictly increase in assignment order, however many
/// distinct widgets are involved: an insert returns the store's counter and
/// raises it, and later operations never lower the counter, so any later
/// insert returns a strictly greater id.
pub proof fn lemma_assigned_ids_increase(
    db0: InMemoryDatabase,
    db1: InMemoryDatabase,
    db2: InMemoryDatabase,
    id1: RunId,
    id2: RunId,
)
    requires
        id1 == RunId(db0.run_id_counter),
        db1.run_id_counter == db0.run_id_counter + 1,
        db1.run_id_counter <= db2.run_id_counter,
        id2 == RunId(db2.run_id_counter),
    ensures
        id1.0 < id2.0,
{
}

/// A well-formed store never contains the id it will assign next, so every
/// id handed out by an insert is fresh.
pub proof fn lemma_next_id_fresh(db: InMemoryDatabase, w: Seq<char>, k: int)
    requires
        db.wf(),
        db.has_widget(w),
        0 <= k < db.runs_of(w).len(),
    ensures
        db.runs_of(w)[k].id.0 < db.run_id_counter,
{
    let i = db.widget_index(w);
    assert(0 <= i < db.entries@.len() && db.entries@[i].widget@ == w);
    assert(db.runs_of(w)[k] == db.entries@[i].runs@[k]@);
    assert(db.entries@[i].runs@[k].id.0 < db.run_id_counter);
}

} // verus!
