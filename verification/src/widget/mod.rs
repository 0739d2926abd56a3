//! Core widget types: identifiers, run records, the per-widget auxiliary
//! state storage, and the runner that executes one backend computation.

use vstd::prelude::*;

pub mod weather;

use crate::widget::weather::{
    encode_output, spec_counter_of, spec_output_json, WeatherBackendState, WeatherWidget,
    WeatherWidgetConfig,
};

verus! {

/// The unique ID of a widget.
#[derive(Debug)]
pub struct WidgetId(pub String);

impl View for WidgetId {
    type V = Seq<char>;

    open spec fn view(&self) -> Seq<char> {
        self.0@
    }
}

impl WidgetId {
    /// Wraps a string as a widget id.
    pub fn new(id: String) -> (r: WidgetId)
        ensures
            r@ == id@,
    {
        WidgetId(id)
    }
}

impl Clone for WidgetId {
    fn clone(&self) -> (r: Self)
        ensures
            r@ == self@,
    {
        WidgetId(self.0.clone())
    }
}

impl PartialEq for WidgetId {
    fn eq(&self, other: &Self) -> (r: bool) {
        self.0 == other.0
    }
}

impl vstd::std_specs::cmp::PartialEqSpecImpl for WidgetId {
    open spec fn obeys_eq_spec() -> bool {
        true
    }

    open spec fn eq_spec(&self, other: &Self) -> bool {
        self.0@ == other.0@
    }
}

/// The identifier of one recorded run, assigned only by the run history
/// store.
#[derive(Debug, PartialEq, Eq, Structural, Clone, Copy)]
pub struct RunId(pub usize);

/// Why a run occurred; only manual triggering is implemented.
#[derive(Debug, PartialEq, Eq, Structural, Clone, Copy)]
pub enum Initiator {
    Schedule,
    Manual,
}

/// A backend-level failure, recorded as data inside a run record.  No
/// concrete failure kinds are defined yet; the placeholder variant stands
/// until one is, and no backend produces it.
#[derive(Debug, PartialEq, Eq, Structural, Clone, Copy)]
pub enum BackendError {
    Unspecified,
}

/// One timestamped execution record of a widget's backend.
#[derive(Debug)]
pub struct BackendRun {
    pub id: RunId,
    pub widget: WidgetId,
    pub initiated: Initiator,
    pub started: i64,
    pub ended: i64,
    pub log: String,
    pub result: Result<Option<String>, BackendError>,
}

/// The mathematical value of a [`BackendRun`].
pub ghost struct RunView {
    pub id: RunId,
    pub widget: Seq<char>,
    pub initiated: Initiator,
    pub started: int,
    pub ended: int,
    pub log: Seq<char>,
    pub result: Result<Option<Seq<char>>, BackendError>,
}

impl View for BackendRun {
    type V = RunView;

    open spec fn view(&self) -> RunView {
        RunView {
            id: self.id,
            widget: self.widget@,
            initiated: self.initiated,
            started: self.started as int,
            ended: self.ended as int,
            log: self.log@,
            result: match self.result {
                Ok(Some(s)) => Ok(Some(s@)),
                Ok(None) => Ok(None),
                Err(e) => Err(e),
            },
        }
    }
}

impl Clone for BackendRun {
    fn clone(&self) -> (r: Self)
        ensures
            r@ == self@,
    {
        BackendRun {
            id: self.id,
            widget: self.widget.clone(),
            initiated: self.initiated,
            started: self.started,
            ended: self.ended,
            log: self.log.clone(),
            result: match &self.result {
                Ok(Some(s)) => Ok(Some(s.clone())),
                Ok(None) => Ok(None),
                Err(e) => Err(*e),
            },
        }
    }
}

/// Auxiliary backend state, a closed union with one variant per widget kind,
/// so that a widget's state always matches its backend's expected shape.
#[derive(Debug, PartialEq, Eq, Structural, Clone, Copy)]
pub enum BackendState {
    Weather(WeatherBackendState),
}

/// One widget's auxiliary state slot.
#[derive(Debug)]
pub struct StateSlot {
    pub widget: WidgetId,
    pub state: BackendState,
}

/// Per-widget auxiliary state, created lazily on first access and kept for
/// the life of the store.
#[derive(Debug)]
pub struct BackendStateStorage {
    pub slots: Vec<StateSlot>,
}

impl BackendStateStorage {
    /// Each widget id owns at most one slot.
    pub open spec fn wf(self) -> bool {
        forall|i: int, j: int|
            0 <= i < self.slots@.len() && 0 <= j < self.slots@.len() && i != j
                ==> self.slots@[i].widget@ != self.slots@[j].widget@
    }

    /// Whether widget `w` has a state slot.
    pub open spec fn has_state(self, w: Seq<char>) -> bool {
        exists|i: int| 0 <= i < self.slots@.len() && self.slots@[i].widget@ == w
    }

    /// The index of widget `w`'s slot, meaningful when `has_state(w)`.
    pub open spec fn state_index(self, w: Seq<char>) -> int {
        choose|i: int| 0 <= i < self.slots@.len() && self.slots@[i].widget@ == w
    }

    /// The state stored for widget `w`, meaningful when `has_state(w)`.
    pub open spec fn state_of(self, w: Seq<char>) -> BackendState {
        self.slots@[self.state_index(w)].state
    }

    /// The state stored for widget `w`, or `None` when the slot does not
    /// exist yet.
    pub open spec fn slot_view(self, w: Seq<char>) -> Option<BackendState> {
        if self.has_state(w) {
            Some(self.state_of(w))
        } else {
            None
        }
    }

    /// An empty store.
    pub fn new() -> (r: Self)
        ensures
            r.wf(),
            forall|w: Seq<char>| !r.has_state(w),
            r.slots@.len() == 0,
    {
        BackendStateStorage { slots: Vec::new() }
    }

    /// Removes and returns widget `id`'s slot, if it exists.
    pub fn take_state(&mut self, id: &WidgetId) -> (r: Option<BackendState>)
        requires
            old(self).wf(),
        ensures
            final(self).wf(),
            r == old(self).slot_view(id@),
            !final(self).has_state(id@),
            forall|w: Seq<char>|
                w != id@
                    ==> final(self).has_state(w) == old(self).has_state(w)
                        && (old(self).has_state(w)
                            ==> final(self).state_of(w) == old(self).state_of(w)),
    {
        let mut i: usize = 0;
        while i < self.slots.len()
            invariant
                *self == *old(self),
                old(self).wf(),
                i <= self.slots@.len(),
                forall|k: int| 0 <= k < i ==> self.slots@[k].widget@ != id@,
            decreases self.slots@.len() - i,
        {
            let ghost pre = *old(self);
            if self.slots[i].widget == *id {
                proof {
                    assert(pre.has_state(id@));
                    let j = pre.state_index(id@);
                    assert(0 <= j < pre.slots@.len() && pre.slots@[j].widget@ == id@);
                    assert(j == i as int);
                }
                let slot = self.slots.remove(i);
                proof {
                    assert forall|k: int|
                        0 <= k < self.slots@.len() implies self.slots@[k].widget@ != id@ by {
                        let orig = if k < i as int {
                            k
                        } else {
                            k + 1
                        };
                        assert(self.slots@[k] == pre.slots@[orig]);
                    }
                    assert forall|k1: int, k2: int|
                        0 <= k1 < self.slots@.len() && 0 <= k2 < self.slots@.len() && k1
                            != k2 implies self.slots@[k1].widget@ != self.slots@[k2].widget@ by {
                        let o1 = if k1 < i as int {
                            k1
                        } else {
                            k1 + 1
                        };
                        let o2 = if k2 < i as int {
                            k2
                        } else {
                            k2 + 1
                        };
                        assert(self.slots@[k1] == pre.slots@[o1]);
                        assert(self.slots@[k2] == pre.slots@[o2]);
                    }
                    assert forall|w: Seq<char>| w != id@ implies self.has_state(w)
                        == pre.has_state(w) && (pre.has_state(w) ==> self.state_of(w)
                        == pre.state_of(w)) by {
                        lemma_slot_removed(pre.slots@, self.slots@, i as int, w);
                    }
                }
                return Some(slot.state);
            }
            i += 1;
        }
        proof {
            assert(!old(self).has_state(id@));
        }
        None
    }

    /// Stores `s` as widget `id`'s state; the slot must not exist yet.
    pub fn store_state(&mut self, id: &WidgetId, s: BackendState)
        requires
            old(self).wf(),
            !old(self).has_state(id@),
        ensures
            final(self).wf(),
            final(self).has_state(id@),
            final(self).state_of(id@) == s,
            forall|w: Seq<char>|
                w != id@
                    ==> final(self).has_state(w) == old(self).has_state(w)
                        && (old(self).has_state(w)
                            ==> final(self).state_of(w) == old(self).state_of(w)),
    {
        let ghost pre = *old(self);
        self.slots.push(StateSlot { widget: id.clone(), state: s });
        proof {
            let n = self.slots@.len() - 1;
            assert(self.slots@[n].widget@ == id@);
            assert forall|k1: int, k2: int|
                0 <= k1 < self.slots@.len() && 0 <= k2 < self.slots@.len() && k1
                    != k2 implies self.slots@[k1].widget@ != self.slots@[k2].widget@ by {
                if k1 < n && k2 < n {
                    assert(self.slots@[k1] == pre.slots@[k1]);
                    assert(self.slots@[k2] == pre.slots@[k2]);
                } else if k1 == n {
                    assert(self.slots@[k2] == pre.slots@[k2]);
                    assert(pre.has_state(self.slots@[k2].widget@) || self.slots@[k2].widget@
                        != id@);
                } else {
                    assert(self.slots@[k1] == pre.slots@[k1]);
                    assert(pre.has_state(self.slots@[k1].widget@) || self.slots@[k1].widget@
                        != id@);
                }
            }
            let j = self.state_index(id@);
            assert(0 <= j < self.slots@.len() && self.slots@[j].widget@ == id@);
            assert(j == n);
            assert forall|w: Seq<char>| w != id@ implies self.has_state(w) == pre.has_state(w)
                && (pre.has_state(w) ==> self.state_of(w) == pre.state_of(w)) by {
                lemma_slot_pushed(pre.slots@, self.slots@, w);
            }
        }
    }
}

/// An immutable widget definition: a widget id paired with the
/// configuration of its backend.
#[derive(Debug)]
pub struct WidgetDefinition {
    pub id: WidgetId,
    pub config: WeatherWidgetConfig,
}

impl WidgetDefinition {
    /// The widget's id.
    pub fn id(&self) -> (r: WidgetId)
        ensures
            r@ == self.id@,
    {
        self.id.clone()
    }
}

/// The execution context handed to one backend computation.  It carries
/// exactly one widget's id and state slot, so a backend cannot read or
/// mutate another widget's state.
#[derive(Debug)]
pub struct BackendContext {
    pub id: WidgetId,
    pub state: Option<BackendState>,
}

impl BackendContext {
    /// Returns the stored weather state, or stores and returns `or` on
    /// first access.
    pub fn get_state_or(&mut self, or: WeatherBackendState) -> (s: WeatherBackendState)
        ensures
            final(self).id == old(self).id,
            (match old(self).state {
                Some(BackendState::Weather(st)) => s == st && final(self).state == old(
                    self,
                ).state,
                None => s == or && final(self).state == Some(BackendState::Weather(or)),
            }),
    {
        match &self.state {
            Some(BackendState::Weather(st)) => *st,
            None => {
                self.state = Some(BackendState::Weather(or));
                or
            },
        }
    }

    /// Stores `s` as the widget's state.
    pub fn put_state(&mut self, s: WeatherBackendState)
        ensures
            final(self).id == old(self).id,
            final(self).state == Some(BackendState::Weather(s)),
    {
        self.state = Some(BackendState::Weather(s));
    }
}

/// Relies on `chrono::Utc::now` and `DateTime::timestamp_millis` for the
/// wall-clock reading.  The value depends on the machine's clock, so
/// nothing is promised of it; chrono panics only if the system clock reads
/// before the Unix epoch.
#[verifier::external_body]
fn now_millis() -> i64 {
    chrono::Utc::now().timestamp_millis()
}

/// Executes `definition`'s backend computation once against `state`,
/// recording wall-clock timestamps immediately around the single
/// computation call, encoding the output, and producing a run record whose
/// id is left as a placeholder for the run history store to assign.
pub fn run(definition: &WidgetDefinition, state: &mut BackendStateStorage) -> (r: BackendRun)
    requires
        old(state).wf(),
        spec_counter_of(old(state).slot_view(definition.id@)) < u64::MAX,
    ensures
        final(state).wf(),
        r.id == RunId(0),
        r@.widget == definition.id@,
        r.initiated == Initiator::Manual,
        r@.log == Seq::<char>::empty(),
        (r@.result == Ok::<Option<Seq<char>>, BackendError>(
            Some(spec_output_json(spec_counter_of(old(state).slot_view(definition.id@)) as nat)),
        )),
        final(state).has_state(definition.id@),
        (final(state).state_of(definition.id@) == BackendState::Weather(
            WeatherBackendState {
                value: (spec_counter_of(old(state).slot_view(definition.id@)) + 1) as u64,
            },
        )),
        forall|w: Seq<char>|
            w != definition.id@
                ==> final(state).has_state(w) == old(state).has_state(w)
                    && (old(state).has_state(w)
                        ==> final(state).state_of(w) == old(state).state_of(w)),
{
    let id = definition.id.clone();
    let prev = state.take_state(&id);
    let mut ctx = BackendContext { id: id.clone(), state: prev };
    let start = now_millis();
    let result = WeatherWidget::run(&definition.config, &mut ctx);
    let end = now_millis();
    let BackendContext { id: _, state: slot } = ctx;
    match slot {
        Some(s) => state.store_state(&id, s),
        None => {},
    }
    let result = match result {
        Ok(Some(out)) => Ok(Some(encode_output(&out))),
        Ok(None) => Ok(None),
        Err(e) => Err(e),
    };
    BackendRun {
        id: RunId(0),
        widget: id,
        initiated: Initiator::Manual,
        started: start,
        ended: end,
        log: String::new(),
        result,
    }
}

/// After removing the slot at `at` from a store with pairwise distinct
/// widget ids, every other widget keeps its presence and its state.
proof fn lemma_slot_removed(before: Seq<StateSlot>, after: Seq<StateSlot>, at: int, w: Seq<char>)
    requires
        0 <= at < before.len(),
        after == before.remove(at),
        forall|i: int, j: int|
            0 <= i < before.len() && 0 <= j < before.len() && i != j
                ==> before[i].widget@ != before[j].widget@,
        w != before[at].widget@,
    ensures
        (exists|i: int| 0 <= i < after.len() && after[i].widget@ == w) == (exists|i: int|
            0 <= i < before.len() && before[i].widget@ == w),
        (exists|i: int| 0 <= i < before.len() && before[i].widget@ == w) ==> {
            let ib = choose|i: int| 0 <= i < before.len() && before[i].widget@ == w;
            let ia = choose|i: int| 0 <= i < after.len() && after[i].widget@ == w;
            after[ia].state == before[ib].state
        },
{
    if exists|i: int| 0 <= i < before.len() && before[i].widget@ == w {
        let ib = choose|i: int| 0 <= i < before.len() && before[i].widget@ == w;
        let moved = if ib < at {
            ib
        } else {
            ib - 1
        };
        assert(after[moved] == before[ib]);
        assert(after[moved].widget@ == w);
        let ia = choose|i: int| 0 <= i < after.len() && after[i].widget@ == w;
        let orig = if ia < at {
            ia
        } else {
            ia + 1
        };
        assert(after[ia] == before[orig]);
        assert(before[orig].widget@ == w);
        assert(orig == ib);
    } else {
        assert forall|i: int| 0 <= i < after.len() implies after[i].widget@ != w by {
            let orig = if i < at {
                i
            } else {
                i + 1
            };
            assert(after[i] == before[orig]);
        }
    }
}

/// After pushing one slot onto a store with pairwise distinct widget ids,
/// every other widget keeps its presence and its state.
proof fn lemma_slot_pushed(before: Seq<StateSlot>, after: Seq<StateSlot>, w: Seq<char>)
    requires
        after.len() == before.len() + 1,
        forall|i: int| 0 <= i < before.len() ==> after[i] == before[i],
        after[after.len() - 1].widget@ != w,
        forall|i: int, j: int|
            0 <= i < before.len() && 0 <= j < before.len() && i != j
                ==> before[i].widget@ != before[j].widget@,
    ensures
        (exists|i: int| 0 <= i < after.len() && after[i].widget@ == w) == (exists|i: int|
            0 <= i < before.len() && before[i].widget@ == w),
        (exists|i: int| 0 <= i < before.len() && before[i].widget@ == w) ==> {
            let ib = choose|i: int| 0 <= i < before.len() && before[i].widget@ == w;
            let ia = choose|i: int| 0 <= i < after.len() && after[i].widget@ == w;
            after[ia].state == before[ib].state
        },
{
    if exists|i: int| 0 <= i < before.len() && before[i].widget@ == w {
        let ib = choose|i: int| 0 <= i < before.len() && before[i].widget@ == w;
        assert(after[ib].widget@ == w);
        let ia = choose|i: int| 0 <= i < after.len() && after[i].widget@ == w;
        assert(ia < after.len() - 1);
        assert(after[ia] == before[ia]);
        assert(ia == ib);
    }
}

} // verus!
