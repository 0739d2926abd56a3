//! The invocation path behind the boundary layer: resolve a widget,
//! execute its backend once, and record the produced run.

use vstd::prelude::*;

use crate::config::{Config, WidgetEnum};
use crate::database::{DatabaseError, InMemoryDatabase};
use crate::widget::weather::{spec_counter_of, spec_output_json, WeatherBackendState};
use crate::widget::{
    run, BackendError, BackendState, BackendStateStorage, Initiator, RunId, WidgetId,
};

verus! {

/// Resolves `widget_id`, executes that widget's backend once with
/// exclusive access to the state store, and hands the produced record to
/// the run history store, which assigns and returns the run id.
///
/// Fails with `InvalidWidgetId`, leaving both stores unchanged, exactly
/// when the catalogue has no definition for `widget_id`.
pub fn trigger_widget_run(
    config: &Config,
    db: &mut InMemoryDatabase,
    state: &mut BackendStateStorage,
    widget_id: &WidgetId,
) -> (r: Result<RunId, DatabaseError>)
    requires
        old(db).wf(),
        old(db).run_id_counter < usize::MAX,
        old(state).wf(),
        spec_counter_of(old(state).slot_view(widget_id@)) < u64::MAX,
    ensures
        final(db).wf(),
        final(state).wf(),
        r is Ok <==> config.spec_has_widget(widget_id@),
        (match r {
            Ok(rid) => {
                &&& rid == RunId(old(db).run_id_counter)
                &&& final(db).run_id_counter == old(db).run_id_counter + 1
                &&& final(db).has_widget(widget_id@)
                &&& final(db).runs_of(widget_id@) == old(db).runs_or_empty(widget_id@).push(
                    final(db).runs_of(widget_id@).last(),
                )
                &&& {
                    let rec = final(db).runs_of(widget_id@).last();
                    &&& rec.id == RunId(old(db).run_id_counter)
                    &&& rec.widget == widget_id@
                    &&& rec.initiated == Initiator::Manual
                    &&& rec.log == Seq::<char>::empty()
                    &&& rec.result == Ok::<Option<Seq<char>>, BackendError>(
                        Some(
                            spec_output_json(
                                spec_counter_of(old(state).slot_view(widget_id@)) as nat,
                            ),
                        ),
                    )
                }
                &&& final(state).has_state(widget_id@)
                &&& final(state).state_of(widget_id@) == BackendState::Weather(
                    (WeatherBackendState {
                        value: (spec_counter_of(old(state).slot_view(widget_id@)) + 1) as u64,
                    }),
                )
                &&& forall|w: Seq<char>|
                    w != widget_id@
                        ==> final(db).has_widget(w) == old(db).has_widget(w)
                            && (old(db).has_widget(w)
                                ==> final(db).runs_of(w) == old(db).runs_of(w))
                &&& forall|w: Seq<char>|
                    w != widget_id@
                        ==> final(state).has_state(w) == old(state).has_state(w)
                            && (old(state).has_state(w)
                                ==> final(state).state_of(w) == old(state).state_of(w))
            },
            Err(e) => {
                &&& e == DatabaseError::InvalidWidgetId
                &&& *final(db) == *old(db)
                &&& *final(state) == *old(state)
            },
        }),
{
    let widget = match config.resolve(widget_id) {
        Ok(w) => w,
        Err(e) => {
            return Err(e);
        },
    };
    let rec = match widget {
        WidgetEnum::Weather(d) => run(d, state),
    };
    db.insert_run(widget_id.clone(), rec)
}

} // verus!
