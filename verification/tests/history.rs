//! The run history store on its own: id assignment, ordering, lookup
//! semantics, and the state storage primitives.

use widget_platform::database::{DatabaseError, InMemoryDatabase, WidgetHistory};
use widget_platform::widget::weather::WeatherBackendState;
use widget_platform::widget::{
    BackendContext, BackendRun, BackendState, BackendStateStorage, Initiator, RunId, WidgetId,
};

fn wid(s: &str) -> WidgetId {
    WidgetId::new(String::from(s))
}

fn run_for(widget: &str, started: i64) -> BackendRun {
    BackendRun {
        id: RunId(0),
        widget: wid(widget),
        initiated: Initiator::Manual,
        started,
        ended: started,
        log: String::new(),
        result: Ok(None),
    }
}

#[test]
fn insert_assigns_unique_increasing_ids() {
    let mut db = InMemoryDatabase::new();
    let a = db.insert_run(wid("a"), run_for("a", 10)).unwrap();
    let b = db.insert_run(wid("b"), run_for("b", 20)).unwrap();
    let c = db.insert_run(wid("a"), run_for("a", 30)).unwrap();
    assert_eq!(a, RunId(0));
    assert_eq!(b, RunId(1));
    assert_eq!(c, RunId(2));
    assert!(a.0 < b.0 && b.0 < c.0);
}

#[test]
fn get_last_run_returns_greatest_id() {
    let mut db = InMemoryDatabase::new();
    db.insert_run(wid("a"), run_for("a", 1)).unwrap();
    db.insert_run(wid("b"), run_for("b", 2)).unwrap();
    db.insert_run(wid("a"), run_for("a", 3)).unwrap();
    db.insert_run(wid("a"), run_for("a", 4)).unwrap();

    let last = db.get_last_run(wid("a")).unwrap();
    assert_eq!(last.id, RunId(3));
    let all = db.get_runs(wid("a")).unwrap();
    assert!(all.iter().all(|r| r.id.0 <= last.id.0));
}

#[test]
fn get_runs_exact_in_insertion_order() {
    let mut db = InMemoryDatabase::new();
    db.insert_run(wid("a"), run_for("a", 1)).unwrap();
    db.insert_run(wid("b"), run_for("b", 2)).unwrap();
    db.insert_run(wid("a"), run_for("a", 3)).unwrap();

    let a_runs = db.get_runs(wid("a")).unwrap();
    assert_eq!(a_runs.len(), 2);
    assert_eq!(a_runs[0].id, RunId(0));
    assert_eq!(a_runs[0].started, 1);
    assert_eq!(a_runs[1].id, RunId(2));
    assert_eq!(a_runs[1].started, 3);

    let b_runs = db.get_runs(wid("b")).unwrap();
    assert_eq!(b_runs.len(), 1);
    assert_eq!(b_runs[0].id, RunId(1));
    assert_eq!(b_runs[0].started, 2);
}

#[test]
fn insert_overwrites_placeholder_id() {
    let mut db = InMemoryDatabase::new();
    let mut run = run_for("a", 1);
    run.id = RunId(99);
    let assigned = db.insert_run(wid("a"), run).unwrap();
    assert_eq!(assigned, RunId(0));
    let stored = db.get_run(wid("a"), RunId(0)).unwrap();
    assert_eq!(stored.id, RunId(0));
    assert_eq!(db.get_run(wid("a"), RunId(99)).err(), Some(DatabaseError::NoneAvailable));
}

#[test]
fn get_run_finds_by_id() {
    let mut db = InMemoryDatabase::new();
    db.insert_run(wid("a"), run_for("a", 1)).unwrap();
    db.insert_run(wid("a"), run_for("a", 2)).unwrap();
    let first = db.get_run(wid("a"), RunId(0)).unwrap();
    assert_eq!(first.started, 1);
    let second = db.get_run(wid("a"), RunId(1)).unwrap();
    assert_eq!(second.started, 2);
}

#[test]
fn known_widget_with_empty_history() {
    // The store itself only creates a history on first insert, so an empty
    // history can only be reached by constructing the store directly, as a
    // pre-registering variant would.
    let db = InMemoryDatabase {
        entries: vec![WidgetHistory { widget: wid("idle"), runs: vec![] }],
        run_id_counter: 0,
    };
    assert_eq!(db.get_last_run(wid("idle")).err(), Some(DatabaseError::NoneAvailable));
    assert_eq!(db.get_run(wid("idle"), RunId(0)).err(), Some(DatabaseError::NoneAvailable));
    assert_eq!(db.get_run(wid("idle"), RunId(7)).err(), Some(DatabaseError::NoneAvailable));
    let runs = db.get_runs(wid("idle")).unwrap();
    assert!(runs.is_empty());
}

#[test]
fn fresh_store_has_no_widgets() {
    let db = InMemoryDatabase::new();
    assert_eq!(db.get_runs(wid("any")).err(), Some(DatabaseError::InvalidWidgetId));
}

#[test]
fn state_storage_take_and_store() {
    let mut st = BackendStateStorage::new();
    assert_eq!(st.take_state(&wid("w")), None);
    st.store_state(&wid("w"), BackendState::Weather(WeatherBackendState { value: 7 }));
    assert_eq!(
        st.take_state(&wid("w")),
        Some(BackendState::Weather(WeatherBackendState { value: 7 }))
    );
    assert_eq!(st.take_state(&wid("w")), None);
}

#[test]
fn context_get_state_or_initializes_once() {
    let mut ctx = BackendContext { id: wid("w"), state: None };
    let first = ctx.get_state_or(WeatherBackendState { value: 3 });
    assert_eq!(first, WeatherBackendState { value: 3 });
    let second = ctx.get_state_or(WeatherBackendState { value: 9 });
    assert_eq!(second, WeatherBackendState { value: 3 });
    ctx.put_state(WeatherBackendState { value: 4 });
    let third = ctx.get_state_or(WeatherBackendState { value: 9 });
    assert_eq!(third, WeatherBackendState { value: 4 });
}
