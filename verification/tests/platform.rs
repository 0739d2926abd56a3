//! End-to-end scenarios through the trigger path: resolution, backend
//! execution, state evolution, and history lookups.

use widget_platform::api::trigger_widget_run;
use widget_platform::config::{Config, WidgetEnum};
use widget_platform::database::{DatabaseError, InMemoryDatabase};
use widget_platform::widget::weather::{WeatherBackendState, WeatherWidgetConfig};
use widget_platform::widget::{
    BackendState, BackendStateStorage, Initiator, RunId, WidgetDefinition, WidgetId,
};

fn one_widget_config(id: &str) -> Config {
    Config {
        widgets: vec![WidgetEnum::Weather(WidgetDefinition {
            id: WidgetId::new(String::from(id)),
            config: WeatherWidgetConfig { location: [52, 5] },
        })],
    }
}

#[test]
fn counter_backend_two_runs() {
    let cfg = one_widget_config("w1");
    let mut db = InMemoryDatabase::new();
    let mut st = BackendStateStorage::new();
    let id = WidgetId::new(String::from("w1"));

    let r1 = trigger_widget_run(&cfg, &mut db, &mut st, &id);
    assert_eq!(r1, Ok(RunId(0)));
    let r2 = trigger_widget_run(&cfg, &mut db, &mut st, &id);
    assert_eq!(r2, Ok(RunId(1)));

    let runs = db.get_runs(id.clone()).expect("w1 has a history");
    assert_eq!(runs.len(), 2);
    assert_eq!(runs[0].id, RunId(0));
    assert_eq!(runs[1].id, RunId(1));
    assert_eq!(runs[0].result, Ok(Some(String::from("{\"temperature\":0}"))));
    assert_eq!(runs[1].result, Ok(Some(String::from("{\"temperature\":1}"))));
    assert_eq!(runs[0].widget, id);
    assert_eq!(runs[1].widget, id);
    assert!(matches!(runs[0].initiated, Initiator::Manual));
    assert_eq!(runs[0].log, String::new());
}

#[test]
fn get_run_missing_id() {
    let cfg = one_widget_config("w1");
    let mut db = InMemoryDatabase::new();
    let mut st = BackendStateStorage::new();
    let id = WidgetId::new(String::from("w1"));
    trigger_widget_run(&cfg, &mut db, &mut st, &id).unwrap();
    trigger_widget_run(&cfg, &mut db, &mut st, &id).unwrap();

    let got = db.get_run(id, RunId(5));
    assert_eq!(got.err(), Some(DatabaseError::NoneAvailable));
}

#[test]
fn get_run_unknown_widget() {
    let cfg = one_widget_config("w1");
    let mut db = InMemoryDatabase::new();
    let mut st = BackendStateStorage::new();
    let id = WidgetId::new(String::from("w1"));
    trigger_widget_run(&cfg, &mut db, &mut st, &id).unwrap();

    let got = db.get_run(WidgetId::new(String::from("unknown")), RunId(0));
    assert_eq!(got.err(), Some(DatabaseError::InvalidWidgetId));
}

#[test]
fn unknown_widget_all_reads() {
    let mut db = InMemoryDatabase::new();
    let run = db.insert_run(
        WidgetId::new(String::from("known")),
        sample_run("known"),
    );
    assert_eq!(run, Ok(RunId(0)));

    let unknown = || WidgetId::new(String::from("nowhere"));
    assert_eq!(db.get_run(unknown(), RunId(0)).err(), Some(DatabaseError::InvalidWidgetId));
    assert_eq!(db.get_runs(unknown()).err(), Some(DatabaseError::InvalidWidgetId));
    assert_eq!(db.get_last_run(unknown()).err(), Some(DatabaseError::InvalidWidgetId));
}

#[test]
fn state_persists_across_runs() {
    let cfg = one_widget_config("w1");
    let mut db = InMemoryDatabase::new();
    let mut st = BackendStateStorage::new();
    let id = WidgetId::new(String::from("w1"));

    trigger_widget_run(&cfg, &mut db, &mut st, &id).unwrap();
    trigger_widget_run(&cfg, &mut db, &mut st, &id).unwrap();

    let slot = st.take_state(&id);
    assert_eq!(slot, Some(BackendState::Weather(WeatherBackendState { value: 2 })));
}

#[test]
fn state_is_keyed_per_widget() {
    let cfg = Config {
        widgets: vec![
            WidgetEnum::Weather(WidgetDefinition {
                id: WidgetId::new(String::from("a")),
                config: WeatherWidgetConfig { location: [0, 0] },
            }),
            WidgetEnum::Weather(WidgetDefinition {
                id: WidgetId::new(String::from("b")),
                config: WeatherWidgetConfig { location: [1, 1] },
            }),
        ],
    };
    let mut db = InMemoryDatabase::new();
    let mut st = BackendStateStorage::new();
    let a = WidgetId::new(String::from("a"));
    let b = WidgetId::new(String::from("b"));

    trigger_widget_run(&cfg, &mut db, &mut st, &a).unwrap();
    trigger_widget_run(&cfg, &mut db, &mut st, &a).unwrap();
    trigger_widget_run(&cfg, &mut db, &mut st, &b).unwrap();

    // b's first run still observes a fresh counter: a's runs did not leak.
    let b_runs = db.get_runs(b).unwrap();
    assert_eq!(b_runs.len(), 1);
    assert_eq!(b_runs[0].result, Ok(Some(String::from("{\"temperature\":0}"))));
    assert_eq!(st.take_state(&a), Some(BackendState::Weather(WeatherBackendState { value: 2 })));
}

#[test]
fn trigger_unknown_widget_leaves_stores_alone() {
    let cfg = one_widget_config("w1");
    let mut db = InMemoryDatabase::new();
    let mut st = BackendStateStorage::new();
    let id = WidgetId::new(String::from("w1"));
    trigger_widget_run(&cfg, &mut db, &mut st, &id).unwrap();

    let missing = WidgetId::new(String::from("w2"));
    let r = trigger_widget_run(&cfg, &mut db, &mut st, &missing);
    assert_eq!(r.err(), Some(DatabaseError::InvalidWidgetId));
    assert_eq!(db.get_runs(id).unwrap().len(), 1);
    assert_eq!(st.take_state(&missing), None);
}

#[test]
fn resolve_returns_first_match() {
    let cfg = Config {
        widgets: vec![
            WidgetEnum::Weather(WidgetDefinition {
                id: WidgetId::new(String::from("dup")),
                config: WeatherWidgetConfig { location: [1, 1] },
            }),
            WidgetEnum::Weather(WidgetDefinition {
                id: WidgetId::new(String::from("dup")),
                config: WeatherWidgetConfig { location: [2, 2] },
            }),
        ],
    };
    let id = WidgetId::new(String::from("dup"));
    let WidgetEnum::Weather(found) = cfg.resolve(&id).expect("dup resolves");
    assert_eq!(found.config.location, [1, 1]);
}

#[test]
fn resolve_unknown_widget() {
    let cfg = one_widget_config("w1");
    let id = WidgetId::new(String::from("w2"));
    let r = cfg.resolve(&id);
    assert!(matches!(r, Err(DatabaseError::InvalidWidgetId)));
}

#[test]
fn widget_definition_id_getter() {
    let def = WidgetDefinition {
        id: WidgetId::new(String::from("w9")),
        config: WeatherWidgetConfig { location: [0, 0] },
    };
    assert_eq!(def.id(), WidgetId::new(String::from("w9")));
}

fn sample_run(widget: &str) -> widget_platform::widget::BackendRun {
    widget_platform::widget::BackendRun {
        id: RunId(0),
        widget: WidgetId::new(String::from(widget)),
        initiated: Initiator::Manual,
        started: 0,
        ended: 0,
        log: String::new(),
        result: Ok(None),
    }
}
