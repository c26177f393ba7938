use storage_event_monitor::mux::{plan_dispatch, DispatchPlan, Readiness, SourceId};

fn quiet() -> Readiness {
    Readiness { readable: false, error: false, hangup: false, invalid: false }
}

fn readable() -> Readiness {
    Readiness { readable: true, error: false, hangup: false, invalid: false }
}

#[test]
fn fatal_conditions_are_detected() {
    assert!(!quiet().is_fatal());
    assert!(!readable().is_fatal());
    assert!(Readiness { error: true, ..quiet() }.is_fatal());
    assert!(Readiness { hangup: true, ..quiet() }.is_fatal());
    assert!(Readiness { invalid: true, ..quiet() }.is_fatal());
}

#[test]
fn lost_log_source_ends_the_process() {
    let p = plan_dispatch(Readiness { hangup: true, ..quiet() }, readable());
    assert_eq!(p, DispatchPlan::Fatal(SourceId::Log));
}

#[test]
fn lost_device_source_ends_the_process() {
    let p = plan_dispatch(readable(), Readiness { error: true, ..quiet() });
    assert_eq!(p, DispatchPlan::Fatal(SourceId::Device));
}

#[test]
fn exit_codes_are_distinct_and_nonzero() {
    assert_eq!(SourceId::Log.exit_code(), 2);
    assert_eq!(SourceId::Device.exit_code(), 3);
    assert_ne!(SourceId::Log.exit_code(), 0);
    assert_ne!(SourceId::Device.exit_code(), 0);
    assert_ne!(SourceId::Log.exit_code(), SourceId::Device.exit_code());
}

#[test]
fn log_events_drain_before_device_events() {
    let p = plan_dispatch(readable(), readable());
    assert_eq!(p, DispatchPlan::Drain { log: true, device: true });
    assert_eq!(p.drain_order(), vec![SourceId::Log, SourceId::Device]);
}

#[test]
fn only_ready_sources_are_drained() {
    let p = plan_dispatch(readable(), quiet());
    assert_eq!(p.drain_order(), vec![SourceId::Log]);
    let p = plan_dispatch(quiet(), readable());
    assert_eq!(p.drain_order(), vec![SourceId::Device]);
    let p = plan_dispatch(quiet(), quiet());
    assert!(p.drain_order().is_empty());
    let p = plan_dispatch(Readiness { invalid: true, ..quiet() }, readable());
    assert!(p.drain_order().is_empty());
}
