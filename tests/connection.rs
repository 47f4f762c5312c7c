use replicating_tmux::connection::{
    listener_step, AcceptOutcome, ConnState, Lifecycle, ListenerAction, Pump, Registry,
};

#[test]
fn lifecycle_runs_through_its_states() {
    let mut l = Lifecycle::new();
    assert_eq!(l.state(), ConnState::Connecting);
    assert!(l.activate());
    assert_eq!(l.state(), ConnState::Active);
    assert!(!l.activate());
    assert!(l.pump_exited(Pump::Input));
    assert_eq!(l.state(), ConnState::Stopping);
    assert!(l.stopped());
    assert!(!l.closed());
    assert!(!l.pump_exited(Pump::Output));
    assert_eq!(l.state(), ConnState::Closed);
    assert!(l.closed());
}

#[test]
fn stop_flag_rises_once() {
    let mut l = Lifecycle::new();
    l.activate();
    assert!(l.stop());
    assert!(!l.stop());
    assert!(!l.pump_exited(Pump::Output));
    assert!(!l.pump_exited(Pump::Input));
    assert!(!l.stop());
    assert_eq!(l.state(), ConnState::Closed);
}

#[test]
fn stop_before_pumps_start_closes() {
    let mut l = Lifecycle::new();
    assert!(l.stop());
    assert_eq!(l.state(), ConnState::Closed);
    assert!(!l.activate());
}

#[test]
fn registry_sweeps_closed_connections_on_register() {
    let mut r: Registry<&str> = Registry::new();
    assert!(r.register(1, "a"));
    assert!(r.register(2, "b"));
    assert!(!r.register(2, "again"));
    assert!(r.activate(1));
    assert!(r.activate(2));
    assert!(r.pump_exited(1, Pump::Input));
    assert!(!r.pump_exited(1, Pump::Output));
    assert_eq!(r.len(), 2);
    assert!(r.register(3, "c"));
    assert_eq!(r.len(), 2);
    assert!(!r.contains(1));
    assert_eq!(r.handle(2), Some(&"b"));
    assert_eq!(r.handle(3), Some(&"c"));
    assert_eq!(r.handle(1), None);
}

#[test]
fn registry_stop_reports_first_request_only() {
    let mut r: Registry<u8> = Registry::new();
    r.register(4, 0);
    r.activate(4);
    assert!(!r.stopped(4));
    assert!(r.stop(4));
    assert!(r.stopped(4));
    assert!(!r.stop(4));
    assert!(!r.stop(99));
}

#[test]
fn stop_all_stops_every_connection() {
    let mut r: Registry<u8> = Registry::new();
    for id in 0..4u64 {
        r.register(id, id as u8);
        r.activate(id);
    }
    assert!(r.stop(2));
    assert_eq!(r.stop_all(), vec![0, 1, 3]);
    for id in 0..4u64 {
        assert!(r.stopped(id));
    }
    assert!(r.stop_all().is_empty());
}

#[test]
fn one_client_leaving_leaves_the_other_active() {
    let mut r: Registry<u8> = Registry::new();
    r.register(10, 0);
    r.register(11, 1);
    r.activate(10);
    r.activate(11);
    // client 10's socket is closed: its input pump sees end of stream
    assert!(r.pump_exited(10, Pump::Input));
    assert!(r.stopped(10));
    assert!(!r.stopped(11));
}

#[test]
fn listener_steps() {
    let s = listener_step(AcceptOutcome::Accepted, false);
    assert_eq!(s.action, ListenerAction::Register);
    assert!(!s.raise_shutdown);
    let s = listener_step(AcceptOutcome::WouldBlock, false);
    assert_eq!(s.action, ListenerAction::Sleep);
    assert!(!s.raise_shutdown);
    let s = listener_step(AcceptOutcome::Failed, false);
    assert_eq!(s.action, ListenerAction::Leave);
    assert!(s.raise_shutdown);
}

#[test]
fn shell_exit_ends_the_listener() {
    // the loop checks the shutdown flag before every attempt
    let mut shutdown = false;
    let mut iterations = 0;
    let mut r: Registry<u8> = Registry::new();
    r.register(1, 0);
    r.activate(1);
    while !shutdown {
        iterations += 1;
        let step = listener_step(AcceptOutcome::WouldBlock, iterations >= 3);
        shutdown = step.raise_shutdown;
    }
    assert_eq!(iterations, 3);
    assert_eq!(r.stop_all(), vec![1]);
    assert!(r.stopped(1));
}
