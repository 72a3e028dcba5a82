use proxy::error::ProxyError;
use proxy::relay::{pump_step, step, Action, Event, Outcome, Pump, State, Transfer};

const EVENTS: [Event; 6] = [
    Event::Connected,
    Event::ConnectFailed,
    Event::BadRequest,
    Event::EndOfStream,
    Event::IoFailed,
    Event::ShutdownDone,
];

const STATES: [State; 4] = [State::Bootstrapping, State::Relaying, State::Closing, State::Closed];

#[test]
fn connection_runs_through_its_life() {
    let s = step(State::Bootstrapping, Event::Connected);
    assert_eq!(s, Outcome { state: State::Relaying, action: Action::StartRelay, error: None });
    let s = step(s.state, Event::EndOfStream);
    assert_eq!(s, Outcome { state: State::Closing, action: Action::ShutdownPeer, error: None });
    let s = step(s.state, Event::ShutdownDone);
    assert_eq!(s, Outcome { state: State::Closed, action: Action::Teardown, error: None });
    let s = step(s.state, Event::EndOfStream);
    assert_eq!(s, Outcome { state: State::Closed, action: Action::Nothing, error: None });
}

#[test]
fn failed_bootstrap_closes_at_once() {
    assert_eq!(
        step(State::Bootstrapping, Event::ConnectFailed),
        Outcome {
            state: State::Closed,
            action: Action::Teardown,
            error: Some(ProxyError::UpstreamUnreachable),
        }
    );
    assert_eq!(
        step(State::Bootstrapping, Event::BadRequest),
        Outcome {
            state: State::Closed,
            action: Action::Teardown,
            error: Some(ProxyError::MalformedRequest),
        }
    );
    assert_eq!(
        step(State::Bootstrapping, Event::EndOfStream),
        Outcome { state: State::Closed, action: Action::Teardown, error: None }
    );
}

#[test]
fn io_failure_ends_a_relay() {
    assert_eq!(
        step(State::Relaying, Event::IoFailed),
        Outcome { state: State::Closing, action: Action::ShutdownPeer, error: None }
    );
    assert_eq!(
        step(State::Closing, Event::IoFailed),
        Outcome { state: State::Closed, action: Action::Teardown, error: None }
    );
}

#[test]
fn events_out_of_place_change_nothing() {
    for event in [Event::Connected, Event::ConnectFailed, Event::BadRequest, Event::ShutdownDone] {
        assert_eq!(
            step(State::Relaying, event),
            Outcome { state: State::Relaying, action: Action::Nothing, error: None }
        );
    }
    for event in [Event::Connected, Event::ConnectFailed, Event::BadRequest, Event::EndOfStream] {
        assert_eq!(
            step(State::Closing, event),
            Outcome { state: State::Closing, action: Action::Nothing, error: None }
        );
    }
    assert_eq!(
        step(State::Bootstrapping, Event::ShutdownDone),
        Outcome { state: State::Bootstrapping, action: Action::Nothing, error: None }
    );
}

#[test]
fn closed_connection_stays_closed() {
    for event in EVENTS {
        assert_eq!(
            step(State::Closed, event),
            Outcome { state: State::Closed, action: Action::Nothing, error: None }
        );
    }
}

#[test]
fn teardown_comes_once_on_every_path() {
    fn walk(state: State, teardowns: u32, depth: u32) {
        assert!(teardowns <= 1);
        assert_eq!(teardowns == 1, state == State::Closed);
        if depth == 0 {
            return;
        }
        for event in EVENTS {
            let next = step(state, event);
            let more = if next.action == Action::Teardown { 1 } else { 0 };
            walk(next.state, teardowns + more, depth - 1);
        }
    }
    for state in STATES {
        if state != State::Closed {
            walk(state, 0, 5);
        }
    }
}

#[test]
fn pump_reads_then_writes_all() {
    let p = pump_step(Pump::Reading, Transfer::Read(100));
    assert_eq!(p, Pump::Writing(100));
    let p = pump_step(p, Transfer::Wrote(60));
    assert_eq!(p, Pump::Writing(40));
    let p = pump_step(p, Transfer::Wrote(40));
    assert_eq!(p, Pump::Reading);
    assert_eq!(pump_step(p, Transfer::Read(0)), Pump::Finished);
}

#[test]
fn pump_ends_on_failure_and_on_a_write_that_cannot_be() {
    assert_eq!(pump_step(Pump::Reading, Transfer::Failed), Pump::Finished);
    assert_eq!(pump_step(Pump::Writing(5), Transfer::Failed), Pump::Finished);
    assert_eq!(pump_step(Pump::Writing(5), Transfer::Wrote(0)), Pump::Finished);
    assert_eq!(pump_step(Pump::Writing(5), Transfer::Wrote(6)), Pump::Finished);
    assert_eq!(pump_step(Pump::Finished, Transfer::Read(9)), Pump::Finished);
    assert_eq!(pump_step(Pump::Finished, Transfer::Wrote(9)), Pump::Finished);
}

#[test]
fn pump_ignores_what_it_did_not_wait_for() {
    assert_eq!(pump_step(Pump::Reading, Transfer::Wrote(3)), Pump::Reading);
    assert_eq!(pump_step(Pump::Writing(5), Transfer::Read(3)), Pump::Writing(5));
}
