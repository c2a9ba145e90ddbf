use myfirstclap::net::{IpAddress, SocketAddress};
use myfirstclap::server::{
    server_step, ServeError, ServerAction, ServerEvent, ServerPhase,
};

fn v4(a: u8, b: u8, c: u8, d: u8, port: u16) -> SocketAddress {
    SocketAddress { ip: IpAddress::V4(a, b, c, d), port }
}

fn v6_loopback(port: u16) -> SocketAddress {
    SocketAddress { ip: IpAddress::V6(0, 0, 0, 0, 0, 0, 0, 1), port }
}

#[test]
fn unresolvable_hostname_fails_without_binding() {
    let (phase, action) = server_step(
        ServerPhase::Resolving,
        ServerEvent::Resolved {
            hostname: "nosuch.host.invalid".to_string(),
            candidates: vec![],
        },
    );
    assert_eq!(phase, ServerPhase::Stopped);
    match action {
        ServerAction::Fail { error } => {
            assert_eq!(
                error,
                ServeError::Resolution { hostname: "nosuch.host.invalid".to_string() }
            );
            assert!(error.is_fatal());
        }
        other => panic!("expected a fatal failure, got {:?}", other),
    }
}

#[test]
fn resolution_prefers_ipv4_over_ipv6() {
    let wanted = v4(127, 0, 0, 1, 3000);
    let (phase, action) = server_step(
        ServerPhase::Resolving,
        ServerEvent::Resolved {
            hostname: "localhost".to_string(),
            candidates: vec![v6_loopback(3000), wanted, v4(10, 0, 0, 7, 3000)],
        },
    );
    assert_eq!(phase, ServerPhase::Binding { addr: wanted });
    assert_eq!(action, ServerAction::Bind { addr: wanted });
}

#[test]
fn resolution_falls_back_to_any_family() {
    let only = v6_loopback(3000);
    let (phase, action) = server_step(
        ServerPhase::Resolving,
        ServerEvent::Resolved {
            hostname: "localhost".to_string(),
            candidates: vec![only],
        },
    );
    assert_eq!(phase, ServerPhase::Binding { addr: only });
    assert_eq!(action, ServerAction::Bind { addr: only });
}

#[test]
fn bind_failure_is_fatal() {
    let addr = v4(127, 0, 0, 1, 3000);
    let (phase, action) = server_step(
        ServerPhase::Binding { addr },
        ServerEvent::BindFailed { detail: "address in use".to_string() },
    );
    assert_eq!(phase, ServerPhase::Stopped);
    match action {
        ServerAction::Fail { error } => {
            assert_eq!(error, ServeError::Bind { detail: "address in use".to_string() });
            assert!(error.is_fatal());
        }
        other => panic!("expected a fatal failure, got {:?}", other),
    }
}

#[test]
fn bind_success_announces_then_accepts() {
    let addr = v4(127, 0, 0, 1, 3000);
    let (phase, action) = server_step(ServerPhase::Binding { addr }, ServerEvent::BindSucceeded);
    assert_eq!(phase, ServerPhase::Accepting { addr });
    assert_eq!(action, ServerAction::Announce { addr });
}

#[test]
fn accepted_connection_spawns_and_keeps_accepting() {
    let addr = v4(0, 0, 0, 0, 8080);
    let (phase, action) = server_step(ServerPhase::Accepting { addr }, ServerEvent::Accepted);
    assert_eq!(phase, ServerPhase::Accepting { addr });
    assert_eq!(action, ServerAction::SpawnHandler);
}

#[test]
fn accept_failure_is_logged_and_the_loop_goes_on() {
    let addr = v4(0, 0, 0, 0, 8080);
    let (phase, action) = server_step(
        ServerPhase::Accepting { addr },
        ServerEvent::AcceptFailed { detail: "connection reset".to_string() },
    );
    assert_eq!(phase, ServerPhase::Accepting { addr });
    match action {
        ServerAction::LogAndContinue { error } => {
            assert_eq!(error, ServeError::Accept { detail: "connection reset".to_string() });
            assert!(!error.is_fatal());
        }
        other => panic!("expected a logged continuation, got {:?}", other),
    }
}

#[test]
fn listener_failure_stops_the_loop() {
    let addr = v4(0, 0, 0, 0, 8080);
    let (phase, action) = server_step(
        ServerPhase::Accepting { addr },
        ServerEvent::ListenerClosed { detail: "socket closed".to_string() },
    );
    assert_eq!(phase, ServerPhase::Stopped);
    assert!(matches!(action, ServerAction::Fail { .. }));
}

#[test]
fn events_out_of_phase_are_ignored() {
    let (phase, action) = server_step(ServerPhase::Resolving, ServerEvent::Accepted);
    assert_eq!(phase, ServerPhase::Resolving);
    assert_eq!(action, ServerAction::Ignore);
    let (phase2, action2) = server_step(ServerPhase::Stopped, ServerEvent::BindSucceeded);
    assert_eq!(phase2, ServerPhase::Stopped);
    assert_eq!(action2, ServerAction::Ignore);
}

#[test]
fn protocol_errors_are_never_fatal() {
    let err = ServeError::Protocol { detail: "bad framing".to_string() };
    assert!(!err.is_fatal());
}
