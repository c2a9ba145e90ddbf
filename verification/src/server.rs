//! The acceptor as a state machine: from resolver output through binding to
//! the accept loop. The surrounding process owns the sockets; it feeds each
//! outcome in as an event and performs the action the machine decides. Fatal
//! errors (resolution, bind) stop the server before or at binding; accept
//! errors are logged and the loop goes on.

use vstd::prelude::*;
use crate::net::SocketAddress;
use crate::net::select_address;
use crate::net::selected_address;

verus! {

/// The responder's errors.
#[derive(PartialEq, Eq, Debug)]
pub enum ServeError {
    /// The hostname resolved to no address at all. Fatal, before binding.
    Resolution { hostname: String },
    /// The listening socket could not be bound. Fatal, before the loop.
    Bind { detail: String },
    /// One accept failed, or the listener itself did. Recoverable unless the
    /// listener closed: the loop goes on.
    Accept { detail: String },
    /// One connection's bytes broke HTTP framing. Recoverable: that
    /// connection alone is closed.
    Protocol { detail: String },
}

impl ServeError {
    /// Whether this error kind must stop the whole process.
    pub open spec fn spec_is_fatal(&self) -> bool {
        self is Resolution || self is Bind
    }

    pub fn is_fatal(&self) -> (r: bool)
        ensures
            r == self.spec_is_fatal(),
    {
        match self {
            ServeError::Resolution { .. } => true,
            ServeError::Bind { .. } => true,
            ServeError::Accept { .. } => false,
            ServeError::Protocol { .. } => false,
        }
    }
}

/// Where the acceptor stands.
#[derive(PartialEq, Eq, Debug)]
pub enum ServerPhase {
    /// Waiting for the resolver's candidates.
    Resolving,
    /// An address was chosen; waiting for the bind outcome.
    Binding { addr: SocketAddress },
    /// Listening at `addr`; waiting for accept outcomes.
    Accepting { addr: SocketAddress },
    /// The server has stopped.
    Stopped,
}

/// What the surrounding process reports to the acceptor.
#[derive(PartialEq, Eq, Debug)]
pub enum ServerEvent {
    /// The resolver returned these candidates for `hostname` (empty when
    /// nothing resolved).
    Resolved { hostname: String, candidates: Vec<SocketAddress> },
    /// The listening socket is bound.
    BindSucceeded,
    /// The bind failed.
    BindFailed { detail: String },
    /// One connection was accepted.
    Accepted,
    /// One accept failed without closing the listener.
    AcceptFailed { detail: String },
    /// The listening socket itself failed: the loop cannot go on.
    ListenerClosed { detail: String },
}

/// What the surrounding process must do next.
#[derive(PartialEq, Eq, Debug)]
pub enum ServerAction {
    /// Try to bind a listening socket at `addr`.
    Bind { addr: SocketAddress },
    /// Print the listening notice for `addr` once, then wait for connections.
    Announce { addr: SocketAddress },
    /// Hand the accepted connection to a fresh concurrent handler task and
    /// resume waiting at once, never on the handler's I/O.
    SpawnHandler,
    /// Log the recoverable error and keep accepting.
    LogAndContinue { error: ServeError },
    /// Surface the error and exit non-zero.
    Fail { error: ServeError },
    /// Nothing: the event does not belong to this phase.
    Ignore,
}

/// The acceptor's transition table.
pub open spec fn spec_server_step(phase: ServerPhase, event: ServerEvent) -> (
    ServerPhase,
    ServerAction,
) {
    match (phase, event) {
        (ServerPhase::Resolving, ServerEvent::Resolved { hostname, candidates }) => {
            match selected_address(candidates@) {
                Some(addr) => (ServerPhase::Binding { addr }, ServerAction::Bind { addr }),
                None => (
                    ServerPhase::Stopped,
                    ServerAction::Fail { error: ServeError::Resolution { hostname } },
                ),
            }
        },
        (ServerPhase::Binding { addr }, ServerEvent::BindSucceeded) => (
            ServerPhase::Accepting { addr },
            ServerAction::Announce { addr },
        ),
        (ServerPhase::Binding { .. }, ServerEvent::BindFailed { detail }) => (
            ServerPhase::Stopped,
            ServerAction::Fail { error: ServeError::Bind { detail } },
        ),
        (ServerPhase::Accepting { addr }, ServerEvent::Accepted) => (
            ServerPhase::Accepting { addr },
            ServerAction::SpawnHandler,
        ),
        (ServerPhase::Accepting { addr }, ServerEvent::AcceptFailed { detail }) => (
            ServerPhase::Accepting { addr },
            ServerAction::LogAndContinue { error: ServeError::Accept { detail } },
        ),
        (ServerPhase::Accepting { .. }, ServerEvent::ListenerClosed { detail }) => (
            ServerPhase::Stopped,
            ServerAction::Fail { error: ServeError::Accept { detail } },
        ),
        (p, _) => (p, ServerAction::Ignore),
    }
}

/// Take one step of the acceptor: the next phase and the action to perform.
pub fn server_step(phase: ServerPhase, event: ServerEvent) -> (r: (ServerPhase, ServerAction))
    ensures
        r == spec_server_step(phase, event),
{
    match (phase, event) {
        (ServerPhase::Resolving, ServerEvent::Resolved { hostname, candidates }) => {
            match select_address(&candidates) {
                Some(addr) => (ServerPhase::Binding { addr }, ServerAction::Bind { addr }),
                None => (
                    ServerPhase::Stopped,
                    ServerAction::Fail { error: ServeError::Resolution { hostname } },
                ),
            }
        },
        (ServerPhase::Binding { addr }, ServerEvent::BindSucceeded) => (
            ServerPhase::Accepting { addr },
            ServerAction::Announce { addr },
        ),
        (ServerPhase::Binding { .. }, ServerEvent::BindFailed { detail }) => (
            ServerPhase::Stopped,
            ServerAction::Fail { error: ServeError::Bind { detail } },
        ),
        (ServerPhase::Accepting { addr }, ServerEvent::Accepted) => (
            ServerPhase::Accepting { addr },
            ServerAction::SpawnHandler,
        ),
        (ServerPhase::Accepting { addr }, ServerEvent::AcceptFailed { detail }) => (
            ServerPhase::Accepting { addr },
            ServerAction::LogAndContinue { error: ServeError::Accept { detail } },
        ),
        (ServerPhase::Accepting { .. }, ServerEvent::ListenerClosed { detail }) => (
            ServerPhase::Stopped,
            ServerAction::Fail { error: ServeError::Accept { detail } },
        ),
        (p, _) => (p, ServerAction::Ignore),
    }
}

/// Law: when resolution yields no usable address the server stops with a
/// `Resolution` error carrying the hostname, and never attempts to bind.
pub proof fn lemma_resolution_failure_never_binds(hostname: String, candidates: Vec<SocketAddress>)
    requires
        selected_address(candidates@) is None,
    ensures
        ({
            let (p, a) = spec_server_step(
                ServerPhase::Resolving,
                ServerEvent::Resolved { hostname, candidates },
            );
            &&& p == ServerPhase::Stopped
            &&& a == (ServerAction::Fail { error: ServeError::Resolution { hostname } })
            &&& !(a is Bind)
        }),
{
}

/// Law: when resolution yields an address the server attempts to bind exactly
/// the selected address, and nothing stops yet.
pub proof fn lemma_resolution_success_binds(hostname: String, candidates: Vec<SocketAddress>)
    requires
        selected_address(candidates@) is Some,
    ensures
        ({
            let (p, a) = spec_server_step(
                ServerPhase::Resolving,
                ServerEvent::Resolved { hostname, candidates },
            );
            let addr = selected_address(candidates@)->0;
            &&& p == (ServerPhase::Binding { addr })
            &&& a == (ServerAction::Bind { addr })
        }),
{
}

/// Law: a failed bind stops the server with a fatal `Bind` error.
pub proof fn lemma_bind_failure_stops(addr: SocketAddress, detail: String)
    ensures
        ({
            let (p, a) = spec_server_step(
                ServerPhase::Binding { addr },
                ServerEvent::BindFailed { detail },
            );
            &&& p == ServerPhase::Stopped
            &&& a == (ServerAction::Fail { error: ServeError::Bind { detail } })
            &&& (ServeError::Bind { detail }).spec_is_fatal()
        }),
{
}

/// Law: a failed accept is logged as a recoverable error and the server keeps
/// accepting at the same address.
pub proof fn lemma_accept_failure_keeps_accepting(addr: SocketAddress, detail: String)
    ensures
        ({
            let (p, a) = spec_server_step(
                ServerPhase::Accepting { addr },
                ServerEvent::AcceptFailed { detail },
            );
            &&& p == (ServerPhase::Accepting { addr })
            &&& a == (ServerAction::LogAndContinue { error: ServeError::Accept { detail } })
            &&& !(ServeError::Accept { detail }).spec_is_fatal()
        }),
{
}

} // verus!
