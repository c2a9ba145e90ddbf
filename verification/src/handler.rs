//! The per-connection handler: a state machine over the bytes one accepted
//! connection has delivered. The surrounding task reads from its own stream,
//! hands the bytes in, and performs the step the handler decides. No state is
//! shared between connections: each handler owns its value alone, so no
//! connection's step can touch another.

use vstd::prelude::*;
use crate::http::RequestStatus;
use crate::http::check_request;
use crate::http::fixed_response;
use crate::http::fixed_response_bytes;
use crate::http::request_status_of;

verus! {

/// One accepted connection: the bytes received and not yet consumed.
pub struct Connection {
    buf: Vec<u8>,
}

/// What the handler's task should do next on its connection.
#[derive(PartialEq, Eq, Debug)]
pub enum HandlerStep {
    /// Wait for more bytes from the peer.
    NeedMore,
    /// Write `response` to the peer, then keep the connection open only if
    /// `keep_alive` holds.
    Respond { response: Vec<u8>, keep_alive: bool },
    /// The pending bytes are not a well-formed request: close this
    /// connection; no other connection is affected.
    CloseMalformed,
}

impl Connection {
    /// The bytes received on this connection and not yet consumed.
    pub closed spec fn pending(self) -> Seq<u8> {
        self.buf@
    }

    pub fn new() -> (c: Connection)
        ensures
            c.pending() == Seq::<u8>::empty(),
    {
        Connection { buf: Vec::new() }
    }

    /// Record bytes read from the peer.
    pub fn push_bytes(&mut self, data: &Vec<u8>)
        ensures
            final(self).pending() == old(self).pending() + data@,
    {
        let ghost pre = self.buf@;
        let mut k: usize = 0;
        while k < data.len()
            invariant
                k <= data.len(),
                pre == old(self).buf@,
                self.buf@ =~= pre + data@.subrange(0, k as int),
            decreases data.len() - k,
        {
            self.buf.push(data[k]);
            proof {
                assert(self.buf@ =~= pre + data@.subrange(0, k as int + 1));
            }
            k = k + 1;
        }
        proof {
            assert(pre + data@.subrange(0, data@.len() as int) =~= pre + data@);
        }
    }

    /// Drop the first `n` pending bytes: they have been answered.
    fn consume(&mut self, n: usize)
        requires
            n <= old(self).buf@.len(),
        ensures
            final(self).pending() == old(self).pending().skip(n as int),
    {
        let mut rest: Vec<u8> = Vec::new();
        let mut k: usize = n;
        while k < self.buf.len()
            invariant
                n <= k <= self.buf.len(),
                self.buf@ == old(self).buf@,
                rest@ =~= self.buf@.subrange(n as int, k as int),
            decreases self.buf.len() - k,
        {
            let b = self.buf[k];
            rest.push(b);
            proof {
                assert(rest@ =~= self.buf@.subrange(n as int, k as int + 1));
            }
            k = k + 1;
        }
        proof {
            assert(rest@ =~= old(self).buf@.skip(n as int));
        }
        self.buf = rest;
    }

    /// Decide the next step. Exactly one response — the fixed one — is
    /// written for each complete well-formed request, whatever its method,
    /// target or headers; malformed bytes close this connection alone;
    /// anything shorter waits for more bytes.
    pub fn next_step(&mut self) -> (step: HandlerStep)
        ensures
            match step {
                HandlerStep::NeedMore => request_status_of(old(self).pending())
                    is Incomplete && final(self).pending() == old(self).pending(),
                HandlerStep::CloseMalformed => request_status_of(old(self).pending())
                    is Malformed && final(self).pending() == old(self).pending(),
                HandlerStep::Respond { response, keep_alive } => {
                    &&& request_status_of(old(self).pending()) matches RequestStatus::Complete {
                        len,
                        keep_alive: ka,
                    } && keep_alive == ka && final(self).pending() == old(self).pending().skip(
                        len as int,
                    )
                    &&& response@ == fixed_response_bytes()
                },
            },
    {
        let status = check_request(&self.buf);
        match status {
            RequestStatus::Incomplete => HandlerStep::NeedMore,
            RequestStatus::Malformed => HandlerStep::CloseMalformed,
            RequestStatus::Complete { len, keep_alive } => {
                proof {
                    crate::http::lemma_complete_within_buffer(self.buf@);
                }
                self.consume(len);
                HandlerStep::Respond { response: fixed_response(), keep_alive }
            },
        }
    }
}

} // verus!
