//! The top-level orchestrator: the connection table and the idle sweep.
//!
//! The run loop itself performs socket I/O and lives outside the crate;
//! it registers accepted streams here, drives each ready connection's
//! state machine, and calls the periodic sweep.  The sweep closes every
//! connection idle for longer than `idle_max` and touches no other.

use vstd::prelude::*;
use crate::connection::ConnState;
use crate::connection::Connection;
use crate::settings::Settings;

verus! {

/// The server: settings plus the table of live connections.
pub struct Server {
    /// The immutable configuration.
    pub settings: Settings,
    /// All connections this worker owns, live and closed.
    pub conns: Vec<Connection>,
}

impl Server {
    /// Every connection's buffers are well formed.
    pub open spec fn wf(self) -> bool {
        forall|i: int| 0 <= i < self.conns@.len() ==> (#[trigger] self.conns@[i]).wf()
    }

    /// A server over the given settings, with no connections yet.
    pub fn new(settings: Settings) -> (r: Server)
        ensures
            r.wf(),
            r.settings == settings,
            r.conns@.len() == 0,
    {
        Server { settings, conns: Vec::new() }
    }

    /// How many pending connections one accept cycle may take.
    pub fn accept_budget(&self) -> (r: usize)
        ensures
            r == self.settings.backlog,
    {
        self.settings.backlog
    }

    /// Registers a stream accepted at `now`; its stable handle is the
    /// returned index.
    pub fn add_connection(&mut self, now: u64) -> (i: usize)
        requires
            old(self).wf(),
            old(self).conns@.len() < usize::MAX,
        ensures
            final(self).wf(),
            final(self).settings == old(self).settings,
            i == old(self).conns@.len(),
            final(self).conns@.len() == old(self).conns@.len() + 1,
            final(self).conns@.subrange(0, i as int) == old(self).conns@,
            final(self).conns@[i as int].state == ConnState::AwaitingRequest,
            final(self).conns@[i as int].last_activity == now,
            final(self).conns@[i as int].created_at == now,
            final(self).conns@[i as int].keep_alive_ok,
            final(self).conns@[i as int].inbound.unread() == Seq::<u8>::empty(),
    {
        let i = self.conns.len();
        let c = Connection::new(now);
        self.conns.push(c);
        proof {
            assert(self.conns@.subrange(0, i as int) =~= old(self).conns@);
        }
        i
    }

    /// The periodic sweep: closes exactly the connections whose idle
    /// time exceeds the configured maximum, and leaves every connection
    /// active within it untouched.
    pub fn sweep_idle(&mut self, now: u64)
        requires
            old(self).wf(),
        ensures
            final(self).wf(),
            final(self).settings == old(self).settings,
            final(self).conns@.len() == old(self).conns@.len(),
            forall|i: int|
                0 <= i < old(self).conns@.len() ==> #[trigger] final(self).conns@[i] == ({
                    let c = old(self).conns@[i];
                    if c.spec_idle_exceeded(now, old(self).settings.idle_max_ms) {
                        Connection { state: ConnState::Closed, ..c }
                    } else {
                        c
                    }
                }),
    {
        let idle_max = self.settings.idle_max_ms;
        let mut i: usize = 0;
        while i < self.conns.len()
            invariant
                self.wf(),
                self.settings == old(self).settings,
                self.conns@.len() == old(self).conns@.len(),
                i <= self.conns@.len(),
                idle_max == old(self).settings.idle_max_ms,
                forall|k: int|
                    0 <= k < i ==> #[trigger] self.conns@[k] == ({
                        let c = old(self).conns@[k];
                        if c.spec_idle_exceeded(now, idle_max) {
                            Connection { state: ConnState::Closed, ..c }
                        } else {
                            c
                        }
                    }),
                forall|k: int|
                    i <= k < self.conns@.len() ==> #[trigger] self.conns@[k] == old(
                        self,
                    ).conns@[k],
            decreases self.conns@.len() - i,
        {
            let idle = self.conns[i].idle_exceeded(now, idle_max);
            if idle {
                let ghost before = self.conns@;
                let mut c = self.conns.remove(i);
                c.close();
                self.conns.insert(i, c);
                proof {
                    assert(self.conns@ =~= before.update(i as int, c));
                }
            }
            i = i + 1;
        }
    }
}

} // verus!
