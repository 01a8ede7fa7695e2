//! The bookkeeping of a connection to one node, apart from its socket:
//! idle expiry, the count of bytes read since the last bookmark, and the
//! order of the steps that open a connection. Times are instants in
//! milliseconds on a monotonic clock, handed in by the caller.
use vstd::prelude::*;

verus! {

/// The bookkeeping state as plain values.
pub struct ConnState {
    pub timeout: Option<u64>,
    pub idle_timeout: Option<u64>,
    pub idle_deadline: Option<u64>,
    pub bytes_read: nat,
}

/// The deadline is present exactly when idle tracking is on.
pub open spec fn conn_wf(s: ConnState) -> bool {
    s.idle_deadline is Some <==> s.idle_timeout is Some
}

/// `now + d`, or the largest instant where that does not fit.
pub open spec fn deadline_after(now: u64, d: u64) -> u64 {
    if now + d <= u64::MAX {
        (now + d) as u64
    } else {
        u64::MAX
    }
}

/// The deadline after I/O at `now`: none where idle tracking is off.
pub open spec fn deadline_for(idle_timeout: Option<u64>, now: u64) -> Option<u64> {
    match idle_timeout {
        Some(d) => Some(deadline_after(now, d)),
        None => None,
    }
}

/// The state after successful I/O at `now`.
pub open spec fn refreshed(s: ConnState, now: u64) -> ConnState {
    ConnState { idle_deadline: deadline_for(s.idle_timeout, now), ..s }
}

/// Whether the idle deadline has passed at `now`.
pub open spec fn idle_at(s: ConnState, now: u64) -> bool {
    match s.idle_deadline {
        Some(dl) => now >= dl,
        None => false,
    }
}

/// Idle expiry, the per-operation timeout and the bytes-read counter of
/// one connection.
pub struct ConnectionState {
    timeout: Option<u64>,
    idle_timeout: Option<u64>,
    idle_deadline: Option<u64>,
    bytes_read: usize,
}

impl View for ConnectionState {
    type V = ConnState;

    closed spec fn view(&self) -> ConnState {
        ConnState {
            timeout: self.timeout,
            idle_timeout: self.idle_timeout,
            idle_deadline: self.idle_deadline,
            bytes_read: self.bytes_read as nat,
        }
    }
}

fn deadline_exec(idle_timeout: Option<u64>, now: u64) -> (r: Option<u64>)
    ensures
        r == deadline_for(idle_timeout, now),
{
    match idle_timeout {
        Some(d) => Some(
            if now <= u64::MAX - d {
                now + d
            } else {
                u64::MAX
            },
        ),
        None => None,
    }
}

impl ConnectionState {
    pub open spec fn wf(&self) -> bool {
        conn_wf(self@)
    }

    /// The state of a connection that has just been opened at `now`.
    pub fn new(timeout: Option<u64>, idle_timeout: Option<u64>, now: u64) -> (r: Self)
        ensures
            r@ == (ConnState {
                timeout,
                idle_timeout,
                idle_deadline: deadline_for(idle_timeout, now),
                bytes_read: 0,
            }),
            r.wf(),
    {
        ConnectionState {
            timeout,
            idle_timeout,
            idle_deadline: deadline_exec(idle_timeout, now),
            bytes_read: 0,
        }
    }

    /// Restarts the idle deadline after successful I/O at `now`.
    pub fn refresh(&mut self, now: u64)
        ensures
            final(self)@ == refreshed(old(self)@, now),
            final(self).wf(),
    {
        self.idle_deadline = deadline_exec(self.idle_timeout, now);
    }

    /// Records a successful read of `n` bytes at `now`.
    pub fn record_read(&mut self, n: usize, now: u64)
        requires
            old(self)@.bytes_read + n <= usize::MAX,
        ensures
            final(self)@ == (ConnState {
                bytes_read: old(self)@.bytes_read + n as nat,
                ..refreshed(old(self)@, now)
            }),
            final(self).wf(),
    {
        self.bytes_read = self.bytes_read + n;
        self.refresh(now);
    }

    /// Records a successful write at `now`.
    pub fn record_write(&mut self, now: u64)
        ensures
            final(self)@ == refreshed(old(self)@, now),
            final(self).wf(),
    {
        self.refresh(now);
    }

    /// Whether the idle deadline has passed at `now`; false where idle
    /// tracking is off.
    pub fn is_idle(&self, now: u64) -> (r: bool)
        ensures
            r == idle_at(self@, now),
            self.wf() && self@.idle_timeout is None ==> !r,
    {
        match self.idle_deadline {
            Some(dl) => now >= dl,
            None => false,
        }
    }

    /// Starts a new exchange: the bytes-read counter goes back to zero.
    pub fn bookmark(&mut self)
        ensures
            final(self)@ == (ConnState { bytes_read: 0, ..old(self)@ }),
            final(self).wf() == old(self).wf(),
    {
        self.bytes_read = 0;
    }

    /// The bytes read since the last bookmark.
    pub fn bytes_read(&self) -> (r: usize)
        ensures
            r == self@.bytes_read,
    {
        self.bytes_read
    }

    /// The per-operation timeout.
    pub fn timeout(&self) -> (r: Option<u64>)
        ensures
            r == self@.timeout,
    {
        self.timeout
    }
}

/// With an idle timeout configured, a connection is not idle right after
/// successful I/O, nor at any instant before the timeout has passed since
/// (where the deadline does not saturate at the largest instant), and is idle once the timeout has
/// passed with no further I/O. Without idle tracking it is never idle.
pub proof fn lemma_idle_after_io(s: ConnState, now: u64, later: u64)
    requires
        s.idle_timeout matches Some(t) ==> t > 0 && now < u64::MAX,
    ensures
        s.idle_timeout is Some ==> !idle_at(refreshed(s, now), now),
        s.idle_timeout matches Some(t) ==> (now + t <= u64::MAX && now <= later < now + t ==> !idle_at(
            refreshed(s, now),
            later,
        )),
        s.idle_timeout matches Some(t) ==> (later >= now + t ==> idle_at(refreshed(s, now), later)),
        s.idle_timeout is None ==> !idle_at(refreshed(s, now), later),
        conn_wf(refreshed(s, now)),
{
}

/// The step that opening a connection has reached.
#[derive(Debug, Clone, Copy, PartialEq, Eq)]
pub enum OpenPhase {
    /// Opening the socket, within the connect timeout.
    Connect,
    /// The TLS handshake.
    Tls,
    /// The authentication exchange.
    Authenticate,
}

/// What the caller does next while opening a connection.
#[derive(Debug, Clone, Copy, PartialEq, Eq)]
pub enum OpenAction {
    /// Run the given phase.
    Run(OpenPhase),
    /// The connection is ready: reset its idle deadline and hand it out.
    Ready,
    /// Close the half-opened stream, then report the failure of the phase.
    CloseAndFail(OpenPhase),
    /// Report the failure of the phase; there is nothing to close.
    Fail(OpenPhase),
}

/// The phase after `phase`, or none when the connection is ready.
pub open spec fn phase_after(phase: OpenPhase, tls: bool, auth: bool) -> Option<OpenPhase> {
    match phase {
        OpenPhase::Connect => if tls {
            Some(OpenPhase::Tls)
        } else if auth {
            Some(OpenPhase::Authenticate)
        } else {
            None
        },
        OpenPhase::Tls => if auth {
            Some(OpenPhase::Authenticate)
        } else {
            None
        },
        OpenPhase::Authenticate => None,
    }
}

/// The next action after `phase` ended (`ok` tells how), with TLS and
/// credentials configured or not. A failed authentication closes the
/// stream before the error goes out; no failure is retried.
pub fn next_open_action(phase: OpenPhase, ok: bool, tls: bool, auth: bool) -> (r: OpenAction)
    ensures
        ok ==> r == match phase_after(phase, tls, auth) {
            Some(p) => OpenAction::Run(p),
            None => OpenAction::Ready,
        },
        !ok && phase == OpenPhase::Authenticate ==> r == OpenAction::CloseAndFail(phase),
        !ok && phase != OpenPhase::Authenticate ==> r == OpenAction::Fail(phase),
{
    if !ok {
        return match phase {
            OpenPhase::Authenticate => OpenAction::CloseAndFail(phase),
            _ => OpenAction::Fail(phase),
        };
    }
    match phase {
        OpenPhase::Connect => if tls {
            OpenAction::Run(OpenPhase::Tls)
        } else if auth {
            OpenAction::Run(OpenPhase::Authenticate)
        } else {
            OpenAction::Ready
        },
        OpenPhase::Tls => if auth {
            OpenAction::Run(OpenPhase::Authenticate)
        } else {
            OpenAction::Ready
        },
        OpenPhase::Authenticate => OpenAction::Ready,
    }
}

} // verus!
