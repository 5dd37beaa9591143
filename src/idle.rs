//! Keepalive supervision: periodic pings and a deadline for the pong.
//!
//! The supervisor decides; whoever runs the periodic task performs what it
//! decides (send a ping, close the connection, stop).

use vstd::prelude::*;
use crate::message::ClientMessage;

verus! {

/// Opcode of the client's pong.
pub const PONG_EVENT_HEADER: u16 = 1234;

#[derive(Clone, Copy, Debug, PartialEq, Eq, Structural)]
pub enum IdleState {
    Uninitialized,
    Running,
    Destroyed,
}

/// What a tick of the periodic task asks for.
#[derive(Clone, Copy, Debug, PartialEq, Eq, Structural)]
pub enum TickAction {
    /// The supervisor is not running: end the task.
    Stop,
    /// No pong within the timeout: close the connection and end the task.
    Close,
    /// Send a ping and wait for the next tick.
    SendPing,
}

/// Seconds as milliseconds, at least one, saturating.
pub open spec fn duration_ms(secs: u64) -> u64 {
    if secs == 0 {
        1
    } else if secs > u64::MAX / 1000 {
        u64::MAX
    } else {
        (secs * 1000) as u64
    }
}

/// The pong deadline has passed at `now`.
pub open spec fn pong_overdue(last_pong: u64, now: u64, pong_timeout: u64) -> bool {
    now > last_pong && now - last_pong > pong_timeout
}

pub open spec fn tick_action(state: IdleState, last_pong: u64, now: u64, pong_timeout: u64) -> TickAction {
    if state != IdleState::Running {
        TickAction::Stop
    } else if pong_overdue(last_pong, now, pong_timeout) {
        TickAction::Close
    } else {
        TickAction::SendPing
    }
}

/// Ping schedule, pong timeout (milliseconds), the time of the last pong and
/// the lifecycle state of one connection's supervisor.
pub struct IdleTimeoutHandler {
    ping_schedule: u64,
    pong_timeout: u64,
    last_pong: u64,
    state: IdleState,
}

impl IdleTimeoutHandler {
    pub closed spec fn spec_ping_schedule(&self) -> u64 {
        self.ping_schedule
    }

    pub closed spec fn spec_pong_timeout(&self) -> u64 {
        self.pong_timeout
    }

    pub closed spec fn spec_last_pong(&self) -> u64 {
        self.last_pong
    }

    pub closed spec fn spec_state(&self) -> IdleState {
        self.state
    }

    /// A supervisor pinging every `ping_schedule_secs` seconds and waiting
    /// `pong_timeout_secs` seconds for a pong (each at least a millisecond).
    pub fn new(ping_schedule_secs: u64, pong_timeout_secs: u64) -> (r: Self)
        ensures
            r.spec_ping_schedule() == duration_ms(ping_schedule_secs),
            r.spec_pong_timeout() == duration_ms(pong_timeout_secs),
            r.spec_state() == IdleState::Uninitialized,
    {
        IdleTimeoutHandler {
            ping_schedule: Self::to_millis(ping_schedule_secs),
            pong_timeout: Self::to_millis(pong_timeout_secs),
            last_pong: 0,
            state: IdleState::Uninitialized,
        }
    }

    fn to_millis(secs: u64) -> (r: u64)
        ensures
            r == duration_ms(secs),
    {
        if secs == 0 {
            1
        } else if secs > u64::MAX / 1000 {
            u64::MAX
        } else {
            secs * 1000
        }
    }

    pub fn ping_schedule(&self) -> (r: u64)
        ensures
            r == self.spec_ping_schedule(),
    {
        self.ping_schedule
    }

    pub fn pong_timeout(&self) -> (r: u64)
        ensures
            r == self.spec_pong_timeout(),
    {
        self.pong_timeout
    }

    pub fn state(&self) -> (r: IdleState)
        ensures
            r == self.spec_state(),
    {
        self.state
    }

    /// Starts supervision at `now`; returns whether the periodic task is to
    /// be started. Only the first call on a fresh supervisor does anything.
    pub fn initialize(&mut self, now: u64) -> (r: bool)
        ensures
            r == (old(self).spec_state() == IdleState::Uninitialized),
            r ==> final(self).spec_state() == IdleState::Running && final(self).spec_last_pong()
                == now,
            !r ==> *final(self) == *old(self),
            final(self).spec_ping_schedule() == old(self).spec_ping_schedule(),
            final(self).spec_pong_timeout() == old(self).spec_pong_timeout(),
    {
        if self.state != IdleState::Uninitialized {
            return false;
        }
        self.state = IdleState::Running;
        self.last_pong = now;
        true
    }

    /// What the periodic task does at `now`.
    pub fn tick(&self, now: u64) -> (r: TickAction)
        ensures
            r == tick_action(self.spec_state(), self.spec_last_pong(), now, self.spec_pong_timeout()),
    {
        if self.state != IdleState::Running {
            TickAction::Stop
        } else if now > self.last_pong && now - self.last_pong > self.pong_timeout {
            TickAction::Close
        } else {
            TickAction::SendPing
        }
    }

    /// Stops supervision for good.
    pub fn destroy(&mut self)
        ensures
            final(self).spec_state() == IdleState::Destroyed,
            final(self).spec_last_pong() == old(self).spec_last_pong(),
            final(self).spec_ping_schedule() == old(self).spec_ping_schedule(),
            final(self).spec_pong_timeout() == old(self).spec_pong_timeout(),
    {
        self.state = IdleState::Destroyed;
    }

    /// A pong received at `now` moves the deadline; other messages do not.
    pub fn on_client_message(&mut self, msg: &ClientMessage, now: u64)
        ensures
            final(self).spec_state() == old(self).spec_state(),
            final(self).spec_ping_schedule() == old(self).spec_ping_schedule(),
            final(self).spec_pong_timeout() == old(self).spec_pong_timeout(),
            final(self).spec_last_pong() == if msg.spec_header() == PONG_EVENT_HEADER {
                now
            } else {
                old(self).spec_last_pong()
            },
    {
        if msg.get_header() == PONG_EVENT_HEADER {
            self.last_pong = now;
        }
    }
}

/// Pong deadline: after supervision starts at `t0`, a tick later than
/// `t0 + pong_timeout` with no pong in between closes the connection; a pong
/// at `t1` before that deadline means every tick up to `t1 + pong_timeout`
/// sends a ping instead.
pub proof fn lemma_pong_deadline(t0: u64, t1: u64, now: u64, pong_timeout: u64)
    ensures
        pong_overdue(t0, now, pong_timeout) ==> tick_action(IdleState::Running, t0, now, pong_timeout)
            == TickAction::Close,
        t0 <= t1 && t1 - t0 <= pong_timeout && now <= t1 + pong_timeout ==> tick_action(
            IdleState::Running,
            t1,
            now,
            pong_timeout,
        ) == TickAction::SendPing,
{
}

} // verus!
