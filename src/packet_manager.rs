//! Opcode registry: which handler takes a message, and how it runs.

use vstd::prelude::*;
use std::collections::HashMap;

verus! {

broadcast use vstd::std_specs::hash::group_hash_axioms;

/// How a message is handed to its handler.
#[derive(Clone, Copy, Debug, PartialEq, Eq, Structural)]
pub enum DispatchPlan {
    /// No handler for the opcode: the message is dropped (not fatal).
    Drop,
    /// Run on the connection's own task; a handler error reaches the
    /// connection's error path.
    Inline,
    /// Run on a task of its own, so that a slow or failing handler cannot
    /// stall the read loop.
    Spawn,
}

/// Handlers by opcode, and names of opcodes for logging.
pub struct PacketManager<H> {
    handlers: HashMap<i32, H>,
    incoming_names: HashMap<i32, String>,
    outgoing_names: HashMap<i32, String>,
}

impl<H> PacketManager<H> {
    pub closed spec fn handler_map(&self) -> Map<i32, H> {
        self.handlers@
    }

    pub closed spec fn incoming_map(&self) -> Map<i32, String> {
        self.incoming_names@
    }

    pub closed spec fn outgoing_map(&self) -> Map<i32, String> {
        self.outgoing_names@
    }

    pub fn new() -> (r: Self)
        ensures
            r.handler_map() == Map::<i32, H>::empty(),
            r.incoming_map() == Map::<i32, String>::empty(),
            r.outgoing_map() == Map::<i32, String>::empty(),
    {
        PacketManager {
            handlers: HashMap::new(),
            incoming_names: HashMap::new(),
            outgoing_names: HashMap::new(),
        }
    }

    /// Registers the handler of an opcode, replacing any earlier one.
    pub fn register(&mut self, header: i32, handler: H)
        ensures
            final(self).handler_map() == old(self).handler_map().insert(header, handler),
            final(self).incoming_map() == old(self).incoming_map(),
            final(self).outgoing_map() == old(self).outgoing_map(),
    {
        self.handlers.insert(header, handler);
    }

    pub fn get_handler(&self, header: i32) -> (r: Option<&H>)
        ensures
            self.handler_map().contains_key(header) ==> r is Some && *r->0
                == self.handler_map()[header],
            !self.handler_map().contains_key(header) ==> r is None,
    {
        self.handlers.get(&header)
    }

    /// How a message with `header` runs: dropped without a handler, else on
    /// its own task when multi-threaded handling is on, else inline.
    pub fn plan(&self, header: i32, multi_threaded: bool) -> (r: DispatchPlan)
        ensures
            r == if !self.handler_map().contains_key(header) {
                DispatchPlan::Drop
            } else if multi_threaded {
                DispatchPlan::Spawn
            } else {
                DispatchPlan::Inline
            },
    {
        if !self.handlers.contains_key(&header) {
            DispatchPlan::Drop
        } else if multi_threaded {
            DispatchPlan::Spawn
        } else {
            DispatchPlan::Inline
        }
    }

    /// The name tables start empty; names are added with
    /// `register_incoming_name` and `register_outgoing_name`.
    pub fn initialize_packet_names(&mut self)
        ensures
            final(self).handler_map() == old(self).handler_map(),
            final(self).incoming_map() == old(self).incoming_map(),
            final(self).outgoing_map() == old(self).outgoing_map(),
    {
    }

    pub fn register_incoming_name(&mut self, header: i32, name: String)
        ensures
            final(self).incoming_map() == old(self).incoming_map().insert(header, name),
            final(self).handler_map() == old(self).handler_map(),
            final(self).outgoing_map() == old(self).outgoing_map(),
    {
        self.incoming_names.insert(header, name);
    }

    pub fn register_outgoing_name(&mut self, header: i32, name: String)
        ensures
            final(self).outgoing_map() == old(self).outgoing_map().insert(header, name),
            final(self).handler_map() == old(self).handler_map(),
            final(self).incoming_map() == old(self).incoming_map(),
    {
        self.outgoing_names.insert(header, name);
    }

    pub fn get_incoming_packet_name(&self, header: i32) -> (r: Option<&String>)
        ensures
            self.incoming_map().contains_key(header) ==> r is Some && *r->0
                == self.incoming_map()[header],
            !self.incoming_map().contains_key(header) ==> r is None,
    {
        self.incoming_names.get(&header)
    }

    pub fn get_outgoing_packet_name(&self, header: i32) -> (r: Option<&String>)
        ensures
            self.outgoing_map().contains_key(header) ==> r is Some && *r->0
                == self.outgoing_map()[header],
            !self.outgoing_map().contains_key(header) ==> r is None,
    {
        self.outgoing_names.get(&header)
    }
}

/// Kind of an I/O error that ended a connection.
#[derive(Clone, Copy, Debug, PartialEq, Eq, Structural)]
pub enum IoFailure {
    ConnectionReset,
    BrokenPipe,
    ConnectionAborted,
    InvalidData,
    Other,
}

/// What to do with an error on a connection; it is closed in every case.
#[derive(Clone, Copy, Debug, PartialEq, Eq, Structural)]
pub enum FailureReport {
    /// A transient transport error: close without logging.
    Quiet,
    /// Log the protocol violation, then close.
    LogViolation,
    /// Log the unexpected error, then close.
    LogError,
    /// Close without logging, debug mode being off.
    Silent,
}

/// Transient transport errors close quietly; anything else is logged only
/// in debug mode, protocol violations apart from other errors.
pub fn exception_caught(kind: IoFailure, debug_mode: bool) -> (r: FailureReport)
    ensures
        r == if kind == IoFailure::ConnectionReset || kind == IoFailure::BrokenPipe || kind
            == IoFailure::ConnectionAborted {
            FailureReport::Quiet
        } else if !debug_mode {
            FailureReport::Silent
        } else if kind == IoFailure::InvalidData {
            FailureReport::LogViolation
        } else {
            FailureReport::LogError
        },
{
    if kind == IoFailure::ConnectionReset || kind == IoFailure::BrokenPipe || kind
        == IoFailure::ConnectionAborted {
        return FailureReport::Quiet;
    }
    if !debug_mode {
        return FailureReport::Silent;
    }
    if kind == IoFailure::InvalidData {
        FailureReport::LogViolation
    } else {
        FailureReport::LogError
    }
}

} // verus!
