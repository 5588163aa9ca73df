use vstd::prelude::*;

use crate::arena::{NodeArena, NodeId};
use crate::Module;

verus! {

/// A read endpoint for one signal: either disconnected, or a non-owning
/// reference to one output port (node identifier plus port index) of a node
/// in the engine's collection. Many inputs may refer to one output.
pub struct Input {
    source: Option<(NodeId, u8)>,
}

impl View for Input {
    type V = Option<(NodeId, u8)>;

    closed spec fn view(&self) -> Option<(NodeId, u8)> {
        self.source
    }
}

/// Whether an input reference names the given node (at any port).
pub open spec fn points_at(src: Option<(NodeId, u8)>, node: NodeId) -> bool {
    match src {
        Some((n, _)) => n == node,
        None => false,
    }
}

impl Input {
    /// Whether a reference is present.
    pub fn is_connected(&self) -> (r: bool)
        ensures
            r == (self@ is Some),
    {
        self.source.is_some()
    }

    /// Rebind the reference to the given output port. If the input was already
    /// connected, the old connection is overwritten.
    pub fn connect_to(&mut self, node: NodeId, port: u8)
        ensures
            final(self)@ == Some((node, port)),
    {
        self.source = Some((node, port));
    }

    /// True iff this input's reference falls within the output array of the
    /// node with the given identifier. Used to find and sever references into
    /// a node about to be destroyed.
    pub fn points_within(&self, node: NodeId) -> (r: bool)
        ensures
            r == points_at(self@, node),
    {
        match self.source {
            Some((n, _)) => n == node,
            None => false,
        }
    }

    /// Clear the reference; always safe, idempotent.
    pub fn disconnect(&mut self)
        ensures
            final(self)@ is None,
    {
        self.source = None;
    }

    /// The reference itself.
    pub fn source(&self) -> (s: Option<(NodeId, u8)>)
        ensures
            s == self@,
    {
        self.source
    }

    /// Read the value from this input, resolving the reference through the
    /// node collection. Returns 0 if this input is not connected (or its
    /// reference no longer resolves). To tell an unconnected input from one
    /// carrying 0, use `is_connected`.
    pub fn get<M: Module>(&self, nodes: &NodeArena<M>) -> (r: i64)
        ensures
            r == match nodes@.read(self@) {
                Some(v) => v,
                None => 0i64,
            },
            self@ is None ==> r == 0,
    {
        match nodes.read(self.source) {
            Some(v) => v,
            None => 0,
        }
    }
}

impl Default for Input {
    /// A disconnected input.
    fn default() -> (r: Input)
        ensures
            r@ is None,
    {
        Input { source: None }
    }
}

/// A write endpoint: a single mutable sample cell, written once per tick by
/// its owning node and read by any number of inputs.
pub struct Output {
    value: i64,
}

impl View for Output {
    type V = i64;

    closed spec fn view(&self) -> i64 {
        self.value
    }
}

impl Output {
    /// Overwrite the cell.
    pub fn set(&mut self, val: i64)
        ensures
            final(self)@ == val,
    {
        self.value = val;
    }

    /// The sample currently in the cell.
    pub fn get(&self) -> (r: i64)
        ensures
            r == self@,
    {
        self.value
    }
}

impl Default for Output {
    /// An output holding silence.
    fn default() -> (r: Output)
        ensures
            r@ == 0,
    {
        Output { value: 0 }
    }
}

} // verus!
