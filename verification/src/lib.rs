use vstd::prelude::*;

pub mod arena;
pub mod base_modules;
pub mod cables;
pub mod engine;
pub mod reclaim;

mod channel;

verus! {

/// Index of a port on a node, counted from zero.
#[derive(Debug, Copy, Clone, PartialEq, Eq, Structural)]
pub struct PortNum(pub u8);

/// A signal-processing unit: a fixed number of input and output ports and a
/// per-tick compute step.
///
/// Samples are integers (`i64`). A reading of `None` means the input port is
/// disconnected; `Some(v)` means it is connected and currently carries `v`.
///
/// The compute step is described by two spec functions: `written` gives the
/// output samples produced from the readings and the previous output samples,
/// and `stepped` gives the module's state after the step. Port counts are
/// fixed for the module's lifetime.
pub trait Module: Sized {
    /// Number of input ports.
    spec fn spec_inputs(&self) -> nat;

    /// Number of output ports.
    spec fn spec_outputs(&self) -> nat;

    /// The module state after one compute step on the given readings.
    spec fn stepped(&self, ins: Seq<Option<i64>>) -> Self;

    /// The output samples written by one compute step, given the readings and
    /// the previous output samples.
    spec fn written(&self, ins: Seq<Option<i64>>, prev: Seq<i64>) -> Seq<i64>;

    /// A compute step never changes the port counts, and writes exactly one
    /// sample per output slot it was handed.
    proof fn lemma_step_wf(&self, ins: Seq<Option<i64>>, prev: Seq<i64>)
        ensures
            self.stepped(ins).spec_inputs() == self.spec_inputs(),
            self.stepped(ins).spec_outputs() == self.spec_outputs(),
            self.written(ins, prev).len() == prev.len(),
    ;

    fn num_inputs(&self) -> (n: u8)
        ensures
            n as nat == self.spec_inputs(),
    ;

    fn num_outputs(&self) -> (n: u8)
        ensures
            n as nat == self.spec_outputs(),
    ;

    /// One compute step: reads the full input slice, overwrites the output
    /// slice. A slot the module leaves alone keeps its previous sample.
    fn run(&mut self, inputs: &Vec<Option<i64>>, outputs: &mut Vec<i64>)
        requires
            inputs@.len() == old(self).spec_inputs(),
            old(outputs)@.len() == old(self).spec_outputs(),
        ensures
            *final(self) == old(self).stepped(inputs@),
            final(outputs)@ == old(self).written(inputs@, old(outputs)@),
    ;
}

} // verus!
