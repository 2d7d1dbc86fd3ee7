//! The turns that a runner was given, and the record of them.
//!
//! The runner is held privately, so that whoever has the turns reaches it only
//! through the method here, which adds to the record what the runner was given
//! and what it answered.
use vstd::prelude::*;

use crate::engines::workflow::{NodeOutcome, NodeRunner};
use crate::workflow::{Message, WorkflowNode};

verus! {

/// One turn: what the runner was given, and what it answered.
pub struct NodeCall {
    pub node: WorkflowNode,
    pub inputs: Seq<Message>,
    pub outcome: Result<NodeOutcome, String>,
}

/// The turns of a runner.
pub struct Turns<'a, R: NodeRunner> {
    runner: &'a R,
    calls: Ghost<Seq<NodeCall>>,
}

impl<'a, R: NodeRunner> View for Turns<'a, R> {
    type V = Seq<NodeCall>;

    closed spec fn view(&self) -> Seq<NodeCall> {
        self.calls@
    }
}

impl<'a, R: NodeRunner> Turns<'a, R> {
    /// The runner that acts.
    pub closed spec fn runner(self) -> &'a R {
        self.runner
    }

    /// The turns of a runner that had none yet.
    pub fn new(runner: &'a R) -> (r: Turns<'a, R>)
        ensures
            r.runner() == runner,
            r@.len() == 0,
    {
        Turns { runner, calls: Ghost(Seq::empty()) }
    }

    /// Gives the runner a turn.
    pub fn run(&mut self, node: &WorkflowNode, inputs: &[Message]) -> (outcome: Result<
        NodeOutcome,
        String,
    >)
        ensures
            final(self)@ == old(self)@.push(NodeCall { node: *node, inputs: inputs@, outcome }),
            final(self).runner() == old(self).runner(),
            call_ensures(R::run, (old(self).runner(), node, inputs), outcome),
    {
        let outcome = self.runner.run(node, inputs);
        assert(call_ensures(R::run, (self.runner, node, inputs), outcome));
        let ghost c = NodeCall { node: *node, inputs: inputs@, outcome };
        self.calls = Ghost(self.calls@.push(c));
        outcome
    }
}

} // verus!
