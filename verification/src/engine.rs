use vstd::prelude::*;

use crate::arena::{ArenaView, Node, NodeArena, NodeId, NodeView};
use crate::cables::{points_at, Input};
use crate::channel::{chan_recv, chan_send, chan_try_recv, chan_try_send};
use crate::Module;

verus! {

/// A structural command from the control plane; the engine applies at most
/// one per tick, strictly in send order.
pub enum EngineCommand<M> {
    AddNode(Node<M>),
    RemoveNode(NodeId),
    Connect { out_node: NodeId, out_port: u8, in_node: NodeId, in_port: u8 },
    Disconnect { node: NodeId, port: u8 },
    DesignateOutput { node: NodeId, port: u8 },
    NewSchedule(Vec<NodeId>),
}

/// The engine's reply to an identity-affecting command.
pub enum EngineResponse<M> {
    NodeAdded(NodeId),
    NodeRemoved(Option<Node<M>>),
}

/// Mathematical model of the engine's real-time state: the node collection,
/// the execution schedule, the designated output, and a tally of refused
/// (protocol-violating) commands.
#[verifier::ext_equal]
pub ghost struct EngineView<M> {
    pub nodes: ArenaView<M>,
    pub schedule: Seq<NodeId>,
    pub audio_out: Option<(NodeId, u8)>,
    pub violations: u64,
}

impl<M: Module> EngineView<M> {
    /// The readings handed to node `id` when it runs: one per input port,
    /// `None` where the port is disconnected (or its source is gone).
    pub open spec fn readings(self, id: NodeId) -> Seq<Option<i64>> {
        Seq::new(
            self.nodes.node_at(id).inputs.len(),
            |p: int| self.nodes.read(self.nodes.node_at(id).inputs[p]),
        )
    }

    /// One schedule entry: run the node it names, if it is live and its port
    /// arrays match its module; otherwise do nothing.
    pub open spec fn step(self, id: NodeId) -> EngineView<M> {
        if self.nodes.is_live(id) && self.nodes.node_at(id).wf() {
            EngineView {
                nodes: self.nodes.with_node(
                    id,
                    self.nodes.node_at(id).after_run(self.readings(id)),
                ),
                ..self
            }
        } else {
            self
        }
    }

    /// The first `n` schedule entries, run in order.
    pub open spec fn run_prefix(self, n: int) -> EngineView<M>
        decreases n,
    {
        if n <= 0 {
            self
        } else {
            self.run_prefix(n - 1).step(self.schedule[n - 1])
        }
    }

    /// The whole schedule, run in order.
    pub open spec fn sched_run(self) -> EngineView<M> {
        self.run_prefix(self.schedule.len() as int)
    }

    /// One more refused command.
    pub open spec fn bump_violations(self) -> EngineView<M> {
        EngineView {
            violations: if self.violations < u64::MAX {
                (self.violations + 1) as u64
            } else {
                u64::MAX
            },
            ..self
        }
    }

    /// Whether a connect command is acceptable: both identifiers live, both
    /// ports in range. Self-loops (`out_node == in_node`) are permitted.
    pub open spec fn connect_ok(
        self,
        out_node: NodeId,
        out_port: u8,
        in_node: NodeId,
        in_port: u8,
    ) -> bool {
        &&& self.nodes.is_live(out_node)
        &&& self.nodes.is_live(in_node)
        &&& (out_port as int) < self.nodes.node_at(out_node).outputs.len()
        &&& (in_port as int) < self.nodes.node_at(in_node).inputs.len()
    }

    /// The engine state after applying one command. A command that names a
    /// dead node or an out-of-range port is a protocol violation: it is
    /// refused and tallied (removal of a stale identifier is not an error; it
    /// just removes nothing).
    pub open spec fn apply(self, cmd: EngineCommand<M>) -> EngineView<M> {
        match cmd {
            EngineCommand::AddNode(n) => EngineView { nodes: self.nodes.insert_view(n@).0, ..self },
            EngineCommand::RemoveNode(id) => if self.nodes.is_live(id) {
                EngineView { nodes: self.nodes.remove_view(id).detach_all(id), ..self }
            } else {
                self
            },
            EngineCommand::Connect { out_node, out_port, in_node, in_port } => if self.connect_ok(
                out_node,
                out_port,
                in_node,
                in_port,
            ) {
                EngineView {
                    nodes: self.nodes.with_node(
                        in_node,
                        NodeView {
                            inputs: self.nodes.node_at(in_node).inputs.update(
                                in_port as int,
                                Some((out_node, out_port)),
                            ),
                            ..self.nodes.node_at(in_node)
                        },
                    ),
                    ..self
                }
            } else {
                self.bump_violations()
            },
            EngineCommand::Disconnect { node, port } => if self.nodes.is_live(node) && (
            port as int) < self.nodes.node_at(node).inputs.len() {
                EngineView {
                    nodes: self.nodes.with_node(
                        node,
                        NodeView {
                            inputs: self.nodes.node_at(node).inputs.update(port as int, None),
                            ..self.nodes.node_at(node)
                        },
                    ),
                    ..self
                }
            } else {
                self.bump_violations()
            },
            EngineCommand::DesignateOutput { node, port } => if self.nodes.is_live(node) && (
            port as int) < self.nodes.node_at(node).outputs.len() {
                EngineView { audio_out: Some((node, port)), ..self }
            } else {
                self.bump_violations()
            },
            EngineCommand::NewSchedule(s) => EngineView { schedule: s@, ..self },
        }
    }

    /// The engine's current output sample: the designated output's value, or
    /// silence when nothing (live) is designated.
    pub open spec fn out(self) -> i64 {
        match self.nodes.read(self.audio_out) {
            Some(v) => v,
            None => 0,
        }
    }

    /// One full tick: run the whole schedule, then apply at most one pending
    /// command.
    pub open spec fn tick(self, cmd: Option<EngineCommand<M>>) -> EngineView<M> {
        match cmd {
            None => self.sched_run(),
            Some(c) => self.sched_run().apply(c),
        }
    }
}

/// Running schedule entries changes only the node collection: the schedule,
/// the designated output, and the violation tally stay as they were.
pub proof fn lemma_run_prefix_frame<M: Module>(v: EngineView<M>, n: int)
    ensures
        v.run_prefix(n).schedule == v.schedule,
        v.run_prefix(n).audio_out == v.audio_out,
        v.run_prefix(n).violations == v.violations,
    decreases n,
{
    if n > 0 {
        lemma_run_prefix_frame(v, n - 1);
    }
}

/// The real-time half: owns the node collection, the schedule and the
/// designated output, and is driven once per tick by the audio thread.
#[verifier::reject_recursive_types(M)]
pub struct AudioEngine<M: Module> {
    nodes: NodeArena<M>,
    schedule: Vec<NodeId>,
    audio_out: Input,
    violations: u64,
    commands: crossbeam_channel::Receiver<EngineCommand<M>>,
    responses: crossbeam_channel::Sender<EngineResponse<M>>,
    // Scratch buffers reused across ticks, so the steady-state tick path
    // performs no heap allocation on the audio thread.
    scratch_reads: Vec<Option<i64>>,
    scratch_work: Vec<i64>,
}

impl<M: Module> View for AudioEngine<M> {
    type V = EngineView<M>;

    closed spec fn view(&self) -> EngineView<M> {
        EngineView {
            nodes: self.nodes@,
            schedule: self.schedule@,
            audio_out: self.audio_out@,
            violations: self.violations,
        }
    }
}

impl<M: Module> AudioEngine<M> {
    /// A fresh engine over the given channels: no nodes, an empty schedule,
    /// no designated output. `cap` is an allocation hint only.
    pub fn with_capacity(
        cap: usize,
        commands: crossbeam_channel::Receiver<EngineCommand<M>>,
        responses: crossbeam_channel::Sender<EngineResponse<M>>,
    ) -> (r: AudioEngine<M>)
        ensures
            r@.nodes.slots.len() == 0,
            r@.schedule.len() == 0,
            r@.audio_out is None,
            r@.violations == 0,
    {
        AudioEngine {
            nodes: NodeArena::with_capacity(cap),
            schedule: Vec::new(),
            audio_out: Input::default(),
            violations: 0,
            commands,
            responses,
            // Sized for the largest port count a module can declare, so the
            // buffers never grow on the audio thread.
            scratch_reads: Vec::with_capacity(256),
            scratch_work: Vec::with_capacity(256),
        }
    }

    /// The number of protocol violations the engine has refused so far.
    pub fn violations(&self) -> (r: u64)
        ensures
            r == self@.violations,
    {
        self.violations
    }

    /// The engine's current output sample: the designated output's value, or
    /// silence when nothing (live) is designated.
    pub fn output(&self) -> (r: i64)
        ensures
            r == self@.out(),
    {
        self.audio_out.get(&self.nodes)
    }

    fn note_violation(&mut self)
        ensures
            final(self)@ == old(self)@.bump_violations(),
    {
        if self.violations < u64::MAX {
            self.violations = self.violations + 1;
        }
        proof {
            assert(self@ =~~= old(self)@.bump_violations());
        }
    }

    /// Fill `buf` with the readings for node `id`: one per input port. The
    /// buffer's prior contents are discarded.
    #[verifier::loop_isolation(false)]
    fn fill_readings(&self, id: NodeId, buf: &mut Vec<Option<i64>>)
        requires
            self@.nodes.is_live(id),
        ensures
            final(buf)@ == self@.readings(id),
    {
        buf.clear();
        let node = self.nodes.get(id);
        let mut p: usize = 0;
        while p < node.inputs.len()
            invariant
                p <= node.inputs.len(),
                buf@.len() == p as nat,
                forall|k: int| 0 <= k < p ==> buf@[k] == self@.nodes.read(node@.inputs[k]),
            decreases node.inputs.len() - p,
        {
            let src = node.inputs[p].source();
            let v = self.nodes.read(src);
            buf.push(v);
            p = p + 1;
        }
        proof {
            assert(buf@ =~= self@.readings(id));
        }
    }

    /// Run one schedule entry: a stale identifier, or a node whose port
    /// arrays do not match its module, is skipped.
    fn step_node(&mut self, id: NodeId)
        ensures
            final(self)@ == old(self)@.step(id),
    {
        if !self.nodes.contains(id) {
            proof {
                assert(self@ =~~= old(self)@.step(id));
            }
            return;
        }
        let wf = self.nodes.get(id).check_wf();
        if !wf {
            proof {
                assert(self@ =~~= old(self)@.step(id));
            }
            return;
        }
        let mut reads: Vec<Option<i64>> = Vec::new();
        core::mem::swap(&mut self.scratch_reads, &mut reads);
        let mut work: Vec<i64> = Vec::new();
        core::mem::swap(&mut self.scratch_work, &mut work);
        self.fill_readings(id, &mut reads);
        self.nodes.run_node(id, &reads, &mut work);
        core::mem::swap(&mut self.scratch_reads, &mut reads);
        core::mem::swap(&mut self.scratch_work, &mut work);
        proof {
            assert(self@ =~~= old(self)@.step(id));
        }
    }

    /// Run every schedule entry once, in order.
    #[verifier::loop_isolation(false)]
    fn execute_schedule(&mut self)
        ensures
            final(self)@ == old(self)@.sched_run(),
    {
        let ghost pre = self@;
        let mut i: usize = 0;
        while i < self.schedule.len()
            invariant
                i <= pre.schedule.len(),
                self@ == pre.run_prefix(i as int),
            decreases pre.schedule.len() - i,
        {
            proof {
                lemma_run_prefix_frame(pre, i as int);
            }
            let id = self.schedule[i];
            self.step_node(id);
            i = i + 1;
        }
        proof {
            lemma_run_prefix_frame(pre, i as int);
        }
    }

    fn insert_node(&mut self, node: Node<M>) -> (id: NodeId)
        ensures
            final(self)@ == (EngineView {
                nodes: old(self)@.nodes.insert_view(node@).0,
                ..old(self)@
            }),
            id == old(self)@.nodes.insert_view(node@).1,
    {
        let id = self.nodes.insert(node);
        proof {
            assert(self@ =~~= EngineView { nodes: old(self)@.nodes.insert_view(node@).0, ..old(self)@ });
        }
        id
    }

    fn remove_node(&mut self, id: NodeId) -> (r: Option<Node<M>>)
        ensures
            old(self)@.nodes.is_live(id) ==> (final(self)@ == (EngineView {
                nodes: old(self)@.nodes.remove_view(id).detach_all(id),
                ..old(self)@
            }) && (r matches Some(n) && n@ == old(self)@.nodes.node_at(id))),
            !old(self)@.nodes.is_live(id) ==> (final(self)@ == old(self)@ && r is None),
    {
        let r = self.nodes.remove(id);
        if r.is_some() {
            self.nodes.detach_from(id);
        }
        proof {
            if old(self)@.nodes.is_live(id) {
                assert(self@ =~~= EngineView {
                    nodes: old(self)@.nodes.remove_view(id).detach_all(id),
                    ..old(self)@
                });
            } else {
                assert(self@ =~~= old(self)@);
            }
        }
        r
    }

    fn connect(&mut self, out_node: NodeId, out_port: u8, in_node: NodeId, in_port: u8)
        ensures
            final(self)@ == old(self)@.apply(
                EngineCommand::Connect { out_node, out_port, in_node, in_port },
            ),
    {
        if self.nodes.contains(out_node) && self.nodes.contains(in_node) {
            let out_len = self.nodes.get(out_node).outputs.len();
            let in_len = self.nodes.get(in_node).inputs.len();
            if (out_port as usize) < out_len && (in_port as usize) < in_len {
                self.nodes.set_input(in_node, in_port as usize, Some((out_node, out_port)));
                proof {
                    assert(self@ =~~= old(self)@.apply(
                        EngineCommand::Connect { out_node, out_port, in_node, in_port },
                    ));
                }
                return;
            }
        }
        self.note_violation();
        proof {
            assert(self@ =~~= old(self)@.apply(
                EngineCommand::Connect { out_node, out_port, in_node, in_port },
            ));
        }
    }

    fn disconnect(&mut self, node: NodeId, port: u8)
        ensures
            final(self)@ == old(self)@.apply(EngineCommand::Disconnect { node, port }),
    {
        if self.nodes.contains(node) {
            let in_len = self.nodes.get(node).inputs.len();
            if (port as usize) < in_len {
                self.nodes.set_input(node, port as usize, None);
                proof {
                    assert(self@ =~~= old(self)@.apply(EngineCommand::Disconnect { node, port }));
                }
                return;
            }
        }
        self.note_violation();
        proof {
            assert(self@ =~~= old(self)@.apply(EngineCommand::Disconnect { node, port }));
        }
    }

    fn designate_output(&mut self, node: NodeId, port: u8)
        ensures
            final(self)@ == old(self)@.apply(EngineCommand::DesignateOutput { node, port }),
    {
        if self.nodes.contains(node) {
            let out_len = self.nodes.get(node).outputs.len();
            if (port as usize) < out_len {
                self.audio_out.connect_to(node, port);
                proof {
                    assert(self@ =~~= old(self)@.apply(
                        EngineCommand::DesignateOutput { node, port },
                    ));
                }
                return;
            }
        }
        self.note_violation();
        proof {
            assert(self@ =~~= old(self)@.apply(EngineCommand::DesignateOutput { node, port }));
        }
    }

    /// Apply one structural command and build the reply owed for it, if any.
    fn apply_command(&mut self, cmd: EngineCommand<M>) -> (resp: Option<EngineResponse<M>>)
        ensures
            final(self)@ == old(self)@.apply(cmd),
            match cmd {
                EngineCommand::AddNode(n) => resp matches Some(EngineResponse::NodeAdded(i)) && i
                    == old(self)@.nodes.insert_view(n@).1,
                EngineCommand::RemoveNode(id) => resp matches Some(
                    EngineResponse::NodeRemoved(o),
                ) && (old(self)@.nodes.is_live(id) <==> o is Some) && (o matches Some(n2) ==> n2@
                    == old(self)@.nodes.node_at(id)),
                _ => resp is None,
            },
    {
        match cmd {
            EngineCommand::AddNode(n) => {
                let id = self.insert_node(n);
                Some(EngineResponse::NodeAdded(id))
            },
            EngineCommand::RemoveNode(id) => {
                let o = self.remove_node(id);
                Some(EngineResponse::NodeRemoved(o))
            },
            EngineCommand::Connect { out_node, out_port, in_node, in_port } => {
                self.connect(out_node, out_port, in_node, in_port);
                None
            },
            EngineCommand::Disconnect { node, port } => {
                self.disconnect(node, port);
                None
            },
            EngineCommand::DesignateOutput { node, port } => {
                self.designate_output(node, port);
                None
            },
            EngineCommand::NewSchedule(s) => {
                self.schedule = s;
                proof {
                    assert(self@ =~~= old(self)@.apply(cmd));
                }
                None
            },
        }
    }

    /// One tick: run every node the schedule names, in order (entries that no
    /// longer name a live node are skipped), then apply at most one pending
    /// command, replying where a reply is owed. The reply is sent without
    /// blocking; a reply the response channel cannot take is dropped rather
    /// than stalling the audio thread. With the intended wiring — a reply
    /// channel whose capacity matches the command channel's, under the
    /// protocol's own backpressure (each identity command's sender blocks
    /// for its reply) — the reply queue cannot fill, so a drop happens only
    /// once the control side is gone. The tick's output sample is then read
    /// with `output`.
    pub fn run(&mut self)
        ensures
            exists|c: Option<EngineCommand<M>>| final(self)@ == old(self)@.tick(c),
            old(self)@.nodes.evolves_to(final(self)@.nodes),
            forall|id: NodeId| #[trigger]
                old(self)@.nodes.retired(id) ==> final(self)@.nodes.retired(id)
                    && !final(self)@.nodes.is_live(id),
    {
        self.execute_schedule();
        let cmd = chan_try_recv(&self.commands);
        match cmd {
            None => {
                proof {
                    assert(self@ == old(self)@.tick(None));
                    lemma_tick_evolves(old(self)@, None);
                }
            },
            Some(c) => {
                let ghost gc = c;
                let resp = self.apply_command(c);
                match resp {
                    Some(r) => {
                        let _ = chan_try_send(&self.responses, r);
                    },
                    None => {},
                }
                proof {
                    assert(self@ == old(self)@.tick(Some(gc)));
                    lemma_tick_evolves(old(self)@, Some(gc));
                }
            },
        }
        proof {
            assert forall|id: NodeId| #[trigger]
                old(self)@.nodes.retired(id) implies self@.nodes.retired(id) && !self@.nodes.is_live(
                id,
            ) by {
                crate::arena::lemma_evolution_preserves_retired(
                    old(self)@.nodes,
                    self@.nodes,
                    id,
                );
                crate::arena::lemma_retired_not_live(self@.nodes, id);
            }
        }
    }
}

/// Why a control operation could not complete.
#[derive(Debug, Clone, Copy, PartialEq, Eq, Structural)]
pub enum ControlError {
    /// The engine side of a channel is gone.
    Disconnected,
    /// The engine answered with a reply of the wrong kind: a protocol
    /// violation on the command channel.
    UnexpectedResponse,
}

/// The control half: used by any number of control threads to submit
/// structural commands, blocking for a reply where identity is created or
/// destroyed. It keeps the registry of identifiers it has been issued, from
/// which it derives each new schedule.
#[verifier::reject_recursive_types(M)]
pub struct AudioGraph<M: Module> {
    live: Vec<NodeId>,
    commands: crossbeam_channel::Sender<EngineCommand<M>>,
    responses: crossbeam_channel::Receiver<EngineResponse<M>>,
}

impl<M: Module> View for AudioGraph<M> {
    type V = Seq<NodeId>;

    closed spec fn view(&self) -> Seq<NodeId> {
        self.live@
    }
}

impl<M: Module> AudioGraph<M> {
    /// A control handle over the given channels; the engine holding their
    /// other halves is driven elsewhere, by the audio thread.
    pub fn new(
        commands: crossbeam_channel::Sender<EngineCommand<M>>,
        responses: crossbeam_channel::Receiver<EngineResponse<M>>,
    ) -> (r: AudioGraph<M>)
        ensures
            r@.len() == 0,
    {
        AudioGraph { live: Vec::new(), commands, responses }
    }

    /// The schedule this handle derives from its registry: every currently
    /// registered identifier exactly once, in registration order. (Collection
    /// order is the documented fallback semantics: a consumer scheduled ahead
    /// of its producer reads the previous tick's value.)
    #[verifier::loop_isolation(false)]
    pub fn schedule_of(&self) -> (s: Vec<NodeId>)
        ensures
            s@ == self@,
    {
        let mut sched: Vec<NodeId> = Vec::new();
        let mut i: usize = 0;
        while i < self.live.len()
            invariant
                i <= self.live@.len(),
                sched@ == self.live@.take(i as int),
            decreases self.live@.len() - i,
        {
            sched.push(self.live[i]);
            proof {
                assert(sched@ =~= self.live@.take(i as int + 1));
            }
            i = i + 1;
        }
        proof {
            assert(sched@ =~= self.live@);
        }
        sched
    }

    /// Send the engine a fresh schedule. The payload is fixed by
    /// `schedule_of`'s contract: the registry's identifiers, exactly once
    /// each, in registration order.
    fn recompute_schedule(&self) {
        let sched = self.schedule_of();
        let _ = chan_send(&self.commands, EngineCommand::NewSchedule(sched));
    }

    /// Register the engine's reply to an add. The identifier the reply
    /// carries is the result: it enters the registry and a fresh schedule is
    /// sent. A reply of any other kind is a protocol violation: the registry
    /// is left untouched and the caller is told so.
    fn register_added(&mut self, resp: EngineResponse<M>) -> (r: Result<NodeId, ControlError>)
        ensures
            resp matches EngineResponse::NodeAdded(id) ==> (r == Ok::<NodeId, ControlError>(id)
                && final(self)@ == old(self)@.push(id)),
            !(resp matches EngineResponse::NodeAdded(_)) ==> (r == Err::<NodeId, ControlError>(
                ControlError::UnexpectedResponse,
            ) && final(self)@ == old(self)@),
    {
        match resp {
            EngineResponse::NodeAdded(id) => {
                self.live.push(id);
                self.recompute_schedule();
                Ok(id)
            },
            EngineResponse::NodeRemoved(_) => Err(ControlError::UnexpectedResponse),
        }
    }

    /// Apply the engine's reply to a remove. The module the reply carries (if
    /// any) is the result, the given identifier leaves the registry, and a
    /// fresh schedule is sent. A reply of any other kind is a protocol
    /// violation: the registry is left untouched and the caller is told so.
    fn register_removed(&mut self, id: NodeId, resp: EngineResponse<M>) -> (r: Result<
        Option<M>,
        ControlError,
    >)
        ensures
            resp matches EngineResponse::NodeRemoved(Some(n)) ==> (r == Ok::<
                Option<M>,
                ControlError,
            >(Some(n.module))),
            resp matches EngineResponse::NodeRemoved(None) ==> (r == Ok::<
                Option<M>,
                ControlError,
            >(None)),
            resp matches EngineResponse::NodeRemoved(_) ==> (final(self)@ == old(self)@.filter(
                |x: NodeId| x != id,
            )),
            !(resp matches EngineResponse::NodeRemoved(_)) ==> (r == Err::<
                Option<M>,
                ControlError,
            >(ControlError::UnexpectedResponse) && final(self)@ == old(self)@),
    {
        match resp {
            EngineResponse::NodeRemoved(o) => {
                self.unregister(id);
                self.recompute_schedule();
                match o {
                    Some(n) => {
                        let Node { module, .. } = n;
                        Ok(Some(module))
                    },
                    None => Ok(None),
                }
            },
            EngineResponse::NodeAdded(_) => Err(ControlError::UnexpectedResponse),
        }
    }

    /// Move `module` into the graph: the engine constructs its node, issues a
    /// fresh identifier, and the new node joins the schedule. Blocks for the
    /// engine's reply, which `register_added` then applies: the returned
    /// identifier is the one the reply carried. An error means the reply
    /// never came or was of the wrong kind, and the registry is then left
    /// unchanged.
    pub fn add_module(&mut self, module: M) -> (r: Result<NodeId, ControlError>)
        ensures
            r matches Ok(id) ==> final(self)@ == old(self)@.push(id),
            r is Err ==> final(self)@ == old(self)@,
    {
        let node = Node::from_module(module);
        let refused = chan_send(&self.commands, EngineCommand::AddNode(node));
        if refused.is_some() {
            return Err(ControlError::Disconnected);
        }
        match chan_recv(&self.responses) {
            None => Err(ControlError::Disconnected),
            Some(resp) => self.register_added(resp),
        }
    }

    /// Remove the node `id` names, handing back its module (or nothing if the
    /// identifier was already stale). Blocks for the engine's reply, which
    /// `register_removed` then applies: the returned module is the one the
    /// reply carried, and the identifier leaves the registry and the
    /// schedule. An error means the reply never came or was of the wrong
    /// kind, and the registry is then left unchanged.
    pub fn remove_module(&mut self, id: NodeId) -> (r: Result<Option<M>, ControlError>)
        ensures
            r is Ok ==> final(self)@ == old(self)@.filter(|x: NodeId| x != id),
            r is Err ==> final(self)@ == old(self)@,
    {
        let refused = chan_send(&self.commands, EngineCommand::RemoveNode(id));
        if refused.is_some() {
            return Err(ControlError::Disconnected);
        }
        match chan_recv(&self.responses) {
            None => Err(ControlError::Disconnected),
            Some(resp) => self.register_removed(id, resp),
        }
    }

    /// Drop `id` from the registry.
    #[verifier::loop_isolation(false)]
    fn unregister(&mut self, id: NodeId)
        ensures
            final(self)@ == old(self)@.filter(|x: NodeId| x != id),
    {
        let mut kept: Vec<NodeId> = Vec::new();
        let mut i: usize = 0;
        while i < self.live.len()
            invariant
                i <= self.live@.len(),
                kept@ == self.live@.take(i as int).filter(|x: NodeId| x != id),
            decreases self.live@.len() - i,
        {
            let candidate = self.live[i];
            proof {
                reveal(Seq::filter);
                assert(self.live@.take(i as int + 1).drop_last() =~= self.live@.take(i as int));
                assert(self.live@.take(i as int + 1).last() == self.live@[i as int]);
            }
            if candidate.index != id.index || candidate.generation != id.generation {
                kept.push(candidate);
            }
            i = i + 1;
        }
        proof {
            assert(self.live@.take(self.live@.len() as int) =~= self.live@);
        }
        self.live = kept;
    }

    /// Wire `out_node`'s output `out_port` into `in_node`'s input `in_port`.
    /// Fire-and-forget: misuse surfaces only in the engine's violation tally.
    pub fn connect(&mut self, out_node: NodeId, out_port: u8, in_node: NodeId, in_port: u8)
        ensures
            final(self)@ == old(self)@,
    {
        let _ = chan_send(
            &self.commands,
            EngineCommand::Connect { out_node, out_port, in_node, in_port },
        );
    }

    /// Clear one input port. Fire-and-forget.
    pub fn disconnect(&mut self, node: NodeId, port: u8)
        ensures
            final(self)@ == old(self)@,
    {
        let _ = chan_send(&self.commands, EngineCommand::Disconnect { node, port });
    }

    /// Make the given output port the engine's final output. Fire-and-forget.
    pub fn designate_output(&mut self, node: NodeId, port: u8)
        ensures
            final(self)@ == old(self)@,
    {
        let _ = chan_send(&self.commands, EngineCommand::DesignateOutput { node, port });
    }
}

/// Running one schedule entry is a legal evolution of the node collection:
/// generations never move backwards.
pub proof fn lemma_step_evolves<M: Module>(v: EngineView<M>, id: NodeId)
    ensures
        v.nodes.evolves_to(v.step(id).nodes),
{
}

/// Running any schedule prefix is a legal evolution of the node collection.
pub proof fn lemma_run_prefix_evolves<M: Module>(v: EngineView<M>, n: int)
    ensures
        v.nodes.evolves_to(v.run_prefix(n).nodes),
    decreases n,
{
    if n <= 0 {
    } else {
        lemma_run_prefix_evolves(v, n - 1);
        lemma_step_evolves(v.run_prefix(n - 1), v.schedule[n - 1]);
        crate::arena::lemma_evolves_trans(
            v.nodes,
            v.run_prefix(n - 1).nodes,
            v.run_prefix(n).nodes,
        );
    }
}

/// Applying any command is a legal evolution of the node collection.
pub proof fn lemma_apply_evolves<M: Module>(v: EngineView<M>, cmd: EngineCommand<M>)
    ensures
        v.nodes.evolves_to(v.apply(cmd).nodes),
{
    match cmd {
        EngineCommand::AddNode(_) => {
            crate::arena::lemma_first_free_is_free(v.nodes, 0);
        },
        EngineCommand::RemoveNode(id) => {
            if v.nodes.is_live(id) {
                assert(v.nodes.evolves_to(v.nodes.remove_view(id)));
                assert(v.nodes.remove_view(id).evolves_to(v.nodes.remove_view(id).detach_all(id)));
                crate::arena::lemma_evolves_trans(
                    v.nodes,
                    v.nodes.remove_view(id),
                    v.nodes.remove_view(id).detach_all(id),
                );
            }
        },
        _ => {},
    }
}

/// Law: one full tick — the whole schedule and at most one command, whatever
/// that command is — is a legal evolution of the node collection. Together
/// with `lemma_removed_id_never_resolves`, a retired identifier therefore
/// stays dead across any number of ticks.
pub proof fn lemma_tick_evolves<M: Module>(v: EngineView<M>, cmd: Option<EngineCommand<M>>)
    ensures
        v.nodes.evolves_to(v.tick(cmd).nodes),
{
    lemma_run_prefix_evolves(v, v.schedule.len() as int);
    match cmd {
        None => {},
        Some(c) => {
            lemma_apply_evolves(v.sched_run(), c);
            crate::arena::lemma_evolves_trans(
                v.nodes,
                v.sched_run().nodes,
                v.sched_run().apply(c).nodes,
            );
        },
    }
}

/// Running one schedule entry touches no other node.
pub proof fn lemma_step_preserves_other<M: Module>(v: EngineView<M>, run_id: NodeId, id: NodeId)
    requires
        v.nodes.is_live(id),
        id != run_id,
    ensures
        v.step(run_id).nodes.is_live(id),
        v.step(run_id).nodes.node_at(id) == v.nodes.node_at(id),
{
    if v.nodes.is_live(run_id) && v.nodes.node_at(run_id).wf() {
        if run_id.index == id.index {
            assert(run_id.generation == v.nodes.slots[id.index as int].generation);
            assert(id.generation == v.nodes.slots[id.index as int].generation);
            assert(false);
        }
    }
}

/// Law: removing a node severs every input reference to it. Afterwards any
/// input that fed from the removed node is disconnected, and so it reads
/// silence on the next tick.
pub proof fn lemma_remove_severs_reads<M: Module>(
    v: EngineView<M>,
    removed: NodeId,
    id: NodeId,
    p: int,
)
    requires
        v.nodes.is_live(removed),
        v.nodes.is_live(id),
        id != removed,
        0 <= p < v.nodes.node_at(id).inputs.len(),
        points_at(v.nodes.node_at(id).inputs[p], removed),
    ensures
        v.apply(EngineCommand::RemoveNode(removed)).nodes.is_live(id),
        v.apply(EngineCommand::RemoveNode(removed)).nodes.node_at(id).inputs[p] is None,
        v.apply(EngineCommand::RemoveNode(removed)).readings(id)[p] is None,
{
    let v2 = v.apply(EngineCommand::RemoveNode(removed));
    if id.index == removed.index {
        assert(id.generation == v.nodes.slots[id.index as int].generation);
        assert(removed.generation == v.nodes.slots[id.index as int].generation);
        assert(false);
    }
    assert(v2.nodes.slots[id.index as int].node == Some(
        v.nodes.node_at(id).detached_from(removed),
    ));
}

/// Running a schedule prefix that never names `id` leaves `id`'s node
/// untouched.
pub proof fn lemma_prefix_preserves_unscheduled<M: Module>(v: EngineView<M>, id: NodeId, k: int)
    requires
        v.nodes.is_live(id),
        0 <= k <= v.schedule.len(),
        forall|j: int| 0 <= j < k ==> v.schedule[j] != id,
    ensures
        v.run_prefix(k).nodes.is_live(id),
        v.run_prefix(k).nodes.node_at(id) == v.nodes.node_at(id),
    decreases k,
{
    if k > 0 {
        lemma_prefix_preserves_unscheduled(v, id, k - 1);
        lemma_step_preserves_other(v.run_prefix(k - 1), v.schedule[k - 1], id);
    }
}

/// Law: a node wired to itself — its own output feeding one of its inputs at
/// matching ports — is accepted, and when the node runs (first occurrence in
/// the schedule), the reading on the looped port is the output sample the
/// node wrote on the previous tick: a one-tick delay by construction.
pub proof fn lemma_self_loop_one_tick_delay<M: Module>(
    v: EngineView<M>,
    id: NodeId,
    p: int,
    q: u8,
    k: int,
)
    requires
        v.nodes.is_live(id),
        0 <= p < v.nodes.node_at(id).inputs.len(),
        v.nodes.node_at(id).inputs[p] == Some((id, q)),
        (q as int) < v.nodes.node_at(id).outputs.len(),
        0 <= k < v.schedule.len(),
        v.schedule[k] == id,
        forall|j: int| 0 <= j < k ==> v.schedule[j] != id,
    ensures
        v.run_prefix(k).readings(id)[p] == Some(v.nodes.node_at(id).outputs[q as int]),
{
    lemma_prefix_preserves_unscheduled(v, id, k);
    let vk = v.run_prefix(k);
    assert(vk.readings(id)[p] == vk.nodes.read(vk.nodes.node_at(id).inputs[p]));
    assert(vk.nodes.read(Some((id, q))) == Some(vk.nodes.node_at(id).outputs[q as int]));
}

/// Iterated ticks with no command pending.
pub open spec fn run_ticks<M: Module>(v: EngineView<M>, n: nat) -> EngineView<M>
    decreases n,
{
    if n == 0 {
        v
    } else {
        run_ticks(v, (n - 1) as nat).tick(None)
    }
}

/// The module `m` driven through a sequence of compute steps, one readings
/// vector per step.
pub open spec fn steps_to<M: Module>(m: M, steps: Seq<Seq<Option<i64>>>) -> M
    decreases steps.len(),
{
    if steps.len() == 0 {
        m
    } else {
        steps_to(m, steps.drop_last()).stepped(steps.last())
    }
}

/// A module that writes silence on every output, on every tick, in every
/// state it can reach — its state may still change from step to step.
pub open spec fn always_silent<M: Module>(m: M) -> bool {
    forall|steps: Seq<Seq<Option<i64>>>, ins: Seq<Option<i64>>, prev: Seq<i64>|
        #[trigger] steps_to(m, steps).written(ins, prev) == Seq::new(prev.len(), |i: int| 0i64)
}

proof fn lemma_steps_to_prepend<M: Module>(
    m: M,
    first: Seq<Option<i64>>,
    steps: Seq<Seq<Option<i64>>>,
)
    ensures
        steps_to(m.stepped(first), steps) == steps_to(m, seq![first] + steps),
    decreases steps.len(),
{
    if steps.len() == 0 {
        assert((seq![first] + steps) =~= seq![first]);
        assert(seq![first].drop_last() =~= Seq::<Seq<Option<i64>>>::empty());
        assert(seq![first].last() == first);
        assert(steps_to(m, Seq::<Seq<Option<i64>>>::empty()) == m);
        assert(steps_to(m, seq![first]) == steps_to(
            m,
            seq![first].drop_last(),
        ).stepped(seq![first].last()));
    } else {
        lemma_steps_to_prepend(m, first, steps.drop_last());
        assert((seq![first] + steps).drop_last() =~= seq![first] + steps.drop_last());
        assert((seq![first] + steps).last() == steps.last());
    }
}

/// Silence is closed under stepping: whatever an always-silent module reads,
/// the state it steps to is always silent too.
pub proof fn lemma_always_silent_step<M: Module>(m: M, first: Seq<Option<i64>>)
    requires
        always_silent(m),
    ensures
        always_silent(m.stepped(first)),
{
    let m1 = m.stepped(first);
    assert forall|steps: Seq<Seq<Option<i64>>>, ins: Seq<Option<i64>>, prev: Seq<i64>|
        #[trigger] steps_to(m1, steps).written(ins, prev) == Seq::new(
        prev.len(),
        |i: int| 0i64,
    ) by {
        lemma_steps_to_prepend(m, first, steps);
        assert(steps_to(m, seq![first] + steps).written(ins, prev) == Seq::new(
            prev.len(),
            |i: int| 0i64,
        ));
    }
}

proof fn lemma_steps_to_fixed<M: Module>(m: M, steps: Seq<Seq<Option<i64>>>)
    requires
        forall|ins: Seq<Option<i64>>| #[trigger] m.stepped(ins) == m,
    ensures
        steps_to(m, steps) == m,
    decreases steps.len(),
{
    if steps.len() > 0 {
        lemma_steps_to_fixed(m, steps.drop_last());
    }
}

/// A module that never changes state and always writes silence is silent
/// forever.
pub proof fn lemma_stateless_silent<M: Module>(m: M)
    requires
        forall|ins: Seq<Option<i64>>| #[trigger] m.stepped(ins) == m,
        forall|ins: Seq<Option<i64>>, prev: Seq<i64>| #[trigger] m.written(ins, prev) == Seq::new(
            prev.len(),
            |i: int| 0i64,
        ),
    ensures
        always_silent(m),
{
    assert forall|steps: Seq<Seq<Option<i64>>>, ins: Seq<Option<i64>>, prev: Seq<i64>|
        #[trigger] steps_to(m, steps).written(ins, prev) == Seq::new(
        prev.len(),
        |i: int| 0i64,
    ) by {
        lemma_steps_to_fixed(m, steps);
    }
}

/// The engine's designated output is wired to a scheduled, well-formed node
/// whose module always writes silence.
pub open spec fn silent_sink<M: Module>(v: EngineView<M>, id: NodeId, q: u8) -> bool {
    &&& v.nodes.is_live(id)
    &&& v.nodes.node_at(id).wf()
    &&& always_silent(v.nodes.node_at(id).module)
    &&& v.audio_out == Some((id, q))
    &&& (q as int) < v.nodes.node_at(id).outputs.len()
    &&& v.schedule.contains(id)
}

proof fn lemma_prefix_silent<M: Module>(v: EngineView<M>, id: NodeId, j: int)
    requires
        v.nodes.is_live(id),
        v.nodes.node_at(id).wf(),
        always_silent(v.nodes.node_at(id).module),
        0 <= j <= v.schedule.len(),
    ensures
        v.run_prefix(j).nodes.is_live(id),
        v.run_prefix(j).nodes.node_at(id).wf(),
        always_silent(v.run_prefix(j).nodes.node_at(id).module),
        v.run_prefix(j).nodes.node_at(id).outputs.len() == v.nodes.node_at(id).outputs.len(),
        (exists|pos: int| 0 <= pos < j && v.schedule[pos] == id) ==> v.run_prefix(
            j,
        ).nodes.node_at(id).outputs == Seq::new(v.nodes.node_at(id).outputs.len(), |i: int| 0i64),
    decreases j,
{
    if j > 0 {
        lemma_prefix_silent(v, id, j - 1);
        let vp = v.run_prefix(j - 1);
        let rid = v.schedule[j - 1];
        if rid == id {
            let m = vp.nodes.node_at(id).module;
            let reads = vp.readings(id);
            let prev = vp.nodes.node_at(id).outputs;
            m.lemma_step_wf(reads, prev);
            assert(steps_to(m, Seq::<Seq<Option<i64>>>::empty()) == m);
            assert(steps_to(m, Seq::<Seq<Option<i64>>>::empty()).written(reads, prev) == Seq::new(
                prev.len(),
                |i: int| 0i64,
            ));
            assert(m.written(reads, prev) == Seq::new(prev.len(), |i: int| 0i64));
            lemma_always_silent_step(m, reads);
            assert(v.run_prefix(j) == vp.step(id));
            assert(vp.step(id).nodes.node_at(id) == vp.nodes.node_at(id).after_run(reads));
            assert(v.run_prefix(j).nodes.node_at(id).outputs =~= Seq::new(
                v.nodes.node_at(id).outputs.len(),
                |i: int| 0i64,
            ));
            assert(0 <= j - 1 < j && v.schedule[j - 1] == id);
        } else {
            lemma_step_preserves_other(vp, rid, id);
            if exists|pos: int| 0 <= pos < j && v.schedule[pos] == id {
                let pos = choose|pos: int| 0 <= pos < j && v.schedule[pos] == id;
                assert(pos < j - 1 || v.schedule[j - 1] == id);
                assert(exists|pos2: int| 0 <= pos2 < j - 1 && v.schedule[pos2] == id);
            }
        }
    }
}

proof fn lemma_tick_preserves_silent_sink<M: Module>(v: EngineView<M>, id: NodeId, q: u8)
    requires
        silent_sink(v, id, q),
    ensures
        silent_sink(v.tick(None), id, q),
        v.tick(None).out() == 0,
{
    let len = v.schedule.len() as int;
    lemma_prefix_silent(v, id, len);
    lemma_run_prefix_frame(v, len);
    let v2 = v.sched_run();
    assert(exists|pos: int| 0 <= pos < len && v.schedule[pos] == id);
    assert(v2.nodes.node_at(id).outputs == Seq::new(v.nodes.node_at(id).outputs.len(), |i: int| 0i64));
    assert(v2.nodes.read(Some((id, q))) == Some(0i64));
    assert(v2.schedule == v.schedule);
}

/// Law: with the designated output wired to a scheduled module that always
/// writes silence, driving the engine for any number of ticks (with no
/// commands arriving) yields silence every tick: N ticks, N zeros.
pub proof fn lemma_silent_sink_yields_zeros<M: Module>(v: EngineView<M>, id: NodeId, q: u8, n: nat)
    requires
        silent_sink(v, id, q),
    ensures
        silent_sink(run_ticks(v, n), id, q),
        forall|i: nat| 1 <= i <= n ==> #[trigger] run_ticks(v, i).out() == 0,
    decreases n,
{
    if n > 0 {
        lemma_silent_sink_yields_zeros(v, id, q, (n - 1) as nat);
        lemma_tick_preserves_silent_sink(run_ticks(v, (n - 1) as nat), id, q);
        assert(run_ticks(v, n) == run_ticks(v, (n - 1) as nat).tick(None));
        assert forall|i: nat| 1 <= i <= n implies #[trigger] run_ticks(v, i).out() == 0 by {
            if i == n {
                assert(run_ticks(v, i) == run_ticks(v, (n - 1) as nat).tick(None));
            }
        }
    }
}

} // verus!
