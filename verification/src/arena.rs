use vstd::prelude::*;

use crate::cables::{points_at, Input, Output};
use crate::Module;

verus! {

/// Stable identifier for a node: a slot position plus a generation counter.
/// A removed node's identifier never again names a live node, because removal
/// advances the slot's generation.
#[derive(Debug, Copy, Clone, PartialEq, Eq, Structural)]
pub struct NodeId {
    pub index: usize,
    pub generation: u64,
}

/// One module instance together with its fixed-size port storage.
pub struct Node<M> {
    pub inputs: Vec<Input>,
    pub outputs: Vec<Output>,
    pub module: M,
}

/// Mathematical model of a node: the input references, the output samples,
/// and the module state.
#[verifier::ext_equal]
pub ghost struct NodeView<M> {
    pub inputs: Seq<Option<(NodeId, u8)>>,
    pub outputs: Seq<i64>,
    pub module: M,
}

impl<M> View for Node<M> {
    type V = NodeView<M>;

    open spec fn view(&self) -> NodeView<M> {
        NodeView {
            inputs: Seq::new(self.inputs@.len(), |i: int| self.inputs@[i]@),
            outputs: Seq::new(self.outputs@.len(), |i: int| self.outputs@[i]@),
            module: self.module,
        }
    }
}

impl<M: Module> NodeView<M> {
    /// The port arrays have exactly the sizes the module asks for.
    pub open spec fn wf(self) -> bool {
        &&& self.inputs.len() == self.module.spec_inputs()
        &&& self.outputs.len() == self.module.spec_outputs()
    }

    /// The node after one compute step on the given readings.
    pub open spec fn after_run(self, ins: Seq<Option<i64>>) -> NodeView<M> {
        NodeView {
            inputs: self.inputs,
            outputs: self.module.written(ins, self.outputs),
            module: self.module.stepped(ins),
        }
    }

    /// The node with every input that references `id` cleared.
    pub open spec fn detached_from(self, id: NodeId) -> NodeView<M> {
        NodeView {
            inputs: Seq::new(
                self.inputs.len(),
                |p: int| if points_at(self.inputs[p], id) { None } else { self.inputs[p] },
            ),
            ..self
        }
    }
}

/// One slot of the collection: its current generation and, if occupied, the
/// node living there.
pub struct Slot<M> {
    pub generation: u64,
    pub node: Option<Node<M>>,
}

#[verifier::ext_equal]
pub ghost struct SlotView<M> {
    pub generation: u64,
    pub node: Option<NodeView<M>>,
}

/// Mathematical model of the node collection: the sequence of slots.
#[verifier::ext_equal]
pub ghost struct ArenaView<M> {
    pub slots: Seq<SlotView<M>>,
}

/// The identity-stable node collection: nodes are addressed by `NodeId` and a
/// slot's generation advances each time its occupant is removed, so stale
/// identifiers are detected instead of resolving to a different node.
pub struct NodeArena<M> {
    slots: Vec<Slot<M>>,
}

impl<M: Module> View for NodeArena<M> {
    type V = ArenaView<M>;

    closed spec fn view(&self) -> ArenaView<M> {
        ArenaView {
            slots: Seq::new(
                self.slots@.len(),
                |i: int| SlotView {
                    generation: self.slots@[i].generation,
                    node: match self.slots@[i].node {
                        Some(n) => Some(n@),
                        None => None,
                    },
                },
            ),
        }
    }
}

impl<M: Module> ArenaView<M> {
    /// Whether `id` currently names a live node.
    pub open spec fn is_live(self, id: NodeId) -> bool {
        &&& id.index < self.slots.len()
        &&& self.slots[id.index as int].generation == id.generation
        &&& self.slots[id.index as int].node is Some
    }

    /// The node `id` names (meaningful only when `is_live(id)`).
    pub open spec fn node_at(self, id: NodeId) -> NodeView<M> {
        self.slots[id.index as int].node.unwrap()
    }

    /// Whether `id` belonged to a node that has since been removed. A retired
    /// identifier can never become live again.
    pub open spec fn retired(self, id: NodeId) -> bool {
        &&& id.index < self.slots.len()
        &&& {
            ||| self.slots[id.index as int].generation > id.generation
            ||| (id.generation == u64::MAX && self.slots[id.index as int].generation == u64::MAX
                && self.slots[id.index as int].node is None)
        }
    }

    /// How the collection may change under any operation: slots are never
    /// discarded, generations never decrease, and a slot whose generation has
    /// been exhausted stays empty forever.
    pub open spec fn evolves_to(self, post: ArenaView<M>) -> bool {
        &&& self.slots.len() <= post.slots.len()
        &&& forall|i: int|
            #![trigger post.slots[i]]
            0 <= i < self.slots.len() ==> post.slots[i].generation >= self.slots[i].generation
        &&& forall|i: int|
            #![trigger post.slots[i]]
            0 <= i < self.slots.len() && self.slots[i].generation == u64::MAX
                && self.slots[i].node is None ==> post.slots[i].generation == u64::MAX
                && post.slots[i].node is None
    }

    /// Reading through an input reference: the referenced output's current
    /// sample, or nothing if the reference is absent, stale, or out of range.
    pub open spec fn read(self, src: Option<(NodeId, u8)>) -> Option<i64> {
        match src {
            None => None,
            Some((id, p)) => if self.is_live(id) && (p as int) < self.node_at(id).outputs.len() {
                Some(self.node_at(id).outputs[p as int])
            } else {
                None
            },
        }
    }

    /// Whether slot `i` is free for reuse.
    pub open spec fn free_at(self, i: int) -> bool {
        self.slots[i].node is None && self.slots[i].generation < u64::MAX
    }

    /// The first reusable slot at or after `i`, or the length if none.
    pub open spec fn first_free_from(self, i: int) -> int
        decreases self.slots.len() - i,
    {
        if i >= self.slots.len() {
            self.slots.len() as int
        } else if self.free_at(i) {
            i
        } else {
            self.first_free_from(i + 1)
        }
    }

    /// The collection with the slot `id` names replaced.
    pub open spec fn with_node(self, id: NodeId, node: NodeView<M>) -> ArenaView<M> {
        ArenaView {
            slots: self.slots.update(
                id.index as int,
                SlotView { generation: self.slots[id.index as int].generation, node: Some(node) },
            ),
        }
    }

    /// The collection and identifier produced by inserting `node` into the
    /// first reusable slot, or into a fresh slot at the end.
    pub open spec fn insert_view(self, node: NodeView<M>) -> (ArenaView<M>, NodeId) {
        let j = self.first_free_from(0);
        if j < self.slots.len() {
            (
                ArenaView {
                    slots: self.slots.update(
                        j,
                        SlotView { generation: self.slots[j].generation, node: Some(node) },
                    ),
                },
                NodeId { index: j as usize, generation: self.slots[j].generation },
            )
        } else {
            (
                ArenaView { slots: self.slots.push(SlotView { generation: 0, node: Some(node) }) },
                NodeId { index: self.slots.len() as usize, generation: 0 },
            )
        }
    }

    /// The collection after removing the node `id` names: the slot is emptied
    /// and its generation advanced (or pinned at its maximum).
    pub open spec fn remove_view(self, id: NodeId) -> ArenaView<M> {
        let g = self.slots[id.index as int].generation;
        ArenaView {
            slots: self.slots.update(
                id.index as int,
                SlotView {
                    generation: if g < u64::MAX { (g + 1) as u64 } else { g },
                    node: None,
                },
            ),
        }
    }

    /// The collection with every input reference to `id`, in every node,
    /// cleared.
    pub open spec fn detach_all(self, id: NodeId) -> ArenaView<M> {
        ArenaView {
            slots: Seq::new(
                self.slots.len(),
                |i: int| SlotView {
                    generation: self.slots[i].generation,
                    node: match self.slots[i].node {
                        Some(n) => Some(n.detached_from(id)),
                        None => None,
                    },
                },
            ),
        }
    }
}

/// A retired identifier does not resolve to a live node.
pub proof fn lemma_retired_not_live<M: Module>(v: ArenaView<M>, id: NodeId)
    requires
        v.retired(id),
    ensures
        !v.is_live(id),
{
}

/// Evolution steps compose.
pub proof fn lemma_evolves_trans<M: Module>(a: ArenaView<M>, b: ArenaView<M>, c: ArenaView<M>)
    requires
        a.evolves_to(b),
        b.evolves_to(c),
    ensures
        a.evolves_to(c),
{
    assert forall|i: int|
        #![trigger c.slots[i]]
        0 <= i < a.slots.len() implies c.slots[i].generation >= a.slots[i].generation && (
        a.slots[i].generation == u64::MAX && a.slots[i].node is None ==> c.slots[i].generation
            == u64::MAX && c.slots[i].node is None) by {
        assert(b.slots[i].generation >= a.slots[i].generation);
        assert(c.slots[i].generation >= b.slots[i].generation);
        if a.slots[i].generation == u64::MAX && a.slots[i].node is None {
            assert(b.slots[i].generation == u64::MAX && b.slots[i].node is None);
        }
    }
}

/// The slot `first_free_from` picks, when it lies inside the collection, is
/// indeed free.
pub proof fn lemma_first_free_is_free<M: Module>(v: ArenaView<M>, i: int)
    requires
        0 <= i,
    ensures
        v.first_free_from(i) < v.slots.len() ==> (i <= v.first_free_from(i) && v.free_at(
            v.first_free_from(i),
        )),
    decreases v.slots.len() - i,
{
    if i < v.slots.len() && !v.free_at(i) {
        lemma_first_free_is_free(v, i + 1);
    }
}

/// Retirement survives any single evolution step of the collection.
pub proof fn lemma_evolution_preserves_retired<M: Module>(
    pre: ArenaView<M>,
    post: ArenaView<M>,
    id: NodeId,
)
    requires
        pre.retired(id),
        pre.evolves_to(post),
    ensures
        post.retired(id),
{
    assert(0 <= id.index < pre.slots.len());
}

/// Law: for any sequence of collection states linked by legal operations
/// (insert, remove, rewire, run — each of which ensures `evolves_to`), an
/// identifier that has been retired stays retired and never again resolves to
/// a live node.
pub proof fn lemma_removed_id_never_resolves<M: Module>(states: Seq<ArenaView<M>>, id: NodeId)
    requires
        states.len() > 0,
        states[0].retired(id),
        forall|i: int| 0 <= i < states.len() - 1 ==> #[trigger] states[i].evolves_to(states[i + 1]),
    ensures
        forall|i: int| 0 <= i < states.len() ==> #[trigger] states[i].retired(id),
        forall|i: int| 0 <= i < states.len() ==> !(#[trigger] states[i].is_live(id)),
    decreases states.len(),
{
    if states.len() > 1 {
        let prefix = states.drop_last();
        let n = states.len() - 1;
        assert forall|i: int| 0 <= i < prefix.len() - 1 implies #[trigger] prefix[i].evolves_to(
            prefix[i + 1],
        ) by {
            assert(states[i].evolves_to(states[i + 1]));
        }
        lemma_removed_id_never_resolves(prefix, id);
        assert(prefix[n - 1] == states[n - 1]);
        assert(states[n - 1].retired(id));
        assert(states[n - 1].evolves_to(states[(n - 1) + 1]));
        lemma_evolution_preserves_retired(states[n - 1], states[n], id);
        assert forall|i: int| 0 <= i < states.len() implies #[trigger] states[i].retired(id) by {
            if i < n {
                assert(prefix[i] == states[i]);
                assert(prefix[i].retired(id));
            }
        }
        assert forall|i: int| 0 <= i < states.len() implies !(#[trigger] states[i].is_live(id)) by {
            assert(states[i].retired(id));
            lemma_retired_not_live(states[i], id);
        }
    } else {
        lemma_retired_not_live(states[0], id);
    }
}

impl<M: Module> Node<M> {
    /// Build a node for `module`: exactly as many (disconnected) inputs and
    /// (silent) outputs as the module asks for.
    #[verifier::loop_isolation(false)]
    pub fn from_module(module: M) -> (r: Node<M>)
        ensures
            r@.wf(),
            r@.module == module,
            forall|p: int| 0 <= p < r@.inputs.len() ==> r@.inputs[p] is None,
            forall|p: int| 0 <= p < r@.outputs.len() ==> r@.outputs[p] == 0i64,
    {
        let n_in = module.num_inputs();
        let n_out = module.num_outputs();
        let mut inputs: Vec<Input> = Vec::new();
        let mut k: u8 = 0;
        while k < n_in
            invariant
                k <= n_in,
                inputs@.len() == k as nat,
                forall|p: int| 0 <= p < k ==> inputs@[p]@ is None,
            decreases n_in - k,
        {
            inputs.push(Input::default());
            k = k + 1;
        }
        let mut outputs: Vec<Output> = Vec::new();
        let mut m: u8 = 0;
        while m < n_out
            invariant
                m <= n_out,
                outputs@.len() == m as nat,
                forall|p: int| 0 <= p < m ==> outputs@[p]@ == 0i64,
            decreases n_out - m,
        {
            outputs.push(Output::default());
            m = m + 1;
        }
        Node { inputs, outputs, module }
    }

    /// One compute step in place: read the given input samples, overwrite the
    /// outputs with what the module writes, and advance the module state.
    /// `work` is scratch space for the output samples, handed in so that the
    /// tick path reuses one buffer instead of allocating per step; its prior
    /// contents are discarded.
    #[verifier::loop_isolation(false)]
    pub fn run(&mut self, inputs: &Vec<Option<i64>>, work: &mut Vec<i64>)
        requires
            old(self)@.wf(),
            inputs@.len() == old(self)@.module.spec_inputs(),
        ensures
            final(self)@ == old(self)@.after_run(inputs@),
            final(self)@.wf(),
    {
        let ghost pre = self@;
        work.clear();
        let mut p: usize = 0;
        while p < self.outputs.len()
            invariant
                p <= self.outputs.len(),
                *self == *old(self),
                work@.len() == p as nat,
                forall|k: int| 0 <= k < p ==> work@[k] == self@.outputs[k],
            decreases self.outputs.len() - p,
        {
            let v = self.outputs[p].get();
            work.push(v);
            p = p + 1;
        }
        proof {
            assert(work@ =~= pre.outputs);
        }
        self.module.run(inputs, work);
        proof {
            pre.module.lemma_step_wf(inputs@, pre.outputs);
            assert(work@.len() == self.outputs@.len());
        }
        let ghost written = work@;
        let mut q: usize = 0;
        while q < self.outputs.len()
            invariant
                q <= self.outputs.len(),
                work@ == written,
                written.len() == self.outputs@.len(),
                self.inputs == old(self).inputs,
                self.module == pre.module.stepped(inputs@),
                forall|k: int| 0 <= k < q ==> self.outputs@[k]@ == written[k],
                forall|k: int| q <= k < self.outputs@.len() ==> self.outputs@[k] == old(
                    self,
                ).outputs@[k],
            decreases self.outputs.len() - q,
        {
            let v = work[q];
            let o = &mut self.outputs[q];
            o.set(v);
            q = q + 1;
        }
        proof {
            assert(self@ =~~= pre.after_run(inputs@));
            pre.module.lemma_step_wf(inputs@, pre.outputs);
        }
    }

    /// Whether the port arrays match the module's port counts; decided at run
    /// time from the module's own counts.
    pub fn check_wf(&self) -> (r: bool)
        ensures
            r == self@.wf(),
    {
        let n_in = self.module.num_inputs();
        let n_out = self.module.num_outputs();
        self.inputs.len() == n_in as usize && self.outputs.len() == n_out as usize
    }

    /// Clear every input of this node that references `id`.
    #[verifier::loop_isolation(false)]
    pub fn detach_inputs_from(&mut self, id: NodeId)
        ensures
            final(self)@ == old(self)@.detached_from(id),
    {
        let mut p: usize = 0;
        while p < self.inputs.len()
            invariant
                p <= self.inputs.len(),
                self.inputs@.len() == old(self).inputs@.len(),
                self.outputs == old(self).outputs,
                self.module == old(self).module,
                forall|k: int| 0 <= k < p ==> self.inputs@[k]@ == (if points_at(
                    old(self).inputs@[k]@,
                    id,
                ) {
                    None
                } else {
                    old(self).inputs@[k]@
                }),
                forall|k: int| p <= k < self.inputs@.len() ==> self.inputs@[k] == old(
                    self,
                ).inputs@[k],
            decreases self.inputs.len() - p,
        {
            let inp = &mut self.inputs[p];
            if inp.points_within(id) {
                inp.disconnect();
            }
            p = p + 1;
        }
        proof {
            assert(self@ =~~= old(self)@.detached_from(id));
        }
    }
}

impl<M: Module> NodeArena<M> {
    /// An empty collection.
    pub fn new() -> (r: NodeArena<M>)
        ensures
            r@.slots.len() == 0,
    {
        NodeArena { slots: Vec::new() }
    }

    /// An empty collection; `cap` is an allocation hint only.
    pub fn with_capacity(cap: usize) -> (r: NodeArena<M>)
        ensures
            r@.slots.len() == 0,
    {
        let _ = cap;
        NodeArena { slots: Vec::new() }
    }

    /// Whether `id` names a live node.
    pub fn contains(&self, id: NodeId) -> (r: bool)
        ensures
            r == self@.is_live(id),
    {
        id.index < self.slots.len() && self.slots[id.index].generation == id.generation
            && self.slots[id.index].node.is_some()
    }

    /// Borrow the node `id` names.
    pub fn get(&self, id: NodeId) -> (r: &Node<M>)
        requires
            self@.is_live(id),
        ensures
            r@ == self@.node_at(id),
    {
        self.slots[id.index].node.as_ref().unwrap()
    }

    /// Read through an input reference: the referenced output's current
    /// sample, or nothing if the reference is absent, stale, or out of range.
    pub fn read(&self, src: Option<(NodeId, u8)>) -> (r: Option<i64>)
        ensures
            r == self@.read(src),
    {
        match src {
            None => None,
            Some((id, p)) => {
                if self.contains(id) {
                    let node = self.get(id);
                    if (p as usize) < node.outputs.len() {
                        Some(node.outputs[p as usize].get())
                    } else {
                        None
                    }
                } else {
                    None
                }
            },
        }
    }

    /// Insert a node, reusing the first free slot if any; returns the fresh
    /// identifier, which names no previously live or removed node.
    #[verifier::loop_isolation(false)]
    pub fn insert(&mut self, node: Node<M>) -> (id: NodeId)
        ensures
            final(self)@ == old(self)@.insert_view(node@).0,
            id == old(self)@.insert_view(node@).1,
            final(self)@.is_live(id),
            final(self)@.node_at(id) == node@,
            !old(self)@.is_live(id),
            !old(self)@.retired(id),
            forall|o: NodeId| o != id ==> (final(self)@.is_live(o) <==> old(self)@.is_live(o)),
            forall|o: NodeId| o != id && old(self)@.is_live(o) ==> final(self)@.node_at(o) == old(
                self,
            )@.node_at(o),
            forall|o: NodeId| old(self)@.retired(o) ==> final(self)@.retired(o),
            old(self)@.evolves_to(final(self)@),
    {
        let ghost pre = self@;
        let ghost nv = node@;
        let ghost moved = node;
        let mut j: usize = 0;
        while j < self.slots.len()
            invariant
                j <= self.slots.len(),
                *self == *old(self),
                pre == self@,
                pre.first_free_from(0) == pre.first_free_from(j as int),
            decreases self.slots.len() - j,
        {
            let free = self.slots[j].node.is_none() && self.slots[j].generation < u64::MAX;
            if free {
                let g = self.slots[j].generation;
                let slot = &mut self.slots[j];
                slot.node = Some(node);
                let id = NodeId { index: j, generation: g };
                proof {
                    assert(pre.free_at(j as int));
                    assert(pre.first_free_from(j as int) == j as int);
                    assert(pre.first_free_from(0) == j as int);
                    assert(self@.slots.len() == pre.slots.len());
                    assert(self@.slots[j as int].generation == g);
                    assert(self.slots@[j as int].node == Some(moved));
                    assert(moved@ == nv);
                    assert(self@.slots[j as int].node == Some(nv));
                    assert forall|i: int| 0 <= i < pre.slots.len() && i != j as int
                        implies self@.slots[i] == pre.slots[i] by {
                        assert(self.slots@[i] == old(self).slots@[i]);
                    }
                    assert(self@ =~~= pre.insert_view(nv).0);
                }
                return id;
            }
            proof {
                assert(!pre.free_at(j as int));
                assert(pre.first_free_from(j as int) == pre.first_free_from(j as int + 1));
            }
            j = j + 1;
        }
        let id = NodeId { index: self.slots.len(), generation: 0 };
        self.slots.push(Slot { generation: 0, node: Some(node) });
        proof {
            assert(pre.first_free_from(0) == pre.slots.len());
            assert(self@ =~~= pre.insert_view(nv).0);
        }
        id
    }

    /// Remove the node `id` names, if it is live: the slot is emptied, its
    /// generation advanced, and the node handed back. A stale or unknown
    /// identifier removes nothing.
    pub fn remove(&mut self, id: NodeId) -> (r: Option<Node<M>>)
        ensures
            old(self)@.is_live(id) ==> {
                &&& r matches Some(n) && n@ == old(self)@.node_at(id)
                &&& final(self)@ == old(self)@.remove_view(id)
                &&& final(self)@.retired(id)
            },
            !old(self)@.is_live(id) ==> r is None && final(self)@ == old(self)@,
            forall|o: NodeId| o != id ==> (final(self)@.is_live(o) <==> old(self)@.is_live(o)),
            forall|o: NodeId| o != id && old(self)@.is_live(o) ==> final(self)@.node_at(o) == old(
                self,
            )@.node_at(o),
            forall|o: NodeId| old(self)@.retired(o) ==> final(self)@.retired(o),
            old(self)@.evolves_to(final(self)@),
    {
        let ghost pre = self@;
        if id.index >= self.slots.len() {
            proof {
                assert(self@ =~~= pre);
            }
            return None;
        }
        if self.slots[id.index].generation != id.generation {
            proof {
                assert(self@ =~~= pre);
            }
            return None;
        }
        let slot = &mut self.slots[id.index];
        let mut taken: Option<Node<M>> = None;
        core::mem::swap(&mut slot.node, &mut taken);
        match taken {
            None => {
                proof {
                    assert(self@ =~~= pre);
                }
                None
            },
            Some(n) => {
                if slot.generation < u64::MAX {
                    slot.generation = slot.generation + 1;
                }
                proof {
                    assert(self@ =~~= pre.remove_view(id));
                }
                Some(n)
            },
        }
    }

    /// Rebind (or clear) one input port of the node `id` names.
    pub fn set_input(&mut self, id: NodeId, port: usize, src: Option<(NodeId, u8)>)
        requires
            old(self)@.is_live(id),
            port < old(self)@.node_at(id).inputs.len(),
        ensures
            final(self)@ == old(self)@.with_node(
                id,
                NodeView {
                    inputs: old(self)@.node_at(id).inputs.update(port as int, src),
                    ..old(self)@.node_at(id)
                },
            ),
            forall|o: NodeId| final(self)@.is_live(o) <==> old(self)@.is_live(o),
            forall|o: NodeId| old(self)@.retired(o) ==> final(self)@.retired(o),
            old(self)@.evolves_to(final(self)@),
    {
        let ghost pre = self@;
        let slot = &mut self.slots[id.index];
        let mut taken: Option<Node<M>> = None;
        core::mem::swap(&mut slot.node, &mut taken);
        match taken {
            Some(mut n) => {
                {
                    let inp = &mut n.inputs[port];
                    match src {
                        Some((sid, sp)) => inp.connect_to(sid, sp),
                        None => inp.disconnect(),
                    }
                }
                slot.node = Some(n);
                proof {
                    assert(self@ =~~= pre.with_node(
                        id,
                        NodeView {
                            inputs: pre.node_at(id).inputs.update(port as int, src),
                            ..pre.node_at(id)
                        },
                    ));
                }
            },
            None => {
                proof {
                    assert(false);
                }
            },
        }
    }

    /// Run one node's compute step in place, against the given readings.
    /// `work` is scratch space for the output samples; its prior contents are
    /// discarded.
    pub fn run_node(&mut self, id: NodeId, inputs: &Vec<Option<i64>>, work: &mut Vec<i64>)
        requires
            old(self)@.is_live(id),
            old(self)@.node_at(id).wf(),
            inputs@.len() == old(self)@.node_at(id).module.spec_inputs(),
        ensures
            final(self)@ == old(self)@.with_node(id, old(self)@.node_at(id).after_run(inputs@)),
            forall|o: NodeId| final(self)@.is_live(o) <==> old(self)@.is_live(o),
            forall|o: NodeId| old(self)@.retired(o) ==> final(self)@.retired(o),
            old(self)@.evolves_to(final(self)@),
    {
        let ghost pre = self@;
        let slot = &mut self.slots[id.index];
        let mut taken: Option<Node<M>> = None;
        core::mem::swap(&mut slot.node, &mut taken);
        match taken {
            Some(mut n) => {
                n.run(inputs, work);
                slot.node = Some(n);
                proof {
                    assert(self@ =~~= pre.with_node(id, pre.node_at(id).after_run(inputs@)));
                }
            },
            None => {
                proof {
                    assert(false);
                }
            },
        }
    }

    /// Clear, in every node, every input that references `id`. Part of the
    /// mandatory detach pass during removal: no input may keep a reference to
    /// a removed node.
    #[verifier::loop_isolation(false)]
    pub fn detach_from(&mut self, id: NodeId)
        ensures
            final(self)@ == old(self)@.detach_all(id),
            forall|o: NodeId| final(self)@.is_live(o) <==> old(self)@.is_live(o),
            forall|o: NodeId| old(self)@.retired(o) ==> final(self)@.retired(o),
            old(self)@.evolves_to(final(self)@),
    {
        let ghost pre = self@;
        let mut i: usize = 0;
        while i < self.slots.len()
            invariant
                i <= self.slots.len(),
                self@.slots.len() == pre.slots.len(),
                forall|k: int| 0 <= k < i ==> self@.slots[k] =~~= pre.detach_all(id).slots[k],
                forall|k: int| i <= k < pre.slots.len() ==> self@.slots[k] == pre.slots[k],
            decreases self.slots.len() - i,
        {
            let slot = &mut self.slots[i];
            let mut taken: Option<Node<M>> = None;
            core::mem::swap(&mut slot.node, &mut taken);
            match taken {
                Some(mut n) => {
                    n.detach_inputs_from(id);
                    slot.node = Some(n);
                },
                None => {
                    slot.node = None;
                },
            }
            i = i + 1;
        }
        proof {
            assert(self@ =~~= pre.detach_all(id));
        }
    }
}

} // verus!
