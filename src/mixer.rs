use vstd::prelude::*;
use crate::events::TimedEvent;

verus! {

/// An edge of the signal graph: source module, its output port, destination
/// module, its input port.
pub type Connection = (usize, usize, usize, usize);

/// `order` runs every node of an `n`-node graph exactly once, and every
/// source before the destinations it feeds.
pub open spec fn is_schedule(order: Seq<usize>, n: nat, edges: Seq<Connection>) -> bool {
    &&& order.no_duplicates()
    &&& forall|i: int| 0 <= i < order.len() ==> (#[trigger] order[i] as int) < n
    &&& forall|v: usize| (v as int) < n ==> #[trigger] order.contains(v)
    &&& forall|e: int, i: int, j: int|
        0 <= e < edges.len() && 0 <= i < order.len() && 0 <= j < order.len() && #[trigger] order[i] == (#[trigger] edges[e]).0
            && #[trigger] order[j] == edges[e].2 ==> i < j
}

/// Node `v` can run once the nodes in `done` have: it has not run yet and
/// every node that feeds it has.
pub open spec fn ready(edges: Seq<Connection>, done: Seq<usize>, v: usize) -> bool {
    &&& !done.contains(v)
    &&& forall|e: int| 0 <= e < edges.len() && (#[trigger] edges[e]).2 == v ==> done.contains(edges[e].0)
}

/// Every edge joins two of the `n` nodes.
pub open spec fn edges_within(edges: Seq<Connection>, n: nat) -> bool {
    forall|e: int| 0 <= e < edges.len() ==> (#[trigger] edges[e]).0 < n && edges[e].2 < n
}

/// At each step, `order` runs the lowest-numbered node that is ready.
pub open spec fn lowest_ready_first(order: Seq<usize>, edges: Seq<Connection>) -> bool {
    forall|k: int| 0 <= k < order.len() ==> {
        &&& ready(edges, order.take(k), #[trigger] order[k])
        &&& forall|v: usize| v < order[k] ==> !ready(edges, order.take(k), v)
    }
}

/// Distinct values below `n` number at most `n`.
proof fn lemma_distinct_below(s: Seq<usize>, n: nat)
    requires
        s.no_duplicates(),
        forall|i: int| 0 <= i < s.len() ==> (#[trigger] s[i] as int) < n,
    ensures
        s.len() <= n,
    decreases n,
{
    if n == 0 {
        if s.len() > 0 {
            assert(s[0] < 0);
        }
    } else {
        let top = (n - 1) as usize;
        if s.contains(top) {
            let k = choose|k: int| 0 <= k < s.len() && s[k] == top;
            let t = s.remove(k);
            assert forall|i: int| 0 <= i < t.len() implies (#[trigger] t[i] as int) < n - 1 by {
                if i < k {
                    assert(t[i] == s[i]);
                } else {
                    assert(t[i] == s[i + 1]);
                }
            }
            assert forall|i: int, j: int| 0 <= i < t.len() && 0 <= j < t.len() && i != j implies t[i] != t[j] by {
                let si = if i < k { i } else { i + 1 };
                let sj = if j < k { j } else { j + 1 };
                assert(t[i] == s[si]);
                assert(t[j] == s[sj]);
            }
            lemma_distinct_below(t, (n - 1) as nat);
        } else {
            assert forall|i: int| 0 <= i < s.len() implies (#[trigger] s[i] as int) < n - 1 by {
                assert(s[i] != top);
            }
            lemma_distinct_below(s, (n - 1) as nat);
        }
    }
}

/// When no node is ready but some has not run, no schedule exists: in any
/// order, the first node that has not run would need one that has not run
/// before it.
proof fn lemma_stuck_means_no_schedule(edges: Seq<Connection>, n: nat, done: Seq<usize>, o: Seq<usize>, u: usize)
    requires
        edges_within(edges, n),
        (u as int) < n,
        !done.contains(u),
        forall|v: usize| (v as int) < n ==> !ready(edges, done, v),
    ensures
        !is_schedule(o, n, edges),
{
    if is_schedule(o, n, edges) {
        lemma_schedule_runs_done_first(edges, n, done, o, o.len());
        assert(o.contains(u));
        let k = choose|k: int| 0 <= k < o.len() && o[k] == u;
        assert(done.contains(o[k]));
    }
}

proof fn lemma_schedule_runs_done_first(edges: Seq<Connection>, n: nat, done: Seq<usize>, o: Seq<usize>, j: nat)
    requires
        edges_within(edges, n),
        forall|v: usize| (v as int) < n ==> !ready(edges, done, v),
        is_schedule(o, n, edges),
        j <= o.len(),
    ensures
        forall|i: int| 0 <= i < j ==> done.contains(#[trigger] o[i]),
    decreases j,
{
    if j > 0 {
        lemma_schedule_runs_done_first(edges, n, done, o, (j - 1) as nat);
        let w = o[j - 1];
        if !done.contains(w) {
            assert(!ready(edges, done, w));
            let e = choose|e: int| 0 <= e < edges.len() && (#[trigger] edges[e]).2 == w && !done.contains(edges[e].0);
            let src = edges[e].0;
            assert(o.contains(src));
            let i = choose|i: int| 0 <= i < o.len() && o[i] == src;
            assert(i < j - 1);
            assert(done.contains(o[i]));
        }
    }
}

/// The nodes of an `n`-node graph in an order that runs every source before
/// its destinations, taking at each step the lowest-numbered node that is
/// ready; `None` when the edges hold a cycle and no such order exists.
pub fn topological_sort(connections: &[Connection], num_nodes: usize) -> (r: Option<Vec<usize>>)
    requires
        edges_within(connections@, num_nodes as nat),
    ensures
        match r {
            Some(order) => is_schedule(order@, num_nodes as nat, connections@) && lowest_ready_first(order@, connections@),
            None => forall|o: Seq<usize>| !is_schedule(o, num_nodes as nat, connections@),
        },
{
    let n = num_nodes;
    let ghost edges = connections@;
    let mut placed: Vec<bool> = Vec::with_capacity(n);
    let mut v: usize = 0;
    while v < n
        invariant
            v <= n,
            placed@.len() == v,
            forall|u: int| 0 <= u < v ==> !(#[trigger] placed@[u]),
        decreases n - v,
    {
        placed.push(false);
        v = v + 1;
    }
    let mut order: Vec<usize> = Vec::new();
    let mut stuck = false;
    while !stuck
        invariant
            placed@.len() == n,
            order@.no_duplicates(),
            order@.len() <= n,
            forall|i: int| 0 <= i < order@.len() ==> (#[trigger] order@[i] as int) < n,
            forall|u: int| 0 <= u < n ==> #[trigger] placed@[u] == order@.contains(u as usize),
            lowest_ready_first(order@, edges),
            stuck ==> forall|w: usize| (w as int) < n ==> !ready(edges, order@, w),
            edges == connections@,
            edges_within(edges, n as nat),
        decreases n - order@.len() + if stuck { 0int } else { 1int },
    {
        let mut w: usize = 0;
        let mut found = false;
        while w < n && !found
            invariant
                w <= n,
                placed@.len() == n,
                forall|u: int| 0 <= u < n ==> #[trigger] placed@[u] == order@.contains(u as usize),
                forall|u: usize| u < w ==> !ready(edges, order@, u),
                found ==> w < n && ready(edges, order@, w),
                edges == connections@,
                edges_within(edges, n as nat),
            decreases n - w + if found { 0int } else { 1int },
        {
            if !placed[w] && preds_placed(connections, &placed, w) {
                found = true;
            } else {
                w = w + 1;
            }
        }
        if found {
            let ghost before = order@;
            placed.set(w, true);
            order.push(w);
            proof {
                assert(order@.take(before.len() as int) =~= before);
                assert forall|k: int| 0 <= k < before.len() implies order@.take(k) =~= before.take(k) by {}
                assert forall|u: int| 0 <= u < n implies #[trigger] placed@[u] == order@.contains(u as usize) by {
                    if u == w {
                        assert(order@[before.len() as int] == w);
                    } else {
                        if before.contains(u as usize) {
                            let i = choose|i: int| 0 <= i < before.len() && before[i] == u as usize;
                            assert(order@[i] == u as usize);
                        }
                        if order@.contains(u as usize) {
                            let i = choose|i: int| 0 <= i < order@.len() && order@[i] == u as usize;
                            assert(i < before.len());
                            assert(before[i] == u as usize);
                        }
                    }
                }
                lemma_distinct_below(order@, n as nat);
            }
        } else {
            stuck = true;
        }
    }
    let mut all = true;
    let mut missing: usize = 0;
    let mut u: usize = 0;
    while u < n
        invariant
            u <= n,
            placed@.len() == n,
            all ==> forall|x: int| 0 <= x < u ==> #[trigger] placed@[x],
            !all ==> missing < n && !placed@[missing as int],
        decreases n - u,
    {
        if !placed[u] {
            all = false;
            missing = u;
        }
        u = u + 1;
    }
    if all {
        proof {
            assert forall|x: usize| (x as int) < n implies #[trigger] order@.contains(x) by {
                assert(placed@[x as int]);
            }
            assert forall|e: int, i: int, j: int|
                0 <= e < edges.len() && 0 <= i < order@.len() && 0 <= j < order@.len() && #[trigger] order@[i] == (#[trigger] edges[e]).0
                    && #[trigger] order@[j] == edges[e].2 implies i < j by {
                assert(ready(edges, order@.take(j), order@[j]));
                assert(order@.take(j).contains(edges[e].0));
                let i2 = choose|i2: int| 0 <= i2 < j && order@.take(j)[i2] == edges[e].0;
                assert(order@[i2] == order@[i]);
            }
        }
        Some(order)
    } else {
        proof {
            assert forall|o: Seq<usize>| !is_schedule(o, n as nat, edges) by {
                lemma_stuck_means_no_schedule(edges, n as nat, order@, o, missing);
            }
        }
        None
    }
}

/// Whether every node that feeds `v` has run.
fn preds_placed(connections: &[Connection], placed: &Vec<bool>, v: usize) -> (r: bool)
    requires
        edges_within(connections@, placed@.len()),
    ensures
        r == forall|e: int| 0 <= e < connections@.len() && (#[trigger] connections@[e]).2 == v ==> placed@[connections@[e].0 as int],
{
    let mut e: usize = 0;
    while e < connections.len()
        invariant
            e <= connections@.len(),
            edges_within(connections@, placed@.len()),
            forall|k: int| 0 <= k < e && (#[trigger] connections@[k]).2 == v ==> placed@[connections@[k].0 as int],
        decreases connections@.len() - e,
    {
        let c = connections[e];
        if c.2 == v && !placed[c.0] {
            return false;
        }
        e = e + 1;
    }
    true
}

/// Why a connection was refused.
#[derive(Clone, Copy, PartialEq, Eq, Structural, Debug)]
pub enum GraphError {
    /// One of the two modules does not exist.
    NoSuchModule,
    /// The source has no such output port, or the destination no such input.
    NoSuchPort,
    /// The connection would close a cycle.
    Cycle,
}

/// The signal graph: modules with numbered ports, the connections between
/// them, and the order in which a block runs them.
pub struct Mixer {
    /// Input ports of each module.
    pub inputs: Vec<usize>,
    /// Output ports of each module.
    pub outputs: Vec<usize>,
    pub connections: Vec<Connection>,
    /// Processing order, kept up to date by `add_node` and `connect`.
    pub order: Vec<usize>,
}

impl Mixer {
    pub open spec fn nodes(&self) -> nat {
        self.inputs@.len()
    }

    /// Every connection joins existing ports, and `order` schedules the graph.
    pub open spec fn wf(&self) -> bool {
        &&& self.outputs@.len() == self.inputs@.len()
        &&& edges_within(self.connections@, self.nodes())
        &&& forall|e: int| 0 <= e < self.connections@.len() ==> {
            &&& (#[trigger] self.connections@[e]).1 < self.outputs@[self.connections@[e].0 as int]
            &&& self.connections@[e].3 < self.inputs@[self.connections@[e].2 as int]
        }
        &&& is_schedule(self.order@, self.nodes(), self.connections@)
    }

    pub fn new() -> (m: Mixer)
        ensures
            m.wf(),
            m.nodes() == 0,
            m.connections@.len() == 0,
    {
        Mixer { inputs: Vec::new(), outputs: Vec::new(), connections: Vec::new(), order: Vec::new() }
    }

    /// Adds a module with `inputs` input ports and `outputs` output ports,
    /// returns its index; it runs after every module added before it.
    pub fn add_node(&mut self, inputs: usize, outputs: usize) -> (index: usize)
        requires
            old(self).wf(),
            old(self).nodes() < usize::MAX,
        ensures
            final(self).wf(),
            index == old(self).nodes(),
            final(self).inputs@ == old(self).inputs@.push(inputs),
            final(self).outputs@ == old(self).outputs@.push(outputs),
            final(self).connections@ == old(self).connections@,
            final(self).order@ == old(self).order@.push(index),
    {
        let index = self.inputs.len();
        let ghost before = self.order@;
        self.inputs.push(inputs);
        self.outputs.push(outputs);
        self.order.push(index);
        proof {
            let n = index as nat;
            assert(!before.contains(index)) by {
                if before.contains(index) {
                    let i = choose|i: int| 0 <= i < before.len() && before[i] == index;
                    assert(before[i] < n);
                }
            }
            assert forall|v: usize| (v as int) < n + 1 implies #[trigger] self.order@.contains(v) by {
                if v == index {
                    assert(self.order@[before.len() as int] == v);
                } else {
                    assert(before.contains(v));
                    let i = choose|i: int| 0 <= i < before.len() && before[i] == v;
                    assert(self.order@[i] == v);
                }
            }
            assert forall|e: int| 0 <= e < self.connections@.len() implies {
                &&& (#[trigger] self.connections@[e]).1 < self.outputs@[self.connections@[e].0 as int]
                &&& self.connections@[e].3 < self.inputs@[self.connections@[e].2 as int]
            } by {
                assert(old(self).connections@[e].0 < n);
            }
        }
        index
    }

    /// Connects output port `src_chan` of module `src_module` to input port
    /// `dst_chan` of module `dst_module`. A connection between ports that do
    /// not exist, or one that would close a cycle, is refused and the graph
    /// stays as it was.
    pub fn connect(&mut self, src_module: usize, src_chan: usize, dst_module: usize, dst_chan: usize) -> (r: Result<(), GraphError>)
        requires
            old(self).wf(),
        ensures
            final(self).wf(),
            ({
                let n = old(self).nodes();
                let edges = old(self).connections@.push((src_module, src_chan, dst_module, dst_chan));
                if !(src_module < n && dst_module < n) {
                    r == Err::<(), GraphError>(GraphError::NoSuchModule) && *final(self) == *old(self)
                } else if !(src_chan < old(self).outputs@[src_module as int] && dst_chan < old(self).inputs@[dst_module as int]) {
                    r == Err::<(), GraphError>(GraphError::NoSuchPort) && *final(self) == *old(self)
                } else if exists|o: Seq<usize>| is_schedule(o, n, edges) {
                    &&& r == Ok::<(), GraphError>(())
                    &&& final(self).connections@ == edges
                    &&& final(self).inputs == old(self).inputs
                    &&& final(self).outputs == old(self).outputs
                    &&& lowest_ready_first(final(self).order@, edges)
                } else {
                    r == Err::<(), GraphError>(GraphError::Cycle) && *final(self) == *old(self)
                }
            }),
    {
        let n = self.inputs.len();
        if src_module >= n || dst_module >= n {
            return Err(GraphError::NoSuchModule);
        }
        if src_chan >= self.outputs[src_module] || dst_chan >= self.inputs[dst_module] {
            return Err(GraphError::NoSuchPort);
        }
        let mut edges: Vec<Connection> = Vec::new();
        let mut e: usize = 0;
        while e < self.connections.len()
            invariant
                e <= self.connections@.len(),
                edges@ == self.connections@.take(e as int),
            decreases self.connections@.len() - e,
        {
            edges.push(self.connections[e]);
            e = e + 1;
            assert(edges@ =~= self.connections@.take(e as int));
        }
        edges.push((src_module, src_chan, dst_module, dst_chan));
        assert(edges@ =~= self.connections@.push((src_module, src_chan, dst_module, dst_chan)));
        match topological_sort(edges.as_slice(), n) {
            Some(order) => {
                self.connections = edges;
                self.order = order;
                Ok(())
            },
            None => Err(GraphError::Cycle),
        }
    }

    /// The order in which a block runs the modules.
    pub fn schedule(&self) -> (r: &Vec<usize>)
        requires
            self.wf(),
        ensures
            r@ == self.order@,
            is_schedule(r@, self.nodes(), self.connections@),
    {
        &self.order
    }
}

/// The events among the first `n` of `events` that are addressed to module
/// `node`, in their order.
pub open spec fn addressed_to(events: Seq<TimedEvent>, n: nat, node: usize) -> Seq<TimedEvent>
    decreases n,
{
    if n == 0 {
        Seq::empty()
    } else {
        let rest = addressed_to(events, (n - 1) as nat, node);
        if events[n - 1].module_index == node {
            rest.push(events[n - 1])
        } else {
            rest
        }
    }
}

/// The events of a block that module `node` is to receive: those addressed
/// to it, in the order they were emitted.
pub fn events_for(events: &[TimedEvent], node: usize) -> (r: Vec<TimedEvent>)
    ensures
        r@ == addressed_to(events@, events@.len(), node),
{
    let mut r: Vec<TimedEvent> = Vec::new();
    let mut i: usize = 0;
    while i < events.len()
        invariant
            i <= events@.len(),
            r@ == addressed_to(events@, i as nat, node),
        decreases events@.len() - i,
    {
        if events[i].module_index == node {
            r.push(events[i]);
        }
        i = i + 1;
    }
    r
}

} // verus!
