//! A device execution graph as a value: allocation, host/device copy, kernel
//! launch and free nodes with their dependencies. The device runtime builds
//! and runs the same graph node for node.
use vstd::prelude::*;
use crate::pixel::PixelLayout;

verus! {

/// Direction of a copy between a host buffer and device memory.
#[derive(Clone, Copy, PartialEq, Eq, Debug, Structural)]
pub enum MemCpyDirection {
    HostToDevice,
    DeviceToHost,
}

/// An address in device memory, as the device runtime handed it out for an
/// allocation node.
#[derive(Clone, Copy, PartialEq, Eq, Debug, Structural)]
pub struct DevicePtr {
    pub inner: usize,
}

impl DevicePtr {
    pub fn new(inner: usize) -> (r: Self)
        ensures
            r.inner == inner,
    {
        DevicePtr { inner }
    }

    pub fn inner(&self) -> (r: usize)
        ensures
            r == self.inner,
    {
        self.inner
    }
}

/// What a graph node does.
pub enum GraphNode {
    /// Allocates `bytes` bytes of device memory at `ptr`.
    Alloc { bytes: usize, ptr: DevicePtr },
    /// Copies `height` rows of `width_in_bytes` bytes between host buffer
    /// `buffer`, whose rows are `width_in_bytes` apart, and device memory at
    /// `device_ptr`, whose rows are `device_pitch` apart.
    MemCpy {
        direction: MemCpyDirection,
        buffer: usize,
        device_ptr: DevicePtr,
        width_in_bytes: usize,
        height: usize,
        device_pitch: usize,
    },
    /// Launches `source`'s kernel on a grid of `grid_width` by `grid_height`
    /// blocks of `block_width` by `block_height` threads.
    Kernel {
        source: String,
        block_width: usize,
        block_height: usize,
        grid_width: usize,
        grid_height: usize,
    },
    /// Frees the memory of allocation node `alloc`, at `ptr`.
    Free { alloc: usize, ptr: DevicePtr },
}

/// Handle of a node of a `Graph`.
#[derive(Clone, Copy, PartialEq, Eq, Debug, Structural)]
pub struct Node {
    pub inner: usize,
}

/// The allocation node that free node `n` releases, if `n` is a free node.
pub open spec fn freed_by(n: GraphNode) -> Option<usize> {
    match n {
        GraphNode::Free { alloc, .. } => Some(alloc),
        _ => None,
    }
}

/// Node `t` of `deps` depends directly on node `a`.
pub open spec fn is_dependent(deps: Seq<Seq<usize>>, a: usize, t: int) -> bool {
    0 <= t < deps.len() && deps[t].contains(a)
}

/// A device graph under construction, with the host buffers that its copy
/// nodes read and write.
pub struct Graph {
    nodes: Vec<GraphNode>,
    deps: Vec<Vec<usize>>,
    buffers: Vec<Vec<u8>>,
}

impl Graph {
    pub closed spec fn spec_nodes(&self) -> Seq<GraphNode> {
        self.nodes@
    }

    pub closed spec fn spec_deps(&self) -> Seq<Seq<usize>> {
        self.deps@.map_values(|v: Vec<usize>| v@)
    }

    pub closed spec fn spec_buffers(&self) -> Seq<Seq<u8>> {
        self.buffers@.map_values(|v: Vec<u8>| v@)
    }

    /// Every dependency names an earlier node.
    pub open spec fn wf(&self) -> bool {
        &&& self.spec_deps().len() == self.spec_nodes().len()
        &&& forall|i: int, k: int|
            0 <= i < self.spec_deps().len() && 0 <= k < self.spec_deps()[i].len() ==> #[trigger] self.spec_deps()[i][k]
                < i
    }

    pub fn new() -> (r: Graph)
        ensures
            r.wf(),
            r.spec_nodes().len() == 0,
            r.spec_buffers().len() == 0,
    {
        let r = Graph { nodes: Vec::new(), deps: Vec::new(), buffers: Vec::new() };
        assert(r.spec_deps() =~= Seq::<Seq<usize>>::empty());
        r
    }

    pub fn len(&self) -> (r: usize)
        ensures
            r == self.spec_nodes().len(),
    {
        self.nodes.len()
    }

    pub fn node(&self, i: usize) -> (r: &GraphNode)
        requires
            i < self.spec_nodes().len(),
        ensures
            *r == self.spec_nodes()[i as int],
    {
        &self.nodes[i]
    }

    pub fn dependencies(&self, i: usize) -> (r: &Vec<usize>)
        requires
            i < self.spec_nodes().len(),
            self.wf(),
        ensures
            r@ == self.spec_deps()[i as int],
    {
        &self.deps[i]
    }

    pub fn buffer(&self, b: usize) -> (r: &Vec<u8>)
        requires
            b < self.spec_buffers().len(),
        ensures
            r@ == self.spec_buffers()[b as int],
    {
        &self.buffers[b]
    }

    /// Replaces the contents of host buffer `b` by `data` of the same length;
    /// `false`, changing nothing, when `b` names no buffer or the lengths differ.
    pub fn set_buffer(&mut self, b: usize, data: Vec<u8>) -> (r: bool)
        ensures
            r == (b < old(self).spec_buffers().len() && data@.len() == old(
                self,
            ).spec_buffers()[b as int].len()),
            r ==> final(self).spec_buffers() == old(self).spec_buffers().update(b as int, data@),
            !r ==> final(self).spec_buffers() == old(self).spec_buffers(),
            final(self).spec_nodes() == old(self).spec_nodes(),
            final(self).spec_deps() == old(self).spec_deps(),
    {
        if b >= self.buffers.len() || data.len() != self.buffers[b].len() {
            return false;
        }
        self.buffers.set(b, data);
        assert(self.spec_buffers() =~= old(self).spec_buffers().update(b as int, data@));
        true
    }

    /// Appends node `n` after the nodes `deps` names.
    fn push(&mut self, n: GraphNode, deps: Vec<usize>) -> (r: Node)
        requires
            old(self).wf(),
            forall|k: int| 0 <= k < deps@.len() ==> deps@[k] < old(self).spec_nodes().len(),
        ensures
            final(self).wf(),
            r.inner == old(self).spec_nodes().len(),
            final(self).spec_nodes() == old(self).spec_nodes().push(n),
            final(self).spec_deps() == old(self).spec_deps().push(deps@),
            final(self).spec_buffers() == old(self).spec_buffers(),
    {
        let id = self.nodes.len();
        self.nodes.push(n);
        self.deps.push(deps);
        assert(self.spec_deps() =~= old(self).spec_deps().push(deps@));
        Node { inner: id }
    }

    /// Adds an allocation of `height` rows of `pitch` bytes at `ptr`.
    pub fn add_mem_alloc_node(&mut self, height: usize, pitch: usize, ptr: DevicePtr) -> (r: Node)
        requires
            old(self).wf(),
            height * pitch <= usize::MAX,
        ensures
            final(self).wf(),
            r.inner == old(self).spec_nodes().len(),
            final(self).spec_nodes() == old(self).spec_nodes().push(
                GraphNode::Alloc { bytes: (height * pitch) as usize, ptr },
            ),
            final(self).spec_deps() == old(self).spec_deps().push(seq![]),
            final(self).spec_buffers() == old(self).spec_buffers(),
    {
        let v: Vec<usize> = Vec::new();
        assert(v@ =~= seq![]);
        self.push(GraphNode::Alloc { bytes: height * pitch, ptr }, v)
    }

    /// Adds a copy of a `width` by `height` image of pixels of `pixel_layout`
    /// between a new zeroed host buffer, rows packed tight, and device memory at
    /// `device_ptr` with rows `pitch` apart, after node `dependency`. Returns
    /// the node and the index of its host buffer.
    pub fn add_mem_cpy_node(
        &mut self,
        dependency: Node,
        direction: MemCpyDirection,
        width: usize,
        height: usize,
        pitch: usize,
        pixel_layout: PixelLayout,
        device_ptr: DevicePtr,
    ) -> (r: (Node, usize))
        requires
            old(self).wf(),
            dependency.inner < old(self).spec_nodes().len(),
            width * pixel_layout.size <= usize::MAX,
            width * pixel_layout.size * height <= usize::MAX,
        ensures
            final(self).wf(),
            r.0.inner == old(self).spec_nodes().len(),
            r.1 == old(self).spec_buffers().len(),
            final(self).spec_nodes() == old(self).spec_nodes().push(
                GraphNode::MemCpy {
                    direction,
                    buffer: r.1,
                    device_ptr,
                    width_in_bytes: (width * pixel_layout.size) as usize,
                    height,
                    device_pitch: pitch,
                },
            ),
            final(self).spec_deps() == old(self).spec_deps().push(seq![dependency.inner]),
            final(self).spec_buffers().len() == old(self).spec_buffers().len() + 1,
            final(self).spec_buffers().take(r.1 as int) == old(self).spec_buffers(),
            final(self).spec_buffers()[r.1 as int] == Seq::new(
                (width * pixel_layout.size * height) as nat,
                |i: int| 0u8,
            ),
    {
        let width_in_bytes = width * pixel_layout.size;
        let size = width_in_bytes * height;
        let buffer_id = self.buffers.len();
        let buffer = zeroed(size);
        self.buffers.push(buffer);
        assert(self.spec_buffers().take(buffer_id as int) =~= old(self).spec_buffers());
        let deps = vec![dependency.inner];
        assert(deps@ =~= seq![dependency.inner]);
        let node = self.push(
            GraphNode::MemCpy {
                direction,
                buffer: buffer_id,
                device_ptr,
                width_in_bytes,
                height,
                device_pitch: pitch,
            },
            deps,
        );
        (node, buffer_id)
    }

    /// Adds a launch of the kernel in `source` after every node of `dependencies`.
    pub fn add_kernel_node(
        &mut self,
        dependencies: &Vec<Node>,
        source: String,
        block_width: usize,
        block_height: usize,
        grid_width: usize,
        grid_height: usize,
    ) -> (r: Node)
        requires
            old(self).wf(),
            forall|k: int|
                0 <= k < dependencies@.len() ==> dependencies@[k].inner < old(self).spec_nodes().len(),
        ensures
            final(self).wf(),
            r.inner == old(self).spec_nodes().len(),
            final(self).spec_nodes() == old(self).spec_nodes().push(
                GraphNode::Kernel { source, block_width, block_height, grid_width, grid_height },
            ),
            final(self).spec_deps() == old(self).spec_deps().push(
                dependencies@.map_values(|n: Node| n.inner),
            ),
            final(self).spec_buffers() == old(self).spec_buffers(),
    {
        let mut deps: Vec<usize> = Vec::new();
        let mut i: usize = 0;
        while i < dependencies.len()
            invariant
                i <= dependencies@.len(),
                deps@ == dependencies@.take(i as int).map_values(|n: Node| n.inner),
            decreases dependencies@.len() - i,
        {
            deps.push(dependencies[i].inner);
            assert(dependencies@.take(i + 1).map_values(|n: Node| n.inner) =~= dependencies@.take(
                i as int,
            ).map_values(|n: Node| n.inner).push(dependencies@[i as int].inner));
            i = i + 1;
        }
        assert(dependencies@.take(i as int) =~= dependencies@);
        self.push(
            GraphNode::Kernel { source, block_width, block_height, grid_width, grid_height },
            deps,
        )
    }
}

/// `n` zero bytes.
fn zeroed(n: usize) -> (r: Vec<u8>)
    ensures
        r@ == Seq::new(n as nat, |i: int| 0u8),
{
    let mut r: Vec<u8> = Vec::new();
    while r.len() < n
        invariant
            r@.len() <= n,
            forall|i: int| 0 <= i < r@.len() ==> r@[i] == 0u8,
        decreases n - r@.len(),
    {
        r.push(0u8);
    }
    assert(r@ =~= Seq::new(n as nat, |i: int| 0u8));
    r
}

/// Whether `v` holds `x`.
fn contains(v: &Vec<usize>, x: usize) -> (r: bool)
    ensures
        r == v@.contains(x),
{
    let mut i: usize = 0;
    while i < v.len()
        invariant
            i <= v@.len(),
            forall|k: int| 0 <= k < i ==> v@[k] != x,
        decreases v@.len() - i,
    {
        if v[i] == x {
            return true;
        }
        i = i + 1;
    }
    false
}

/// Number of allocation nodes among the first `upto` of `nodes`.
pub open spec fn alloc_count(nodes: Seq<GraphNode>, upto: int) -> nat
    decreases upto,
{
    if upto <= 0 {
        0
    } else {
        alloc_count(nodes, upto - 1) + if nodes[upto - 1] is Alloc {
            1nat
        } else {
            0nat
        }
    }
}

/// The nodes appended after the old nodes are free nodes, exactly one for each
/// allocation among the old nodes before `upto`, and each one frees its
/// allocation's memory after exactly the direct dependents of that allocation.
pub open spec fn frees_added(
    old_nodes: Seq<GraphNode>,
    old_deps: Seq<Seq<usize>>,
    nodes: Seq<GraphNode>,
    deps: Seq<Seq<usize>>,
    upto: int,
) -> bool {
    let n = old_nodes.len() as int;
    &&& 0 <= upto <= n
    &&& nodes.len() == n + alloc_count(old_nodes, upto)
    &&& deps.len() == nodes.len()
    &&& nodes.take(n) == old_nodes
    &&& deps.take(n) == old_deps
    &&& forall|f: int|
        n <= f < nodes.len() ==> {
            &&& #[trigger] freed_by(nodes[f]) is Some
            &&& freed_by(nodes[f])->0 < upto
            &&& old_nodes[freed_by(nodes[f])->0 as int] is Alloc
            &&& nodes[f]->Free_ptr == old_nodes[freed_by(nodes[f])->0 as int]->Alloc_ptr
            &&& forall|t: usize| #[trigger] deps[f].contains(t) <==> (t < n && is_dependent(old_deps, freed_by(nodes[f])->0, t as int))
        }
    &&& forall|f1: int, f2: int|
        n <= f1 < nodes.len() && n <= f2 < nodes.len() && #[trigger] freed_by(nodes[f1]) == #[trigger] freed_by(nodes[f2]) ==> f1 == f2
    &&& forall|a: int|
        0 <= a < upto && #[trigger] old_nodes[a] is Alloc ==> exists|f: int|
            n <= f < nodes.len() && freed_by(nodes[f]) == Some(a as usize)
}

impl Graph {
    /// Adds, for every allocation node, one free node of its memory that
    /// depends on exactly the allocation's direct dependents.
    fn add_free_nodes(&mut self)
        requires
            old(self).wf(),
        ensures
            final(self).wf(),
            frees_added(
                old(self).spec_nodes(),
                old(self).spec_deps(),
                final(self).spec_nodes(),
                final(self).spec_deps(),
                old(self).spec_nodes().len() as int,
            ),
            final(self).spec_buffers() == old(self).spec_buffers(),
    {
        let n = self.nodes.len();
        let ghost old_nodes = self.spec_nodes();
        let ghost old_deps = self.spec_deps();
        assert(self.spec_nodes().take(n as int) =~= old_nodes);
        assert(self.spec_deps().take(n as int) =~= old_deps);
        let mut a: usize = 0;
        while a < n
            invariant
                self.wf(),
                n == old_nodes.len(),
                old_deps.len() == n,
                a <= n,
                frees_added(old_nodes, old_deps, self.spec_nodes(), self.spec_deps(), a as int),
                forall|f: int| n <= f < self.spec_nodes().len() ==> #[trigger] freed_by(self.spec_nodes()[f])->0 < a,
                self.spec_buffers() == old(self).spec_buffers(),
            decreases n - a,
        {
            let ghost before_nodes = self.spec_nodes();
            let ghost before_deps = self.spec_deps();
            if let GraphNode::Alloc { ptr, .. } = &self.nodes[a] {
                let ptr = *ptr;
                let mut preds: Vec<usize> = Vec::new();
                let mut t: usize = 0;
                while t < n
                    invariant
                        self.spec_nodes() == before_nodes,
                        self.spec_deps() == before_deps,
                        before_deps.take(n as int) == old_deps,
                        self.wf(),
                        before_nodes.len() >= n,
                        n == old_nodes.len(),
                        old_deps.len() == n,
                        a < n,
                        t <= n,
                        forall|k: int| 0 <= k < preds@.len() ==> preds@[k] < t,
                        forall|u: usize| #[trigger] preds@.contains(u) <==> (u < t && is_dependent(old_deps, a, u as int)),
                    decreases n - t,
                {
                    assert(before_deps.take(n as int)[t as int] == before_deps[t as int]);
                    assert(self.spec_deps()[t as int] == old_deps[t as int]);
                    assert(self.deps@[t as int]@ == self.spec_deps()[t as int]);
                    let ghost prev = preds@;
                    let hit = contains(&self.deps[t], a);
                    if hit {
                        preds.push(t);
                    }
                    proof {
                        assert(hit == is_dependent(old_deps, a, t as int));
                        assert forall|u: usize| #[trigger] preds@.contains(u) <==> (u < t + 1 && is_dependent(old_deps, a, u as int)) by {
                            if preds@.contains(u) {
                                let k = choose|k: int| 0 <= k < preds@.len() && preds@[k] == u;
                                if k < prev.len() {
                                    assert(prev[k] == u);
                                    assert(prev.contains(u));
                                }
                            }
                            if u < t && is_dependent(old_deps, a, u as int) {
                                assert(prev.contains(u));
                                let k = choose|k: int| 0 <= k < prev.len() && prev[k] == u;
                                assert(preds@[k] == u);
                            }
                            if u == t && hit {
                                assert(preds@[prev.len() as int] == u);
                            }
                        }
                    }
                    t = t + 1;
                }
                let ghost p = preds@;
                    self.push(GraphNode::Free { alloc: a, ptr }, preds);
                    proof {
                        let nodes = self.spec_nodes();
                        let deps = self.spec_deps();
                        let last = nodes.len() - 1;
                        assert(nodes.take(n as int) =~= before_nodes.take(n as int));
                        assert(deps.take(n as int) =~= before_deps.take(n as int));
                        assert forall|f: int| n <= f < nodes.len() implies {
                            &&& #[trigger] freed_by(nodes[f]) is Some
                            &&& freed_by(nodes[f])->0 < a + 1
                            &&& old_nodes[freed_by(nodes[f])->0 as int] is Alloc
                            &&& nodes[f]->Free_ptr == old_nodes[freed_by(nodes[f])->0 as int]->Alloc_ptr
                            &&& forall|t: usize| #[trigger] deps[f].contains(t) <==> (t < n && is_dependent(old_deps, freed_by(nodes[f])->0, t as int))
                        } by {
                            if f < last {
                                assert(nodes[f] == before_nodes[f]);
                                assert(deps[f] == before_deps[f]);
                            } else {
                                assert(before_nodes[a as int] == old_nodes[a as int]);
                                assert forall|t: usize| #[trigger] deps[f].contains(t) implies t < n by {
                                    let k = choose|k: int| 0 <= k < p.len() && p[k] == t;
                                    assert(p[k] < n);
                                }
                            }
                        }
                        assert forall|f1: int, f2: int|
                            n <= f1 < nodes.len() && n <= f2 < nodes.len() && #[trigger] freed_by(nodes[f1]) == #[trigger] freed_by(nodes[f2]) implies f1 == f2 by {
                            if f1 < last && f2 < last {
                                assert(nodes[f1] == before_nodes[f1]);
                                assert(nodes[f2] == before_nodes[f2]);
                            } else if f1 < last {
                                assert(freed_by(before_nodes[f1])->0 < a);
                            } else if f2 < last {
                                assert(freed_by(before_nodes[f2])->0 < a);
                            }
                        }
                        assert forall|x: int|
                            0 <= x < a + 1 && #[trigger] old_nodes[x] is Alloc implies exists|f: int|
                                n <= f < nodes.len() && freed_by(nodes[f]) == Some(x as usize) by {
                            if x < a {
                                let f = choose|f: int| n <= f < before_nodes.len() && freed_by(before_nodes[f]) == Some(x as usize);
                                assert(nodes[f] == before_nodes[f]);
                            } else {
                                assert(freed_by(nodes[last]) == Some(x as usize));
                            }
                        }
                        assert forall|f: int| n <= f < nodes.len() implies #[trigger] freed_by(nodes[f])->0 < a + 1 by {
                            if f < last {
                                assert(nodes[f] == before_nodes[f]);
                            }
                        }
                    }
            } else {
                proof {
                    assert forall|x: int|
                        0 <= x < a + 1 && #[trigger] old_nodes[x] is Alloc implies exists|f: int|
                            n <= f < self.spec_nodes().len() && freed_by(self.spec_nodes()[f]) == Some(x as usize) by {
                        if x == a {
                            assert(before_nodes[a as int] == old_nodes[a as int]);
                        }
                    }
                }
            }
            a = a + 1;
        }
    }

    /// Adds the free nodes and hands the graph over for instantiation.
    pub fn make_executable(self) -> (r: ExecutableGraph)
        requires
            self.wf(),
        ensures
            r.graph.wf(),
            frees_added(
                self.spec_nodes(),
                self.spec_deps(),
                r.graph.spec_nodes(),
                r.graph.spec_deps(),
                self.spec_nodes().len() as int,
            ),
            r.graph.spec_buffers() == self.spec_buffers(),
    {
        let mut graph = self;
        graph.add_free_nodes();
        ExecutableGraph { graph }
    }
}

/// A complete device graph, free nodes included, ready to be instantiated
/// and launched by the device runtime.
pub struct ExecutableGraph {
    pub graph: Graph,
}

} // verus!
