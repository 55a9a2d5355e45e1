//! The computational dependency graph: an arena of immutable image operations
//! in which every node refers to its dependencies by their index, so that a
//! node shared by several operations is stored once and keeps its identity.
use vstd::prelude::*;
use crate::pixel::PixelType;
use crate::syntax::{KernelError, KernelFn};

verus! {

/// An image operation over the nodes it depends on.
pub enum Operation {
    MapPixel { dependency: usize, f: KernelFn, pixel_type: PixelType },
    MapPatch { dependency: usize, f: KernelFn, dimension: usize, pixel_type: PixelType },
    MapImage { dependency: usize, f: KernelFn, width: usize, height: usize, pixel_type: PixelType },
    Flip { dependency: usize },
    HConcat { dependency_left: usize, dependency_right: usize },
    VConcat { dependency_top: usize, dependency_bottom: usize },
}

/// A node of the graph: a named input image or an operation.
pub enum Node {
    Input { name: String, width: usize, height: usize, pixel_type: PixelType },
    Operation(Operation),
}

/// A graph constraint that a node breaks.
#[derive(Clone, Copy, PartialEq, Eq, Debug, Structural)]
pub enum Violation {
    /// A dependency names no earlier node.
    UnknownNode,
    /// A width or a height is zero.
    ZeroExtent,
    /// A patch dimension is even.
    EvenPatchDimension,
    /// The two sides of a horizontal concatenation differ in height.
    HeightMismatch,
    /// The two sides of a vertical concatenation differ in width.
    WidthMismatch,
    /// The two sides of a concatenation differ in pixel type.
    PixelTypeMismatch,
    /// A concatenated extent does not fit in `usize`.
    TooLarge,
    /// A kernel's source text was not accepted.
    Kernel(KernelError),
    /// A patch does not fit in one block of threads.
    PatchLargerThanBlock,
    /// Two outputs share a name.
    DuplicateOutputName,
    /// Two inputs that the outputs need share a name.
    DuplicateInputName,
    /// The device addresses do not match the allocations one to one.
    DevicePointerCount,
}

/// The dependencies of a node, in the order the operation names them.
pub open spec fn deps_of(n: Node) -> Seq<usize> {
    match n {
        Node::Input { .. } => seq![],
        Node::Operation(op) => match op {
            Operation::MapPixel { dependency, .. } => seq![dependency],
            Operation::MapPatch { dependency, .. } => seq![dependency],
            Operation::MapImage { dependency, .. } => seq![dependency],
            Operation::Flip { dependency } => seq![dependency],
            Operation::HConcat { dependency_left, dependency_right } => seq![
                dependency_left,
                dependency_right,
            ],
            Operation::VConcat { dependency_top, dependency_bottom } => seq![
                dependency_top,
                dependency_bottom,
            ],
        },
    }
}

/// Width of node `i` of `g`.
pub open spec fn width_of(g: Seq<Node>, i: nat) -> nat
    decreases i,
{
    if i >= g.len() {
        0
    } else {
        match g[i as int] {
            Node::Input { width, .. } => width as nat,
            Node::Operation(op) => match op {
                Operation::MapPixel { dependency, .. } => if dependency < i {
                    width_of(g, dependency as nat)
                } else {
                    0
                },
                Operation::MapPatch { dependency, .. } => if dependency < i {
                    width_of(g, dependency as nat)
                } else {
                    0
                },
                Operation::MapImage { width, .. } => width as nat,
                Operation::Flip { dependency } => if dependency < i {
                    width_of(g, dependency as nat)
                } else {
                    0
                },
                Operation::HConcat { dependency_left, dependency_right } => if dependency_left < i
                    && dependency_right < i {
                    width_of(g, dependency_left as nat) + width_of(g, dependency_right as nat)
                } else {
                    0
                },
                Operation::VConcat { dependency_top, .. } => if dependency_top < i {
                    width_of(g, dependency_top as nat)
                } else {
                    0
                },
            },
        }
    }
}

/// Height of node `i` of `g`.
pub open spec fn height_of(g: Seq<Node>, i: nat) -> nat
    decreases i,
{
    if i >= g.len() {
        0
    } else {
        match g[i as int] {
            Node::Input { height, .. } => height as nat,
            Node::Operation(op) => match op {
                Operation::MapPixel { dependency, .. } => if dependency < i {
                    height_of(g, dependency as nat)
                } else {
                    0
                },
                Operation::MapPatch { dependency, .. } => if dependency < i {
                    height_of(g, dependency as nat)
                } else {
                    0
                },
                Operation::MapImage { height, .. } => height as nat,
                Operation::Flip { dependency } => if dependency < i {
                    height_of(g, dependency as nat)
                } else {
                    0
                },
                Operation::HConcat { dependency_left, .. } => if dependency_left < i {
                    height_of(g, dependency_left as nat)
                } else {
                    0
                },
                Operation::VConcat { dependency_top, dependency_bottom } => if dependency_top < i
                    && dependency_bottom < i {
                    height_of(g, dependency_top as nat) + height_of(g, dependency_bottom as nat)
                } else {
                    0
                },
            },
        }
    }
}

/// Pixel type of node `i` of `g`.
pub open spec fn pixel_type_of(g: Seq<Node>, i: nat) -> PixelType
    decreases i,
{
    if i >= g.len() {
        PixelType::RgbU8
    } else {
        match g[i as int] {
            Node::Input { pixel_type, .. } => pixel_type,
            Node::Operation(op) => match op {
                Operation::MapPixel { pixel_type, .. } => pixel_type,
                Operation::MapPatch { pixel_type, .. } => pixel_type,
                Operation::MapImage { pixel_type, .. } => pixel_type,
                Operation::Flip { dependency } => if dependency < i {
                    pixel_type_of(g, dependency as nat)
                } else {
                    PixelType::RgbU8
                },
                Operation::HConcat { dependency_left, .. } => if dependency_left < i {
                    pixel_type_of(g, dependency_left as nat)
                } else {
                    PixelType::RgbU8
                },
                Operation::VConcat { dependency_top, .. } => if dependency_top < i {
                    pixel_type_of(g, dependency_top as nat)
                } else {
                    PixelType::RgbU8
                },
            },
        }
    }
}

/// The first constraint, in a fixed order, that node `n` breaks when it is
/// added after the nodes `g`; `None` when it breaks none.
pub open spec fn violation_of(g: Seq<Node>, n: Node) -> Option<Violation> {
    if exists|k: int| 0 <= k < deps_of(n).len() && deps_of(n)[k] >= g.len() {
        Some(Violation::UnknownNode)
    } else {
        match n {
            Node::Input { width, height, .. } => if width == 0 || height == 0 {
                Some(Violation::ZeroExtent)
            } else {
                None
            },
            Node::Operation(op) => match op {
                Operation::MapPatch { dimension, .. } => if dimension % 2 == 0 {
                    Some(Violation::EvenPatchDimension)
                } else {
                    None
                },
                Operation::MapImage { width, height, .. } => if width == 0 || height == 0 {
                    Some(Violation::ZeroExtent)
                } else {
                    None
                },
                Operation::HConcat { dependency_left: l, dependency_right: r } => if height_of(
                    g,
                    l as nat,
                ) != height_of(g, r as nat) {
                    Some(Violation::HeightMismatch)
                } else if pixel_type_of(g, l as nat) != pixel_type_of(g, r as nat) {
                    Some(Violation::PixelTypeMismatch)
                } else if width_of(g, l as nat) + width_of(g, r as nat) > usize::MAX {
                    Some(Violation::TooLarge)
                } else {
                    None
                },
                Operation::VConcat { dependency_top: t, dependency_bottom: b } => if width_of(
                    g,
                    t as nat,
                ) != width_of(g, b as nat) {
                    Some(Violation::WidthMismatch)
                } else if pixel_type_of(g, t as nat) != pixel_type_of(g, b as nat) {
                    Some(Violation::PixelTypeMismatch)
                } else if height_of(g, t as nat) + height_of(g, b as nat) > usize::MAX {
                    Some(Violation::TooLarge)
                } else {
                    None
                },
                _ => None,
            },
        }
    }
}

/// Node `i` of `g` meets every graph constraint with respect to the nodes before it.
pub open spec fn node_valid(g: Seq<Node>, i: int) -> bool {
    violation_of(g.take(i), g[i]) is None
}

/// Every node of `g` meets the graph constraints.
pub open spec fn graph_valid(g: Seq<Node>) -> bool {
    forall|i: int| 0 <= i < g.len() ==> #[trigger] node_valid(g, i)
}

/// Node `b` is a direct dependency of node `a`.
pub open spec fn depends_on(g: Seq<Node>, a: usize, b: usize) -> bool {
    a < g.len() && deps_of(g[a as int]).contains(b)
}

/// `p` starts at one of `roots` and follows dependency edges.
pub open spec fn is_path(g: Seq<Node>, roots: Seq<usize>, p: Seq<usize>) -> bool {
    &&& p.len() > 0
    &&& roots.contains(p[0])
    &&& forall|k: int| 0 <= k < p.len() - 1 ==> #[trigger] depends_on(g, p[k], p[k + 1])
}

/// Node `j` can be reached from `roots` by following dependencies.
pub open spec fn reachable(g: Seq<Node>, roots: Seq<usize>, j: usize) -> bool {
    exists|p: Seq<usize>| #[trigger] is_path(g, roots, p) && p.last() == j
}

/// Bytes of one row of `width` pixels of `size` bytes, rounded up to a
/// multiple of `alignment`.
pub open spec fn pitch_of(width: nat, size: nat, alignment: nat) -> nat
    recommends
        alignment > 0,
{
    let bytes = width * size;
    if bytes % alignment == 0 {
        bytes
    } else {
        (bytes / alignment + 1) * alignment
    }
}

/// The dependency graph: its nodes, and for each one its width, height and
/// pixel type as derived from the nodes it depends on.
pub struct Cdg {
    nodes: Vec<Node>,
    attrs: Vec<(usize, usize, PixelType)>,
}

impl Cdg {
    pub closed spec fn view(&self) -> Seq<Node> {
        self.nodes@
    }

    pub closed spec fn wf(&self) -> bool {
        &&& graph_valid(self.nodes@)
        &&& self.attrs@.len() == self.nodes@.len()
        &&& forall|i: int|
            0 <= i < self.nodes@.len() ==> {
                &&& (#[trigger] self.attrs@[i]).0 == width_of(self.nodes@, i as nat)
                &&& self.attrs@[i].1 == height_of(self.nodes@, i as nat)
                &&& self.attrs@[i].2 == pixel_type_of(self.nodes@, i as nat)
            }
    }

    /// A well-formed graph meets every graph constraint.
    pub proof fn lemma_valid(&self)
        requires
            self.wf(),
        ensures
            graph_valid(self@),
    {
    }

    pub fn new() -> (r: Cdg)
        ensures
            r.wf(),
            r@ == Seq::<Node>::empty(),
    {
        Cdg { nodes: Vec::new(), attrs: Vec::new() }
    }

    pub fn len(&self) -> (r: usize)
        ensures
            r == self@.len(),
    {
        self.nodes.len()
    }

    pub fn node(&self, i: usize) -> (r: &Node)
        requires
            i < self@.len(),
        ensures
            *r == self@[i as int],
    {
        &self.nodes[i]
    }

    pub fn width(&self, i: usize) -> (r: usize)
        requires
            self.wf(),
            i < self@.len(),
        ensures
            r == width_of(self@, i as nat),
    {
        self.attrs[i].0
    }

    pub fn height(&self, i: usize) -> (r: usize)
        requires
            self.wf(),
            i < self@.len(),
        ensures
            r == height_of(self@, i as nat),
    {
        self.attrs[i].1
    }

    pub fn pixel_type(&self, i: usize) -> (r: PixelType)
        requires
            self.wf(),
            i < self@.len(),
        ensures
            r == pixel_type_of(self@, i as nat),
    {
        self.attrs[i].2
    }

    /// Row stride of node `i` on the device for the given pitch alignment;
    /// `None` when it does not fit in `usize`.
    pub fn pitch(&self, i: usize, alignment: usize) -> (r: Option<usize>)
        requires
            self.wf(),
            i < self@.len(),
            alignment > 0,
        ensures
            r is Some <==> pitch_of(
                width_of(self@, i as nat),
                pixel_type_of(self@, i as nat).spec_size(),
                alignment as nat,
            ) <= usize::MAX,
            r is Some ==> r->0 == pitch_of(
                width_of(self@, i as nat),
                pixel_type_of(self@, i as nat).spec_size(),
                alignment as nat,
            ),
    {
        let w = self.attrs[i].0;
        let size = self.attrs[i].2.layout().size;
        row_pitch(w, size, alignment)
    }

    /// The dependencies of node `i`.
    pub fn dependencies(&self, i: usize) -> (r: Vec<usize>)
        requires
            i < self@.len(),
        ensures
            r@ == deps_of(self@[i as int]),
    {
        match &self.nodes[i] {
            Node::Input { .. } => Vec::new(),
            Node::Operation(op) => match op {
                Operation::MapPixel { dependency, .. } => vec![*dependency],
                Operation::MapPatch { dependency, .. } => vec![*dependency],
                Operation::MapImage { dependency, .. } => vec![*dependency],
                Operation::Flip { dependency } => vec![*dependency],
                Operation::HConcat { dependency_left, dependency_right } => vec![
                    *dependency_left,
                    *dependency_right,
                ],
                Operation::VConcat { dependency_top, dependency_bottom } => vec![
                    *dependency_top,
                    *dependency_bottom,
                ],
            },
        }
    }
}

impl Cdg {
    /// Adds `n` after the existing nodes and returns its index, or the first
    /// constraint that it breaks, leaving the graph as it was.
    pub fn add(&mut self, n: Node) -> (r: Result<usize, Violation>)
        requires
            old(self).wf(),
        ensures
            final(self).wf(),
            match violation_of(old(self)@, n) {
                Some(v) => r == Err::<usize, Violation>(v) && final(self)@ == old(self)@,
                None => r is Ok && r->Ok_0 == old(self)@.len() && final(self)@ == old(self)@.push(n),
            },
    {
        let len = self.nodes.len();
        let ghost g = self.nodes@;
        let checked = self.check(&n);
        let attrs = match checked {
            Err(v) => return Err(v),
            Ok(a) => a,
        };
        proof {
            let g2 = g.push(n);
            assert(g2.take(len as int) =~= g);
            assert forall|i: int| 0 <= i < g.len() implies {
                &&& #[trigger] width_of(g2, i as nat) == width_of(g, i as nat)
                &&& height_of(g2, i as nat) == height_of(g, i as nat)
                &&& pixel_type_of(g2, i as nat) == pixel_type_of(g, i as nat)
            } by {
                lemma_prefix_attrs(g, n, i as nat);
            }
            assert forall|i: int| 0 <= i < g2.len() implies #[trigger] node_valid(g2, i) by {
                if i < g.len() {
                    assert(g2.take(i) =~= g.take(i));
                    assert(node_valid(g, i));
                } else {
                    assert(g2[i] == n);
                }
            }
        }
        let ghost old_attrs = self.attrs@;
        self.nodes.push(n);
        self.attrs.push(attrs);
        proof {
            assert(self.nodes@ == g.push(n));
            assert forall|i: int| 0 <= i < self.nodes@.len() implies {
                &&& (#[trigger] self.attrs@[i]).0 == width_of(self.nodes@, i as nat)
                &&& self.attrs@[i].1 == height_of(self.nodes@, i as nat)
                &&& self.attrs@[i].2 == pixel_type_of(self.nodes@, i as nat)
            } by {
                if i < len {
                    assert(self.attrs@[i] == old_attrs[i]);
                    lemma_prefix_attrs(g, n, i as nat);
                }
            }
        }
        Ok(len)
    }

    /// The constraint that `n` breaks, or the width, height and pixel type it
    /// would have.
    fn check(&self, n: &Node) -> (r: Result<(usize, usize, PixelType), Violation>)
        requires
            self.wf(),
        ensures
            match violation_of(self@, *n) {
                Some(v) => r == Err::<(usize, usize, PixelType), Violation>(v),
                None => r is Ok && r->Ok_0.0 == width_of(self@.push(*n), self@.len())
                    && r->Ok_0.1 == height_of(self@.push(*n), self@.len()) && r->Ok_0.2
                    == pixel_type_of(self@.push(*n), self@.len()),
            },
    {
        let len = self.nodes.len();
        let ghost g = self@;
        let ghost g2 = g.push(*n);
        proof {
            assert(g2[len as int] == *n);
            let ds = deps_of(*n);
            assert forall|k: int| 0 <= k < ds.len() && ds[k] < len implies {
                &&& width_of(g2, ds[k] as nat) == width_of(g, ds[k] as nat)
                &&& height_of(g2, ds[k] as nat) == height_of(g, ds[k] as nat)
                &&& pixel_type_of(g2, ds[k] as nat) == pixel_type_of(g, ds[k] as nat)
            } by {
                lemma_prefix_attrs(g, *n, ds[k] as nat);
            }
        }
        match n {
            Node::Input { width, height, pixel_type, .. } => {
                if *width == 0 || *height == 0 {
                    Err(Violation::ZeroExtent)
                } else {
                    Ok((*width, *height, *pixel_type))
                }
            },
            Node::Operation(op) => match op {
                Operation::MapPixel { dependency, pixel_type, .. } => {
                    if *dependency >= len {
                        assert(deps_of(*n)[0] == *dependency);
                        return Err(Violation::UnknownNode);
                    }
                    assert(deps_of(*n)[0] == *dependency);
                    Ok((self.attrs[*dependency].0, self.attrs[*dependency].1, *pixel_type))
                },
                Operation::MapPatch { dependency, dimension, pixel_type, .. } => {
                    if *dependency >= len {
                        assert(deps_of(*n)[0] == *dependency);
                        return Err(Violation::UnknownNode);
                    }
                    assert(deps_of(*n)[0] == *dependency);
                    if *dimension % 2 == 0 {
                        return Err(Violation::EvenPatchDimension);
                    }
                    Ok((self.attrs[*dependency].0, self.attrs[*dependency].1, *pixel_type))
                },
                Operation::MapImage { dependency, width, height, pixel_type, .. } => {
                    if *dependency >= len {
                        assert(deps_of(*n)[0] == *dependency);
                        return Err(Violation::UnknownNode);
                    }
                    assert(deps_of(*n)[0] == *dependency);
                    if *width == 0 || *height == 0 {
                        return Err(Violation::ZeroExtent);
                    }
                    Ok((*width, *height, *pixel_type))
                },
                Operation::Flip { dependency } => {
                    if *dependency >= len {
                        assert(deps_of(*n)[0] == *dependency);
                        return Err(Violation::UnknownNode);
                    }
                    assert(deps_of(*n)[0] == *dependency);
                    Ok(self.attrs[*dependency])
                },
                Operation::HConcat { dependency_left: l, dependency_right: r } => {
                    assert(deps_of(*n)[0] == *l && deps_of(*n)[1] == *r);
                    if *l >= len || *r >= len {
                        return Err(Violation::UnknownNode);
                    }
                    let (wl, hl, pl) = self.attrs[*l];
                    let (wr, hr, pr) = self.attrs[*r];
                    if hl != hr {
                        return Err(Violation::HeightMismatch);
                    }
                    if pl != pr {
                        return Err(Violation::PixelTypeMismatch);
                    }
                    match wl.checked_add(wr) {
                        Some(w) => Ok((w, hl, pl)),
                        None => Err(Violation::TooLarge),
                    }
                },
                Operation::VConcat { dependency_top: t, dependency_bottom: b } => {
                    assert(deps_of(*n)[0] == *t && deps_of(*n)[1] == *b);
                    if *t >= len || *b >= len {
                        return Err(Violation::UnknownNode);
                    }
                    let (wt, ht, pt) = self.attrs[*t];
                    let (wb, hb, pb) = self.attrs[*b];
                    if wt != wb {
                        return Err(Violation::WidthMismatch);
                    }
                    if pt != pb {
                        return Err(Violation::PixelTypeMismatch);
                    }
                    match ht.checked_add(hb) {
                        Some(h) => Ok((wt, h, pt)),
                        None => Err(Violation::TooLarge),
                    }
                },
            },
        }
    }
}

impl Cdg {
    /// Every node reachable from `roots`, each once, every node after all of
    /// its dependencies.
    pub fn toposort(&self, roots: &Vec<usize>) -> (r: Vec<usize>)
        requires
            self.wf(),
            forall|k: int| 0 <= k < roots@.len() ==> roots@[k] < self@.len(),
        ensures
            forall|k: int| 0 <= k < r@.len() ==> r@[k] < self@.len(),
            forall|a: int, b: int| 0 <= a < b < r@.len() ==> r@[a] < r@[b],
            r@.no_duplicates(),
            forall|j: usize| r@.contains(j) <==> reachable(self@, roots@, j),
            forall|k: int, d: usize|
                0 <= k < r@.len() && deps_of(self@[r@[k] as int]).contains(d) ==> exists|m: int|
                    0 <= m < k && r@[m] == d,
    {
        let n = self.nodes.len();
        let ghost g = self@;
        let mut marked: Vec<bool> = vec![false; n];
        let mut k: usize = 0;
        while k < roots.len()
            invariant
                g == self@,
                n == g.len(),
                marked@.len() == n,
                k <= roots@.len(),
                forall|m: int| 0 <= m < roots@.len() ==> roots@[m] < n,
                forall|j: int| 0 <= j < n && #[trigger] marked@[j] ==> reachable(g, roots@, j as usize),
                forall|m: int| 0 <= m < k ==> marked@[#[trigger] roots@[m] as int],
            decreases roots@.len() - k,
        {
            let root = roots[k];
            proof {
                let p = seq![root];
                assert(is_path(g, roots@, p));
            }
            marked.set(root, true);
            k = k + 1;
        }
        let mut i: usize = n;
        while i > 0
            invariant
                g == self@,
                self.wf(),
                n == g.len(),
                marked@.len() == n,
                i <= n,
                forall|m: int| 0 <= m < roots@.len() ==> roots@[m] < n,
                forall|j: int| 0 <= j < n && #[trigger] marked@[j] ==> reachable(g, roots@, j as usize),
                forall|m: int| 0 <= m < roots@.len() ==> marked@[#[trigger] roots@[m] as int],
                forall|q: int, d: usize|
                    i <= q < n && marked@[q] && #[trigger] deps_of(g[q]).contains(d) ==> marked@[d as int],
            decreases i,
        {
            i = i - 1;
            if marked[i] {
                let ds = self.dependencies(i);
                proof {
                    lemma_deps_before(g, i as int);
                }
                let mut t: usize = 0;
                while t < ds.len()
                    invariant
                        g == self@,
                        graph_valid(g),
                        n == g.len(),
                        i < n,
                        marked@.len() == n,
                        marked@[i as int],
                        ds@ == deps_of(g[i as int]),
                        forall|k: int| 0 <= k < ds@.len() ==> ds@[k] < i,
                        t <= ds@.len(),
                        forall|m: int| 0 <= m < roots@.len() ==> roots@[m] < n,
                        forall|j: int| 0 <= j < n && #[trigger] marked@[j] ==> reachable(g, roots@, j as usize),
                        forall|m: int| 0 <= m < roots@.len() ==> marked@[#[trigger] roots@[m] as int],
                        forall|q: int, d: usize|
                            i < q < n && marked@[q] && #[trigger] deps_of(g[q]).contains(d) ==> marked@[d as int],
                        forall|u: int| 0 <= u < t ==> marked@[#[trigger] ds@[u] as int],
                    decreases ds@.len() - t,
                {
                    let d = ds[t];
                    proof {
                        lemma_extend_path(g, roots@, i, d);
                    }
                    let ghost before = marked@;
                    marked.set(d, true);
                    proof {
                        assert forall|q: int, e: usize|
                            i < q < n && marked@[q] && #[trigger] deps_of(g[q]).contains(e) implies marked@[e as int] by {
                            assert(before[q]);
                            assert(before[e as int]);
                            lemma_deps_before(g, q);
                            let es = deps_of(g[q]);
                            let u = choose|u: int| 0 <= u < es.len() && es[u] == e;
                            assert(e < q);
                        }
                    }
                    t = t + 1;
                }
                proof {
                    assert forall|d: usize| #[trigger] deps_of(g[i as int]).contains(d) implies marked@[d as int] by {
                        let u = choose|u: int| 0 <= u < ds@.len() && ds@[u] == d;
                    }
                }
            }
        }
        let mut r: Vec<usize> = Vec::new();
        let mut j: usize = 0;
        while j < n
            invariant
                g == self@,
                self.wf(),
                n == g.len(),
                marked@.len() == n,
                j <= n,
                forall|q: int, d: usize|
                    0 <= q < n && marked@[q] && #[trigger] deps_of(g[q]).contains(d) ==> marked@[d as int],
                forall|k: int| 0 <= k < r@.len() ==> r@[k] < j,
                forall|a: int, b: int| 0 <= a < b < r@.len() ==> r@[a] < r@[b],
                forall|x: usize| x < j ==> (r@.contains(x) <==> marked@[x as int]),
                forall|k: int| 0 <= k < r@.len() ==> marked@[#[trigger] r@[k] as int],
                forall|k: int, d: usize|
                    0 <= k < r@.len() && #[trigger] deps_of(g[r@[k] as int]).contains(d) ==> exists|m: int|
                        0 <= m < k && r@[m] == d,
            decreases n - j,
        {
            if marked[j] {
                proof {
                    lemma_deps_before(g, j as int);
                    assert forall|d: usize| #[trigger] deps_of(g[j as int]).contains(d) implies exists|m: int|
                        0 <= m < r@.len() && r@[m] == d by {
                        let ds = deps_of(g[j as int]);
                        let u = choose|u: int| 0 <= u < ds.len() && ds[u] == d;
                        assert(d < j);
                        assert(marked@[d as int]);
                        assert(r@.contains(d));
                    }
                }
                let ghost old_r = r@;
                r.push(j);
                proof {
                    assert forall|k: int, d: usize|
                        0 <= k < r@.len() && #[trigger] deps_of(g[r@[k] as int]).contains(d) implies exists|m: int|
                            0 <= m < k && r@[m] == d by {
                        if k < old_r.len() {
                            let m = choose|m: int| 0 <= m < k && old_r[m] == d;
                            assert(r@[m] == d);
                        } else {
                            let m = choose|m: int| 0 <= m < old_r.len() && old_r[m] == d;
                            assert(r@[m] == d);
                        }
                    }
                    assert forall|x: usize| x < j + 1 implies (r@.contains(x) <==> marked@[x as int]) by {
                        if x < j {
                            if old_r.contains(x) {
                                let m = choose|m: int| 0 <= m < old_r.len() && old_r[m] == x;
                                assert(r@[m] == x);
                            }
                            if r@.contains(x) {
                                let m = choose|m: int| 0 <= m < r@.len() && r@[m] == x;
                                assert(m < old_r.len());
                                assert(old_r[m] == x);
                            }
                        } else {
                            assert(r@[old_r.len() as int] == j);
                        }
                    }
                }
            } else {
                proof {
                    assert forall|x: usize| x < j + 1 implies (r@.contains(x) <==> marked@[x as int]) by {
                        if x == j && r@.contains(x) {
                            let m = choose|m: int| 0 <= m < r@.len() && r@[m] == x;
                        }
                    }
                }
            }
            j = j + 1;
        }
        proof {
            assert forall|x: usize| r@.contains(x) <==> reachable(g, roots@, x) by {
                if reachable(g, roots@, x) {
                    let p = choose|p: Seq<usize>| #[trigger] is_path(g, roots@, p) && p.last() == x;
                    lemma_path_marked(g, roots@, marked@, p, p.len() - 1);
                }
                if r@.contains(x) {
                    let m = choose|m: int| 0 <= m < r@.len() && r@[m] == x;
                }
            }
            assert forall|a: int, b: int| 0 <= a < r@.len() && 0 <= b < r@.len() && a != b implies r@[a] != r@[b] by {
                if a < b {
                    assert(r@[a] < r@[b]);
                } else {
                    assert(r@[b] < r@[a]);
                }
            }
        }
        r
    }
}

/// A path to `i` followed by one of its dependencies is a path.
proof fn lemma_extend_path(g: Seq<Node>, roots: Seq<usize>, i: usize, d: usize)
    requires
        reachable(g, roots, i),
        i < g.len(),
        deps_of(g[i as int]).contains(d),
    ensures
        reachable(g, roots, d),
{
    let p = choose|p: Seq<usize>| #[trigger] is_path(g, roots, p) && p.last() == i;
    let p2 = p.push(d);
    assert forall|k: int| 0 <= k < p2.len() - 1 implies #[trigger] depends_on(g, p2[k], p2[k + 1]) by {
        if k < p.len() - 1 {
            assert(p2[k] == p[k] && p2[k + 1] == p[k + 1]);
        } else {
            assert(p2[k] == i && p2[k + 1] == d);
        }
    }
    assert(p2[0] == p[0]);
    assert(is_path(g, roots, p2));
}

/// In a valid graph, every node of a path is marked once the marks hold the
/// roots and are closed under dependencies.
proof fn lemma_path_marked(g: Seq<Node>, roots: Seq<usize>, marked: Seq<bool>, p: Seq<usize>, k: int)
    requires
        graph_valid(g),
        marked.len() == g.len(),
        forall|m: int| 0 <= m < roots.len() ==> roots[m] < g.len(),
        forall|m: int| 0 <= m < roots.len() ==> marked[#[trigger] roots[m] as int],
        forall|q: int, d: usize|
            0 <= q < g.len() && marked[q] && #[trigger] deps_of(g[q]).contains(d) ==> marked[d as int],
        is_path(g, roots, p),
        0 <= k < p.len(),
    ensures
        p[k] < g.len(),
        marked[p[k] as int],
    decreases k,
{
    if k == 0 {
        let m = choose|m: int| 0 <= m < roots.len() && roots[m] == p[0];
        assert(marked[roots[m] as int]);
    } else {
        lemma_path_marked(g, roots, marked, p, k - 1);
        assert(depends_on(g, p[k - 1], p[(k - 1) + 1]));
        lemma_deps_before(g, p[k - 1] as int);
        let ds = deps_of(g[p[k - 1] as int]);
        let u = choose|u: int| 0 <= u < ds.len() && ds[u] == p[k];
    }
}

/// Adding a node after `g` leaves the attributes of the nodes of `g` as they were.
proof fn lemma_prefix_attrs(g: Seq<Node>, x: Node, i: nat)
    requires
        i < g.len(),
    ensures
        width_of(g.push(x), i) == width_of(g, i),
        height_of(g.push(x), i) == height_of(g, i),
        pixel_type_of(g.push(x), i) == pixel_type_of(g, i),
    decreases i,
{
    let g2 = g.push(x);
    assert(g2[i as int] == g[i as int]);
    match g[i as int] {
        Node::Input { .. } => {},
        Node::Operation(op) => match op {
            Operation::MapPixel { dependency: d, .. } => {
                if d < i {
                    lemma_prefix_attrs(g, x, d as nat);
                }
            },
            Operation::MapPatch { dependency: d, .. } => {
                if d < i {
                    lemma_prefix_attrs(g, x, d as nat);
                }
            },
            Operation::MapImage { dependency: d, .. } => {},
            Operation::Flip { dependency: d } => {
                if d < i {
                    lemma_prefix_attrs(g, x, d as nat);
                }
            },
            Operation::HConcat { dependency_left: a, dependency_right: b } => {
                if a < i {
                    lemma_prefix_attrs(g, x, a as nat);
                }
                if b < i {
                    lemma_prefix_attrs(g, x, b as nat);
                }
            },
            Operation::VConcat { dependency_top: a, dependency_bottom: b } => {
                if a < i {
                    lemma_prefix_attrs(g, x, a as nat);
                }
                if b < i {
                    lemma_prefix_attrs(g, x, b as nat);
                }
            },
        },
    }
}

/// Every node of a valid graph has a positive width and height.
pub proof fn lemma_extent_positive(g: Seq<Node>, i: nat)
    requires
        graph_valid(g),
        i < g.len(),
    ensures
        width_of(g, i) > 0,
        height_of(g, i) > 0,
    decreases i,
{
    lemma_deps_before(g, i as int);
    assert(node_valid(g, i as int));
    assert(g.take(i as int).len() == i);
    match g[i as int] {
        Node::Input { .. } => {},
        Node::Operation(op) => match op {
            Operation::MapPixel { dependency: d, .. } => {
                assert(deps_of(g[i as int])[0] == d);
                lemma_extent_positive(g, d as nat);
            },
            Operation::MapPatch { dependency: d, .. } => {
                assert(deps_of(g[i as int])[0] == d);
                lemma_extent_positive(g, d as nat);
            },
            Operation::MapImage { .. } => {},
            Operation::Flip { dependency: d } => {
                assert(deps_of(g[i as int])[0] == d);
                lemma_extent_positive(g, d as nat);
            },
            Operation::HConcat { dependency_left: a, dependency_right: b } => {
                assert(deps_of(g[i as int])[0] == a);
                assert(deps_of(g[i as int])[1] == b);
                lemma_extent_positive(g, a as nat);
                lemma_extent_positive(g, b as nat);
            },
            Operation::VConcat { dependency_top: a, dependency_bottom: b } => {
                assert(deps_of(g[i as int])[0] == a);
                assert(deps_of(g[i as int])[1] == b);
                lemma_extent_positive(g, a as nat);
                lemma_extent_positive(g, b as nat);
            },
        },
    }
}

/// The attributes of a node depend only on the nodes up to it.
proof fn lemma_prefix_same(g1: Seq<Node>, g2: Seq<Node>, i: nat)
    requires
        g1.len() <= g2.len(),
        g1 == g2.take(g1.len() as int),
        i < g1.len(),
    ensures
        width_of(g1, i) == width_of(g2, i),
        height_of(g1, i) == height_of(g2, i),
        pixel_type_of(g1, i) == pixel_type_of(g2, i),
    decreases i,
{
    assert(g1[i as int] == g2.take(g1.len() as int)[i as int]);
    match g1[i as int] {
        Node::Input { .. } => {},
        Node::Operation(op) => match op {
            Operation::MapPixel { dependency: d, .. } => {
                if d < i {
                    lemma_prefix_same(g1, g2, d as nat);
                }
            },
            Operation::MapPatch { dependency: d, .. } => {
                if d < i {
                    lemma_prefix_same(g1, g2, d as nat);
                }
            },
            Operation::MapImage { .. } => {},
            Operation::Flip { dependency: d } => {
                if d < i {
                    lemma_prefix_same(g1, g2, d as nat);
                }
            },
            Operation::HConcat { dependency_left: a, dependency_right: b } => {
                if a < i {
                    lemma_prefix_same(g1, g2, a as nat);
                }
                if b < i {
                    lemma_prefix_same(g1, g2, b as nat);
                }
            },
            Operation::VConcat { dependency_top: a, dependency_bottom: b } => {
                if a < i {
                    lemma_prefix_same(g1, g2, a as nat);
                }
                if b < i {
                    lemma_prefix_same(g1, g2, b as nat);
                }
            },
        },
    }
}

/// In a valid graph, the two sides of every horizontal concatenation agree in
/// height and pixel type and its width is the sum of theirs; the two sides of
/// every vertical concatenation agree in width and pixel type and its height
/// is the sum of theirs; every patch dimension is odd.
pub proof fn lemma_operation_geometry(g: &Cdg, i: usize)
    requires
        g.wf(),
        i < g@.len(),
    ensures
        match g@[i as int] {
            Node::Operation(Operation::HConcat { dependency_left: l, dependency_right: r }) => {
                &&& height_of(g@, l as nat) == height_of(g@, r as nat)
                &&& pixel_type_of(g@, l as nat) == pixel_type_of(g@, r as nat)
                &&& width_of(g@, i as nat) == width_of(g@, l as nat) + width_of(g@, r as nat)
                &&& height_of(g@, i as nat) == height_of(g@, l as nat)
                &&& pixel_type_of(g@, i as nat) == pixel_type_of(g@, l as nat)
            },
            Node::Operation(Operation::VConcat { dependency_top: t, dependency_bottom: b }) => {
                &&& width_of(g@, t as nat) == width_of(g@, b as nat)
                &&& pixel_type_of(g@, t as nat) == pixel_type_of(g@, b as nat)
                &&& height_of(g@, i as nat) == height_of(g@, t as nat) + height_of(g@, b as nat)
                &&& width_of(g@, i as nat) == width_of(g@, t as nat)
                &&& pixel_type_of(g@, i as nat) == pixel_type_of(g@, t as nat)
            },
            Node::Operation(Operation::MapPatch { dimension, .. }) => dimension % 2 == 1,
            _ => true,
        },
{
    let gv = g@;
    assert(node_valid(gv, i as int));
    lemma_deps_before(gv, i as int);
    let p = gv.take(i as int);
    match gv[i as int] {
        Node::Operation(Operation::HConcat { dependency_left: l, dependency_right: r }) => {
            assert(deps_of(gv[i as int])[0] == l && deps_of(gv[i as int])[1] == r);
            lemma_prefix_same(p, gv, l as nat);
            lemma_prefix_same(p, gv, r as nat);
        },
        Node::Operation(Operation::VConcat { dependency_top: t, dependency_bottom: b }) => {
            assert(deps_of(gv[i as int])[0] == t && deps_of(gv[i as int])[1] == b);
            lemma_prefix_same(p, gv, t as nat);
            lemma_prefix_same(p, gv, b as nat);
        },
        _ => {},
    }
}

/// The dependencies of a node of a valid graph come before it.
pub proof fn lemma_deps_before(g: Seq<Node>, i: int)
    requires
        graph_valid(g),
        0 <= i < g.len(),
    ensures
        forall|k: int| 0 <= k < deps_of(g[i]).len() ==> deps_of(g[i])[k] < i,
{
    assert(node_valid(g, i));
    assert(g.take(i).len() == i);
}

/// `width * size` rounded up to a multiple of `alignment`, when it fits.
pub fn row_pitch(width: usize, size: usize, alignment: usize) -> (r: Option<usize>)
    requires
        alignment > 0,
    ensures
        r is Some <==> pitch_of(width as nat, size as nat, alignment as nat) <= usize::MAX,
        r is Some ==> r->0 == pitch_of(width as nat, size as nat, alignment as nat),
{
    proof {
        lemma_pitch_bounds(width as nat, size as nat, alignment as nat);
    }
    let bytes = match width.checked_mul(size) {
        Some(b) => b,
        None => return None,
    };
    if bytes % alignment == 0 {
        Some(bytes)
    } else {
        assert(alignment >= 2);
        assert(bytes / alignment <= bytes / 2) by (nonlinear_arith)
            requires
                alignment >= 2,
        ;
        let blocks = bytes / alignment + 1;
        blocks.checked_mul(alignment)
    }
}

/// The pitch of every node of a valid graph holds a whole row of its pixels
/// and is a multiple of the alignment.
pub proof fn lemma_node_pitch(g: &Cdg, n: usize, alignment: usize)
    requires
        g.wf(),
        n < g@.len(),
        alignment > 0,
    ensures
        pitch_of(width_of(g@, n as nat), pixel_type_of(g@, n as nat).spec_size(), alignment as nat)
            >= width_of(g@, n as nat) * pixel_type_of(g@, n as nat).spec_size(),
        pitch_of(width_of(g@, n as nat), pixel_type_of(g@, n as nat).spec_size(), alignment as nat)
            % (alignment as nat) == 0,
        width_of(g@, n as nat) > 0,
        height_of(g@, n as nat) > 0,
{
    lemma_extent_positive(g@, n as nat);
    lemma_pitch_bounds(width_of(g@, n as nat), pixel_type_of(g@, n as nat).spec_size(), alignment as nat);
}

/// A pitch holds a whole row and is a multiple of the alignment.
pub proof fn lemma_pitch_bounds(width: nat, size: nat, alignment: nat)
    requires
        alignment > 0,
    ensures
        pitch_of(width, size, alignment) >= width * size,
        pitch_of(width, size, alignment) % alignment == 0,
        pitch_of(width, size, alignment) < width * size + alignment,
{
    let bytes = width * size;
    let q = bytes / alignment;
    let m = bytes % alignment;
    assert(bytes == q * alignment + m) by (nonlinear_arith)
        requires
            q == bytes / alignment,
            m == bytes % alignment,
            alignment > 0,
    ;
    assert(m < alignment) by (nonlinear_arith)
        requires
            m == bytes % alignment,
            alignment > 0,
    ;
    if m != 0 {
        assert((q + 1) * alignment == q * alignment + alignment) by (nonlinear_arith);
        assert(((q + 1) * alignment) % alignment == 0) by (nonlinear_arith)
            requires
                alignment > 0,
        ;
    }
}

} // verus!
