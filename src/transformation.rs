//! The pipeline compiler and runtime: lowers the dependency graph reachable
//! from named outputs to one device execution graph, and moves host images in
//! and out of the buffers that its copy nodes share with the device.
use vstd::prelude::*;
use crate::Output;
use crate::cdg::{
    Cdg, Node, Operation, Violation, deps_of, height_of, pitch_of, pixel_type_of, reachable,
    width_of,
};
use crate::codegen::{
    flip, flip_text, h_concat, h_concat_text, map_image, map_image_text, map_patch, map_patch_text,
    map_pixel, map_pixel_text, names_of, v_concat, v_concat_text,
};
use crate::graph::{DevicePtr, ExecutableGraph, Graph, GraphNode, MemCpyDirection, alloc_count, frees_added};
use crate::pixel::{PixelType, Rgb};

verus! {

/// Threads per block along a row.
pub const BLOCK_WIDTH: usize = 16;

/// Threads per block along a column.
pub const BLOCK_HEIGHT: usize = 16;

/// Device row stride of node `n`.
pub open spec fn node_pitch(g: Seq<Node>, n: usize, alignment: usize) -> nat {
    pitch_of(width_of(g, n as nat), pixel_type_of(g, n as nat).spec_size(), alignment as nat)
}

/// Bytes of device memory that node `n` takes.
pub open spec fn node_bytes(g: Seq<Node>, n: usize, alignment: usize) -> nat {
    height_of(g, n as nat) * node_pitch(g, n, alignment)
}

/// Number of blocks of `step` pixels that cover `extent` pixels.
pub open spec fn blocks_for(extent: nat, step: nat) -> nat
    recommends
        step > 0,
{
    if extent % step == 0 {
        extent / step
    } else {
        extent / step + 1
    }
}

/// Output pixels that one block of the kernel of node `n` produces, along a
/// row and along a column: a patch kernel's halo threads produce none.
pub open spec fn block_step(g: Seq<Node>, n: usize) -> (nat, nat) {
    match g[n as int] {
        Node::Operation(Operation::MapPatch { dimension, .. }) => (
            (BLOCK_WIDTH - 2 * (dimension / 2)) as nat,
            (BLOCK_HEIGHT - 2 * (dimension / 2)) as nat,
        ),
        _ => (BLOCK_WIDTH as nat, BLOCK_HEIGHT as nat),
    }
}

/// The patch of node `n` does not fit in one block.
pub open spec fn patch_too_large(g: Seq<Node>, n: usize) -> bool {
    match g[n as int] {
        Node::Operation(Operation::MapPatch { dimension, .. }) => dimension > BLOCK_WIDTH
            || dimension > BLOCK_HEIGHT,
        _ => false,
    }
}

/// Source text of the kernel of operation node `n`, writing to `ptr` and
/// reading its dependencies at `dep_ptrs`, in the order the operation names them.
pub open spec fn kernel_text_of(
    g: Seq<Node>,
    n: usize,
    alignment: usize,
    ptr: usize,
    dep_ptrs: Seq<usize>,
) -> Seq<char> {
    let w = |x: usize| width_of(g, x as nat) as usize;
    let h = |x: usize| height_of(g, x as nat) as usize;
    let p = |x: usize| node_pitch(g, x, alignment) as usize;
    let t = |x: usize| pixel_type_of(g, x as nat);
    match g[n as int] {
        Node::Operation(op) => match op {
            Operation::MapPixel { dependency: d, f, pixel_type } => map_pixel_text(
                dep_ptrs[0],
                ptr,
                w(d),
                h(d),
                p(d),
                p(n),
                t(d),
                pixel_type,
                f.param@,
                f.block@,
                BLOCK_WIDTH,
                BLOCK_HEIGHT,
            ),
            Operation::MapPatch { dependency: d, f, dimension, pixel_type } => map_patch_text(
                dep_ptrs[0],
                ptr,
                w(d),
                h(d),
                p(d),
                p(n),
                t(d),
                pixel_type,
                f.param@,
                f.block@,
                dimension,
                BLOCK_WIDTH,
                BLOCK_HEIGHT,
            ),
            Operation::MapImage { dependency: d, f, width, height, pixel_type } => map_image_text(
                dep_ptrs[0],
                ptr,
                w(d),
                width,
                h(d),
                height,
                p(d),
                p(n),
                t(d),
                pixel_type,
                f.param@,
                names_of(f.extra@),
                f.block@,
                BLOCK_WIDTH,
                BLOCK_HEIGHT,
            ),
            Operation::Flip { dependency: d } => flip_text(
                dep_ptrs[0],
                ptr,
                w(d),
                h(d),
                p(d),
                t(d),
                BLOCK_WIDTH,
                BLOCK_HEIGHT,
            ),
            Operation::HConcat { dependency_left: l, dependency_right: r } => h_concat_text(
                dep_ptrs[0],
                dep_ptrs[1],
                ptr,
                w(l),
                w(r),
                w(n),
                h(n),
                p(l),
                p(r),
                p(n),
                t(n),
                BLOCK_WIDTH,
                BLOCK_HEIGHT,
            ),
            Operation::VConcat { dependency_top: a, dependency_bottom: b } => v_concat_text(
                dep_ptrs[0],
                dep_ptrs[1],
                ptr,
                w(n),
                h(a),
                h(b),
                h(n),
                p(n),
                t(n),
                BLOCK_WIDTH,
                BLOCK_HEIGHT,
            ),
        },
        Node::Input { .. } => seq![],
    }
}

/// The kernel of operation node `n` with the grid of blocks that covers its
/// output; `PatchLargerThanBlock` when its patch does not fit in a block.
#[verifier::rlimit(60)]
pub fn kernel_source(g: &Cdg, n: usize, alignment: usize, ptr: usize, dep_ptrs: &Vec<usize>) -> (r:
    Result<(String, usize, usize), Violation>)
    requires
        g.wf(),
        n < g@.len(),
        g@[n as int] is Operation,
        dep_ptrs@.len() == deps_of(g@[n as int]).len(),
        alignment > 0,
        node_pitch(g@, n, alignment) <= usize::MAX,
        forall|k: int|
            0 <= k < deps_of(g@[n as int]).len() ==> node_pitch(
                g@,
                #[trigger] deps_of(g@[n as int])[k],
                alignment,
            ) <= usize::MAX,
    ensures
        r is Err <==> patch_too_large(g@, n),
        r is Err ==> r == Err::<(String, usize, usize), Violation>(Violation::PatchLargerThanBlock),
        r is Ok ==> r->Ok_0.0@ == kernel_text_of(g@, n, alignment, ptr, dep_ptrs@),
        r is Ok ==> r->Ok_0.1 == blocks_for(width_of(g@, n as nat), block_step(g@, n).0),
        r is Ok ==> r->Ok_0.2 == blocks_for(height_of(g@, n as nat), block_step(g@, n).1),
{
    let pitch = dep_pitch(g, n, alignment);
    let ghost gv = g@;
    proof {
        g.lemma_valid();
        crate::cdg::lemma_deps_before(gv, n as int);
    }
    let (source, step_x, step_y) = match g.node(n) {
        Node::Input { .. } => return Err(Violation::TooLarge),
        Node::Operation(op) => match op {
            Operation::MapPixel { dependency: d, f, pixel_type } => {
                assert(deps_of(gv[n as int])[0] == *d);
                let pd = dep_pitch(g, *d, alignment);
                (
                    map_pixel(
                        dep_ptrs[0],
                        ptr,
                        g.width(*d),
                        g.height(*d),
                        pd,
                        pitch,
                        g.pixel_type(*d),
                        *pixel_type,
                        f,
                        BLOCK_WIDTH,
                        BLOCK_HEIGHT,
                    ),
                    BLOCK_WIDTH,
                    BLOCK_HEIGHT,
                )
            },
            Operation::MapPatch { dependency: d, f, dimension, pixel_type } => {
                assert(deps_of(gv[n as int])[0] == *d);
                if *dimension > BLOCK_WIDTH || *dimension > BLOCK_HEIGHT {
                    return Err(Violation::PatchLargerThanBlock);
                }
                proof {
                    lemma_patch_dimension_odd(g, n);
                }
                let pd = dep_pitch(g, *d, alignment);
                let pt = g.pixel_type(*d);
                (
                    map_patch(
                        dep_ptrs[0],
                        ptr,
                        g.width(*d),
                        g.height(*d),
                        pd,
                        pitch,
                        pt,
                        *pixel_type,
                        f,
                        *dimension,
                        BLOCK_WIDTH,
                        BLOCK_HEIGHT,
                    ),
                    BLOCK_WIDTH - 2 * (*dimension / 2),
                    BLOCK_HEIGHT - 2 * (*dimension / 2),
                )
            },
            Operation::MapImage { dependency: d, f, width, height, pixel_type } => {
                assert(deps_of(gv[n as int])[0] == *d);
                let pd = dep_pitch(g, *d, alignment);
                (
                    map_image(
                        dep_ptrs[0],
                        ptr,
                        g.width(*d),
                        *width,
                        g.height(*d),
                        *height,
                        pd,
                        pitch,
                        g.pixel_type(*d),
                        *pixel_type,
                        f,
                        BLOCK_WIDTH,
                        BLOCK_HEIGHT,
                    ),
                    BLOCK_WIDTH,
                    BLOCK_HEIGHT,
                )
            },
            Operation::Flip { dependency: d } => {
                assert(deps_of(gv[n as int])[0] == *d);
                let pd = dep_pitch(g, *d, alignment);
                (
                    flip(
                        dep_ptrs[0],
                        ptr,
                        g.width(*d),
                        g.height(*d),
                        pd,
                        g.pixel_type(*d),
                        BLOCK_WIDTH,
                        BLOCK_HEIGHT,
                    ),
                    BLOCK_WIDTH,
                    BLOCK_HEIGHT,
                )
            },
            Operation::HConcat { dependency_left: l, dependency_right: r } => {
                assert(deps_of(gv[n as int])[0] == *l);
                assert(deps_of(gv[n as int])[1] == *r);
                let pl = dep_pitch(g, *l, alignment);
                let pr = dep_pitch(g, *r, alignment);
                (
                    h_concat(
                        dep_ptrs[0],
                        dep_ptrs[1],
                        ptr,
                        g.width(*l),
                        g.width(*r),
                        g.width(n),
                        g.height(n),
                        pl,
                        pr,
                        pitch,
                        g.pixel_type(n),
                        BLOCK_WIDTH,
                        BLOCK_HEIGHT,
                    ),
                    BLOCK_WIDTH,
                    BLOCK_HEIGHT,
                )
            },
            Operation::VConcat { dependency_top: a, dependency_bottom: b } => {
                assert(deps_of(gv[n as int])[0] == *a);
                assert(deps_of(gv[n as int])[1] == *b);
                (
                    v_concat(
                        dep_ptrs[0],
                        dep_ptrs[1],
                        ptr,
                        g.width(n),
                        g.height(*a),
                        g.height(*b),
                        g.height(n),
                        pitch,
                        g.pixel_type(n),
                        BLOCK_WIDTH,
                        BLOCK_HEIGHT,
                    ),
                    BLOCK_WIDTH,
                    BLOCK_HEIGHT,
                )
            },
        },
    };
    Ok((source, blocks(g.width(n), step_x), blocks(g.height(n), step_y)))
}

/// Pitch of node `d`, which the caller knows to fit.
fn dep_pitch(g: &Cdg, d: usize, alignment: usize) -> (r: usize)
    requires
        g.wf(),
        d < g@.len(),
        alignment > 0,
        node_pitch(g@, d, alignment) <= usize::MAX,
    ensures
        r == node_pitch(g@, d, alignment),
{
    match g.pitch(d, alignment) {
        Some(p) => p,
        None => 0,
    }
}

fn blocks(extent: usize, step: usize) -> (r: usize)
    requires
        step > 0,
    ensures
        r == blocks_for(extent as nat, step as nat),
{
    if extent % step == 0 {
        extent / step
    } else {
        assert(extent / step < extent || extent / step == 0) by (nonlinear_arith)
            requires
                step > 0,
                extent % step != 0,
        ;
        extent / step + 1
    }
}

/// The patch dimension of a valid map-patch node is odd.
proof fn lemma_patch_dimension_odd(g: &Cdg, n: usize)
    requires
        g.wf(),
        n < g@.len(),
    ensures
        match g@[n as int] {
            Node::Operation(Operation::MapPatch { dimension, .. }) => dimension % 2 == 1,
            _ => true,
        },
{
    g.lemma_valid();
    assert(crate::cdg::node_valid(g@, n as int));
}

/// Adds, for each output, a copy of its node's device memory to a new host
/// buffer, after that node's graph node; returns the output buffers.
fn add_read_backs(
    cdg: &Cdg,
    outputs: &Vec<(String, Output)>,
    alignment: usize,
    order: &Vec<usize>,
    pos: &Vec<usize>,
    device_ptrs: &Vec<DevicePtr>,
    graph: &mut Graph,
) -> (r: Vec<Buffer>)
    requires
        cdg.wf(),
        alignment > 0,
        cdg@.len() <= usize::MAX / 4,
        outputs@.len() <= usize::MAX / 4,
        outputs_known(cdg@, outputs@),
        order@.len() <= cdg@.len(),
        order@.no_duplicates(),
        device_ptrs@.len() == order@.len(),
        pos@.len() == cdg@.len(),
        forall|i: int| 0 <= i < order@.len() ==> pos@[#[trigger] order@[i] as int] == i,
        forall|i: int| 0 <= i < order@.len() ==> fits(cdg@, #[trigger] order@[i], alignment),
        forall|x: usize| #[trigger] order@.contains(x) <==> needed(cdg@, outputs@).contains(x),
        old(graph).wf(),
        old(graph).spec_nodes().len() == 2 * order@.len(),
    ensures
        final(graph).wf(),
        final(graph).spec_nodes().len() == 2 * order@.len() + outputs@.len(),
        final(graph).spec_nodes().take((2 * order@.len()) as int) == old(graph).spec_nodes(),
        final(graph).spec_deps().take((2 * order@.len()) as int) == old(graph).spec_deps(),
        final(graph).spec_buffers().len() >= old(graph).spec_buffers().len(),
        final(graph).spec_buffers().take(old(graph).spec_buffers().len() as int) == old(graph).spec_buffers(),
        buffers_ok(r@, final(graph).spec_buffers()),
        forall|m: int| 0 <= m < r@.len() ==> (#[trigger] r@[m]).index >= old(graph).spec_buffers().len(),
        r@.len() == outputs@.len(),
        forall|j: int|
            0 <= j < outputs@.len() ==> {
                let n = outputs@[j].1.node;
                &&& (#[trigger] r@[j]).name@ == outputs@[j].0@
                &&& r@[j].index == final(graph).spec_nodes()[2 * order@.len() + j]->MemCpy_buffer
                &&& r@[j].width == width_of(cdg@, n as nat)
                &&& r@[j].height == height_of(cdg@, n as nat)
                &&& r@[j].pixel_type == pixel_type_of(cdg@, n as nat)
            },
        forall|j: int|
            0 <= j < outputs@.len() ==> #[trigger] read_back(
                cdg@,
                alignment,
                order@,
                device_ptrs@,
                outputs@,
                final(graph).spec_nodes(),
                final(graph).spec_deps(),
                (2 * order@.len()) as int,
                j,
            ),
{
    let ghost o = order@;
    let ghost start_nodes = graph.spec_nodes();
    let ghost start_deps = graph.spec_deps();
    let ghost start_buffers = graph.spec_buffers();
    let base = 2 * order.len();
    let mut bufs: Vec<Buffer> = Vec::new();
    let mut j: usize = 0;
    while j < outputs.len()
        invariant
            cdg.wf(),
            alignment > 0,
            o == order@,
            base == 2 * o.len(),
            outputs@.len() <= usize::MAX / 4,
            cdg@.len() <= usize::MAX / 4,
            o.len() <= cdg@.len(),
            o.no_duplicates(),
            outputs_known(cdg@, outputs@),
            device_ptrs@.len() == o.len(),
            pos@.len() == cdg@.len(),
            forall|i: int| 0 <= i < o.len() ==> pos@[#[trigger] o[i] as int] == i,
            forall|i: int| 0 <= i < o.len() ==> fits(cdg@, #[trigger] o[i], alignment),
            forall|x: usize| #[trigger] o.contains(x) <==> needed(cdg@, outputs@).contains(x),
            j <= outputs@.len(),
            graph.wf(),
            graph.spec_nodes().len() == base + j,
            graph.spec_nodes().take(base as int) == start_nodes,
            graph.spec_deps().take(base as int) == start_deps,
            graph.spec_buffers().len() >= start_buffers.len(),
            graph.spec_buffers().take(start_buffers.len() as int) == start_buffers,
            buffers_ok(bufs@, graph.spec_buffers()),
            forall|m: int| 0 <= m < bufs@.len() ==> (#[trigger] bufs@[m]).index >= start_buffers.len(),
            bufs@.len() == j,
            forall|q: int|
                0 <= q < j ==> {
                    let n = outputs@[q].1.node;
                    &&& (#[trigger] bufs@[q]).name@ == outputs@[q].0@
                    &&& bufs@[q].index == graph.spec_nodes()[base + q]->MemCpy_buffer
                    &&& bufs@[q].width == width_of(cdg@, n as nat)
                    &&& bufs@[q].height == height_of(cdg@, n as nat)
                    &&& bufs@[q].pixel_type == pixel_type_of(cdg@, n as nat)
                },
            forall|q: int|
                0 <= q < j ==> #[trigger] read_back(
                    cdg@,
                    alignment,
                    o,
                    device_ptrs@,
                    outputs@,
                    graph.spec_nodes(),
                    graph.spec_deps(),
                    base as int,
                    q,
                ),
        decreases outputs@.len() - j,
    {
        let node_id = outputs[j].1.node;
        proof {
            let p = seq![node_id];
            assert(output_roots(outputs@)[j as int] == node_id);
            assert(output_roots(outputs@).contains(node_id));
            assert(crate::cdg::is_path(cdg@, output_roots(outputs@), p));
            assert(needed(cdg@, outputs@).contains(node_id));
            assert(o.contains(node_id));
        }
        let ghost k0 = choose|k: int| 0 <= k < o.len() && o[k] == node_id;
        proof {
            lemma_position(o, k0);
        }
        let k = pos[node_id];
        assert(k == k0);
        let pitch = dep_pitch(cdg, node_id, alignment);
        let w = cdg.width(node_id);
        let h = cdg.height(node_id);
        let pt = cdg.pixel_type(node_id);
        let ghost before_nodes = graph.spec_nodes();
        let ghost before_deps = graph.spec_deps();
        let ghost before_buffers = graph.spec_buffers();
        let (_copy, b) = graph.add_mem_cpy_node(
            crate::graph::Node { inner: 2 * k + 1 },
            MemCpyDirection::DeviceToHost,
            w,
            h,
            pitch,
            pt.layout(),
            device_ptrs[k],
        );
        let ghost before_bufs = bufs@;
        bufs.push(Buffer { name: outputs[j].0.clone(), width: w, height: h, pixel_type: pt, index: b });
        proof {
            assert(graph.spec_nodes().take(base as int) =~= before_nodes.take(base as int));
            assert(graph.spec_deps().take(base as int) =~= before_deps.take(base as int));
            assert(graph.spec_buffers().take(start_buffers.len() as int) =~= before_buffers.take(
                start_buffers.len() as int,
            ));
            lemma_buffers_grow(before_bufs, before_buffers, graph.spec_buffers());
            assert forall|a: int, c: int| 0 <= a < c < bufs@.len() implies bufs@[a].index < bufs@[c].index by {
                if c == before_bufs.len() {
                    assert(bufs@[a] == before_bufs[a]);
                }
            }
            assert forall|m: int|
                0 <= m < bufs@.len() implies (#[trigger] bufs@[m]).index < graph.spec_buffers().len()
                && graph.spec_buffers()[bufs@[m].index as int].len() == bufs@[m].width
                * bufs@[m].pixel_type.spec_size() * bufs@[m].height by {
                if m < before_bufs.len() {
                    assert(bufs@[m] == before_bufs[m]);
                }
            }
            assert forall|q: int|
                0 <= q < j + 1 implies #[trigger] read_back(
                cdg@,
                alignment,
                o,
                device_ptrs@,
                outputs@,
                graph.spec_nodes(),
                graph.spec_deps(),
                base as int,
                q,
            ) by {
                if q < j {
                    assert(read_back(cdg@, alignment, o, device_ptrs@, outputs@, before_nodes, before_deps, base as int, q));
                    assert(graph.spec_nodes()[base + q] == before_nodes[base + q]);
                    assert(graph.spec_deps()[base + q] == before_deps[base + q]);
                }
            }
            assert forall|q: int|
                0 <= q < j + 1 implies {
                    let n = outputs@[q].1.node;
                    &&& (#[trigger] bufs@[q]).name@ == outputs@[q].0@
                    &&& bufs@[q].index == graph.spec_nodes()[base + q]->MemCpy_buffer
                    &&& bufs@[q].width == width_of(cdg@, n as nat)
                    &&& bufs@[q].height == height_of(cdg@, n as nat)
                    &&& bufs@[q].pixel_type == pixel_type_of(cdg@, n as nat)
                } by {
                if q < j {
                    assert(bufs@[q] == before_bufs[q]);
                    assert(graph.spec_nodes()[base + q] == before_nodes[base + q]);
                }
            }
        }
        j = j + 1;
    }
    bufs
}

/// Allocation nodes among the first `m` nodes of a lowered graph: one per
/// pair of nodes of the needed ones, none among the read-backs.
proof fn lemma_alloc_count(
    g: Seq<Node>,
    alignment: usize,
    order: Seq<usize>,
    ptrs: Seq<DevicePtr>,
    outputs: Seq<(String, Output)>,
    nodes: Seq<GraphNode>,
    deps: Seq<Seq<usize>>,
    m: int,
)
    requires
        forall|k: int| 0 <= k < order.len() ==> #[trigger] lowered(g, alignment, order, ptrs, nodes, deps, k),
        forall|j: int|
            0 <= j < outputs.len() ==> #[trigger] read_back(
                g,
                alignment,
                order,
                ptrs,
                outputs,
                nodes,
                deps,
                (2 * order.len()) as int,
                j,
            ),
        0 <= m <= 2 * order.len() + outputs.len(),
    ensures
        alloc_count(nodes, m) == if m <= 2 * order.len() {
            (m + 1) / 2
        } else {
            order.len() as int
        },
    decreases m,
{
    if m > 0 {
        lemma_alloc_count(g, alignment, order, ptrs, outputs, nodes, deps, m - 1);
        let i = m - 1;
        if i < 2 * order.len() {
            let k = i / 2;
            assert(lowered(g, alignment, order, ptrs, nodes, deps, k));
            if i % 2 == 1 {
                assert(i == 2 * k + 1);
                assert(!(nodes[i] is Alloc));
            }
        } else {
            let j = i - 2 * order.len();
            assert(read_back(g, alignment, order, ptrs, outputs, nodes, deps, (2 * order.len()) as int, j));
        }
    }
}

/// Buffer records of the input nodes still hold in a graph that keeps the
/// first `2n` nodes.
proof fn lemma_input_buffers_kept(
    g: Seq<Node>,
    o: Seq<usize>,
    mid: Seq<GraphNode>,
    fin: Seq<GraphNode>,
    bufs: Seq<Buffer>,
    n: int,
)
    requires
        0 <= n <= o.len(),
        fin.len() >= 2 * n,
        forall|i: int| 0 <= i < 2 * n ==> fin[i] == mid[i],
        forall|m: int| 0 <= m < bufs.len() ==> buffer_of_input(g, o, mid, #[trigger] bufs[m], n),
        forall|q: int|
            0 <= q < n && #[trigger] g[o[q] as int] is Input ==> exists|m: int|
                0 <= m < bufs.len() && input_buffer_for(g, o, mid, bufs[m], q),
    ensures
        forall|m: int| 0 <= m < bufs.len() ==> buffer_of_input(g, o, fin, #[trigger] bufs[m], n),
        forall|q: int|
            0 <= q < n && #[trigger] g[o[q] as int] is Input ==> exists|m: int|
                0 <= m < bufs.len() && input_buffer_for(g, o, fin, bufs[m], q),
{
    assert forall|m: int| 0 <= m < bufs.len() implies buffer_of_input(g, o, fin, #[trigger] bufs[m], n) by {
        assert(buffer_of_input(g, o, mid, bufs[m], n));
        let q = choose|q: int| 0 <= q < n && input_buffer_for(g, o, mid, bufs[m], q);
        assert(fin[2 * q + 1] == mid[2 * q + 1]);
        assert(input_buffer_for(g, o, fin, bufs[m], q));
    }
    assert forall|q: int| 0 <= q < n && #[trigger] g[o[q] as int] is Input implies exists|m: int|
        0 <= m < bufs.len() && input_buffer_for(g, o, fin, bufs[m], q) by {
        let m = choose|m: int| 0 <= m < bufs.len() && input_buffer_for(g, o, mid, bufs[m], q);
        assert(fin[2 * q + 1] == mid[2 * q + 1]);
        assert(input_buffer_for(g, o, fin, bufs[m], q));
    }
}

/// When the needed nodes, listed in `o`, have pairwise distinct input names,
/// no two needed inputs share a name.
proof fn lemma_no_clash(g: Seq<Node>, outputs: Seq<(String, Output)>, o: Seq<usize>)
    requires
        forall|x: usize| #[trigger] o.contains(x) <==> needed(g, outputs).contains(x),
        forall|a: int, b: int|
            0 <= a < o.len() && 0 <= b < o.len() && a != b && input_name(g[o[a] as int]) is Some
                ==> #[trigger] input_name(g[o[a] as int]) != #[trigger] input_name(g[o[b] as int]),
    ensures
        !input_names_clash(g, outputs),
{
    if input_names_clash(g, outputs) {
        let (a, b) = choose|a: usize, b: usize|
            #[trigger] needed(g, outputs).contains(a) && #[trigger] needed(g, outputs).contains(b) && a != b
                && input_name(g[a as int]) is Some && input_name(g[a as int]) == input_name(g[b as int]);
        assert(o.contains(a));
        assert(o.contains(b));
        let ia = choose|i: int| 0 <= i < o.len() && o[i] == a;
        let ib = choose|i: int| 0 <= i < o.len() && o[i] == b;
        assert(input_name(g[o[ia] as int]) != input_name(g[o[ib] as int]));
    }
}

/// The graph of allocation and copy-in or kernel nodes for the needed nodes
/// in `order`, with the position of each in `order` and the input buffers;
/// or why it cannot be built.
#[verifier::rlimit(100)]
fn lower_needed(
    cdg: &Cdg,
    outputs: &Vec<(String, Output)>,
    alignment: usize,
    order: &Vec<usize>,
    device_ptrs: &Vec<DevicePtr>,
) -> (r: Result<(Graph, Vec<usize>, Vec<Buffer>), Violation>)
    requires
        cdg.wf(),
        alignment > 0,
        cdg@.len() <= usize::MAX / 4,
        outputs_known(cdg@, outputs@),
        output_names_distinct(outputs@),
        order@.len() == needed(cdg@, outputs@).len(),
        order@.len() <= cdg@.len(),
        device_ptrs@.len() == order@.len(),
        order@.no_duplicates(),
        forall|a: int, b: int| 0 <= a < b < order@.len() ==> order@[a] < order@[b],
        forall|i: int| 0 <= i < order@.len() ==> order@[i] < cdg@.len(),
        forall|i: int, d: usize|
            0 <= i < order@.len() && #[trigger] deps_of(cdg@[order@[i] as int]).contains(d) ==> exists|m: int|
                0 <= m < i && order@[m] == d,
        forall|x: usize| #[trigger] order@.contains(x) <==> needed(cdg@, outputs@).contains(x),
    ensures
        r is Err ==> (r == Err::<(Graph, Vec<usize>, Vec<Buffer>), Violation>(Violation::TooLarge) && exists|n: usize|
            #[trigger] needed(cdg@, outputs@).contains(n) && !fits(cdg@, n, alignment)) || (r == Err::<
            (Graph, Vec<usize>, Vec<Buffer>),
            Violation,
        >(Violation::PatchLargerThanBlock) && exists|n: usize|
            #[trigger] needed(cdg@, outputs@).contains(n) && patch_too_large(cdg@, n)) || (r == Err::<
            (Graph, Vec<usize>, Vec<Buffer>),
            Violation,
        >(Violation::DuplicateInputName) && input_names_clash(cdg@, outputs@)),
        r is Ok ==> {
            let graph = r->Ok_0.0;
            let pos = r->Ok_0.1;
            let input_buffers = r->Ok_0.2;
            let o = order@;
            let k = o.len();
            &&& graph.wf()
            &&& graph.spec_nodes().len() == 2 * k
            &&& buffers_ok(input_buffers@, graph.spec_buffers())
            &&& forall|m: int|
                0 <= m < input_buffers@.len() ==> buffer_of_input(cdg@, o, graph.spec_nodes(), #[trigger] input_buffers@[m], k as int)
            &&& forall|q: int|
                0 <= q < k && #[trigger] cdg@[o[q] as int] is Input ==> exists|m: int|
                    0 <= m < input_buffers@.len() && input_buffer_for(cdg@, o, graph.spec_nodes(), input_buffers@[m], q)
            &&& pos@.len() == cdg@.len()
            &&& forall|i: int| 0 <= i < k ==> pos@[#[trigger] o[i] as int] == i
            &&& forall|i: int| 0 <= i < k ==> fits(cdg@, #[trigger] o[i], alignment) && !patch_too_large(cdg@, o[i])
            &&& forall|i: int|
                0 <= i < k ==> #[trigger] lowered(
                    cdg@,
                    alignment,
                    o,
                    device_ptrs@,
                    graph.spec_nodes(),
                    graph.spec_deps(),
                    i,
                )
            &&& forall|a: int, b: int|
                0 <= a < k && 0 <= b < k && a != b && input_name(cdg@[o[a] as int]) is Some
                    ==> #[trigger] input_name(cdg@[o[a] as int]) != #[trigger] input_name(cdg@[o[b] as int])
        },
{
    let n_nodes = cdg.len();
    let ghost o = order@;
    let n = order.len();
    let mut graph = Graph::new();
    let mut pos: Vec<usize> = vec![0usize; n_nodes];
    let mut input_buffers: Vec<Buffer> = Vec::new();
    let mut k: usize = 0;
    while k < n
        invariant
            cdg.wf(),
            alignment > 0,
            n_nodes == cdg@.len(),
            n_nodes <= usize::MAX / 4,
            o == order@,
            n == o.len(),
            device_ptrs@.len() == n,
                outputs_known(cdg@, outputs@),
            output_names_distinct(outputs@),
            o.len() == needed(cdg@, outputs@).len(),
            n <= n_nodes,
            o.no_duplicates(),
            forall|a: int, b: int| 0 <= a < b < o.len() ==> o[a] < o[b],
            forall|i: int| 0 <= i < o.len() ==> o[i] < n_nodes,
            forall|i: int, d: usize|
                0 <= i < o.len() && #[trigger] deps_of(cdg@[o[i] as int]).contains(d) ==> exists|m: int|
                    0 <= m < i && o[m] == d,
            forall|x: usize| #[trigger] o.contains(x) <==> needed(cdg@, outputs@).contains(x),
            k <= n,
            graph.wf(),
            graph.spec_nodes().len() == 2 * k,
            buffers_ok(input_buffers@, graph.spec_buffers()),
            forall|m: int|
                0 <= m < input_buffers@.len() ==> buffer_of_input(cdg@, o, graph.spec_nodes(), #[trigger] input_buffers@[m], k as int),
            forall|q: int|
                0 <= q < k && #[trigger] cdg@[o[q] as int] is Input ==> exists|m: int|
                    0 <= m < input_buffers@.len() && input_buffer_for(cdg@, o, graph.spec_nodes(), input_buffers@[m], q),
            pos@.len() == n_nodes,
            forall|i: int| 0 <= i < k ==> pos@[#[trigger] o[i] as int] == i,
            forall|i: int|
                0 <= i < k ==> fits(cdg@, #[trigger] o[i], alignment) && !patch_too_large(
                    cdg@,
                    o[i],
                ),
            forall|i: int|
                0 <= i < k ==> #[trigger] lowered(
                    cdg@,
                    alignment,
                    o,
                    device_ptrs@,
                    graph.spec_nodes(),
                    graph.spec_deps(),
                    i,
                ),
            forall|a: int, b: int|
                0 <= a < k && 0 <= b < k && a != b && input_name(cdg@[o[a] as int]) is Some
                    ==> #[trigger] input_name(cdg@[o[a] as int]) != #[trigger] input_name(
                    cdg@[o[b] as int],
                ),
            forall|m: int|
                0 <= m < input_buffers@.len() ==> named_input_before(
                    cdg@,
                    o,
                    k as int,
                    #[trigger] input_buffers@[m].name@,
                ),
            forall|i: int|
                0 <= i < k && #[trigger] input_name(cdg@[o[i] as int]) is Some ==> has_buffer(
                    input_buffers@,
                    input_name(cdg@[o[i] as int])->0,
                ),
        decreases n - k,
    {
        let node_id = order[k];
        let ghost before_nodes = graph.spec_nodes();
        let ghost before_deps = graph.spec_deps();
        let ghost top_bufs = input_buffers@;
        proof {
            lemma_position(o, k as int);
            cdg.lemma_valid();
            crate::cdg::lemma_deps_before(cdg@, node_id as int);
            assert(o.contains(node_id));
            assert(needed(cdg@, outputs@).contains(node_id));
        }
        let pitch = match cdg.pitch(node_id, alignment) {
            Some(p) => p,
            None => return Err(Violation::TooLarge),
        };
        let w = cdg.width(node_id);
        let h = cdg.height(node_id);
        let pt = cdg.pixel_type(node_id);
        let size = pt.layout().size;
        if h.checked_mul(pitch).is_none() {
            return Err(Violation::TooLarge);
        }
        let row = match w.checked_mul(size) {
            Some(v) => v,
            None => return Err(Violation::TooLarge),
        };
        if row.checked_mul(h).is_none() {
            return Err(Violation::TooLarge);
        }
        if let Node::Operation(Operation::MapPatch { dimension, .. }) = cdg.node(node_id) {
            if *dimension > BLOCK_WIDTH || *dimension > BLOCK_HEIGHT {
                return Err(Violation::PatchLargerThanBlock);
            }
        }
        let ptr = device_ptrs[k];
        let alloc = graph.add_mem_alloc_node(h, pitch, ptr);
        match cdg.node(node_id) {
            Node::Input { name, width, height, pixel_type } => {
                let mut m: usize = 0;
                while m < input_buffers.len()
                    invariant
                        m <= input_buffers@.len(),
                        forall|q: int| 0 <= q < m ==> #[trigger] input_buffers@[q].name@ != name@,
                        k < n,
                        n == o.len(),
                        node_id == o[k as int],
                        outputs_known(cdg@, outputs@),
                        output_names_distinct(outputs@),
                        o.len() == needed(cdg@, outputs@).len(),
                        device_ptrs@.len() == n,
                        o.no_duplicates(),
                        cdg@[node_id as int] == (Node::Input { name: *name, width: *width, height: *height, pixel_type: *pixel_type }),
                        forall|x: usize| #[trigger] o.contains(x) <==> needed(cdg@, outputs@).contains(x),
                        forall|q: int|
                            0 <= q < input_buffers@.len() ==> named_input_before(
                                cdg@,
                                o,
                                k as int,
                                #[trigger] input_buffers@[q].name@,
                            ),
                    decreases input_buffers@.len() - m,
                {
                    if input_buffers[m].name == *name {
                        proof {
                            assert(named_input_before(cdg@, o, k as int, input_buffers@[m as int].name@));
                            let i = choose|i: int|
                                0 <= i < k && input_name(cdg@[o[i] as int]) == Some(
                                    input_buffers@[m as int].name@,
                                );
                            assert(o.contains(o[i]));
                            assert(o.contains(o[k as int]));
                            assert(needed(cdg@, outputs@).contains(o[i]));
                            assert(needed(cdg@, outputs@).contains(node_id));
                            assert(o[i] != node_id);
                            assert(input_names_clash(cdg@, outputs@));
                        }
                        return Err(Violation::DuplicateInputName);
                    }
                    m = m + 1;
                }
                let ghost store0 = graph.spec_buffers();
                let (_copy, b) = graph.add_mem_cpy_node(
                    alloc,
                    MemCpyDirection::HostToDevice,
                    *width,
                    *height,
                    pitch,
                    pixel_type.layout(),
                    ptr,
                );
                let ghost before_buffers = input_buffers@;
                let ghost before_store = graph.spec_buffers();
                input_buffers.push(
                    Buffer {
                        name: name.clone(),
                        width: *width,
                        height: *height,
                        pixel_type: *pixel_type,
                        index: b,
                    },
                );
                proof {
                    assert(input_buffer_for(cdg@, o, graph.spec_nodes(), input_buffers@[before_buffers.len() as int], k as int));
                    lemma_buffers_grow(before_buffers, store0, graph.spec_buffers());
                    assert forall|a: int, c: int| 0 <= a < c < input_buffers@.len() implies input_buffers@[a].index < input_buffers@[c].index by {
                        if c == before_buffers.len() {
                            assert(input_buffers@[a] == before_buffers[a]);
                        }
                    }
                    assert forall|m: int|
                        0 <= m < input_buffers@.len() implies (#[trigger] input_buffers@[m]).index < graph.spec_buffers().len()
                        && graph.spec_buffers()[input_buffers@[m].index as int].len() == input_buffers@[m].width
                        * input_buffers@[m].pixel_type.spec_size() * input_buffers@[m].height by {
                        if m < before_buffers.len() {
                            assert(input_buffers@[m] == before_buffers[m]);
                        }
                    }
                    assert forall|i: int|
                        0 <= i < k + 1 && #[trigger] input_name(cdg@[o[i] as int]) is Some implies has_buffer(
                        input_buffers@,
                        input_name(cdg@[o[i] as int])->0,
                    ) by {
                        if i < k {
                            assert(has_buffer(before_buffers, input_name(cdg@[o[i] as int])->0));
                            let m = choose|m: int| 0 <= m < before_buffers.len() && before_buffers[m].name@ == input_name(cdg@[o[i] as int])->0;
                            assert(input_buffers@[m] == before_buffers[m]);
                        } else {
                            assert(input_buffers@[before_buffers.len() as int].name@ == name@);
                        }
                    }
                    assert forall|m: int|
                        0 <= m < input_buffers@.len() implies named_input_before(
                        cdg@,
                        o,
                        k + 1,
                        #[trigger] input_buffers@[m].name@,
                    ) by {
                        if m < before_buffers.len() {
                            assert(input_buffers@[m] == before_buffers[m]);
                            assert(named_input_before(cdg@, o, k as int, before_buffers[m].name@));
                            let i = choose|i: int| 0 <= i < k && input_name(cdg@[o[i] as int]) == Some(before_buffers[m].name@);
                        } else {
                            assert(input_name(cdg@[o[k as int] as int]) == Some(name@));
                        }
                    }
                    assert forall|a: int, c: int|
                        0 <= a < k + 1 && 0 <= c < k + 1 && a != c && input_name(cdg@[o[a] as int]) is Some
                            implies #[trigger] input_name(cdg@[o[a] as int]) != #[trigger] input_name(
                        cdg@[o[c] as int],
                    ) by {
                        if a == k && c < k && input_name(cdg@[o[c] as int]) is Some {
                            assert(has_buffer(before_buffers, input_name(cdg@[o[c] as int])->0));
                            let m = choose|m: int| 0 <= m < before_buffers.len() && before_buffers[m].name@ == input_name(cdg@[o[c] as int])->0;
                        } else if c == k && a < k {
                            assert(has_buffer(before_buffers, input_name(cdg@[o[a] as int])->0));
                            let m = choose|m: int| 0 <= m < before_buffers.len() && before_buffers[m].name@ == input_name(cdg@[o[a] as int])->0;
                        }
                    }
                }
            },
            Node::Operation(_) => {
                let ds = cdg.dependencies(node_id);
                proof {
                    assert forall|q: int| 0 <= q < ds@.len() implies appears_before(o, k as int, #[trigger] ds@[q]) by {
                        assert(o[k as int] == node_id);
                        assert(ds@.contains(ds@[q]));
                        assert(deps_of(cdg@[o[k as int] as int]).contains(ds@[q]));
                    }
                }
                let mut dep_ptrs: Vec<usize> = Vec::new();
                let mut dep_nodes: Vec<crate::graph::Node> = Vec::new();
                let mut i: usize = 0;
                while i < ds.len()
                    invariant
                        i <= ds@.len(),
                        ds@ == deps_of(cdg@[node_id as int]),
                        pos@.len() == n_nodes,
                        n_nodes <= usize::MAX / 4,
                        n == o.len(),
                        k < n,
                        n <= n_nodes,
                        forall|q: int| 0 <= q < o.len() ==> o[q] < n_nodes,
                        device_ptrs@.len() == n,
                        graph.spec_nodes().len() == 2 * k + 1,
                        forall|q: int| 0 <= q < k ==> pos@[#[trigger] o[q] as int] == q,
                        forall|q: int| 0 <= q < ds@.len() ==> appears_before(o, k as int, #[trigger] ds@[q]),
                        o.no_duplicates(),
                        dep_ptrs@ == ds@.take(i as int).map_values(
                            |d: usize| device_ptrs@[position(o, d)].inner,
                        ),
                        dep_nodes@.map_values(|x: crate::graph::Node| x.inner) == ds@.take(
                            i as int,
                        ).map_values(|d: usize| (2 * position(o, d) + 1) as usize),
                        forall|q: int| 0 <= q < dep_nodes@.len() ==> dep_nodes@[q].inner < 2 * k,
                    decreases ds@.len() - i,
                {
                    let d = ds[i];
                    assert(appears_before(o, k as int, ds@[i as int]));
                    let ghost m = choose|m: int| 0 <= m < k && o[m] == d;
                    proof {
                        lemma_position(o, m);
                    }
                    let p = pos[d];
                    assert(p == m);
                    assert(position(o, d) == p as int);
                    let ghost prev_nodes = dep_nodes@;
                    dep_ptrs.push(device_ptrs[p].inner);
                    dep_nodes.push(crate::graph::Node { inner: 2 * p + 1 });
                    assert(dep_nodes@.map_values(|x: crate::graph::Node| x.inner) =~= prev_nodes.map_values(
                        |x: crate::graph::Node| x.inner,
                    ).push((2 * p + 1) as usize));
                    assert(ds@.take(i + 1) =~= ds@.take(i as int).push(d));
                    assert(dep_ptrs@ =~= ds@.take(i + 1).map_values(
                        |d: usize| device_ptrs@[position(o, d)].inner,
                    ));
                    assert(dep_nodes@.map_values(|x: crate::graph::Node| x.inner) =~= ds@.take(
                        i + 1,
                    ).map_values(|d: usize| (2 * position(o, d) + 1) as usize));
                    i = i + 1;
                }
                assert(ds@.take(i as int) =~= ds@);
                let ghost before_push = dep_nodes@;
                assert(alloc.inner == 2 * k);
                assert(before_push.map_values(|x: crate::graph::Node| x.inner) == ds@.map_values(
                    |d: usize| (2 * position(o, d) + 1) as usize,
                ));
                dep_nodes.push(alloc);
                assert(dep_nodes@ == before_push.push(alloc));
                assert(dep_nodes@.map_values(|x: crate::graph::Node| x.inner) =~= before_push.map_values(
                    |x: crate::graph::Node| x.inner,
                ).push(alloc.inner));
                assert(dep_nodes@.map_values(|x: crate::graph::Node| x.inner) =~= ds@.map_values(
                    |d: usize| (2 * position(o, d) + 1) as usize,
                ).push((2 * k) as usize));
                proof {
                    assert forall|q: int| 0 <= q < deps_of(cdg@[node_id as int]).len() implies node_pitch(
                        cdg@,
                        #[trigger] deps_of(cdg@[node_id as int])[q],
                        alignment,
                    ) <= usize::MAX by {
                        assert(appears_before(o, k as int, ds@[q]));
                        let m = choose|m: int| 0 <= m < k && o[m] == ds@[q];
                        assert(fits(cdg@, o[m], alignment));
                    }
                }
                let (source, gw, gh) = match kernel_source(cdg, node_id, alignment, ptr.inner, &dep_ptrs) {
                    Ok(v) => v,
                    Err(e) => return Err(e),
                };
                graph.add_kernel_node(&dep_nodes, source, BLOCK_WIDTH, BLOCK_HEIGHT, gw, gh);
            },
        }
        pos.set(node_id, k);
        proof {
            assert forall|i: int| 0 <= i < k + 1 implies #[trigger] lowered(
                cdg@,
                alignment,
                o,
                device_ptrs@,
                graph.spec_nodes(),
                graph.spec_deps(),
                i,
            ) by {
                if i < k {
                    assert(graph.spec_nodes()[2 * i] == before_nodes[2 * i]);
                    assert(graph.spec_nodes()[2 * i + 1] == before_nodes[2 * i + 1]);
                    assert(graph.spec_deps()[2 * i] == before_deps[2 * i]);
                    assert(graph.spec_deps()[2 * i + 1] == before_deps[2 * i + 1]);
                    assert(lowered(cdg@, alignment, o, device_ptrs@, before_nodes, before_deps, i));
                }
            }
            assert forall|q: int| 0 <= q < k + 1 implies pos@[#[trigger] o[q] as int] == q by {
                if q < k {
                    assert(o[q] != node_id);
                }
            }
            assert forall|m: int| 0 <= m < input_buffers@.len() implies buffer_of_input(cdg@, o, graph.spec_nodes(), #[trigger] input_buffers@[m], k + 1) by {
                if m < top_bufs.len() {
                    assert(input_buffers@[m] == top_bufs[m]);
                    assert(buffer_of_input(cdg@, o, before_nodes, top_bufs[m], k as int));
                    let q = choose|q: int| 0 <= q < k && input_buffer_for(cdg@, o, before_nodes, top_bufs[m], q);
                    assert(graph.spec_nodes()[2 * q + 1] == before_nodes[2 * q + 1]);
                    assert(input_buffer_for(cdg@, o, graph.spec_nodes(), input_buffers@[m], q));
                } else {
                    assert(input_buffer_for(cdg@, o, graph.spec_nodes(), input_buffers@[m], k as int));
                }
            }
            assert forall|q: int| 0 <= q < k + 1 && #[trigger] cdg@[o[q] as int] is Input implies exists|m: int|
                0 <= m < input_buffers@.len() && input_buffer_for(cdg@, o, graph.spec_nodes(), input_buffers@[m], q) by {
                if q < k {
                    let m = choose|m: int| 0 <= m < top_bufs.len() && input_buffer_for(cdg@, o, before_nodes, top_bufs[m], q);
                    assert(graph.spec_nodes()[2 * q + 1] == before_nodes[2 * q + 1]);
                    assert(input_buffers@[m] == top_bufs[m]);
                    assert(input_buffer_for(cdg@, o, graph.spec_nodes(), input_buffers@[m], q));
                } else {
                    assert(input_buffer_for(cdg@, o, graph.spec_nodes(), input_buffers@[top_bufs.len() as int], q));
                }
            }
        }
        k = k + 1;
    }
    Ok((graph, pos, input_buffers))
}

/// Index of node `d` in `order`.
pub open spec fn position(order: Seq<usize>, d: usize) -> int {
    choose|k: int| 0 <= k < order.len() && order[k] == d
}

/// The nodes that the outputs name.
pub open spec fn output_roots(outputs: Seq<(String, Output)>) -> Seq<usize> {
    outputs.map_values(|o: (String, Output)| o.1.node)
}

/// The nodes that the outputs need.
pub open spec fn needed(g: Seq<Node>, outputs: Seq<(String, Output)>) -> Set<usize> {
    Set::new(|j: usize| reachable(g, output_roots(outputs), j))
}

/// Every output names a node of `g`.
pub open spec fn outputs_known(g: Seq<Node>, outputs: Seq<(String, Output)>) -> bool {
    forall|j: int| 0 <= j < outputs.len() ==> #[trigger] outputs[j].1.node < g.len()
}

/// No two outputs share a name.
pub open spec fn output_names_distinct(outputs: Seq<(String, Output)>) -> bool {
    forall|i: int, j: int|
        0 <= i < outputs.len() && 0 <= j < outputs.len() && i != j ==> #[trigger] outputs[i].0@
            != #[trigger] outputs[j].0@
}

/// Row, buffer, pitch and allocation sizes of node `n` fit in `usize`.
pub open spec fn fits(g: Seq<Node>, n: usize, alignment: usize) -> bool {
    let row = width_of(g, n as nat) * pixel_type_of(g, n as nat).spec_size();
    &&& node_pitch(g, n, alignment) <= usize::MAX
    &&& node_bytes(g, n, alignment) <= usize::MAX
    &&& row <= usize::MAX
    &&& row * height_of(g, n as nat) <= usize::MAX
}

/// The name of input node `n`.
pub open spec fn input_name(n: Node) -> Option<Seq<char>> {
    match n {
        Node::Input { name, .. } => Some(name@),
        _ => None,
    }
}

/// Two distinct needed inputs share a name.
pub open spec fn input_names_clash(g: Seq<Node>, outputs: Seq<(String, Output)>) -> bool {
    exists|a: usize, b: usize|
        #[trigger] needed(g, outputs).contains(a) && #[trigger] needed(g, outputs).contains(b) && a
            != b && input_name(g[a as int]) is Some && input_name(g[a as int]) == input_name(
            g[b as int],
        )
}

/// Node `k` of `order` became an allocation node at `2k` and, at `2k + 1`, a
/// copy from the host for an input or a kernel launch for an operation,
/// after the allocation and after the nodes of its dependencies.
pub open spec fn lowered(
    g: Seq<Node>,
    alignment: usize,
    order: Seq<usize>,
    ptrs: Seq<DevicePtr>,
    nodes: Seq<GraphNode>,
    deps: Seq<Seq<usize>>,
    k: int,
) -> bool {
    let n = order[k];
    &&& nodes[2 * k] == GraphNode::Alloc { bytes: node_bytes(g, n, alignment) as usize, ptr: ptrs[k] }
    &&& deps[2 * k] == Seq::<usize>::empty()
    &&& match g[n as int] {
        Node::Input { width, height, pixel_type, .. } => {
            &&& nodes[2 * k + 1] is MemCpy
            &&& nodes[2 * k + 1]->MemCpy_direction == MemCpyDirection::HostToDevice
            &&& nodes[2 * k + 1]->MemCpy_device_ptr == ptrs[k]
            &&& nodes[2 * k + 1]->MemCpy_width_in_bytes == width * pixel_type.spec_size()
            &&& nodes[2 * k + 1]->MemCpy_height == height
            &&& nodes[2 * k + 1]->MemCpy_device_pitch == node_pitch(g, n, alignment)
            &&& deps[2 * k + 1] == seq![(2 * k) as usize]
        },
        Node::Operation(_) => {
            &&& nodes[2 * k + 1] is Kernel
            &&& nodes[2 * k + 1]->Kernel_source@ == kernel_text_of(
                g,
                n,
                alignment,
                ptrs[k].inner,
                deps_of(g[n as int]).map_values(|d: usize| ptrs[position(order, d)].inner),
            )
            &&& nodes[2 * k + 1]->Kernel_block_width == BLOCK_WIDTH
            &&& nodes[2 * k + 1]->Kernel_block_height == BLOCK_HEIGHT
            &&& nodes[2 * k + 1]->Kernel_grid_width == blocks_for(
                width_of(g, n as nat),
                block_step(g, n).0,
            )
            &&& nodes[2 * k + 1]->Kernel_grid_height == blocks_for(
                height_of(g, n as nat),
                block_step(g, n).1,
            )
            &&& deps[2 * k + 1] == deps_of(g[n as int]).map_values(
                |d: usize| (2 * position(order, d) + 1) as usize,
            ).push((2 * k) as usize)
        },
    }
}

/// Output `j` became, at `base + j`, a copy to the host of the memory of its
/// node after that node's own graph node.
pub open spec fn read_back(
    g: Seq<Node>,
    alignment: usize,
    order: Seq<usize>,
    ptrs: Seq<DevicePtr>,
    outputs: Seq<(String, Output)>,
    nodes: Seq<GraphNode>,
    deps: Seq<Seq<usize>>,
    base: int,
    j: int,
) -> bool {
    let n = outputs[j].1.node;
    let k = position(order, n);
    &&& nodes[base + j] is MemCpy
    &&& nodes[base + j]->MemCpy_direction == MemCpyDirection::DeviceToHost
    &&& nodes[base + j]->MemCpy_device_ptr == ptrs[k]
    &&& nodes[base + j]->MemCpy_width_in_bytes == width_of(g, n as nat) * pixel_type_of(
        g,
        n as nat,
    ).spec_size()
    &&& nodes[base + j]->MemCpy_height == height_of(g, n as nat)
    &&& nodes[base + j]->MemCpy_device_pitch == node_pitch(g, n, alignment)
    &&& deps[base + j] == seq![(2 * k + 1) as usize]
}

/// Some node among the first `k` of `order` is an input named `name`.
pub open spec fn named_input_before(g: Seq<Node>, order: Seq<usize>, k: int, name: Seq<char>) -> bool {
    exists|i: int| 0 <= i < k && input_name(g[order[i] as int]) == Some(name)
}

/// `b` is the host buffer of input node `k` of `order`: it has the input's
/// name and geometry, and the copy node at `2k + 1` reads it.
pub open spec fn input_buffer_for(g: Seq<Node>, order: Seq<usize>, nodes: Seq<GraphNode>, b: Buffer, k: int) -> bool {
    match g[order[k] as int] {
        Node::Input { name, width, height, pixel_type } => {
            &&& b.name@ == name@
            &&& b.width == width
            &&& b.height == height
            &&& b.pixel_type == pixel_type
            &&& nodes[2 * k + 1] is MemCpy
            &&& nodes[2 * k + 1]->MemCpy_buffer == b.index
        },
        _ => false,
    }
}

/// `b` is the host buffer of one of the first `k` nodes of `order`.
pub open spec fn buffer_of_input(g: Seq<Node>, order: Seq<usize>, nodes: Seq<GraphNode>, b: Buffer, k: int) -> bool {
    exists|q: int| 0 <= q < k && input_buffer_for(g, order, nodes, b, q)
}

/// Some buffer of `bufs` is named `name`.
pub open spec fn has_buffer(bufs: Seq<Buffer>, name: Seq<char>) -> bool {
    exists|m: int| 0 <= m < bufs.len() && bufs[m].name@ == name
}

/// Node `d` is among the first `k` of `order`.
pub open spec fn appears_before(order: Seq<usize>, k: int, d: usize) -> bool {
    exists|m: int| 0 <= m < k && order[m] == d
}

/// Each buffer names its own host buffer of `store`, in increasing order,
/// sized for its image.
pub open spec fn buffers_ok(bufs: Seq<Buffer>, store: Seq<Seq<u8>>) -> bool {
    &&& forall|m: int|
        0 <= m < bufs.len() ==> (#[trigger] bufs[m]).index < store.len() && store[bufs[m].index as int].len()
            == bufs[m].width * bufs[m].pixel_type.spec_size() * bufs[m].height
    &&& forall|a: int, b: int| 0 <= a < b < bufs.len() ==> bufs[a].index < bufs[b].index
}

/// Adding host buffers after `store` keeps the buffers of `bufs` as they were.
proof fn lemma_buffers_grow(bufs: Seq<Buffer>, store: Seq<Seq<u8>>, store2: Seq<Seq<u8>>)
    requires
        buffers_ok(bufs, store),
        store2.len() >= store.len(),
        store2.take(store.len() as int) == store,
    ensures
        buffers_ok(bufs, store2),
{
    assert forall|m: int| 0 <= m < bufs.len() implies (#[trigger] bufs[m]).index < store2.len()
        && store2[bufs[m].index as int].len() == bufs[m].width * bufs[m].pixel_type.spec_size()
        * bufs[m].height by {
        assert(store2.take(store.len() as int)[bufs[m].index as int] == store2[bufs[m].index as int]);
    }
}

/// A graph that agrees with another on its first `bound` nodes keeps every
/// lowering that lies there.
proof fn lemma_lowered_prefix(
    g: Seq<Node>,
    alignment: usize,
    order: Seq<usize>,
    ptrs: Seq<DevicePtr>,
    nodes1: Seq<GraphNode>,
    deps1: Seq<Seq<usize>>,
    nodes2: Seq<GraphNode>,
    deps2: Seq<Seq<usize>>,
    count: int,
)
    requires
        nodes1.len() >= 2 * count,
        deps1.len() >= 2 * count,
        nodes2.len() >= 2 * count,
        deps2.len() >= 2 * count,
        nodes2.take(2 * count) == nodes1.take(2 * count),
        deps2.take(2 * count) == deps1.take(2 * count),
        forall|i: int| 0 <= i < count ==> #[trigger] lowered(g, alignment, order, ptrs, nodes1, deps1, i),
    ensures
        forall|i: int| 0 <= i < count ==> #[trigger] lowered(g, alignment, order, ptrs, nodes2, deps2, i),
{
    assert forall|i: int| 0 <= i < count implies #[trigger] lowered(g, alignment, order, ptrs, nodes2, deps2, i) by {
        assert(lowered(g, alignment, order, ptrs, nodes1, deps1, i));
        assert(nodes2.take(2 * count)[2 * i] == nodes2[2 * i]);
        assert(nodes2.take(2 * count)[2 * i + 1] == nodes2[2 * i + 1]);
        assert(deps2.take(2 * count)[2 * i] == deps2[2 * i]);
        assert(deps2.take(2 * count)[2 * i + 1] == deps2[2 * i + 1]);
        assert(nodes1.take(2 * count)[2 * i] == nodes1[2 * i]);
        assert(nodes1.take(2 * count)[2 * i + 1] == nodes1[2 * i + 1]);
        assert(deps1.take(2 * count)[2 * i] == deps1[2 * i]);
        assert(deps1.take(2 * count)[2 * i + 1] == deps1[2 * i + 1]);
    }
}

/// A host buffer that a copy node shares with the device, with the image
/// geometry it holds.
pub struct Buffer {
    pub name: String,
    pub width: usize,
    pub height: usize,
    pub pixel_type: PixelType,
    pub index: usize,
}

/// A compiled pipeline: its device graph and the named host buffers of its
/// inputs and outputs.
pub struct Transformation {
    order: Vec<usize>,
    input_buffers: Vec<Buffer>,
    output_buffers: Vec<Buffer>,
    executable_graph: ExecutableGraph,
}

/// A strictly increasing sequence of indices below `bound` is no longer than `bound`.
proof fn lemma_increasing_bound(o: Seq<usize>, bound: int)
    requires
        bound >= 0,
        forall|a: int, b: int| 0 <= a < b < o.len() ==> o[a] < o[b],
        forall|i: int| 0 <= i < o.len() ==> o[i] < bound,
    ensures
        o.len() <= bound,
    decreases o.len(),
{
    if o.len() > 0 {
        let last = o.len() - 1;
        let rest = o.drop_last();
        assert(o[last] < bound);
        assert forall|i: int| 0 <= i < rest.len() implies rest[i] < o[last] by {
            assert(rest[i] == o[i]);
        }
        assert forall|a: int, b: int| 0 <= a < b < rest.len() implies rest[a] < rest[b] by {
            assert(rest[a] == o[a] && rest[b] == o[b]);
        }
        lemma_increasing_bound(rest, o[last] as int);
    }
}

/// `index` is `position` in `order`, which has no duplicates.
proof fn lemma_position(order: Seq<usize>, k: int)
    requires
        order.no_duplicates(),
        0 <= k < order.len(),
    ensures
        position(order, order[k]) == k,
{
    let d = order[k];
    assert(0 <= k < order.len() && order[k] == d);
    let c = position(order, d);
    assert(0 <= c < order.len() && order[c] == d);
}

impl Transformation {
    /// Every input and output buffer names its own host buffer of the
    /// graph, sized for its image.
    pub closed spec fn wf(&self) -> bool {
        let store = self.executable_graph.graph.spec_buffers();
        &&& self.executable_graph.graph.wf()
        &&& buffers_ok(self.input_buffers@, store)
        &&& buffers_ok(self.output_buffers@, store)
        &&& forall|a: int, b: int|
            0 <= a < self.input_buffers@.len() && 0 <= b < self.output_buffers@.len()
                ==> self.input_buffers@[a].index < self.output_buffers@[b].index
    }

    pub closed spec fn spec_order(&self) -> Seq<usize> {
        self.order@
    }

    pub closed spec fn spec_graph(&self) -> Graph {
        self.executable_graph.graph
    }

    pub closed spec fn spec_inputs(&self) -> Seq<Buffer> {
        self.input_buffers@
    }

    pub closed spec fn spec_outputs(&self) -> Seq<Buffer> {
        self.output_buffers@
    }

    /// Lowers the nodes that `outputs` need to a device graph. The nodes are
    /// taken in dependency order, and `device_ptrs` holds, in that order, the
    /// address of each one's allocation node.
    #[verifier::rlimit(100)]
    #[verifier::spinoff_prover]
    pub fn new(
        cdg: &Cdg,
        outputs: &Vec<(String, Output)>,
        alignment: usize,
        device_ptrs: &Vec<DevicePtr>,
    ) -> (r: Result<Transformation, Violation>)
        requires
            cdg.wf(),
            alignment > 0,
            cdg@.len() <= usize::MAX / 4,
            outputs@.len() <= usize::MAX / 4,
        ensures
            r == Err::<Transformation, Violation>(Violation::UnknownNode) <==> !outputs_known(
                cdg@,
                outputs@,
            ),
            outputs_known(cdg@, outputs@) ==> (r == Err::<Transformation, Violation>(
                Violation::DuplicateOutputName,
            ) <==> !output_names_distinct(outputs@)),
            outputs_known(cdg@, outputs@) && output_names_distinct(outputs@) ==> (r == Err::<
                Transformation,
                Violation,
            >(Violation::DevicePointerCount) <==> device_ptrs@.len() != needed(
                cdg@,
                outputs@,
            ).len()),
            r == Err::<Transformation, Violation>(Violation::TooLarge) ==> exists|n: usize|
                #[trigger] needed(cdg@, outputs@).contains(n) && !fits(cdg@, n, alignment),
            r == Err::<Transformation, Violation>(Violation::PatchLargerThanBlock) ==> exists|
                n: usize,
            | #[trigger] needed(cdg@, outputs@).contains(n) && patch_too_large(cdg@, n),
            r == Err::<Transformation, Violation>(Violation::DuplicateInputName) ==> input_names_clash(
                cdg@,
                outputs@,
            ),
            outputs_known(cdg@, outputs@) && output_names_distinct(outputs@) && device_ptrs@.len()
                == needed(cdg@, outputs@).len() && (forall|n: usize| #[trigger]
                needed(cdg@, outputs@).contains(n) ==> fits(cdg@, n, alignment) && !patch_too_large(
                cdg@,
                n,
            )) && !input_names_clash(cdg@, outputs@) ==> r is Ok,
            r is Err ==> r == Err::<Transformation, Violation>(Violation::UnknownNode) || r == Err::<
                Transformation,
                Violation,
            >(Violation::DuplicateOutputName) || r == Err::<Transformation, Violation>(
                Violation::DevicePointerCount,
            ) || r == Err::<Transformation, Violation>(Violation::TooLarge) || r == Err::<
                Transformation,
                Violation,
            >(Violation::PatchLargerThanBlock) || r == Err::<Transformation, Violation>(
                Violation::DuplicateInputName,
            ),
            outputs_known(cdg@, outputs@) && output_names_distinct(outputs@) && device_ptrs@.len()
                == needed(cdg@, outputs@).len() && (forall|n: usize| #[trigger]
                needed(cdg@, outputs@).contains(n) ==> fits(cdg@, n, alignment) && !patch_too_large(
                cdg@,
                n,
            )) && input_names_clash(cdg@, outputs@) ==> r == Err::<Transformation, Violation>(
                Violation::DuplicateInputName,
            ),
            r is Ok ==> {
                let t = r->Ok_0;
                let o = t.spec_order();
                let nodes = t.spec_graph().spec_nodes();
                let deps = t.spec_graph().spec_deps();
                &&& t.spec_graph().wf()
                &&& t.wf()
                &&& nodes.len() == 3 * o.len() + outputs@.len()
                &&& !input_names_clash(cdg@, outputs@)
                &&& forall|m: int|
                    0 <= m < t.spec_inputs().len() ==> buffer_of_input(
                        cdg@,
                        o,
                        nodes,
                        #[trigger] t.spec_inputs()[m],
                        o.len() as int,
                    )
                &&& forall|q: int|
                    0 <= q < o.len() && #[trigger] cdg@[o[q] as int] is Input ==> exists|m: int|
                        0 <= m < t.spec_inputs().len() && input_buffer_for(cdg@, o, nodes, t.spec_inputs()[m], q)
                &&& t.spec_outputs().len() == outputs@.len()
                &&& forall|j: int|
                    0 <= j < outputs@.len() ==> {
                        let n = outputs@[j].1.node;
                        &&& (#[trigger] t.spec_outputs()[j]).name@ == outputs@[j].0@
                        &&& t.spec_outputs()[j].width == width_of(cdg@, n as nat)
                        &&& t.spec_outputs()[j].height == height_of(cdg@, n as nat)
                        &&& t.spec_outputs()[j].pixel_type == pixel_type_of(cdg@, n as nat)
                        &&& t.spec_outputs()[j].index == nodes[2 * o.len() + j]->MemCpy_buffer
                    }
                &&& o.no_duplicates()
                &&& o.len() == device_ptrs@.len()
                &&& forall|n: usize| #[trigger] o.contains(n) <==> needed(cdg@, outputs@).contains(n)
                &&& forall|a: int, b: int| 0 <= a < b < o.len() ==> o[a] < o[b]
                &&& forall|k: int|
                    0 <= k < o.len() ==> #[trigger] lowered(
                        cdg@,
                        alignment,
                        o,
                        device_ptrs@,
                        nodes,
                        deps,
                        k,
                    )
                &&& forall|j: int|
                    0 <= j < outputs@.len() ==> #[trigger] read_back(
                        cdg@,
                        alignment,
                        o,
                        device_ptrs@,
                        outputs@,
                        nodes,
                        deps,
                        (2 * o.len()) as int,
                        j,
                    )
                &&& frees_added(
                    nodes.take((2 * o.len() + outputs@.len()) as int),
                    deps.take((2 * o.len() + outputs@.len()) as int),
                    nodes,
                    deps,
                    (2 * o.len() + outputs@.len()) as int,
                )
            },
    {
        let n_nodes = cdg.len();
        let mut j: usize = 0;
        while j < outputs.len()
            invariant
                j <= outputs@.len(),
                n_nodes == cdg@.len(),
                forall|i: int| 0 <= i < j ==> #[trigger] outputs@[i].1.node < cdg@.len(),
            decreases outputs@.len() - j,
        {
            if outputs[j].1.node >= n_nodes {
                return Err(Violation::UnknownNode);
            }
            j = j + 1;
        }
        let mut a: usize = 0;
        while a < outputs.len()
            invariant
                a <= outputs@.len(),
                outputs_known(cdg@, outputs@),
                forall|i: int, k: int|
                    0 <= i < a && 0 <= k < outputs@.len() && i != k ==> #[trigger] outputs@[i].0@
                        != #[trigger] outputs@[k].0@,
            decreases outputs@.len() - a,
        {
            let mut b: usize = 0;
            while b < outputs.len()
                invariant
                    a < outputs@.len(),
                    b <= outputs@.len(),
                    outputs_known(cdg@, outputs@),
                    forall|i: int, k: int|
                        0 <= i < a && 0 <= k < outputs@.len() && i != k ==> #[trigger] outputs@[i].0@
                            != #[trigger] outputs@[k].0@,
                    forall|k: int| 0 <= k < b && a != k ==> outputs@[a as int].0@ != #[trigger] outputs@[k].0@,
                decreases outputs@.len() - b,
            {
                if a != b && outputs[a].0 == outputs[b].0 {
                    return Err(Violation::DuplicateOutputName);
                }
                b = b + 1;
            }
            a = a + 1;
        }
        let mut roots: Vec<usize> = Vec::new();
        let mut j: usize = 0;
        while j < outputs.len()
            invariant
                j <= outputs@.len(),
                roots@ == output_roots(outputs@).take(j as int),
                outputs_known(cdg@, outputs@),
            decreases outputs@.len() - j,
        {
            roots.push(outputs[j].1.node);
            assert(output_roots(outputs@).take(j + 1) =~= output_roots(outputs@).take(j as int).push(
                outputs@[j as int].1.node,
            ));
            j = j + 1;
        }
        assert(roots@ =~= output_roots(outputs@));
        let order = cdg.toposort(&roots);
        let ghost o = order@;
        proof {
            assert(o.to_set() =~= needed(cdg@, outputs@));
            o.unique_seq_to_set();
        }
        if device_ptrs.len() != order.len() {
            return Err(Violation::DevicePointerCount);
        }
        proof {
            lemma_increasing_bound(o, n_nodes as int);
        }
        let (mut graph, pos, input_buffers) = match lower_needed(cdg, outputs, alignment, &order, device_ptrs) {
            Ok(v) => v,
            Err(e) => return Err(e),
        };
        let n = order.len();
        let ghost mid_nodes = graph.spec_nodes();
        let ghost mid_deps = graph.spec_deps();
        let ghost mid_store = graph.spec_buffers();
        let output_buffers = add_read_backs(cdg, outputs, alignment, &order, &pos, device_ptrs, &mut graph);
        let ghost pre_nodes = graph.spec_nodes();
        let ghost pre_deps = graph.spec_deps();
        let ghost pre_store = graph.spec_buffers();
        proof {
            assert(mid_nodes.take(2 * n as int) =~= mid_nodes);
            assert(mid_deps.take(2 * n as int) =~= mid_deps);
            lemma_lowered_prefix(cdg@, alignment, o, device_ptrs@, mid_nodes, mid_deps, pre_nodes, pre_deps, n as int);
            lemma_buffers_grow(input_buffers@, mid_store, pre_store);
        }
        let executable_graph = graph.make_executable();
        let t = Transformation { order, input_buffers, output_buffers, executable_graph };
        proof {
            let fin_nodes = t.spec_graph().spec_nodes();
            let fin_deps = t.spec_graph().spec_deps();
            let total = (2 * n + outputs@.len()) as int;
            assert(fin_nodes.take(total) == pre_nodes);
            assert(fin_deps.take(total) == pre_deps);
            assert(fin_nodes.take(2 * n as int) =~= pre_nodes.take(2 * n as int));
            assert(fin_deps.take(2 * n as int) =~= pre_deps.take(2 * n as int));
            lemma_lowered_prefix(cdg@, alignment, o, device_ptrs@, pre_nodes, pre_deps, fin_nodes, fin_deps, n as int);
            assert forall|j: int| 0 <= j < outputs@.len() implies #[trigger] read_back(
                cdg@,
                alignment,
                o,
                device_ptrs@,
                outputs@,
                fin_nodes,
                fin_deps,
                (2 * o.len()) as int,
                j,
            ) by {
                assert(read_back(cdg@, alignment, o, device_ptrs@, outputs@, pre_nodes, pre_deps, (2 * o.len()) as int, j));
                assert(fin_nodes.take(total)[2 * n + j] == fin_nodes[2 * n + j]);
                assert(fin_deps.take(total)[2 * n + j] == fin_deps[2 * n + j]);
            }
            let pre_len = (2 * n + outputs@.len()) as int;
            lemma_alloc_count(cdg@, alignment, o, device_ptrs@, outputs@, pre_nodes, pre_deps, pre_len);
            assert(fin_nodes.len() == 3 * o.len() + outputs@.len());
            assert forall|i: int| 0 <= i < 2 * n implies fin_nodes[i] == mid_nodes[i] by {
                assert(fin_nodes.take(total)[i] == fin_nodes[i]);
                assert(pre_nodes.take(2 * n as int)[i] == pre_nodes[i]);
            }
            lemma_input_buffers_kept(cdg@, o, mid_nodes, fin_nodes, t.input_buffers@, n as int);
            assert(t.spec_inputs() == t.input_buffers@);
            assert(t.spec_graph().spec_nodes() == fin_nodes);
            assert forall|q: int| 0 <= q < o.len() && #[trigger] cdg@[o[q] as int] is Input implies exists|m: int|
                0 <= m < t.spec_inputs().len() && input_buffer_for(cdg@, o, fin_nodes, t.spec_inputs()[m], q) by {
                assert(0 <= q < n && cdg@[o[q] as int] is Input);
            }
            assert forall|j: int| 0 <= j < outputs@.len() implies #[trigger] t.output_buffers@[j].index
                == fin_nodes[2 * o.len() + j]->MemCpy_buffer by {
                assert(fin_nodes.take(total)[2 * n + j] == fin_nodes[2 * n + j]);
            }
            lemma_no_clash(cdg@, outputs@, o);
            assert forall|a: int, b: int| 0 <= a < t.input_buffers@.len() && 0 <= b < t.output_buffers@.len() implies
                t.input_buffers@[a].index < t.output_buffers@[b].index by {
                assert(t.input_buffers@[a].index < mid_store.len());
                assert(t.output_buffers@[b].index >= mid_store.len());
            }
        }
        Ok(t)
    }
}

/// One device allocation of the pipeline: the node whose image it holds and
/// its size in bytes.
#[derive(Clone, Copy, PartialEq, Eq, Debug, Structural)]
pub struct Allocation {
    pub node: usize,
    pub bytes: usize,
}

/// Some allocation of `a` is for node `n`.
pub open spec fn allocates(a: Seq<Allocation>, n: usize) -> bool {
    exists|k: int| 0 <= k < a.len() && a[k].node == n
}

/// An image in host memory: rows packed tight, pixels packed tight.
pub struct HostImage {
    pub width: usize,
    pub height: usize,
    pub pixel_type: PixelType,
    pub data: Vec<u8>,
}

impl HostImage {
    /// An image over `data`; `None` unless `data` holds exactly `width` by
    /// `height` pixels of `pixel_type`.
    pub fn new(width: usize, height: usize, pixel_type: PixelType, data: Vec<u8>) -> (r: Option<HostImage>)
        ensures
            r is Some <==> data@.len() == width * pixel_type.spec_size() * height,
            r is Some ==> r->0.width == width && r->0.height == height && r->0.pixel_type == pixel_type
                && r->0.data@ == data@,
    {
        let size = pixel_type.layout().size;
        let dl = data.len();
        if height == 0 {
            assert(width * size * height == 0) by (nonlinear_arith)
                requires
                    height == 0,
            ;
            if dl == 0 {
                return Some(HostImage { width, height, pixel_type, data });
            }
            return None;
        }
        let row = match width.checked_mul(size) {
            Some(v) => v,
            None => {
                assert(width * size * height >= width * size) by (nonlinear_arith)
                    requires
                        height >= 1,
                ;
                return None;
            },
        };
        match row.checked_mul(height) {
            Some(total) => {
                if total == dl {
                    Some(HostImage { width, height, pixel_type, data })
                } else {
                    None
                }
            },
            None => None,
        }
    }

    /// Pixel `(col, row)` of an image of `RgbU8` pixels.
    pub fn get_rgb8(&self, col: usize, row: usize) -> (r: Option<Rgb<u8>>)
        requires
            self.data@.len() == self.width * self.pixel_type.spec_size() * self.height,
        ensures
            r is Some <==> self.pixel_type == PixelType::RgbU8 && col < self.width && row < self.height,
            r is Some ==> {
                let i = 3 * (row * self.width + col);
                &&& r->0.r == self.data@[i]
                &&& r->0.g == self.data@[i + 1]
                &&& r->0.b == self.data@[i + 2]
            },
    {
        if self.pixel_type != PixelType::RgbU8 || col >= self.width || row >= self.height {
            return None;
        }
        assert(row * self.width + col < self.width * self.height) by (nonlinear_arith)
            requires
                col < self.width,
                row < self.height,
        ;
        let dl = self.data.len();
        assert(3 * (row * self.width + col) + 2 < self.width * 3 * self.height) by (nonlinear_arith)
            requires
                row * self.width + col < self.width * self.height,
        ;
        let i = 3 * (row * self.width + col);
        Some(Rgb { r: self.data[i], g: self.data[i + 1], b: self.data[i + 2] })
    }
}

/// Why a call could not run.
#[derive(Debug)]
pub enum CallError {
    /// No image was given for this input.
    MissingInput(String),
    /// The image given for this input has another width, height or pixel type.
    ShapeMismatch { name: String, expected: (usize, usize, PixelType), actual: (usize, usize, PixelType) },
}

/// `j` is the first of `inputs` named `name`.
pub open spec fn first_named(inputs: Seq<(String, HostImage)>, name: Seq<char>, j: int) -> bool {
    &&& 0 <= j < inputs.len()
    &&& inputs[j].0@ == name
    &&& forall|i: int| 0 <= i < j ==> inputs[i].0@ != name
}

/// No image of `inputs` is named `name`.
pub open spec fn missing(inputs: Seq<(String, HostImage)>, name: Seq<char>) -> bool {
    forall|i: int| 0 <= i < inputs.len() ==> inputs[i].0@ != name
}

/// `img` has the geometry of buffer `b`.
pub open spec fn image_matches(b: Buffer, img: HostImage) -> bool {
    &&& img.width == b.width
    &&& img.height == b.height
    &&& img.pixel_type == b.pixel_type
    &&& img.data@.len() == b.width * b.pixel_type.spec_size() * b.height
}

/// The image that buffer `b` is filled from: the first of `inputs` with its
/// name, which has its geometry.
pub open spec fn fills(inputs: Seq<(String, HostImage)>, b: Buffer) -> bool {
    exists|j: int| first_named(inputs, b.name@, j) && image_matches(b, inputs[j].1)
}

/// `width * size * height`, when it fits in `usize`.
fn byte_count(width: usize, size: usize, height: usize) -> (r: Option<usize>)
    ensures
        r is Some <==> width * size * height <= usize::MAX,
        r is Some ==> r->0 == width * size * height,
{
    if height == 0 {
        assert(width * size * height == 0) by (nonlinear_arith)
            requires
                height == 0,
        ;
        return Some(0);
    }
    match width.checked_mul(size) {
        Some(row) => row.checked_mul(height),
        None => {
            assert(width * size * height >= width * size) by (nonlinear_arith)
                requires
                    height >= 1,
            ;
            None
        },
    }
}

/// A copy of `v`.
fn copy_bytes(v: &Vec<u8>) -> (r: Vec<u8>)
    ensures
        r@ == v@,
{
    let mut r: Vec<u8> = Vec::new();
    let mut i: usize = 0;
    while i < v.len()
        invariant
            i <= v@.len(),
            r@ == v@.take(i as int),
        decreases v@.len() - i,
    {
        r.push(v[i]);
        assert(v@.take(i + 1) =~= v@.take(i as int).push(v@[i as int]));
        i = i + 1;
    }
    assert(v@.take(i as int) =~= v@);
    r
}

/// Index of the first of `inputs` named `name`, if any.
fn find_input(inputs: &Vec<(String, HostImage)>, name: &String) -> (r: Option<usize>)
    ensures
        r is Some ==> first_named(inputs@, name@, r->0 as int),
        r is None ==> missing(inputs@, name@),
{
    let mut i: usize = 0;
    while i < inputs.len()
        invariant
            i <= inputs@.len(),
            forall|q: int| 0 <= q < i ==> inputs@[q].0@ != name@,
        decreases inputs@.len() - i,
    {
        if inputs[i].0 == *name {
            return Some(i);
        }
        i = i + 1;
    }
    None
}

impl Transformation {
    /// Writes each input image into the host buffer of the input of its name,
    /// ready for a launch. Every input buffer must have an image of its name
    /// (`MissingInput`) with its geometry (`ShapeMismatch`); on an error no
    /// buffer changes.
    pub fn fill_inputs(&mut self, inputs: &Vec<(String, HostImage)>) -> (r: Result<(), CallError>)
        requires
            old(self).wf(),
        ensures
            final(self).wf(),
            final(self).spec_inputs() == old(self).spec_inputs(),
            final(self).spec_outputs() == old(self).spec_outputs(),
            final(self).spec_order() == old(self).spec_order(),
            final(self).spec_graph().spec_nodes() == old(self).spec_graph().spec_nodes(),
            final(self).spec_graph().spec_deps() == old(self).spec_graph().spec_deps(),
            r is Ok <==> forall|m: int| 0 <= m < old(self).spec_inputs().len() ==> fills(inputs@, #[trigger] old(self).spec_inputs()[m]),
            r is Err ==> final(self).spec_graph().spec_buffers() == old(self).spec_graph().spec_buffers(),
            r is Ok ==> forall|m: int, j: int|
                0 <= m < old(self).spec_inputs().len() && #[trigger] first_named(inputs@, old(self).spec_inputs()[m].name@, j)
                    ==> final(self).spec_graph().spec_buffers()[old(self).spec_inputs()[m].index as int] == inputs@[j].1.data@,
            r is Ok ==> forall|x: int|
                0 <= x < old(self).spec_graph().spec_buffers().len() && (forall|m: int|
                    0 <= m < old(self).spec_inputs().len() ==> #[trigger] old(self).spec_inputs()[m].index != x)
                    ==> final(self).spec_graph().spec_buffers()[x] == old(self).spec_graph().spec_buffers()[x],
            match r {
                Err(CallError::MissingInput(name)) => exists|m: int|
                    0 <= m < old(self).spec_inputs().len() && #[trigger] old(self).spec_inputs()[m].name@ == name@
                        && missing(inputs@, name@),
                Err(CallError::ShapeMismatch { name, expected, actual }) => exists|m: int, j: int|
                    0 <= m < old(self).spec_inputs().len() && old(self).spec_inputs()[m].name@ == name@
                        && #[trigger] first_named(inputs@, old(self).spec_inputs()[m].name@, j) && !image_matches(old(self).spec_inputs()[m], inputs@[j].1)
                        && expected == (old(self).spec_inputs()[m].width, old(self).spec_inputs()[m].height, old(self).spec_inputs()[m].pixel_type)
                        && actual == (inputs@[j].1.width, inputs@[j].1.height, inputs@[j].1.pixel_type),
                Ok(_) => true,
            },
    {
        let n = self.input_buffers.len();
        let mut found: Vec<usize> = Vec::new();
        let mut m: usize = 0;
        while m < n
            invariant
                *self == *old(self),
                self.wf(),
                n == self.input_buffers@.len(),
                m <= n,
                found@.len() == m,
                forall|q: int| 0 <= q < m ==> first_named(inputs@, self.input_buffers@[q].name@, #[trigger] found@[q] as int)
                    && image_matches(self.input_buffers@[q], inputs@[found@[q] as int].1),
            decreases n - m,
        {
            let b = &self.input_buffers[m];
            let j = match find_input(inputs, &b.name) {
                Some(j) => j,
                None => {
                    proof {
                        if fills(inputs@, self.input_buffers@[m as int]) {
                            let jj = choose|jj: int| first_named(inputs@, b.name@, jj) && image_matches(
                                self.input_buffers@[m as int],
                                inputs@[jj].1,
                            );
                            assert(inputs@[jj].0@ != b.name@);
                        }
                    }
                    return Err(CallError::MissingInput(b.name.clone()));
                },
            };
            let img = &inputs[j].1;
            let size = b.pixel_type.layout().size;
            let ok_shape = img.width == b.width && img.height == b.height && img.pixel_type == b.pixel_type;
            let dl = img.data.len();
            let ok_len = ok_shape && match byte_count(b.width, size, b.height) {
                Some(total) => total == dl,
                None => false,
            };
            if !ok_len {
                proof {
                    assert forall|jj: int| first_named(inputs@, b.name@, jj) implies jj == j by {
                        if jj < j {
                            assert(inputs@[jj].0@ != b.name@);
                        } else if jj > j {
                            assert(inputs@[j as int].0@ != b.name@);
                        }
                    }
                    assert(!fills(inputs@, self.input_buffers@[m as int]));
                }
                return Err(
                    CallError::ShapeMismatch {
                        name: b.name.clone(),
                        expected: (b.width, b.height, b.pixel_type),
                        actual: (img.width, img.height, img.pixel_type),
                    },
                );
            }
            found.push(j);
            m = m + 1;
        }
        let ghost old_store = self.executable_graph.graph.spec_buffers();
        let mut m: usize = 0;
        while m < n
            invariant
                n == self.input_buffers@.len(),
                self.input_buffers@ == old(self).input_buffers@,
                self.output_buffers@ == old(self).output_buffers@,
                self.order@ == old(self).order@,
                self.executable_graph.graph.spec_nodes() == old(self).executable_graph.graph.spec_nodes(),
                self.executable_graph.graph.spec_deps() == old(self).executable_graph.graph.spec_deps(),
                self.wf(),
                m <= n,
                found@.len() == n,
                old_store == old(self).executable_graph.graph.spec_buffers(),
                self.executable_graph.graph.spec_buffers().len() == old_store.len(),
                forall|q: int| 0 <= q < n ==> first_named(inputs@, self.input_buffers@[q].name@, #[trigger] found@[q] as int)
                    && image_matches(self.input_buffers@[q], inputs@[found@[q] as int].1),
                forall|q: int| 0 <= q < m ==> self.executable_graph.graph.spec_buffers()[(#[trigger] self.input_buffers@[q]).index as int]
                    == inputs@[found@[q] as int].1.data@,
                forall|x: int|
                    0 <= x < old_store.len() && (forall|q: int| 0 <= q < m ==> #[trigger] self.input_buffers@[q].index != x)
                        ==> self.executable_graph.graph.spec_buffers()[x] == old_store[x],
            decreases n - m,
        {
            let j = found[m];
            let data = copy_bytes(&inputs[j].1.data);
            let idx = self.input_buffers[m].index;
            let ghost before = self.executable_graph.graph.spec_buffers();
            let ok = self.executable_graph.graph.set_buffer(idx, data);
            proof {
                assert(ok);
                let store = self.executable_graph.graph.spec_buffers();
                assert forall|q: int| 0 <= q < m + 1 implies store[(#[trigger] self.input_buffers@[q]).index as int]
                    == inputs@[found@[q] as int].1.data@ by {
                    if q < m {
                        assert(self.input_buffers@[q].index < self.input_buffers@[m as int].index);
                    }
                }
                assert forall|x: int|
                    0 <= x < old_store.len() && (forall|q: int| 0 <= q < m + 1 ==> #[trigger] self.input_buffers@[q].index != x)
                        implies store[x] == old_store[x] by {
                    assert(self.input_buffers@[m as int].index != x);
                    assert forall|q: int| 0 <= q < m implies #[trigger] self.input_buffers@[q].index != x by {}
                }
                assert forall|q: int| 0 <= q < self.input_buffers@.len() implies (#[trigger] self.input_buffers@[q]).index
                    < store.len() && store[self.input_buffers@[q].index as int].len() == self.input_buffers@[q].width
                    * self.input_buffers@[q].pixel_type.spec_size() * self.input_buffers@[q].height by {
                    assert(before[self.input_buffers@[q].index as int].len() == store[self.input_buffers@[q].index as int].len());
                }
                assert forall|q: int| 0 <= q < self.output_buffers@.len() implies (#[trigger] self.output_buffers@[q]).index
                    < store.len() && store[self.output_buffers@[q].index as int].len() == self.output_buffers@[q].width
                    * self.output_buffers@[q].pixel_type.spec_size() * self.output_buffers@[q].height by {
                    assert(before[self.output_buffers@[q].index as int].len() == store[self.output_buffers@[q].index as int].len());
                }
            }
            m = m + 1;
        }
        proof {
            assert forall|q: int| 0 <= q < n implies fills(inputs@, #[trigger] self.input_buffers@[q]) by {
                assert(first_named(inputs@, self.input_buffers@[q].name@, found@[q] as int));
            }
            assert forall|q: int, j: int|
                0 <= q < n && #[trigger] first_named(inputs@, self.input_buffers@[q].name@, j)
                    implies self.executable_graph.graph.spec_buffers()[self.input_buffers@[q].index as int] == inputs@[j].1.data@ by {
                assert(first_named(inputs@, self.input_buffers@[q].name@, found@[q] as int));
                if j < found@[q] as int {
                    assert(inputs@[j].0@ != self.input_buffers@[q].name@);
                } else if j > found@[q] as int {
                    assert(inputs@[found@[q] as int].0@ != self.input_buffers@[q].name@);
                }
            }
        }
        Ok(())
    }
}

impl Transformation {
    /// The images of the outputs, each under its name, read from their host
    /// buffers.
    pub fn read_outputs(&self) -> (r: Vec<(String, HostImage)>)
        requires
            self.wf(),
        ensures
            r@.len() == self.spec_outputs().len(),
            forall|j: int|
                0 <= j < r@.len() ==> {
                    let b = self.spec_outputs()[j];
                    &&& (#[trigger] r@[j]).0@ == b.name@
                    &&& r@[j].1.width == b.width
                    &&& r@[j].1.height == b.height
                    &&& r@[j].1.pixel_type == b.pixel_type
                    &&& r@[j].1.data@ == self.spec_graph().spec_buffers()[b.index as int]
                },
    {
        let mut r: Vec<(String, HostImage)> = Vec::new();
        let mut j: usize = 0;
        while j < self.output_buffers.len()
            invariant
                self.wf(),
                j <= self.output_buffers@.len(),
                r@.len() == j,
                forall|q: int|
                    0 <= q < j ==> {
                        let b = self.output_buffers@[q];
                        &&& (#[trigger] r@[q]).0@ == b.name@
                        &&& r@[q].1.width == b.width
                        &&& r@[q].1.height == b.height
                        &&& r@[q].1.pixel_type == b.pixel_type
                        &&& r@[q].1.data@ == self.executable_graph.graph.spec_buffers()[b.index as int]
                    },
            decreases self.output_buffers@.len() - j,
        {
            let b = &self.output_buffers[j];
            assert(b.index < self.executable_graph.graph.spec_buffers().len());
            let data = copy_bytes(self.executable_graph.graph.buffer(b.index));
            r.push(
                (
                    b.name.clone(),
                    HostImage { width: b.width, height: b.height, pixel_type: b.pixel_type, data },
                ),
            );
            j = j + 1;
        }
        r
    }

    /// Replaces the contents of the host buffer of output `j` by `data`, as
    /// the device left them; `false`, changing nothing, when there is no such
    /// output or `data` has another length.
    pub fn write_output(&mut self, j: usize, data: Vec<u8>) -> (r: bool)
        requires
            old(self).wf(),
        ensures
            final(self).wf(),
            r == (j < old(self).spec_outputs().len() && data@.len() == old(self).spec_graph().spec_buffers()[old(
                self,
            ).spec_outputs()[j as int].index as int].len()),
            r ==> final(self).spec_graph().spec_buffers() == old(self).spec_graph().spec_buffers().update(
                old(self).spec_outputs()[j as int].index as int,
                data@,
            ),
            !r ==> final(self).spec_graph().spec_buffers() == old(self).spec_graph().spec_buffers(),
            final(self).spec_inputs() == old(self).spec_inputs(),
            final(self).spec_outputs() == old(self).spec_outputs(),
            final(self).spec_order() == old(self).spec_order(),
            final(self).spec_graph().spec_nodes() == old(self).spec_graph().spec_nodes(),
            final(self).spec_graph().spec_deps() == old(self).spec_graph().spec_deps(),
    {
        if j >= self.output_buffers.len() {
            return false;
        }
        let idx = self.output_buffers[j].index;
        let ghost before = self.executable_graph.graph.spec_buffers();
        let ok = self.executable_graph.graph.set_buffer(idx, data);
        proof {
            let store = self.executable_graph.graph.spec_buffers();
            assert forall|q: int| 0 <= q < self.input_buffers@.len() implies (#[trigger] self.input_buffers@[q]).index
                < store.len() && store[self.input_buffers@[q].index as int].len() == self.input_buffers@[q].width
                * self.input_buffers@[q].pixel_type.spec_size() * self.input_buffers@[q].height by {
                assert(before[self.input_buffers@[q].index as int].len() == store[self.input_buffers@[q].index as int].len());
            }
            assert forall|q: int| 0 <= q < self.output_buffers@.len() implies (#[trigger] self.output_buffers@[q]).index
                < store.len() && store[self.output_buffers@[q].index as int].len() == self.output_buffers@[q].width
                * self.output_buffers@[q].pixel_type.spec_size() * self.output_buffers@[q].height by {
                assert(before[self.output_buffers@[q].index as int].len() == store[self.output_buffers@[q].index as int].len());
            }
        }
        ok
    }

    /// The device graph, free nodes included.
    pub fn graph(&self) -> (r: &Graph)
        ensures
            *r == self.spec_graph(),
    {
        &self.executable_graph.graph
    }

    /// The nodes of the dependency graph that the pipeline computes, in the
    /// order of their allocation nodes.
    pub fn order(&self) -> (r: &Vec<usize>)
        ensures
            r@ == self.spec_order(),
    {
        &self.order
    }

    pub fn input_buffers(&self) -> (r: &Vec<Buffer>)
        ensures
            r@ == self.spec_inputs(),
    {
        &self.input_buffers
    }

    pub fn output_buffers(&self) -> (r: &Vec<Buffer>)
        ensures
            r@ == self.spec_outputs(),
    {
        &self.output_buffers
    }

    /// The device allocations that `new` will lower, in its order: one for each
    /// node that the outputs need, of its height times its pitch.
    pub fn allocations(cdg: &Cdg, outputs: &Vec<(String, Output)>, alignment: usize) -> (r: Result<
        Vec<Allocation>,
        Violation,
    >)
        requires
            cdg.wf(),
            alignment > 0,
        ensures
            r == Err::<Vec<Allocation>, Violation>(Violation::UnknownNode) <==> !outputs_known(
                cdg@,
                outputs@,
            ),
            r == Err::<Vec<Allocation>, Violation>(Violation::TooLarge) ==> exists|n: usize|
                #[trigger] needed(cdg@, outputs@).contains(n) && node_bytes(cdg@, n, alignment) > usize::MAX,
            outputs_known(cdg@, outputs@) && (forall|n: usize| #[trigger] needed(cdg@, outputs@).contains(n)
                ==> node_bytes(cdg@, n, alignment) <= usize::MAX) ==> r is Ok,
            r is Ok ==> forall|x: int, y: int|
                0 <= x < y < r->Ok_0@.len() ==> r->Ok_0@[x].node < r->Ok_0@[y].node,
            r is Ok ==> forall|n: usize|
                #[trigger] needed(cdg@, outputs@).contains(n) <==> allocates(r->Ok_0@, n),
            r is Ok ==> forall|k: int|
                0 <= k < r->Ok_0@.len() ==> #[trigger] r->Ok_0@[k].bytes == node_bytes(
                    cdg@,
                    r->Ok_0@[k].node,
                    alignment,
                ),
    {
        let mut roots: Vec<usize> = Vec::new();
        let mut j: usize = 0;
        while j < outputs.len()
            invariant
                j <= outputs@.len(),
                roots@ == output_roots(outputs@).take(j as int),
                forall|i: int| 0 <= i < j ==> #[trigger] outputs@[i].1.node < cdg@.len(),
            decreases outputs@.len() - j,
        {
            if outputs[j].1.node >= cdg.len() {
                return Err(Violation::UnknownNode);
            }
            roots.push(outputs[j].1.node);
            assert(output_roots(outputs@).take(j + 1) =~= output_roots(outputs@).take(j as int).push(
                outputs@[j as int].1.node,
            ));
            j = j + 1;
        }
        assert(roots@ =~= output_roots(outputs@));
        let order = cdg.toposort(&roots);
        let mut r: Vec<Allocation> = Vec::new();
        let mut k: usize = 0;
        while k < order.len()
            invariant
                cdg.wf(),
                alignment > 0,
                k <= order@.len(),
                r@.len() == k,
                outputs_known(cdg@, outputs@),
                forall|a: int, b: int| 0 <= a < b < order@.len() ==> order@[a] < order@[b],
                forall|i: int| 0 <= i < order@.len() ==> order@[i] < cdg@.len(),
                forall|x: usize| #[trigger] order@.contains(x) <==> needed(cdg@, outputs@).contains(x),
                forall|q: int| 0 <= q < k ==> (#[trigger] r@[q]).node == order@[q] && r@[q].bytes
                    == node_bytes(cdg@, order@[q], alignment),
            decreases order@.len() - k,
        {
            let n = order[k];
            proof {
                assert(order@.contains(n));
            }
            let pitch = match cdg.pitch(n, alignment) {
                Some(p) => p,
                None => {
                    proof {
                        cdg.lemma_valid();
                        crate::cdg::lemma_extent_positive(cdg@, n as nat);
                        crate::cdg::lemma_pitch_bounds(
                            width_of(cdg@, n as nat),
                            pixel_type_of(cdg@, n as nat).spec_size(),
                            alignment as nat,
                        );
                        assert(node_bytes(cdg@, n, alignment) >= node_pitch(cdg@, n, alignment)) by (nonlinear_arith)
                            requires
                                height_of(cdg@, n as nat) >= 1,
                                node_bytes(cdg@, n, alignment) == height_of(cdg@, n as nat) * node_pitch(cdg@, n, alignment),
                        ;
                    }
                    return Err(Violation::TooLarge);
                },
            };
            let bytes = match cdg.height(n).checked_mul(pitch) {
                Some(b) => b,
                None => return Err(Violation::TooLarge),
            };
            r.push(Allocation { node: n, bytes });
            k = k + 1;
        }
        proof {
            assert forall|x: int, y: int| 0 <= x < y < r@.len() implies r@[x].node < r@[y].node by {
                assert(r@[x].node == order@[x]);
                assert(r@[y].node == order@[y]);
            }
            assert forall|q: int| 0 <= q < r@.len() implies #[trigger] r@[q].bytes == node_bytes(cdg@, r@[q].node, alignment) by {
                assert(r@[q].node == order@[q]);
            }
            assert forall|n: usize| needed(cdg@, outputs@).contains(n) implies exists|k: int| 0 <= k < r@.len() && #[trigger] r@[k].node == n by {
                assert(order@.contains(n));
                let k = choose|k: int| 0 <= k < order@.len() && order@[k] == n;
                assert(r@[k].node == n);
            }
            assert forall|n: usize| (exists|k: int| 0 <= k < r@.len() && #[trigger] r@[k].node == n) implies needed(cdg@, outputs@).contains(n) by {
                let k = choose|k: int| 0 <= k < r@.len() && #[trigger] r@[k].node == n;
                assert(order@[k] == n);
                assert(order@.contains(n));
            }
            assert forall|n: usize| #[trigger] needed(cdg@, outputs@).contains(n) <==> allocates(r@, n) by {
                if needed(cdg@, outputs@).contains(n) {
                    let k = choose|k: int| 0 <= k < r@.len() && #[trigger] r@[k].node == n;
                }
                if allocates(r@, n) {
                    let k = choose|k: int| 0 <= k < r@.len() && r@[k].node == n;
                    assert(r@[k].node == n);
                }
            }
        }
        Ok(r)
    }
}

} // verus!
