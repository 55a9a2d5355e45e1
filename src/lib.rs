//! Host side of an image-processing pipeline compiler: a typed dependency
//! graph of image operations, kernel source synthesis, and the lowering of the
//! graph to a device execution graph.
use vstd::prelude::*;
use core::marker::PhantomData;

pub mod pixel;
pub mod text;
pub mod syntax;
pub mod cdg;
pub mod kernel;
pub mod interface;
pub mod codegen;
pub mod graph;
pub mod transformation;

use cdg::{Cdg, Operation, Violation, width_of, height_of, pixel_type_of};
use interface::{Image, Patch};
use kernel::{MapImageKernel, MapPatchKernel, MapPixelKernel};
use pixel::Pixel;
use syntax::{KernelError, KernelShape, kernel_of, parse_kernel, parses_as_item_fn, shape_ok};

verus! {

/// A node of a dependency graph whose pixels are of kind `P`.
pub struct Node<P> {
    p: PhantomData<P>,
    inner: usize,
}

/// The graph after a successful addition: the old nodes, then one more.
pub open spec fn appended(old_g: Seq<cdg::Node>, new_g: Seq<cdg::Node>) -> bool {
    new_g.len() == old_g.len() + 1 && new_g.take(old_g.len() as int) == old_g
}

/// Adds an input image named `name`; `ZeroExtent` when a side is zero.
pub fn new_input<P: Pixel>(g: &mut Cdg, name: String, width: usize, height: usize) -> (r: Result<
    Node<P>,
    Violation,
>)
    requires
        old(g).wf(),
    ensures
        final(g).wf(),
        width == 0 || height == 0 ==> r == Err::<Node<P>, Violation>(Violation::ZeroExtent)
            && final(g)@ == old(g)@,
        width > 0 && height > 0 ==> r is Ok && r->Ok_0.id() == old(g)@.len() && final(g)@ == old(
            g,
        )@.push(cdg::Node::Input { name, width, height, pixel_type: P::spec_ty() }),
        r is Ok ==> width_of(final(g)@, r->Ok_0.id() as nat) == width && height_of(
            final(g)@,
            r->Ok_0.id() as nat,
        ) == height && pixel_type_of(final(g)@, r->Ok_0.id() as nat) == P::spec_ty(),
{
    let ghost n = cdg::Node::Input { name, width, height, pixel_type: P::spec_ty() };
    let id = g.add(cdg::Node::Input { name, width, height, pixel_type: P::ty() })?;
    assert(final(g)@[id as int] == n);
    Ok(Node { p: PhantomData, inner: id })
}

impl<P: Pixel> Node<P> {
    pub closed spec fn id(&self) -> usize {
        self.inner
    }

    /// Index of this node in its graph.
    pub fn index(&self) -> (r: usize)
        ensures
            r == self.id(),
    {
        self.inner
    }

    /// The image turned by half a turn: `out[c, r] = in[w-1-c, h-1-r]`.
    pub fn flip(&self, g: &mut Cdg) -> (r: Result<Self, Violation>)
        requires
            old(g).wf(),
        ensures
            final(g).wf(),
            self.id() >= old(g)@.len() ==> r == Err::<Self, Violation>(Violation::UnknownNode)
                && final(g)@ == old(g)@,
            self.id() < old(g)@.len() ==> r is Ok && r->Ok_0.id() == old(g)@.len() && final(g)@
                == old(g)@.push(cdg::Node::Operation(Operation::Flip { dependency: self.id() })),
            r is Ok ==> width_of(final(g)@, r->Ok_0.id() as nat) == width_of(
                final(g)@,
                self.id() as nat,
            ) && height_of(final(g)@, r->Ok_0.id() as nat) == height_of(
                final(g)@,
                self.id() as nat,
            ) && pixel_type_of(final(g)@, r->Ok_0.id() as nat) == pixel_type_of(
                final(g)@,
                self.id() as nat,
            ),
    {
        let ghost n = cdg::Node::Operation(Operation::Flip { dependency: self.inner });
        assert(cdg::deps_of(n)[0] == self.inner);
        let id = g.add(cdg::Node::Operation(Operation::Flip { dependency: self.inner }))?;
        assert(final(g)@[id as int] == n);
        Ok(Node { p: PhantomData, inner: id })
    }
}

impl<P: Pixel> Node<P> {
    /// Applies a per-pixel kernel. Kernel text that is not a function is
    /// refused with `Kernel(NotAFunction)`; one whose inputs are not a single
    /// pixel with `Kernel(Signature)`.
    pub fn map_pixel<T: Pixel>(&self, g: &mut Cdg, kernel: &MapPixelKernel<P, T>) -> (r: Result<
        Node<T>,
        Violation,
    >)
        requires
            old(g).wf(),
        ensures
            final(g).wf(),
            r is Err ==> final(g)@ == old(g)@,
            !parses_as_item_fn(kernel.spec_src()) ==> r == Err::<Node<T>, Violation>(
                Violation::Kernel(KernelError::NotAFunction),
            ),
            parses_as_item_fn(kernel.spec_src()) && !shape_ok(kernel.spec_src(), KernelShape::Single)
                ==> r == Err::<Node<T>, Violation>(Violation::Kernel(KernelError::Signature)),
            parses_as_item_fn(kernel.spec_src()) && shape_ok(kernel.spec_src(), KernelShape::Single)
                && self.id() >= old(g)@.len() ==> r == Err::<Node<T>, Violation>(Violation::UnknownNode),
            parses_as_item_fn(kernel.spec_src()) && shape_ok(kernel.spec_src(), KernelShape::Single)
                && self.id() < old(g)@.len() ==> r is Ok,
            r is Ok ==> r->Ok_0.id() == old(g)@.len() && appended(old(g)@, final(g)@)
                && is_map_pixel(final(g)@.last(), self.id(), T::spec_ty(), kernel.spec_src()),
            r is Ok ==> width_of(final(g)@, r->Ok_0.id() as nat) == width_of(
                final(g)@,
                self.id() as nat,
            ) && height_of(final(g)@, r->Ok_0.id() as nat) == height_of(
                final(g)@,
                self.id() as nat,
            ) && pixel_type_of(final(g)@, r->Ok_0.id() as nat) == T::spec_ty(),
    {
        let f = match parse_kernel(kernel.src(), KernelShape::Single) {
            Ok(f) => f,
            Err(e) => return Err(Violation::Kernel(e)),
        };
        let node = cdg::Node::Operation(Operation::MapPixel { dependency: self.inner, f, pixel_type: T::ty() });
        let ghost n = node;
        assert(cdg::deps_of(n)[0] == self.inner);
        let id = g.add(node)?;
        proof {
            assert(final(g)@[id as int] == n);
            assert(final(g)@.take(id as int) =~= old(g)@);
        }
        Ok(Node { p: PhantomData, inner: id })
    }

    /// Applies a kernel to the `N` by `N` patch around each pixel. `N` must be
    /// odd (`EvenPatchDimension`); kernel text is refused as for `map_pixel`.
    pub fn map_patch<const N: usize, T: Pixel>(
        &self,
        g: &mut Cdg,
        kernel: &MapPatchKernel<Patch<N, P>, T>,
    ) -> (r: Result<Node<T>, Violation>)
        requires
            old(g).wf(),
        ensures
            final(g).wf(),
            r is Err ==> final(g)@ == old(g)@,
            !parses_as_item_fn(kernel.spec_src()) ==> r == Err::<Node<T>, Violation>(
                Violation::Kernel(KernelError::NotAFunction),
            ),
            parses_as_item_fn(kernel.spec_src()) && !shape_ok(kernel.spec_src(), KernelShape::Single)
                ==> r == Err::<Node<T>, Violation>(Violation::Kernel(KernelError::Signature)),
            parses_as_item_fn(kernel.spec_src()) && shape_ok(kernel.spec_src(), KernelShape::Single)
                && self.id() >= old(g)@.len() ==> r == Err::<Node<T>, Violation>(Violation::UnknownNode),
            parses_as_item_fn(kernel.spec_src()) && shape_ok(kernel.spec_src(), KernelShape::Single)
                && self.id() < old(g)@.len() && N % 2 == 0 ==> r == Err::<Node<T>, Violation>(
                Violation::EvenPatchDimension,
            ),
            parses_as_item_fn(kernel.spec_src()) && shape_ok(kernel.spec_src(), KernelShape::Single)
                && self.id() < old(g)@.len() && N % 2 == 1 ==> r is Ok,
            r is Ok ==> r->Ok_0.id() == old(g)@.len() && appended(old(g)@, final(g)@)
                && is_map_patch(final(g)@.last(), self.id(), N, T::spec_ty(), kernel.spec_src()),
            r is Ok ==> width_of(final(g)@, r->Ok_0.id() as nat) == width_of(
                final(g)@,
                self.id() as nat,
            ) && height_of(final(g)@, r->Ok_0.id() as nat) == height_of(
                final(g)@,
                self.id() as nat,
            ) && pixel_type_of(final(g)@, r->Ok_0.id() as nat) == T::spec_ty(),
    {
        let f = match parse_kernel(kernel.src(), KernelShape::Single) {
            Ok(f) => f,
            Err(e) => return Err(Violation::Kernel(e)),
        };
        let node = cdg::Node::Operation(
            Operation::MapPatch { dependency: self.inner, f, dimension: N, pixel_type: T::ty() },
        );
        let ghost n = node;
        assert(cdg::deps_of(n)[0] == self.inner);
        let id = g.add(node)?;
        proof {
            assert(final(g)@[id as int] == n);
            assert(final(g)@.take(id as int) =~= old(g)@);
        }
        Ok(Node { p: PhantomData, inner: id })
    }

    /// Applies a kernel that sees the whole input image and the output pixel's
    /// column and row, to an output of `width` by `height` pixels.
    pub fn map_image<T: Pixel>(
        &self,
        g: &mut Cdg,
        kernel: &MapImageKernel<Image<P>, T>,
        width: usize,
        height: usize,
    ) -> (r: Result<Node<T>, Violation>)
        requires
            old(g).wf(),
        ensures
            final(g).wf(),
            r is Err ==> final(g)@ == old(g)@,
            !parses_as_item_fn(kernel.spec_src()) ==> r == Err::<Node<T>, Violation>(
                Violation::Kernel(KernelError::NotAFunction),
            ),
            parses_as_item_fn(kernel.spec_src()) && !shape_ok(kernel.spec_src(), KernelShape::Indexed)
                ==> r == Err::<Node<T>, Violation>(Violation::Kernel(KernelError::Signature)),
            parses_as_item_fn(kernel.spec_src()) && shape_ok(kernel.spec_src(), KernelShape::Indexed)
                && self.id() >= old(g)@.len() ==> r == Err::<Node<T>, Violation>(Violation::UnknownNode),
            parses_as_item_fn(kernel.spec_src()) && shape_ok(kernel.spec_src(), KernelShape::Indexed)
                && self.id() < old(g)@.len() && (width == 0 || height == 0) ==> r == Err::<
                Node<T>,
                Violation,
            >(Violation::ZeroExtent),
            parses_as_item_fn(kernel.spec_src()) && shape_ok(kernel.spec_src(), KernelShape::Indexed)
                && self.id() < old(g)@.len() && width > 0 && height > 0 ==> r is Ok,
            r is Ok ==> r->Ok_0.id() == old(g)@.len() && appended(old(g)@, final(g)@)
                && is_map_image(final(g)@.last(), self.id(), width, height, T::spec_ty(), kernel.spec_src()),
            r is Ok ==> width_of(final(g)@, r->Ok_0.id() as nat) == width && height_of(
                final(g)@,
                r->Ok_0.id() as nat,
            ) == height && pixel_type_of(final(g)@, r->Ok_0.id() as nat) == T::spec_ty(),
    {
        let f = match parse_kernel(kernel.src(), KernelShape::Indexed) {
            Ok(f) => f,
            Err(e) => return Err(Violation::Kernel(e)),
        };
        let node = cdg::Node::Operation(
            Operation::MapImage { dependency: self.inner, f, width, height, pixel_type: T::ty() },
        );
        let ghost n = node;
        assert(cdg::deps_of(n)[0] == self.inner);
        let id = g.add(node)?;
        proof {
            assert(final(g)@[id as int] == n);
            assert(final(g)@.take(id as int) =~= old(g)@);
        }
        Ok(Node { p: PhantomData, inner: id })
    }

    /// This image with `right` to its right. The heights must agree
    /// (`HeightMismatch`), and so must the pixel types (`PixelTypeMismatch`).
    pub fn h_concat(&self, g: &mut Cdg, right: &Self) -> (r: Result<Self, Violation>)
        requires
            old(g).wf(),
        ensures
            final(g).wf(),
            match cdg::violation_of(
                old(g)@,
                cdg::Node::Operation(
                    Operation::HConcat { dependency_left: self.id(), dependency_right: right.id() },
                ),
            ) {
                Some(v) => r == Err::<Self, Violation>(v),
                None => r is Ok && r->Ok_0.id() == old(g)@.len(),
            },
            r is Err ==> final(g)@ == old(g)@,
            r is Ok ==> final(g)@ == old(g)@.push(
                cdg::Node::Operation(
                    Operation::HConcat { dependency_left: self.id(), dependency_right: right.id() },
                ),
            ),
            r is Ok ==> width_of(final(g)@, r->Ok_0.id() as nat) == width_of(
                final(g)@,
                self.id() as nat,
            ) + width_of(final(g)@, right.id() as nat) && height_of(
                final(g)@,
                r->Ok_0.id() as nat,
            ) == height_of(final(g)@, self.id() as nat) && pixel_type_of(
                final(g)@,
                r->Ok_0.id() as nat,
            ) == pixel_type_of(final(g)@, self.id() as nat),
    {
        let ghost n = cdg::Node::Operation(
            Operation::HConcat { dependency_left: self.inner, dependency_right: right.inner },
        );
        assert(cdg::deps_of(n)[0] == self.inner && cdg::deps_of(n)[1] == right.inner);
        let id = g.add(
            cdg::Node::Operation(
                Operation::HConcat { dependency_left: self.inner, dependency_right: right.inner },
            ),
        )?;
        assert(final(g)@[id as int] == n);
        Ok(Node { p: PhantomData, inner: id })
    }

    /// This image with `bottom` below it. The widths must agree
    /// (`WidthMismatch`), and so must the pixel types (`PixelTypeMismatch`).
    pub fn v_concat(&self, g: &mut Cdg, bottom: &Self) -> (r: Result<Self, Violation>)
        requires
            old(g).wf(),
        ensures
            final(g).wf(),
            match cdg::violation_of(
                old(g)@,
                cdg::Node::Operation(
                    Operation::VConcat { dependency_top: self.id(), dependency_bottom: bottom.id() },
                ),
            ) {
                Some(v) => r == Err::<Self, Violation>(v),
                None => r is Ok && r->Ok_0.id() == old(g)@.len(),
            },
            r is Err ==> final(g)@ == old(g)@,
            r is Ok ==> final(g)@ == old(g)@.push(
                cdg::Node::Operation(
                    Operation::VConcat { dependency_top: self.id(), dependency_bottom: bottom.id() },
                ),
            ),
            r is Ok ==> width_of(final(g)@, r->Ok_0.id() as nat) == width_of(
                final(g)@,
                self.id() as nat,
            ) && height_of(final(g)@, r->Ok_0.id() as nat) == height_of(
                final(g)@,
                self.id() as nat,
            ) + height_of(final(g)@, bottom.id() as nat) && pixel_type_of(
                final(g)@,
                r->Ok_0.id() as nat,
            ) == pixel_type_of(final(g)@, self.id() as nat),
    {
        let ghost n = cdg::Node::Operation(
            Operation::VConcat { dependency_top: self.inner, dependency_bottom: bottom.inner },
        );
        assert(cdg::deps_of(n)[0] == self.inner && cdg::deps_of(n)[1] == bottom.inner);
        let id = g.add(
            cdg::Node::Operation(
                Operation::VConcat { dependency_top: self.inner, dependency_bottom: bottom.inner },
            ),
        )?;
        assert(final(g)@[id as int] == n);
        Ok(Node { p: PhantomData, inner: id })
    }

    /// Marks this node for read-back into a host image.
    pub fn into_output(self) -> (r: Output)
        ensures
            r.node == self.id(),
    {
        Output { node: self.inner }
    }
}

/// A node registered for read-back into a host image.
#[derive(Clone, Copy, PartialEq, Eq, Debug, Structural)]
pub struct Output {
    pub node: usize,
}

impl Output {
    pub fn new(node: usize) -> (r: Self)
        ensures
            r.node == node,
    {
        Output { node }
    }
}

/// `n` maps pixels of node `dep` to pixels of kind `pt` with the kernel
/// function in `src`.
pub open spec fn is_map_pixel(n: cdg::Node, dep: usize, pt: pixel::PixelType, src: Seq<char>) -> bool {
    match n {
        cdg::Node::Operation(Operation::MapPixel { dependency, f, pixel_type }) => dependency
            == dep && pixel_type == pt && kernel_of(f, src),
        _ => false,
    }
}

/// `n` maps `dim` by `dim` patches of node `dep` to pixels of kind `pt` with
/// the kernel function in `src`.
pub open spec fn is_map_patch(
    n: cdg::Node,
    dep: usize,
    dim: usize,
    pt: pixel::PixelType,
    src: Seq<char>,
) -> bool {
    match n {
        cdg::Node::Operation(Operation::MapPatch { dependency, f, dimension, pixel_type }) => dependency
            == dep && dimension == dim && pixel_type == pt && kernel_of(f, src),
        _ => false,
    }
}

/// `n` maps node `dep` as a whole to a `w` by `h` image of kind `pt` with the
/// kernel function in `src`.
pub open spec fn is_map_image(
    n: cdg::Node,
    dep: usize,
    w: usize,
    h: usize,
    pt: pixel::PixelType,
    src: Seq<char>,
) -> bool {
    match n {
        cdg::Node::Operation(Operation::MapImage { dependency, f, width, height, pixel_type }) => dependency
            == dep && width == w && height == h && pixel_type == pt && kernel_of(f, src),
        _ => false,
    }
}

} // verus!
