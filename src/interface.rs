//! Host models of the device-side views that generated kernels use: an image
//! in device memory with a row pitch, and a square patch in shared memory.
use vstd::prelude::*;
use core::marker::PhantomData;
use crate::pixel::Pixel;

verus! {

/// An image of pixels `P` at device address `ptr`, rows `pitch` bytes apart.
pub struct Image<P> {
    pub p: PhantomData<P>,
    pub ptr: usize,
    pub width: usize,
    pub height: usize,
    pub pitch: usize,
}

/// Byte offset of pixel `(col, row)`: whole rows first, then whole pixels.
pub open spec fn image_offset(col: nat, row: nat, pitch: nat, size: nat) -> nat {
    row * pitch + col * size
}

impl<P: Pixel> Image<P> {
    pub fn new(ptr: usize, width: usize, height: usize, pitch: usize) -> (r: Self)
        ensures
            r.ptr == ptr,
            r.width == width,
            r.height == height,
            r.pitch == pitch,
    {
        Image { p: PhantomData, ptr, width, height, pitch }
    }

    /// Byte offset of pixel `(col, row)` from `ptr`; `None` outside the image
    /// or where the offset does not fit in `usize`.
    pub fn offset(&self, col: usize, row: usize) -> (r: Option<usize>)
        ensures
            r is Some <==> col < self.width && row < self.height && image_offset(
                col as nat,
                row as nat,
                self.pitch as nat,
                P::spec_ty().spec_size(),
            ) <= usize::MAX,
            r is Some ==> r->0 == image_offset(
                col as nat,
                row as nat,
                self.pitch as nat,
                P::spec_ty().spec_size(),
            ),
    {
        if col >= self.width || row >= self.height {
            return None;
        }
        let size = P::ty().layout().size;
        let rows = match row.checked_mul(self.pitch) {
            Some(v) => v,
            None => {
                assert(row * self.pitch + col * size >= row * self.pitch) by (nonlinear_arith);
                return None;
            },
        };
        let cols = match col.checked_mul(size) {
            Some(v) => v,
            None => {
                assert(row * self.pitch + col * size >= col * size) by (nonlinear_arith);
                return None;
            },
        };
        rows.checked_add(cols)
    }
}

/// A `N` by `N` patch of pixels `P` centred on `(base_col, base_row)` of a
/// block-sized tile in shared memory whose rows are `block_width` pixels long.
pub struct Patch<const N: usize, P> {
    pub p: PhantomData<P>,
    pub shared: usize,
    pub block_width: usize,
    pub base_col: usize,
    pub base_row: usize,
}

/// Tile index of patch pixel `(col, row)` for a patch of dimension `n`.
pub open spec fn patch_index(
    n: nat,
    block_width: nat,
    base_col: nat,
    base_row: nat,
    col: nat,
    row: nat,
) -> int {
    (base_col + col - n / 2) + (base_row + row - n / 2) * block_width
}

impl<const N: usize, P: Pixel> Patch<N, P> {
    pub fn new(shared: usize, block_width: usize, base_col: usize, base_row: usize) -> (r: Self)
        ensures
            r.shared == shared,
            r.block_width == block_width,
            r.base_col == base_col,
            r.base_row == base_row,
    {
        Patch { p: PhantomData, shared, block_width, base_col, base_row }
    }

    /// Tile index of patch pixel `(col, row)`, counted in pixels; `None` outside
    /// the patch, before the tile or beyond `usize`.
    pub fn index(&self, col: usize, row: usize) -> (r: Option<usize>)
        ensures
            r is Some <==> col < N && row < N && self.base_col + col >= N / 2 && self.base_row
                + row >= N / 2 && 0 <= patch_index(
                N as nat,
                self.block_width as nat,
                self.base_col as nat,
                self.base_row as nat,
                col as nat,
                row as nat,
            ) <= usize::MAX,
            r is Some ==> r->0 == patch_index(
                N as nat,
                self.block_width as nat,
                self.base_col as nat,
                self.base_row as nat,
                col as nat,
                row as nat,
            ),
    {
        if col >= N || row >= N {
            return None;
        }
        let half = N / 2;
        let c = match shifted(self.base_col, col, half) {
            Some(v) => v,
            None => {
                proof {
                    if self.base_row + row >= half {
                        assert((self.base_row + row - half) * self.block_width >= 0) by (nonlinear_arith)
                            requires
                                self.base_row + row >= half,
                        ;
                    }
                }
                return None;
            },
        };
        if self.base_row < half && row < half - self.base_row {
            return None;
        }
        let rows = if self.block_width == 0 {
            assert((self.base_row + row - N / 2) * self.block_width == 0) by (nonlinear_arith)
                requires
                    self.block_width == 0,
            ;
            0
        } else {
            let r = match shifted(self.base_row, row, half) {
                Some(v) => v,
                None => {
                    assert((self.base_row + row - half) * self.block_width >= self.base_row + row
                        - half) by (nonlinear_arith)
                        requires
                            self.base_row + row >= half,
                            self.block_width >= 1,
                    ;
                    return None;
                },
            };
            assert(r * self.block_width == (self.base_row + row - N / 2) * self.block_width);
            match r.checked_mul(self.block_width) {
                Some(v) => v,
                None => return None,
            }
        };
        c.checked_add(rows)
    }
}

/// `base + delta - half` where it is a `usize`.
fn shifted(base: usize, delta: usize, half: usize) -> (r: Option<usize>)
    ensures
        r is Some <==> base + delta >= half && base + delta - half <= usize::MAX,
        r is Some ==> r->0 == base + delta - half,
{
    if base >= half {
        (base - half).checked_add(delta)
    } else if delta >= half - base {
        Some(delta - (half - base))
    } else {
        None
    }
}

} // verus!
