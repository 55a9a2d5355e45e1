//! Carriers of user kernel source text, typed by the pixel kinds they map
//! from and to.
use vstd::prelude::*;
use core::marker::PhantomData;

verus! {

/// A per-pixel kernel from pixels `A` to pixels `B`.
pub struct MapPixelKernel<A, B> {
    a: PhantomData<A>,
    b: PhantomData<B>,
    src: &'static str,
}

impl<A, B> MapPixelKernel<A, B> {
    pub closed spec fn spec_src(&self) -> Seq<char> {
        self.src@
    }

    pub fn new(src: &'static str) -> (r: Self)
        ensures
            r.spec_src() == src@,
    {
        MapPixelKernel { a: PhantomData, b: PhantomData, src }
    }

    pub fn src(&self) -> (r: &'static str)
        ensures
            r@ == self.spec_src(),
    {
        self.src
    }
}

/// A per-patch kernel from patches `A` to pixels `B`.
pub struct MapPatchKernel<A, B> {
    a: PhantomData<A>,
    b: PhantomData<B>,
    src: &'static str,
}

impl<A, B> MapPatchKernel<A, B> {
    pub closed spec fn spec_src(&self) -> Seq<char> {
        self.src@
    }

    pub fn new(src: &'static str) -> (r: Self)
        ensures
            r.spec_src() == src@,
    {
        MapPatchKernel { a: PhantomData, b: PhantomData, src }
    }

    pub fn src(&self) -> (r: &'static str)
        ensures
            r@ == self.spec_src(),
    {
        self.src
    }
}

/// A whole-image kernel from images `A` to pixels `B`, given the output
/// pixel's column and row.
pub struct MapImageKernel<A, B> {
    a: PhantomData<A>,
    b: PhantomData<B>,
    src: &'static str,
}

impl<A, B> MapImageKernel<A, B> {
    pub closed spec fn spec_src(&self) -> Seq<char> {
        self.src@
    }

    pub fn new(src: &'static str) -> (r: Self)
        ensures
            r.spec_src() == src@,
    {
        MapImageKernel { a: PhantomData, b: PhantomData, src }
    }

    pub fn src(&self) -> (r: &'static str)
        ensures
            r@ == self.spec_src(),
    {
        self.src
    }
}

} // verus!
