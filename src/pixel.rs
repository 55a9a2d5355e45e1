//! Pixel kinds, their memory layout, and host pixel values.
use vstd::prelude::*;

verus! {

/// The closed set of pixel kinds that a graph node can carry.
#[derive(Clone, Copy, PartialEq, Eq, Debug, Structural)]
pub enum PixelType {
    RgbU8,
    RgbF32,
}

/// Size and alignment, in bytes, of one pixel.
#[derive(Clone, Copy, PartialEq, Eq, Debug, Structural)]
pub struct PixelLayout {
    pub size: usize,
    pub align: usize,
}

impl PixelLayout {
    pub fn size(&self) -> (r: usize)
        ensures
            r == self.size,
    {
        self.size
    }

    pub fn align(&self) -> (r: usize)
        ensures
            r == self.align,
    {
        self.align
    }
}

impl PixelType {
    /// Bytes taken by one pixel: three channels of one or four bytes.
    pub open spec fn spec_size(self) -> nat {
        match self {
            PixelType::RgbU8 => 3,
            PixelType::RgbF32 => 12,
        }
    }

    /// Alignment of one pixel: that of its channel type.
    pub open spec fn spec_align(self) -> nat {
        match self {
            PixelType::RgbU8 => 1,
            PixelType::RgbF32 => 4,
        }
    }

    pub fn layout(&self) -> (r: PixelLayout)
        ensures
            r.size == self.spec_size(),
            r.align == self.spec_align(),
    {
        match self {
            PixelType::RgbU8 => PixelLayout { size: 3, align: 1 },
            PixelType::RgbF32 => PixelLayout { size: 12, align: 4 },
        }
    }

    /// Device-side type name of this pixel kind, as it appears in kernel source.
    pub open spec fn spec_device_type(self) -> Seq<char> {
        match self {
            PixelType::RgbU8 => "interface::Rgb<u8>"@,
            PixelType::RgbF32 => "interface::Rgb<f32>"@,
        }
    }

    pub fn device_type(&self) -> (r: &'static str)
        ensures
            r@ == self.spec_device_type(),
    {
        match self {
            PixelType::RgbU8 => "interface::Rgb<u8>",
            PixelType::RgbF32 => "interface::Rgb<f32>",
        }
    }
}

/// A host pixel value of three channels.
#[derive(Clone, Copy, PartialEq, Eq, Debug, Default, Structural)]
pub struct Rgb<T> {
    pub r: T,
    pub g: T,
    pub b: T,
}

/// A pixel kind known at compile time, which a graph node records as a
/// `PixelType`.
pub trait Pixel {
    spec fn spec_ty() -> PixelType;

    fn ty() -> (r: PixelType)
        ensures
            r == Self::spec_ty(),
    ;
}

/// Three `u8` channels.
pub struct Rgb8;

/// Three 32-bit floating-point channels.
pub struct Rgb32F;

impl Pixel for Rgb8 {
    open spec fn spec_ty() -> PixelType {
        PixelType::RgbU8
    }

    fn ty() -> (r: PixelType) {
        PixelType::RgbU8
    }
}

impl Pixel for Rgb32F {
    open spec fn spec_ty() -> PixelType {
        PixelType::RgbF32
    }

    fn ty() -> (r: PixelType) {
        PixelType::RgbF32
    }
}

} // verus!
