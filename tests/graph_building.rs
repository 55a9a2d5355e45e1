use cuda_fusion::cdg::{row_pitch, Cdg, Node as CdgNode, Operation, Violation};
use cuda_fusion::interface::{Image, Patch};
use cuda_fusion::kernel::{MapImageKernel, MapPatchKernel, MapPixelKernel};
use cuda_fusion::new_input;
use cuda_fusion::pixel::{PixelType, Rgb32F, Rgb8};
use cuda_fusion::syntax::{is_valid_map_image_kernel_input, parse_kernel, KernelError, KernelShape};

const TO_F32: &str = "fn to_f32(px: Rgb<u8>) -> Rgb<f32> { px.into() }";
const TO_U8: &str = "fn to_u8(px: Rgb<f32>) -> Rgb<u8> { px.into() }";
const AVERAGE: &str = "fn average(patch: Patch<3, Rgb<f32>>) -> Rgb<f32> { \
    let mut px = Rgb::default(); \
    for r in 0..3 { for c in 0..3 { px += patch.get(c, r) * (1.0 / 9.0); } } \
    px }";
const INDICES: &str = "fn indices(img: Image<Rgb<u8>>, col: usize, row: usize) -> Rgb<u8> { \
    interface::Rgb { r: row as u8, g: img.get(col, row).unwrap().g, b: col as u8 } }";

#[test]
fn pixel_layouts() {
    let u = PixelType::RgbU8.layout();
    assert_eq!((u.size(), u.align()), (3, 1));
    let f = PixelType::RgbF32.layout();
    assert_eq!((f.size(), f.align()), (12, 4));
    assert_eq!(PixelType::RgbU8.device_type(), "interface::Rgb<u8>");
    assert_eq!(PixelType::RgbF32.device_type(), "interface::Rgb<f32>");
}

#[test]
fn kernel_descriptors_keep_their_text() {
    let k: MapPixelKernel<Rgb8, Rgb32F> = MapPixelKernel::new(TO_F32);
    assert_eq!(k.src(), TO_F32);
    let p: MapPatchKernel<Patch<3, Rgb32F>, Rgb32F> = MapPatchKernel::new(AVERAGE);
    assert_eq!(p.src(), AVERAGE);
    let i: MapImageKernel<Image<Rgb8>, Rgb8> = MapImageKernel::new(INDICES);
    assert_eq!(i.src(), INDICES);
}

#[test]
fn parses_kernel_functions() {
    let f = parse_kernel(TO_U8, KernelShape::Single).unwrap();
    assert_eq!(f.param, "px");
    assert!(f.extra.is_empty());
    assert!(f.block.contains("into"));
    let g = parse_kernel(INDICES, KernelShape::Indexed).unwrap();
    assert_eq!(g.param, "img");
    assert_eq!(g.extra, vec!["col".to_string(), "row".to_string()]);
}

#[test]
fn rejects_bad_kernels() {
    assert!(matches!(parse_kernel("not a function", KernelShape::Single), Err(KernelError::NotAFunction)));
    assert!(matches!(parse_kernel(INDICES, KernelShape::Single), Err(KernelError::Signature)));
    let bad_name = "fn f(img: Image<Rgb<u8>>, x: usize) -> Rgb<u8> { img.get(x, 0).unwrap() }";
    assert!(matches!(parse_kernel(bad_name, KernelShape::Indexed), Err(KernelError::Signature)));
    let bad_type = "fn f(img: Image<Rgb<u8>>, col: u32) -> Rgb<u8> { img.get(0, 0).unwrap() }";
    assert!(matches!(parse_kernel(bad_type, KernelShape::Indexed), Err(KernelError::Signature)));
}

#[test]
fn map_image_accepts_an_index_kernel_with_its_own_geometry() {
    let mut g = Cdg::new();
    let a = new_input::<Rgb8>(&mut g, "a".to_string(), 4, 4).unwrap();
    let o = a.map_image(&mut g, &MapImageKernel::<Image<Rgb8>, Rgb8>::new(INDICES), 2, 2).unwrap();
    assert_eq!((g.width(o.index()), g.height(o.index()), g.pixel_type(o.index())), (2, 2, PixelType::RgbU8));
    match g.node(o.index()) {
        CdgNode::Operation(Operation::MapImage { f, .. }) => {
            assert_eq!(f.param, "img");
            assert_eq!(f.extra, vec!["col".to_string(), "row".to_string()]);
        }
        _ => panic!("map image expected"),
    }
}

#[test]
fn index_inputs_are_col_or_row_of_usize() {
    assert!(is_valid_map_image_kernel_input("col", "usize"));
    assert!(is_valid_map_image_kernel_input("row", "usize"));
    assert!(!is_valid_map_image_kernel_input("x", "usize"));
    assert!(!is_valid_map_image_kernel_input("col", "u32"));
}

#[test]
fn input_of_zero_extent_is_rejected() {
    let mut g = Cdg::new();
    assert!(matches!(new_input::<Rgb8>(&mut g, "a".to_string(), 0, 4), Err(Violation::ZeroExtent)));
    assert!(matches!(new_input::<Rgb8>(&mut g, "a".to_string(), 4, 0), Err(Violation::ZeroExtent)));
    assert_eq!(g.len(), 0);
}

#[test]
fn operations_derive_geometry() {
    let mut g = Cdg::new();
    let a = new_input::<Rgb8>(&mut g, "a".to_string(), 4, 3).unwrap();
    let f = a.map_pixel(&mut g, &MapPixelKernel::<Rgb8, Rgb32F>::new(TO_F32)).unwrap();
    assert_eq!((g.width(f.index()), g.height(f.index())), (4, 3));
    assert_eq!(g.pixel_type(f.index()), PixelType::RgbF32);
    let p = f.map_patch(&mut g, &MapPatchKernel::<Patch<3, Rgb32F>, Rgb32F>::new(AVERAGE)).unwrap();
    assert_eq!((g.width(p.index()), g.height(p.index())), (4, 3));
    let m = a.map_image(&mut g, &MapImageKernel::<Image<Rgb8>, Rgb8>::new(INDICES), 2, 2).unwrap();
    assert_eq!((g.width(m.index()), g.height(m.index())), (2, 2));
    let fl = a.flip(&mut g).unwrap();
    assert_eq!((g.width(fl.index()), g.height(fl.index())), (4, 3));
    assert_eq!(g.pixel_type(fl.index()), PixelType::RgbU8);
    let h = a.h_concat(&mut g, &a).unwrap();
    assert_eq!((g.width(h.index()), g.height(h.index())), (8, 3));
    let v = a.v_concat(&mut g, &a).unwrap();
    assert_eq!((g.width(v.index()), g.height(v.index())), (4, 6));
    assert_eq!(g.dependencies(h.index()), vec![a.index(), a.index()]);
}

#[test]
fn concatenation_rejects_mismatched_sides() {
    let mut g = Cdg::new();
    let a = new_input::<Rgb8>(&mut g, "a".to_string(), 4, 4).unwrap();
    let b = new_input::<Rgb8>(&mut g, "b".to_string(), 4, 2).unwrap();
    let c = new_input::<Rgb8>(&mut g, "c".to_string(), 2, 4).unwrap();
    assert!(matches!(a.h_concat(&mut g, &b), Err(Violation::HeightMismatch)));
    assert!(matches!(a.v_concat(&mut g, &c), Err(Violation::WidthMismatch)));
    let ac = a.h_concat(&mut g, &c).unwrap();
    assert_eq!((g.width(ac.index()), g.height(ac.index())), (6, 4));
    let before = g.len();
    let d = new_input::<Rgb32F>(&mut g, "d".to_string(), 4, 4).unwrap();
    let mixed = CdgNode::Operation(Operation::HConcat { dependency_left: a.index(), dependency_right: d.index() });
    assert_eq!(g.add(mixed).err(), Some(Violation::PixelTypeMismatch));
    assert_eq!(g.len(), before + 1);
    let unknown = CdgNode::Operation(Operation::Flip { dependency: 99 });
    assert_eq!(g.add(unknown).err(), Some(Violation::UnknownNode));
}

#[test]
fn even_patch_dimension_is_rejected() {
    let mut g = Cdg::new();
    let a = new_input::<Rgb32F>(&mut g, "a".to_string(), 4, 4).unwrap();
    let k: MapPatchKernel<Patch<2, Rgb32F>, Rgb32F> =
        MapPatchKernel::new("fn f(patch: Patch<2, Rgb<f32>>) -> Rgb<f32> { patch.get(0, 0) }");
    assert!(matches!(a.map_patch(&mut g, &k), Err(Violation::EvenPatchDimension)));
}

#[test]
fn kernel_text_that_is_not_a_function_is_rejected() {
    let mut g = Cdg::new();
    let a = new_input::<Rgb8>(&mut g, "a".to_string(), 4, 4).unwrap();
    let k: MapPixelKernel<Rgb8, Rgb8> = MapPixelKernel::new("px + 1");
    assert!(matches!(a.map_pixel(&mut g, &k), Err(Violation::Kernel(KernelError::NotAFunction))));
    assert_eq!(g.len(), 1);
}

#[test]
fn toposort_visits_shared_nodes_once() {
    let mut g = Cdg::new();
    let a = new_input::<Rgb8>(&mut g, "a".to_string(), 4, 4).unwrap();
    let unused = new_input::<Rgb8>(&mut g, "unused".to_string(), 4, 4).unwrap();
    let f = a.flip(&mut g).unwrap();
    let h = f.h_concat(&mut g, &a).unwrap();
    let v = f.v_concat(&mut g, &f).unwrap();
    let order = g.toposort(&vec![h.index(), v.index(), h.index()]);
    assert_eq!(order.len(), 4);
    assert!(!order.contains(&unused.index()));
    for (k, n) in order.iter().enumerate() {
        assert_eq!(order.iter().filter(|m| *m == n).count(), 1);
        for d in g.dependencies(*n) {
            let at = order.iter().position(|m| *m == d).unwrap();
            assert!(at < k);
        }
    }
}

#[test]
fn pitch_rounds_rows_up_to_the_alignment() {
    assert_eq!(row_pitch(4, 3, 8), Some(16));
    assert_eq!(row_pitch(4, 3, 4), Some(12));
    assert_eq!(row_pitch(5, 12, 512), Some(512));
    assert_eq!(row_pitch(usize::MAX, 3, 1), None);
    let mut g = Cdg::new();
    let a = new_input::<Rgb8>(&mut g, "a".to_string(), 10, 2).unwrap();
    let p = g.pitch(a.index(), 16).unwrap();
    assert!(p >= 30 && p % 16 == 0);
    assert_eq!(p, 32);
}

#[test]
fn image_offsets_are_row_major() {
    let img: Image<Rgb8> = Image::new(0x1000, 4, 3, 16);
    assert_eq!(img.offset(0, 0), Some(0));
    assert_eq!(img.offset(1, 2), Some(2 * 16 + 3));
    assert_eq!(img.offset(4, 0), None);
    assert_eq!(img.offset(0, 3), None);
    let wide: Image<Rgb32F> = Image::new(0, 4, 3, 64);
    assert_eq!(wide.offset(3, 1), Some(64 + 36));
}

#[test]
fn patch_indices_are_centred() {
    let p: Patch<3, Rgb32F> = Patch::new(0, 16, 5, 7);
    assert_eq!(p.index(1, 1), Some(5 + 7 * 16));
    assert_eq!(p.index(0, 0), Some(4 + 6 * 16));
    assert_eq!(p.index(2, 2), Some(6 + 8 * 16));
    assert_eq!(p.index(3, 0), None);
    let corner: Patch<3, Rgb32F> = Patch::new(0, 16, 0, 0);
    assert_eq!(corner.index(0, 0), None);
}
