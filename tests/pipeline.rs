use cuda_fusion::cdg::{Cdg, Violation};
use cuda_fusion::codegen::{flip, h_concat, kernel_file, map_patch, v_concat};
use cuda_fusion::graph::{DevicePtr, Graph, GraphNode, MemCpyDirection};
use cuda_fusion::interface::{Image, Patch};
use cuda_fusion::kernel::{MapImageKernel, MapPatchKernel, MapPixelKernel};
use cuda_fusion::pixel::{PixelType, Rgb32F, Rgb8};
use cuda_fusion::syntax::{parse_kernel, KernelShape};
use cuda_fusion::text::{push_decimal, push_usize_literal, str_eq};
use cuda_fusion::transformation::{CallError, HostImage, Transformation, BLOCK_HEIGHT, BLOCK_WIDTH};
use cuda_fusion::{new_input, Node, Output};

const TO_F32: &str = "fn to_f32(px: Rgb<u8>) -> Rgb<f32> { px.into() }";
const TO_U8: &str = "fn to_u8(px: Rgb<f32>) -> Rgb<u8> { px.into() }";
const AVERAGE: &str = "fn average(patch: Patch<3, Rgb<f32>>) -> Rgb<f32> { \
    let mut px = Rgb::default(); \
    for r in 0..3 { for c in 0..3 { px += patch.get(c, r) * (1.0 / 9.0); } } \
    px }";
const INDICES: &str = "fn indices(img: Image<Rgb<u8>>, col: usize, row: usize) -> Rgb<u8> { \
    interface::Rgb { r: row as u8, g: img.get(col, row).unwrap().g, b: col as u8 } }";

/// The 4 by 4 test image: pixel (c, r) is (10c, 20r, 30).
fn test_image() -> Vec<u8> {
    let mut v = Vec::new();
    for r in 0..4u8 {
        for c in 0..4u8 {
            v.extend_from_slice(&[10 * c, 20 * r, 30]);
        }
    }
    v
}

fn ptrs(n: usize) -> Vec<DevicePtr> {
    (0..n).map(|k| DevicePtr::new(0x10000 * (k + 1))).collect()
}

/// Compiles `outputs` with an alignment of 8 and checks the shape of the graph.
fn compile(g: &Cdg, outputs: Vec<(String, Output)>) -> Transformation {
    let allocs = Transformation::allocations(g, &outputs, 8).unwrap();
    let t = Transformation::new(g, &outputs, 8, &ptrs(allocs.len())).unwrap();
    let order = t.order().clone();
    assert_eq!(order, allocs.iter().map(|a| a.node).collect::<Vec<_>>());
    let graph = t.graph();
    for (k, a) in allocs.iter().enumerate() {
        match graph.node(2 * k) {
            GraphNode::Alloc { bytes, ptr } => {
                assert_eq!(*bytes, a.bytes);
                assert_eq!(ptr.inner(), 0x10000 * (k + 1));
            }
            _ => panic!("allocation expected"),
        }
    }
    let base = 2 * order.len();
    for j in 0..outputs.len() {
        assert!(matches!(
            graph.node(base + j),
            GraphNode::MemCpy { direction: MemCpyDirection::DeviceToHost, .. }
        ));
    }
    let frees = (base + outputs.len()..graph.len())
        .filter(|i| matches!(graph.node(*i), GraphNode::Free { .. }))
        .count();
    assert_eq!(frees, order.len());
    assert_eq!(graph.len(), 3 * order.len() + outputs.len());
    for (j, b) in t.output_buffers().iter().enumerate() {
        assert_eq!(b.name, outputs[j].0);
        assert!(matches!(graph.node(base + j), GraphNode::MemCpy { buffer, .. } if *buffer == b.index));
    }
    t
}

fn kernel_sources(t: &Transformation) -> Vec<String> {
    let graph = t.graph();
    (0..graph.len())
        .filter_map(|i| match graph.node(i) {
            GraphNode::Kernel { source, .. } => Some(source.clone()),
            _ => None,
        })
        .collect()
}

#[test]
fn decimal_text() {
    let mut s = String::new();
    push_decimal(&mut s, 0);
    s.push(' ');
    push_decimal(&mut s, 1234);
    s.push(' ');
    push_usize_literal(&mut s, 16);
    assert_eq!(s, "0 1234 16usize");
    assert!(str_eq("col", "col"));
    assert!(!str_eq("col", "row"));
}

#[test]
fn flip_kernel_mirrors_both_axes() {
    let src = flip(100, 200, 4, 4, 16, PixelType::RgbU8, 16, 16);
    assert!(src.contains("let col = _block_idx_x() as usize * 16usize + _thread_idx_x() as usize;"));
    assert!(src.contains("interface::Image::new(100usize as *mut u8, 4usize, 4usize, 16usize)"));
    assert!(src.contains("img_out[(4usize - col - 1, 4usize - row - 1)] = px;"));
}

#[test]
fn concat_kernels_split_at_the_first_image() {
    let h = h_concat(1, 2, 3, 4, 4, 8, 4, 16, 16, 32, PixelType::RgbU8, 16, 16);
    assert!(h.contains("if col < 4usize {"));
    assert!(h.contains("img_right.get(col - 4usize, row)"));
    assert!(h.contains("interface::Image::new(3usize as *mut u8, 8usize, 4usize, 32usize)"));
    let v = v_concat(1, 2, 3, 4, 4, 4, 8, 16, PixelType::RgbU8, 16, 16);
    assert!(v.contains("if row < 4usize {"));
    assert!(v.contains("img_bottom.get(col, row - 4usize)"));
}

#[test]
fn patch_kernel_synchronises_before_halo_threads_leave() {
    let f = parse_kernel(AVERAGE, KernelShape::Single).unwrap();
    let src = map_patch(1, 2, 4, 4, 48, 48, PixelType::RgbF32, PixelType::RgbF32, &f, 3, 16, 16);
    assert!(src.contains(".shared .align 4 .b8 SHARED[3072];"));
    assert!(src.contains("(_block_idx_x() as usize * 14usize + thread_col).wrapping_sub(1usize)"));
    let barrier = src.find("_syncthreads();").unwrap();
    let leave = src.find("return;").unwrap();
    assert!(barrier < leave);
    assert!(src.contains("interface::Patch<3usize, interface::Rgb<f32>>"));
}

#[test]
fn kernel_files_wrap_the_kernel() {
    let kernel = flip(100, 200, 4, 4, 16, PixelType::RgbU8, 16, 16);
    let file = kernel_file(&kernel);
    assert!(file.starts_with("#![no_std]"));
    assert!(file.contains("extern crate interface;"));
    assert!(file.contains(&kernel));
    assert!(file.contains("#[panic_handler]"));
}

#[test]
fn free_nodes_follow_the_dependents_of_each_allocation() {
    let mut g = Graph::new();
    let a = g.add_mem_alloc_node(4, 16, DevicePtr::new(0x100));
    let b = g.add_mem_alloc_node(4, 16, DevicePtr::new(0x200));
    let unused = g.add_mem_alloc_node(1, 16, DevicePtr::new(0x300));
    let (copy, buffer) =
        g.add_mem_cpy_node(a, MemCpyDirection::HostToDevice, 4, 4, 16, PixelType::RgbU8.layout(), DevicePtr::new(0x100));
    assert_eq!(g.buffer(buffer), &vec![0u8; 48]);
    let k1 = g.add_kernel_node(&vec![copy, b], "k1".to_string(), 16, 16, 1, 1);
    let k2 = g.add_kernel_node(&vec![b], "k2".to_string(), 16, 16, 1, 1);
    let n = g.len();
    let done = g.make_executable().graph;
    let frees: Vec<usize> = (n..done.len()).collect();
    assert_eq!(frees.len(), 3);
    assert!(matches!(done.node(frees[0]), GraphNode::Free { alloc, ptr } if *alloc == a.inner && ptr.inner() == 0x100));
    assert_eq!(done.dependencies(frees[0]), &vec![copy.inner]);
    assert!(matches!(done.node(frees[1]), GraphNode::Free { alloc, .. } if *alloc == b.inner));
    assert_eq!(done.dependencies(frees[1]), &vec![k1.inner, k2.inner]);
    assert!(matches!(done.node(frees[2]), GraphNode::Free { alloc, ptr } if *alloc == unused.inner && ptr.inner() == 0x300));
    assert!(done.dependencies(frees[2]).is_empty());
}

#[test]
fn map_pixel_identity() {
    let mut g = Cdg::new();
    let a: Node<Rgb8> = new_input(&mut g, "a".to_string(), 4, 4).unwrap();
    let f = a.map_pixel(&mut g, &MapPixelKernel::<Rgb8, Rgb32F>::new(TO_F32)).unwrap();
    let out = f.map_pixel(&mut g, &MapPixelKernel::<Rgb32F, Rgb8>::new(TO_U8)).unwrap();
    let out2 = Node::<Rgb8>::flip(&out, &mut g).unwrap();
    let t = compile(&g, vec![("out".to_string(), out.into_output()), ("out2".to_string(), out2.into_output())]);
    assert_eq!(t.order().len(), 4);
    let outs = t.output_buffers();
    assert_eq!((outs[0].width, outs[0].height, outs[0].pixel_type), (4, 4, PixelType::RgbU8));
    let sources = kernel_sources(&t);
    assert_eq!(sources.len(), 3);
    assert!(sources[0].contains("fn map_kernel(px: interface::Rgb<u8>) -> interface::Rgb<f32>"));
    assert!(sources[1].contains("fn map_kernel(px: interface::Rgb<f32>) -> interface::Rgb<u8>"));
}

#[test]
fn flip_pipeline() {
    let mut g = Cdg::new();
    let a: Node<Rgb8> = new_input(&mut g, "a".to_string(), 4, 4).unwrap();
    let out = a.flip(&mut g).unwrap();
    let t = compile(&g, vec![("out".to_string(), out.into_output()), ("in".to_string(), Output::new(a.index()))]);
    let sources = kernel_sources(&t);
    assert_eq!(sources.len(), 1);
    assert!(sources[0].contains("img_out[(4usize - col - 1, 4usize - row - 1)] = px;"));
    assert!(sources[0].contains("interface::Image::new(65536usize as *mut u8, 4usize, 4usize, 16usize)"));
}

#[test]
fn h_concat_pipeline() {
    let mut g = Cdg::new();
    let a: Node<Rgb8> = new_input(&mut g, "a".to_string(), 4, 4).unwrap();
    let out = a.h_concat(&mut g, &a).unwrap();
    let again = Output::new(out.index());
    let t = compile(&g, vec![("out".to_string(), out.into_output()), ("again".to_string(), again)]);
    let outs = t.output_buffers();
    assert_eq!((outs[0].width, outs[0].height), (8, 4));
    assert_eq!((outs[1].width, outs[1].height), (8, 4));
    let sources = kernel_sources(&t);
    assert!(sources[0].contains("if col < 4usize {"));
    assert_eq!(t.graph().dependencies(3), &vec![1, 1, 2]);
}

#[test]
fn v_concat_pipeline() {
    let mut g = Cdg::new();
    let a: Node<Rgb8> = new_input(&mut g, "a".to_string(), 4, 4).unwrap();
    let out = a.v_concat(&mut g, &a).unwrap();
    let side = a.flip(&mut g).unwrap();
    let t = compile(&g, vec![("out".to_string(), out.into_output()), ("side".to_string(), side.into_output())]);
    let outs = t.output_buffers();
    assert_eq!((outs[0].width, outs[0].height), (4, 8));
    assert!(kernel_sources(&t)[0].contains("img_bottom.get(col, row - 4usize)"));
}

#[test]
fn map_patch_averaging_pipeline() {
    let mut g = Cdg::new();
    let a: Node<Rgb8> = new_input(&mut g, "a".to_string(), 4, 4).unwrap();
    let f = a.map_pixel(&mut g, &MapPixelKernel::<Rgb8, Rgb32F>::new(TO_F32)).unwrap();
    let p = f.map_patch(&mut g, &MapPatchKernel::<Patch<3, Rgb32F>, Rgb32F>::new(AVERAGE)).unwrap();
    let out = p.map_pixel(&mut g, &MapPixelKernel::<Rgb32F, Rgb8>::new(TO_U8)).unwrap();
    let t = compile(&g, vec![("out".to_string(), out.into_output()), ("avg".to_string(), p.into_output())]);
    let patch = kernel_sources(&t)[1].clone();
    assert!(patch.contains("px += patch . get (c , r)"));
    match t.graph().node(5) {
        GraphNode::Kernel { block_width, block_height, grid_width, grid_height, .. } => {
            assert_eq!((*block_width, *block_height), (BLOCK_WIDTH, BLOCK_HEIGHT));
            assert_eq!((*grid_width, *grid_height), (1, 1));
        }
        _ => panic!("kernel expected"),
    }
}

#[test]
fn map_image_with_indices_pipeline() {
    let mut g = Cdg::new();
    let a: Node<Rgb8> = new_input(&mut g, "a".to_string(), 4, 4).unwrap();
    let k = MapImageKernel::<Image<Rgb8>, Rgb8>::new(INDICES);
    let full = a.map_image(&mut g, &k, 4, 4).unwrap();
    let corner = a.map_image(&mut g, &k, 2, 2).unwrap();
    let t = compile(&g, vec![("full".to_string(), full.into_output()), ("corner".to_string(), corner.into_output())]);
    let outs = t.output_buffers();
    assert_eq!((outs[1].width, outs[1].height), (2, 2));
    let sources = kernel_sources(&t);
    assert!(sources[1].contains("fn map_kernel(img: interface::Image<interface::Rgb<u8>>, col: usize, row: usize)"));
    assert!(sources[1].contains("if col < 2usize && row < 2usize {"));
    assert!(sources[1].contains("map_kernel(img_in, col, row)"));
}

#[test]
fn compile_errors() {
    let mut g = Cdg::new();
    let a: Node<Rgb8> = new_input(&mut g, "a".to_string(), 4, 4).unwrap();
    let b: Node<Rgb8> = new_input(&mut g, "a".to_string(), 4, 4).unwrap();
    let both = a.h_concat(&mut g, &b).unwrap();
    let err = |outputs: Vec<(String, Output)>, n: usize| Transformation::new(&g, &outputs, 8, &ptrs(n)).err();
    assert_eq!(err(vec![("x".to_string(), Output::new(99))], 0), Some(Violation::UnknownNode));
    assert_eq!(
        err(vec![("x".to_string(), Output::new(0)), ("x".to_string(), Output::new(1))], 2),
        Some(Violation::DuplicateOutputName)
    );
    assert_eq!(err(vec![("x".to_string(), Output::new(0))], 3), Some(Violation::DevicePointerCount));
    assert_eq!(err(vec![("x".to_string(), Output::new(both.index()))], 3), Some(Violation::DuplicateInputName));
    let mut h = Cdg::new();
    let c: Node<Rgb32F> = new_input(&mut h, "c".to_string(), 4, 4).unwrap();
    let k = MapPatchKernel::<Patch<17, Rgb32F>, Rgb32F>::new("fn f(p: Patch<17, Rgb<f32>>) -> Rgb<f32> { p.get(8, 8) }");
    let big = c.map_patch(&mut h, &k).unwrap();
    let outputs = vec![("big".to_string(), big.into_output())];
    assert_eq!(Transformation::new(&h, &outputs, 8, &ptrs(2)).err(), Some(Violation::PatchLargerThanBlock));
}

#[test]
fn call_marshals_inputs_and_outputs() {
    let mut g = Cdg::new();
    let a: Node<Rgb8> = new_input(&mut g, "a".to_string(), 4, 4).unwrap();
    let out = a.flip(&mut g).unwrap();
    let mut t = compile(&g, vec![("out".to_string(), out.into_output())]);
    let image = HostImage::new(4, 4, PixelType::RgbU8, test_image()).unwrap();
    assert_eq!(image.get_rgb8(2, 3).map(|p| (p.r, p.g, p.b)), Some((20, 60, 30)));
    assert!(image.get_rgb8(4, 0).is_none());
    t.fill_inputs(&vec![("a".to_string(), image)]).unwrap();
    let index = t.input_buffers()[0].index;
    assert_eq!(t.graph().buffer(index), &test_image());

    let mut flipped = Vec::new();
    for r in 0..4u8 {
        for c in 0..4u8 {
            flipped.extend_from_slice(&[10 * (3 - c), 20 * (3 - r), 30]);
        }
    }
    assert!(!t.write_output(0, vec![0; 5]));
    assert!(!t.write_output(1, flipped.clone()));
    assert!(t.write_output(0, flipped.clone()));
    let outs = t.read_outputs();
    assert_eq!(outs.len(), 1);
    assert_eq!(outs[0].0, "out");
    assert_eq!(outs[0].1.data, flipped);
    assert_eq!(outs[0].1.get_rgb8(0, 0).map(|p| (p.r, p.g, p.b)), Some((30, 60, 30)));
}

#[test]
fn call_rejects_missing_or_misshapen_inputs() {
    let mut g = Cdg::new();
    let a: Node<Rgb8> = new_input(&mut g, "a".to_string(), 4, 4).unwrap();
    let mut t = compile(&g, vec![("out".to_string(), a.into_output())]);
    let other = HostImage::new(4, 4, PixelType::RgbU8, test_image()).unwrap();
    match t.fill_inputs(&vec![("b".to_string(), other)]) {
        Err(CallError::MissingInput(name)) => assert_eq!(name, "a"),
        r => panic!("unexpected {:?}", r),
    }
    let small = HostImage::new(2, 2, PixelType::RgbU8, vec![0; 12]).unwrap();
    match t.fill_inputs(&vec![("a".to_string(), small)]) {
        Err(CallError::ShapeMismatch { name, expected, actual }) => {
            assert_eq!(name, "a");
            assert_eq!(expected, (4, 4, PixelType::RgbU8));
            assert_eq!(actual, (2, 2, PixelType::RgbU8));
        }
        r => panic!("unexpected {:?}", r),
    }
    assert!(HostImage::new(4, 4, PixelType::RgbU8, vec![0; 47]).is_none());
}

#[test]
fn png_round_trip_keeps_rgb8_pixels() {
    let pixels = test_image();
    let img = image::RgbImage::from_raw(4, 4, pixels.clone()).unwrap();
    let mut png = Vec::new();
    image::DynamicImage::ImageRgb8(img)
        .write_to(&mut std::io::Cursor::new(&mut png), image::ImageOutputFormat::Png)
        .unwrap();
    let decoded = image::load_from_memory_with_format(&png, image::ImageFormat::Png).unwrap().to_rgb8();
    let host = HostImage::new(decoded.width() as usize, decoded.height() as usize, PixelType::RgbU8, decoded.into_raw())
        .unwrap();
    assert_eq!(host.data, pixels);
    let again = image::RgbImage::from_raw(4, 4, host.data.clone()).unwrap();
    let mut png2 = Vec::new();
    image::DynamicImage::ImageRgb8(again)
        .write_to(&mut std::io::Cursor::new(&mut png2), image::ImageOutputFormat::Png)
        .unwrap();
    assert_eq!(png, png2);
}

#[test]
fn grids_cover_the_whole_output() {
    let mut g = Cdg::new();
    let a: Node<Rgb32F> = new_input(&mut g, "a".to_string(), 100, 40).unwrap();
    let flipped = a.flip(&mut g).unwrap();
    let blurred = a.map_patch(&mut g, &MapPatchKernel::<Patch<3, Rgb32F>, Rgb32F>::new(AVERAGE)).unwrap();
    let t = compile(&g, vec![("f".to_string(), flipped.into_output()), ("b".to_string(), blurred.into_output())]);
    let grids: Vec<(usize, usize)> = (0..t.graph().len())
        .filter_map(|i| match t.graph().node(i) {
            GraphNode::Kernel { grid_width, grid_height, .. } => Some((*grid_width, *grid_height)),
            _ => None,
        })
        .collect();
    assert_eq!(grids, vec![(7, 3), (8, 3)]);
    match t.graph().node(0) {
        GraphNode::Alloc { bytes, .. } => assert_eq!(*bytes, 40 * 1200),
        _ => panic!("allocation expected"),
    }
}
