//! Kernel source synthesis: each operation, with its concrete buffer
//! addresses, extents, pitches, pixel types and block size, becomes the text
//! of one self-contained device function `kernel()` that takes no arguments.
use vstd::prelude::*;
use crate::pixel::PixelType;
use crate::syntax::KernelFn;
use crate::text::{decimal, push_decimal, push_usize_literal, usize_literal};

verus! {

/// Opening of a kernel whose thread `(x, y)` of block `(bx, by)` handles
/// pixel `(bx * block_width + x, by * block_height + y)`.
pub open spec fn header_text(block_width: nat, block_height: nat) -> Seq<char> {
    "pub unsafe extern \"ptx-kernel\" fn kernel() {\nlet col = _block_idx_x() as usize * "@
        + usize_literal(block_width) + " + _thread_idx_x() as usize;\nlet row = _block_idx_y() as usize * "@
        + usize_literal(block_height) + " + _thread_idx_y() as usize;\n"@
}

fn push_header(s: &mut String, block_width: usize, block_height: usize)
    ensures
        final(s)@ == old(s)@ + header_text(block_width as nat, block_height as nat),
{
    let ghost start = s@;
    s.append("pub unsafe extern \"ptx-kernel\" fn kernel() {\nlet col = _block_idx_x() as usize * ");
    push_usize_literal(s, block_width);
    s.append(" + _thread_idx_x() as usize;\nlet row = _block_idx_y() as usize * ");
    push_usize_literal(s, block_height);
    s.append(" + _thread_idx_y() as usize;\n");
    assert(s@ =~= start + header_text(block_width as nat, block_height as nat));
}

/// Declaration of the image view `name` over device memory.
pub open spec fn image_text(
    name: Seq<char>,
    mutable: bool,
    pixel_type: PixelType,
    ptr: nat,
    width: nat,
    height: nat,
    pitch: nat,
) -> Seq<char> {
    (if mutable {
        "let mut "@
    } else {
        "let "@
    }) + name + ": interface::Image<"@ + pixel_type.spec_device_type()
        + "> = interface::Image::new("@ + usize_literal(ptr) + " as *mut u8, "@ + usize_literal(
        width,
    ) + ", "@ + usize_literal(height) + ", "@ + usize_literal(pitch) + ");\n"@
}

fn push_image(
    s: &mut String,
    name: &str,
    mutable: bool,
    pixel_type: PixelType,
    ptr: usize,
    width: usize,
    height: usize,
    pitch: usize,
)
    ensures
        final(s)@ == old(s)@ + image_text(
            name@,
            mutable,
            pixel_type,
            ptr as nat,
            width as nat,
            height as nat,
            pitch as nat,
        ),
{
    let ghost start = s@;
    if mutable {
        s.append("let mut ");
    } else {
        s.append("let ");
    }
    s.append(name);
    s.append(": interface::Image<");
    s.append(pixel_type.device_type());
    s.append("> = interface::Image::new(");
    push_usize_literal(s, ptr);
    s.append(" as *mut u8, ");
    push_usize_literal(s, width);
    s.append(", ");
    push_usize_literal(s, height);
    s.append(", ");
    push_usize_literal(s, pitch);
    s.append(");\n");
    assert(s@ =~= start + image_text(
        name@,
        mutable,
        pixel_type,
        ptr as nat,
        width as nat,
        height as nat,
        pitch as nat,
    ));
}

/// The texts of a list of strings.
pub open spec fn names_of(v: Seq<String>) -> Seq<Seq<char>> {
    v.map_values(|s: String| s@)
}

/// Declarations `, name: usize` of the index inputs of an image kernel.
pub open spec fn extra_params_text(names: Seq<Seq<char>>) -> Seq<char>
    decreases names.len(),
{
    if names.len() == 0 {
        seq![]
    } else {
        extra_params_text(names.drop_last()) + ", "@ + names.last() + ": usize"@
    }
}

/// Arguments `, name` passing the index inputs of an image kernel.
pub open spec fn extra_args_text(names: Seq<Seq<char>>) -> Seq<char>
    decreases names.len(),
{
    if names.len() == 0 {
        seq![]
    } else {
        extra_args_text(names.drop_last()) + ", "@ + names.last()
    }
}

fn push_extra_params(s: &mut String, extra: &Vec<String>)
    ensures
        final(s)@ == old(s)@ + extra_params_text(names_of(extra@)),
{
    let ghost start = s@;
    let ghost names = names_of(extra@);
    let mut i: usize = 0;
    assert(s@ =~= start + extra_params_text(names.take(0)));
    while i < extra.len()
        invariant
            i <= extra@.len(),
            names == names_of(extra@),
            s@ == start + extra_params_text(names.take(i as int)),
        decreases extra@.len() - i,
    {
        s.append(", ");
        s.append(extra[i].as_str());
        s.append(": usize");
        assert(names.take(i + 1).drop_last() =~= names.take(i as int));
        assert(s@ =~= start + extra_params_text(names.take(i + 1)));
        i = i + 1;
    }
    assert(names.take(i as int) =~= names);
}

fn push_extra_args(s: &mut String, extra: &Vec<String>)
    ensures
        final(s)@ == old(s)@ + extra_args_text(names_of(extra@)),
{
    let ghost start = s@;
    let ghost names = names_of(extra@);
    let mut i: usize = 0;
    assert(s@ =~= start + extra_args_text(names.take(0)));
    while i < extra.len()
        invariant
            i <= extra@.len(),
            names == names_of(extra@),
            s@ == start + extra_args_text(names.take(i as int)),
        decreases extra@.len() - i,
    {
        s.append(", ");
        s.append(extra[i].as_str());
        assert(names.take(i + 1).drop_last() =~= names.take(i as int));
        assert(s@ =~= start + extra_args_text(names.take(i + 1)));
        i = i + 1;
    }
    assert(names.take(i as int) =~= names);
}

/// Source text of the map pixel kernel.
pub open spec fn map_pixel_text(
    ptr_in: usize,
    ptr_out: usize,
    width: usize,
    height: usize,
    pitch_in: usize,
    pitch_out: usize,
    pixel_type_in: PixelType,
    pixel_type_out: PixelType,
    param: Seq<char>,
    block: Seq<char>,
    block_width: usize,
    block_height: usize,
) -> Seq<char> {
    header_text(block_width as nat, block_height as nat)
        + image_text(
            "img_in"@,
            false,
            pixel_type_in,
            ptr_in as nat,
            width as nat,
            height as nat,
            pitch_in as nat,
        )
        + image_text(
            "img_out"@,
            true,
            pixel_type_out,
            ptr_out as nat,
            width as nat,
            height as nat,
            pitch_out as nat,
        )
        + "fn map_kernel("@
        + param
        + ": "@
        + pixel_type_in.spec_device_type()
        + ") -> "@
        + pixel_type_out.spec_device_type()
        + " "@
        + block
        + "\nif let Some(px) = img_in.get(col, row) {\nimg_out[(col, row)] = map_kernel(px);\n}\n}\n"@
}

/// Kernel that applies the user function to every pixel.
pub fn map_pixel(
    ptr_in: usize,
    ptr_out: usize,
    width: usize,
    height: usize,
    pitch_in: usize,
    pitch_out: usize,
    pixel_type_in: PixelType,
    pixel_type_out: PixelType,
    f: &KernelFn,
    block_width: usize,
    block_height: usize,
) -> (r: String)
    ensures
        r@ == map_pixel_text(
            ptr_in,
            ptr_out,
            width,
            height,
            pitch_in,
            pitch_out,
            pixel_type_in,
            pixel_type_out,
            f.param@,
            f.block@,
            block_width,
            block_height,
        ),
{
    let mut s = String::new();
    push_header(&mut s, block_width, block_height);
    assert(s@ =~= header_text(block_width as nat, block_height as nat));
    push_image(&mut s, "img_in", false, pixel_type_in, ptr_in, width, height, pitch_in);
    push_image(&mut s, "img_out", true, pixel_type_out, ptr_out, width, height, pitch_out);
    s.append("fn map_kernel(");
    s.append(f.param.as_str());
    s.append(": ");
    s.append(pixel_type_in.device_type());
    s.append(") -> ");
    s.append(pixel_type_out.device_type());
    s.append(" ");
    s.append(f.block.as_str());
    s.append("\nif let Some(px) = img_in.get(col, row) {\nimg_out[(col, row)] = map_kernel(px);\n}\n}\n");
    s
}

/// Source text of the map patch kernel.
pub open spec fn map_patch_text(
    ptr_in: usize,
    ptr_out: usize,
    width: usize,
    height: usize,
    pitch_in: usize,
    pitch_out: usize,
    pixel_type_in: PixelType,
    pixel_type_out: PixelType,
    param: Seq<char>,
    block: Seq<char>,
    dimension: usize,
    block_width: usize,
    block_height: usize,
) -> Seq<char> {
    let padding = dimension / 2;
    let step_x = (block_width - 2 * padding) as usize;
    let step_y = (block_height - 2 * padding) as usize;
    let shared_bytes = (block_width * block_height * pixel_type_in.spec_size()) as usize;
    let align = pixel_type_in.spec_align() as usize;
    "pub unsafe extern \"ptx-kernel\" fn kernel() {\nlet thread_col = _thread_idx_x() as usize;\nlet thread_row = _thread_idx_y() as usize;\nlet col = (_block_idx_x() as usize * "@
        + usize_literal(step_x as nat)
        + " + thread_col).wrapping_sub("@
        + usize_literal(padding as nat)
        + ");\nlet row = (_block_idx_y() as usize * "@
        + usize_literal(step_y as nat)
        + " + thread_row).wrapping_sub("@
        + usize_literal(padding as nat)
        + ");\n"@
        + image_text(
            "img_in"@,
            false,
            pixel_type_in,
            ptr_in as nat,
            width as nat,
            height as nat,
            pitch_in as nat,
        )
        + "let px: "@
        + pixel_type_in.spec_device_type()
        + " = img_in.get(col, row).unwrap_or_default();\nuse interface::SharedMemory;\ncore::arch::asm!(\".shared .align "@
        + decimal(align as nat)
        + " .b8 SHARED["@
        + decimal(shared_bytes as nat)
        + "];\");\nlet shared: *mut "@
        + pixel_type_in.spec_device_type()
        + ";\ncore::arch::asm!(\"mov.u64 {}, SHARED;\", out(reg64) shared);\nlet thread_i = thread_col + thread_row * "@
        + usize_literal(block_width as nat)
        + ";\npx.store(shared.add(thread_i));\n_syncthreads();\nif thread_col < "@
        + usize_literal(padding as nat)
        + " || thread_col + "@
        + usize_literal(padding as nat)
        + " >= "@
        + usize_literal(block_width as nat)
        + " || thread_row < "@
        + usize_literal(padding as nat)
        + " || thread_row + "@
        + usize_literal(padding as nat)
        + " >= "@
        + usize_literal(block_height as nat)
        + " {\nreturn;\n}\n"@
        + image_text(
            "img_out"@,
            true,
            pixel_type_out,
            ptr_out as nat,
            width as nat,
            height as nat,
            pitch_out as nat,
        )
        + "let patch: interface::Patch<"@
        + usize_literal(dimension as nat)
        + ", "@
        + pixel_type_in.spec_device_type()
        + "> = interface::Patch::new(shared, "@
        + usize_literal(block_width as nat)
        + ", thread_col, thread_row);\nfn map_kernel("@
        + param
        + ": interface::Patch<"@
        + usize_literal(dimension as nat)
        + ", "@
        + pixel_type_in.spec_device_type()
        + ">) -> "@
        + pixel_type_out.spec_device_type()
        + " "@
        + block
        + "\nif let Some(px) = img_out.get_mut(col, row) {\n*px = map_kernel(patch);\n}\n}\n"@
}

/// Kernel that loads a block-sized tile with its halo into shared memory,
/// waits for the whole block, then lets each interior thread apply the user
/// function to the patch around its pixel.
pub fn map_patch(
    ptr_in: usize,
    ptr_out: usize,
    width: usize,
    height: usize,
    pitch_in: usize,
    pitch_out: usize,
    pixel_type_in: PixelType,
    pixel_type_out: PixelType,
    f: &KernelFn,
    dimension: usize,
    block_width: usize,
    block_height: usize,
) -> (r: String)
    requires
        dimension % 2 == 1,
        dimension <= block_width,
        dimension <= block_height,
        block_width * block_height * pixel_type_in.spec_size() <= usize::MAX,
    ensures
        r@ == map_patch_text(
            ptr_in,
            ptr_out,
            width,
            height,
            pitch_in,
            pitch_out,
            pixel_type_in,
            pixel_type_out,
            f.param@,
            f.block@,
            dimension,
            block_width,
            block_height,
        ),
{
    let padding = dimension / 2;
    let step_x = block_width - 2 * padding;
    let step_y = block_height - 2 * padding;
    assert(block_width * block_height <= block_width * block_height * pixel_type_in.spec_size()) by (nonlinear_arith)
        requires pixel_type_in.spec_size() >= 1;
    let shared_bytes = block_width * block_height * pixel_type_in.layout().size;
    let align = pixel_type_in.layout().align;
    let mut s = String::new();
    s.append("pub unsafe extern \"ptx-kernel\" fn kernel() {\nlet thread_col = _thread_idx_x() as usize;\nlet thread_row = _thread_idx_y() as usize;\nlet col = (_block_idx_x() as usize * ");
    assert(s@ =~= "pub unsafe extern \"ptx-kernel\" fn kernel() {\nlet thread_col = _thread_idx_x() as usize;\nlet thread_row = _thread_idx_y() as usize;\nlet col = (_block_idx_x() as usize * "@);
    push_usize_literal(&mut s, step_x);
    s.append(" + thread_col).wrapping_sub(");
    push_usize_literal(&mut s, padding);
    s.append(");\nlet row = (_block_idx_y() as usize * ");
    push_usize_literal(&mut s, step_y);
    s.append(" + thread_row).wrapping_sub(");
    push_usize_literal(&mut s, padding);
    s.append(");\n");
    push_image(&mut s, "img_in", false, pixel_type_in, ptr_in, width, height, pitch_in);
    s.append("let px: ");
    s.append(pixel_type_in.device_type());
    s.append(" = img_in.get(col, row).unwrap_or_default();\nuse interface::SharedMemory;\ncore::arch::asm!(\".shared .align ");
    push_decimal(&mut s, align);
    s.append(" .b8 SHARED[");
    push_decimal(&mut s, shared_bytes);
    s.append("];\");\nlet shared: *mut ");
    s.append(pixel_type_in.device_type());
    s.append(";\ncore::arch::asm!(\"mov.u64 {}, SHARED;\", out(reg64) shared);\nlet thread_i = thread_col + thread_row * ");
    push_usize_literal(&mut s, block_width);
    s.append(";\npx.store(shared.add(thread_i));\n_syncthreads();\nif thread_col < ");
    push_usize_literal(&mut s, padding);
    s.append(" || thread_col + ");
    push_usize_literal(&mut s, padding);
    s.append(" >= ");
    push_usize_literal(&mut s, block_width);
    s.append(" || thread_row < ");
    push_usize_literal(&mut s, padding);
    s.append(" || thread_row + ");
    push_usize_literal(&mut s, padding);
    s.append(" >= ");
    push_usize_literal(&mut s, block_height);
    s.append(" {\nreturn;\n}\n");
    push_image(&mut s, "img_out", true, pixel_type_out, ptr_out, width, height, pitch_out);
    s.append("let patch: interface::Patch<");
    push_usize_literal(&mut s, dimension);
    s.append(", ");
    s.append(pixel_type_in.device_type());
    s.append("> = interface::Patch::new(shared, ");
    push_usize_literal(&mut s, block_width);
    s.append(", thread_col, thread_row);\nfn map_kernel(");
    s.append(f.param.as_str());
    s.append(": interface::Patch<");
    push_usize_literal(&mut s, dimension);
    s.append(", ");
    s.append(pixel_type_in.device_type());
    s.append(">) -> ");
    s.append(pixel_type_out.device_type());
    s.append(" ");
    s.append(f.block.as_str());
    s.append("\nif let Some(px) = img_out.get_mut(col, row) {\n*px = map_kernel(patch);\n}\n}\n");
    s
}

/// Source text of the map image kernel.
pub open spec fn map_image_text(
    ptr_in: usize,
    ptr_out: usize,
    width_in: usize,
    width_out: usize,
    height_in: usize,
    height_out: usize,
    pitch_in: usize,
    pitch_out: usize,
    pixel_type_in: PixelType,
    pixel_type_out: PixelType,
    param: Seq<char>,
    extra: Seq<Seq<char>>,
    block: Seq<char>,
    block_width: usize,
    block_height: usize,
) -> Seq<char> {
    header_text(block_width as nat, block_height as nat)
        + image_text(
            "img_in"@,
            false,
            pixel_type_in,
            ptr_in as nat,
            width_in as nat,
            height_in as nat,
            pitch_in as nat,
        )
        + image_text(
            "img_out"@,
            true,
            pixel_type_out,
            ptr_out as nat,
            width_out as nat,
            height_out as nat,
            pitch_out as nat,
        )
        + "fn map_kernel("@
        + param
        + ": interface::Image<"@
        + pixel_type_in.spec_device_type()
        + ">"@
        + extra_params_text(extra)
        + ") -> "@
        + pixel_type_out.spec_device_type()
        + " "@
        + block
        + "\nif col < "@
        + usize_literal(width_out as nat)
        + " && row < "@
        + usize_literal(height_out as nat)
        + " {\nimg_out[(col, row)] = map_kernel(img_in"@
        + extra_args_text(extra)
        + ");\n}\n}\n"@
}

/// Kernel that applies the user function, given the whole input image and
/// the output position, to every pixel of the output.
pub fn map_image(
    ptr_in: usize,
    ptr_out: usize,
    width_in: usize,
    width_out: usize,
    height_in: usize,
    height_out: usize,
    pitch_in: usize,
    pitch_out: usize,
    pixel_type_in: PixelType,
    pixel_type_out: PixelType,
    f: &KernelFn,
    block_width: usize,
    block_height: usize,
) -> (r: String)
    ensures
        r@ == map_image_text(
            ptr_in,
            ptr_out,
            width_in,
            width_out,
            height_in,
            height_out,
            pitch_in,
            pitch_out,
            pixel_type_in,
            pixel_type_out,
            f.param@,
            names_of(f.extra@),
            f.block@,
            block_width,
            block_height,
        ),
{
    let mut s = String::new();
    push_header(&mut s, block_width, block_height);
    assert(s@ =~= header_text(block_width as nat, block_height as nat));
    push_image(&mut s, "img_in", false, pixel_type_in, ptr_in, width_in, height_in, pitch_in);
    push_image(&mut s, "img_out", true, pixel_type_out, ptr_out, width_out, height_out, pitch_out);
    s.append("fn map_kernel(");
    s.append(f.param.as_str());
    s.append(": interface::Image<");
    s.append(pixel_type_in.device_type());
    s.append(">");
    push_extra_params(&mut s, &f.extra);
    s.append(") -> ");
    s.append(pixel_type_out.device_type());
    s.append(" ");
    s.append(f.block.as_str());
    s.append("\nif col < ");
    push_usize_literal(&mut s, width_out);
    s.append(" && row < ");
    push_usize_literal(&mut s, height_out);
    s.append(" {\nimg_out[(col, row)] = map_kernel(img_in");
    push_extra_args(&mut s, &f.extra);
    s.append(");\n}\n}\n");
    s
}

/// Source text of the flip kernel.
pub open spec fn flip_text(
    ptr_in: usize,
    ptr_out: usize,
    width: usize,
    height: usize,
    pitch: usize,
    pixel_type: PixelType,
    block_width: usize,
    block_height: usize,
) -> Seq<char> {
    header_text(block_width as nat, block_height as nat)
        + image_text(
            "img_in"@,
            false,
            pixel_type,
            ptr_in as nat,
            width as nat,
            height as nat,
            pitch as nat,
        )
        + image_text(
            "img_out"@,
            true,
            pixel_type,
            ptr_out as nat,
            width as nat,
            height as nat,
            pitch as nat,
        )
        + "if let Some(px) = img_in.get(col, row) {\nimg_out[("@
        + usize_literal(width as nat)
        + " - col - 1, "@
        + usize_literal(height as nat)
        + " - row - 1)] = px;\n}\n}\n"@
}

/// Kernel that writes each pixel of the input to the point-mirrored position of the output.
pub fn flip(
    ptr_in: usize,
    ptr_out: usize,
    width: usize,
    height: usize,
    pitch: usize,
    pixel_type: PixelType,
    block_width: usize,
    block_height: usize,
) -> (r: String)
    ensures
        r@ == flip_text(
            ptr_in,
            ptr_out,
            width,
            height,
            pitch,
            pixel_type,
            block_width,
            block_height,
        ),
{
    let mut s = String::new();
    push_header(&mut s, block_width, block_height);
    assert(s@ =~= header_text(block_width as nat, block_height as nat));
    push_image(&mut s, "img_in", false, pixel_type, ptr_in, width, height, pitch);
    push_image(&mut s, "img_out", true, pixel_type, ptr_out, width, height, pitch);
    s.append("if let Some(px) = img_in.get(col, row) {\nimg_out[(");
    push_usize_literal(&mut s, width);
    s.append(" - col - 1, ");
    push_usize_literal(&mut s, height);
    s.append(" - row - 1)] = px;\n}\n}\n");
    s
}

/// Source text of the h concat kernel.
pub open spec fn h_concat_text(
    ptr_left: usize,
    ptr_right: usize,
    ptr_out: usize,
    width_left: usize,
    width_right: usize,
    width_out: usize,
    height: usize,
    pitch_left: usize,
    pitch_right: usize,
    pitch_out: usize,
    pixel_type: PixelType,
    block_width: usize,
    block_height: usize,
) -> Seq<char> {
    header_text(block_width as nat, block_height as nat)
        + image_text(
            "img_left"@,
            false,
            pixel_type,
            ptr_left as nat,
            width_left as nat,
            height as nat,
            pitch_left as nat,
        )
        + image_text(
            "img_right"@,
            false,
            pixel_type,
            ptr_right as nat,
            width_right as nat,
            height as nat,
            pitch_right as nat,
        )
        + image_text(
            "img_out"@,
            true,
            pixel_type,
            ptr_out as nat,
            width_out as nat,
            height as nat,
            pitch_out as nat,
        )
        + "if col < "@
        + usize_literal(width_left as nat)
        + " {\nif let Some(px) = img_left.get(col, row) {\nimg_out[(col, row)] = px;\n}\n} else if let Some(px) = img_right.get(col - "@
        + usize_literal(width_left as nat)
        + ", row) {\nimg_out[(col, row)] = px;\n}\n}\n"@
}

/// Kernel that copies the left image, then the right one beside it.
pub fn h_concat(
    ptr_left: usize,
    ptr_right: usize,
    ptr_out: usize,
    width_left: usize,
    width_right: usize,
    width_out: usize,
    height: usize,
    pitch_left: usize,
    pitch_right: usize,
    pitch_out: usize,
    pixel_type: PixelType,
    block_width: usize,
    block_height: usize,
) -> (r: String)
    ensures
        r@ == h_concat_text(
            ptr_left,
            ptr_right,
            ptr_out,
            width_left,
            width_right,
            width_out,
            height,
            pitch_left,
            pitch_right,
            pitch_out,
            pixel_type,
            block_width,
            block_height,
        ),
{
    let mut s = String::new();
    push_header(&mut s, block_width, block_height);
    assert(s@ =~= header_text(block_width as nat, block_height as nat));
    push_image(&mut s, "img_left", false, pixel_type, ptr_left, width_left, height, pitch_left);
    push_image(&mut s, "img_right", false, pixel_type, ptr_right, width_right, height, pitch_right);
    push_image(&mut s, "img_out", true, pixel_type, ptr_out, width_out, height, pitch_out);
    s.append("if col < ");
    push_usize_literal(&mut s, width_left);
    s.append(" {\nif let Some(px) = img_left.get(col, row) {\nimg_out[(col, row)] = px;\n}\n} else if let Some(px) = img_right.get(col - ");
    push_usize_literal(&mut s, width_left);
    s.append(", row) {\nimg_out[(col, row)] = px;\n}\n}\n");
    s
}

/// Source text of the v concat kernel.
pub open spec fn v_concat_text(
    ptr_top: usize,
    ptr_bottom: usize,
    ptr_out: usize,
    width: usize,
    height_top: usize,
    height_bottom: usize,
    height_out: usize,
    pitch: usize,
    pixel_type: PixelType,
    block_width: usize,
    block_height: usize,
) -> Seq<char> {
    header_text(block_width as nat, block_height as nat)
        + image_text(
            "img_top"@,
            false,
            pixel_type,
            ptr_top as nat,
            width as nat,
            height_top as nat,
            pitch as nat,
        )
        + image_text(
            "img_bottom"@,
            false,
            pixel_type,
            ptr_bottom as nat,
            width as nat,
            height_bottom as nat,
            pitch as nat,
        )
        + image_text(
            "img_out"@,
            true,
            pixel_type,
            ptr_out as nat,
            width as nat,
            height_out as nat,
            pitch as nat,
        )
        + "if row < "@
        + usize_literal(height_top as nat)
        + " {\nif let Some(px) = img_top.get(col, row) {\nimg_out[(col, row)] = px;\n}\n} else if let Some(px) = img_bottom.get(col, row - "@
        + usize_literal(height_top as nat)
        + ") {\nimg_out[(col, row)] = px;\n}\n}\n"@
}

/// Kernel that copies the top image, then the bottom one below it.
pub fn v_concat(
    ptr_top: usize,
    ptr_bottom: usize,
    ptr_out: usize,
    width: usize,
    height_top: usize,
    height_bottom: usize,
    height_out: usize,
    pitch: usize,
    pixel_type: PixelType,
    block_width: usize,
    block_height: usize,
) -> (r: String)
    ensures
        r@ == v_concat_text(
            ptr_top,
            ptr_bottom,
            ptr_out,
            width,
            height_top,
            height_bottom,
            height_out,
            pitch,
            pixel_type,
            block_width,
            block_height,
        ),
{
    let mut s = String::new();
    push_header(&mut s, block_width, block_height);
    assert(s@ =~= header_text(block_width as nat, block_height as nat));
    push_image(&mut s, "img_top", false, pixel_type, ptr_top, width, height_top, pitch);
    push_image(&mut s, "img_bottom", false, pixel_type, ptr_bottom, width, height_bottom, pitch);
    push_image(&mut s, "img_out", true, pixel_type, ptr_out, width, height_out, pitch);
    s.append("if row < ");
    push_usize_literal(&mut s, height_top);
    s.append(" {\nif let Some(px) = img_top.get(col, row) {\nimg_out[(col, row)] = px;\n}\n} else if let Some(px) = img_bottom.get(col, row - ");
    push_usize_literal(&mut s, height_top);
    s.append(") {\nimg_out[(col, row)] = px;\n}\n}\n");
    s
}

/// Panic handler of every kernel crate: prints where the panic happened and
/// in which thread, then traps.
pub open spec fn panic_handler_text() -> Seq<char> {
    "#[panic_handler]\nfn panic(panic_info: &core::panic::PanicInfo) -> ! {\n    unsafe {\n        #[repr(C)]\n        struct PanicPrintArgs {\n            file: *const u8,\n            line: u32,\n            tx: i32,\n            ty: i32,\n            tz: i32,\n            bx: i32,\n            by: i32,\n            bz: i32,\n        }\n        if let Some(location) = panic_info.location() {\n            let filename_len: usize = location.file().as_bytes().len();\n            let filename_buf: *mut u8 = core::arch::nvptx::malloc(filename_len + 1) as *mut u8;\n            core::ptr::copy(location.file().as_bytes() as *const [u8] as *const u8, filename_buf, filename_len);\n            *filename_buf.add(filename_len) = b'\\0';\n            let panic_print_args = PanicPrintArgs {\n                file: filename_buf as *const u8,\n                line: location.line(),\n                tx: core::arch::nvptx::_thread_idx_x(),\n                ty: core::arch::nvptx::_thread_idx_y(),\n                tz: core::arch::nvptx::_thread_idx_z(),\n                bx: core::arch::nvptx::_block_idx_x(),\n                by: core::arch::nvptx::_block_idx_y(),\n                bz: core::arch::nvptx::_block_idx_z(),\n            };\n            core::arch::nvptx::vprintf(\n                \"panic occurred on the device in file `%s` at line `%u` for thread (%u, %u, %u), block (%u, %u, %u)\\n\\0\".as_bytes().as_ptr(),\n                &panic_print_args as *const PanicPrintArgs as *const core::ffi::c_void,\n            );\n        } else {\n            core::arch::nvptx::vprintf(\n                \"panic occurred but its location is unknown\\n\\0\".as_bytes().as_ptr(),\n                core::ptr::null(),\n            );\n        }\n        core::arch::nvptx::trap();\n    }\n}\n"@
}

/// Crate-level attributes and imports of every kernel crate.
pub open spec fn kernel_prelude_text() -> Seq<char> {
    "#![no_std]\n#![feature(abi_ptx, stdsimd, asm_experimental_arch)]\nextern crate interface;\nuse core::arch::nvptx::*;\n#[no_mangle]\n"@
}

/// A complete device crate around one generated kernel: the crate attributes,
/// the support library, the exported kernel and the panic handler.
pub open spec fn kernel_file_text(kernel: Seq<char>) -> Seq<char> {
    kernel_prelude_text() + kernel + "\n"@ + panic_handler_text()
}

pub fn kernel_file(kernel: &str) -> (r: String)
    ensures
        r@ == kernel_file_text(kernel@),
{
    let mut s = String::new();
    s.append("#![no_std]\n#![feature(abi_ptx, stdsimd, asm_experimental_arch)]\nextern crate interface;\nuse core::arch::nvptx::*;\n#[no_mangle]\n");
    assert(s@ =~= kernel_prelude_text());
    s.append(kernel);
    s.append("\n");
    s.append("#[panic_handler]\nfn panic(panic_info: &core::panic::PanicInfo) -> ! {\n    unsafe {\n        #[repr(C)]\n        struct PanicPrintArgs {\n            file: *const u8,\n            line: u32,\n            tx: i32,\n            ty: i32,\n            tz: i32,\n            bx: i32,\n            by: i32,\n            bz: i32,\n        }\n        if let Some(location) = panic_info.location() {\n            let filename_len: usize = location.file().as_bytes().len();\n            let filename_buf: *mut u8 = core::arch::nvptx::malloc(filename_len + 1) as *mut u8;\n            core::ptr::copy(location.file().as_bytes() as *const [u8] as *const u8, filename_buf, filename_len);\n            *filename_buf.add(filename_len) = b'\\0';\n            let panic_print_args = PanicPrintArgs {\n                file: filename_buf as *const u8,\n                line: location.line(),\n                tx: core::arch::nvptx::_thread_idx_x(),\n                ty: core::arch::nvptx::_thread_idx_y(),\n                tz: core::arch::nvptx::_thread_idx_z(),\n                bx: core::arch::nvptx::_block_idx_x(),\n                by: core::arch::nvptx::_block_idx_y(),\n                bz: core::arch::nvptx::_block_idx_z(),\n            };\n            core::arch::nvptx::vprintf(\n                \"panic occurred on the device in file `%s` at line `%u` for thread (%u, %u, %u), block (%u, %u, %u)\\n\\0\".as_bytes().as_ptr(),\n                &panic_print_args as *const PanicPrintArgs as *const core::ffi::c_void,\n            );\n        } else {\n            core::arch::nvptx::vprintf(\n                \"panic occurred but its location is unknown\\n\\0\".as_bytes().as_ptr(),\n                core::ptr::null(),\n            );\n        }\n        core::arch::nvptx::trap();\n    }\n}\n");
    s
}

} // verus!
