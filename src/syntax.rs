//! The parts of a user kernel function that code generation needs, read from
//! its source text with `syn`.
use vstd::prelude::*;
use crate::text::str_eq;

verus! {

/// Whether `syn` accepts a text as one Rust function item.
pub uninterp spec fn parses_as_item_fn(src: Seq<char>) -> bool;

/// Number of inputs of the function item that `syn` reads from a text.
pub uninterp spec fn fn_input_count(src: Seq<char>) -> nat;

/// Name of input `i` of that function item, where the input is a plain
/// typed identifier.
pub uninterp spec fn fn_input_name(src: Seq<char>, i: nat) -> Option<Seq<char>>;

/// Token text of the declared type of input `i` of that function item.
pub uninterp spec fn fn_input_type(src: Seq<char>, i: nat) -> Option<Seq<char>>;

/// Token text of the body block of that function item, braces included.
pub uninterp spec fn fn_block(src: Seq<char>) -> Seq<char>;

/// Relies on `syn::parse_str::<syn::ItemFn>`: whether the text parses as a
/// function item depends on the text alone.
#[verifier::external_body]
fn parses(src: &str) -> (r: bool)
    ensures
        r == parses_as_item_fn(src@),
{
    syn::parse_str::<syn::ItemFn>(src).is_ok()
}

/// Relies on `syn::parse_str::<syn::ItemFn>` and `Punctuated::len` of its inputs.
#[verifier::external_body]
fn input_count(src: &str) -> (r: usize)
    requires
        parses_as_item_fn(src@),
    ensures
        r == fn_input_count(src@),
{
    match syn::parse_str::<syn::ItemFn>(src) {
        Ok(f) => f.sig.inputs.len(),
        Err(_) => 0,
    }
}

/// Relies on `syn::parse_str::<syn::ItemFn>` and `Punctuated::iter` of its
/// inputs: the identifier of input `i` where it is a plain typed identifier.
#[verifier::external_body]
fn input_name(src: &str, i: usize) -> (r: Option<String>)
    requires
        parses_as_item_fn(src@),
    ensures
        r is Some == fn_input_name(src@, i as nat) is Some,
        r is Some ==> r->0@ == fn_input_name(src@, i as nat)->0,
{
    let f = syn::parse_str::<syn::ItemFn>(src).ok()?;
    match f.sig.inputs.iter().nth(i) {
        Some(syn::FnArg::Typed(pat_type)) => match &*pat_type.pat {
            syn::Pat::Ident(pat_ident) => Some(pat_ident.ident.to_string()),
            _ => None,
        },
        _ => None,
    }
}

/// Relies on `syn::parse_str::<syn::ItemFn>` and `quote::ToTokens::to_token_stream`
/// for the declared type of input `i`.
#[verifier::external_body]
fn input_type_text(src: &str, i: usize) -> (r: Option<String>)
    requires
        parses_as_item_fn(src@),
    ensures
        r is Some == fn_input_type(src@, i as nat) is Some,
        r is Some ==> r->0@ == fn_input_type(src@, i as nat)->0,
{
    let f = syn::parse_str::<syn::ItemFn>(src).ok()?;
    match f.sig.inputs.iter().nth(i) {
        Some(syn::FnArg::Typed(pat_type)) => Some(quote::ToTokens::to_token_stream(&*pat_type.ty).to_string()),
        _ => None,
    }
}

/// Relies on `syn::parse_str::<syn::ItemFn>` and `quote::ToTokens::to_token_stream`
/// for the function's body block.
#[verifier::external_body]
fn block_text(src: &str) -> (r: String)
    requires
        parses_as_item_fn(src@),
    ensures
        r@ == fn_block(src@),
{
    match syn::parse_str::<syn::ItemFn>(src) {
        Ok(f) => quote::ToTokens::to_token_stream(&*f.block).to_string(),
        Err(_) => String::new(),
    }
}

/// The shape a kernel function must have.
#[derive(Clone, Copy, PartialEq, Eq, Debug, Structural)]
pub enum KernelShape {
    /// One input: a pixel or a patch.
    Single,
    /// One input, the image, then any of `col: usize` and `row: usize`.
    Indexed,
}

/// A kernel function as code generation uses it.
pub struct KernelFn {
    /// Name of the first input.
    pub param: String,
    /// Names of the index inputs that follow it (`col`, `row`).
    pub extra: Vec<String>,
    /// The body block, braces included.
    pub block: String,
}

/// Why a kernel's source text was not accepted.
#[derive(Clone, Copy, PartialEq, Eq, Debug, Structural)]
pub enum KernelError {
    /// The text is not one Rust function item.
    NotAFunction,
    /// The inputs do not have the shape that the operation asks for.
    Signature,
}

/// Whether an index input of an image kernel is acceptable: named `col` or
/// `row`, of type `usize`.
pub open spec fn is_index_input(name: Seq<char>, ty: Seq<char>) -> bool {
    (name == "col"@ || name == "row"@) && ty == "usize"@
}

/// The function in `src` has the inputs that `shape` asks for: a first input
/// that is a plain identifier, then none (`Single`) or only index inputs
/// (`Indexed`).
pub open spec fn shape_ok(src: Seq<char>, shape: KernelShape) -> bool {
    &&& fn_input_count(src) >= 1
    &&& fn_input_name(src, 0) is Some
    &&& match shape {
        KernelShape::Single => fn_input_count(src) == 1,
        KernelShape::Indexed => forall|i: nat|
            1 <= i < fn_input_count(src) ==> #[trigger] fn_input_name(src, i) is Some
                && fn_input_type(src, i) is Some && is_index_input(
                fn_input_name(src, i)->0,
                fn_input_type(src, i)->0,
            ),
    }
}

/// `f` holds the parts of the function in `src`: its first input's name, the
/// names of the inputs after it, and its body block.
pub open spec fn kernel_of(f: KernelFn, src: Seq<char>) -> bool {
    &&& f.param@ == fn_input_name(src, 0)->0
    &&& f.block@ == fn_block(src)
    &&& f.extra@.len() + 1 == fn_input_count(src)
    &&& forall|k: int| 0 <= k < f.extra@.len() ==> #[trigger] f.extra@[k]@ == fn_input_name(src, (k + 1) as nat)->0
}

pub fn is_valid_map_image_kernel_input(name: &str, ty: &str) -> (r: bool)
    ensures
        r == is_index_input(name@, ty@),
{
    (str_eq(name, "col") || str_eq(name, "row")) && str_eq(ty, "usize")
}

/// Reads the parts of a kernel function from its source text: `NotAFunction`
/// when the text is not a function item, `Signature` when its inputs do not
/// have the shape asked for.
pub fn parse_kernel(src: &str, shape: KernelShape) -> (r: Result<KernelFn, KernelError>)
    ensures
        !parses_as_item_fn(src@) ==> r == Err::<KernelFn, KernelError>(KernelError::NotAFunction),
        parses_as_item_fn(src@) && !shape_ok(src@, shape) ==> r == Err::<KernelFn, KernelError>(
            KernelError::Signature,
        ),
        r is Ok <==> parses_as_item_fn(src@) && shape_ok(src@, shape),
        r is Ok ==> kernel_of(r->Ok_0, src@),
{
    if !parses(src) {
        return Err(KernelError::NotAFunction);
    }
    let n = input_count(src);
    if n == 0 {
        return Err(KernelError::Signature);
    }
    let param = match input_name(src, 0) {
        Some(p) => p,
        None => return Err(KernelError::Signature),
    };
    let mut extra: Vec<String> = Vec::new();
    match shape {
        KernelShape::Single => {
            if n != 1 {
                return Err(KernelError::Signature);
            }
        },
        KernelShape::Indexed => {
            let mut i: usize = 1;
            while i < n
                invariant
                    1 <= i <= n,
                    n == fn_input_count(src@),
                    parses_as_item_fn(src@),
                    fn_input_name(src@, 0) is Some,
                    shape == KernelShape::Indexed,
                    extra@.len() + 1 == i,
                    forall|k: int| 0 <= k < extra@.len() ==> #[trigger] extra@[k]@ == fn_input_name(src@, (k + 1) as nat)->0,
                    forall|q: nat|
                        1 <= q < i ==> #[trigger] fn_input_name(src@, q) is Some && fn_input_type(src@, q) is Some
                            && is_index_input(fn_input_name(src@, q)->0, fn_input_type(src@, q)->0),
                decreases n - i,
            {
                let name = match input_name(src, i) {
                    Some(name) => name,
                    None => return Err(KernelError::Signature),
                };
                let ty = match input_type_text(src, i) {
                    Some(ty) => ty,
                    None => return Err(KernelError::Signature),
                };
                if !is_valid_map_image_kernel_input(name.as_str(), ty.as_str()) {
                    return Err(KernelError::Signature);
                }
                extra.push(name);
                i = i + 1;
            }
        },
    }
    Ok(KernelFn { param, extra, block: block_text(src) })
}

} // verus!
