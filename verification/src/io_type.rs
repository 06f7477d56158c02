//! The types of a model's inputs and outputs, and how they are shown.

use crate::providers::string_views;
use ort::value::{TensorElementType, ValueType};
use vstd::prelude::*;

verus! {

/// The element types of ONNX Runtime.
#[derive(Clone, Copy, Debug, PartialEq, Eq, Structural)]
pub enum ElementType {
    Float32,
    Uint8,
    Int8,
    Uint16,
    Int16,
    Int32,
    Int64,
    String,
    Bool,
    Float16,
    Float64,
    Uint32,
    Uint64,
    Bfloat16,
    Complex64,
    Complex128,
    Float8E4M3FN,
    Float8E4M3FNUZ,
    Float8E5M2,
    Float8E5M2FNUZ,
    Uint4,
    Int4,
    Undefined,
}

/// The type of a model's input or output. A dimension of a tensor that is not fixed is -1
/// and may have a name.
#[derive(Debug)]
pub enum IoType {
    Tensor { ty: ElementType, shape: Vec<i64>, dimension_symbols: Vec<String> },
    Sequence(Box<IoType>),
    Mapping { key: ElementType, value: ElementType },
    Optional(Box<IoType>),
}

/// The mathematical content of a type.
pub enum IoTypeView {
    Tensor { ty: ElementType, shape: Seq<i64>, dimension_symbols: Seq<Seq<char>> },
    Sequence(Box<IoTypeView>),
    Mapping { key: ElementType, value: ElementType },
    Optional(Box<IoTypeView>),
}

/// The mathematical content of a type.
pub open spec fn io_type_view(t: IoType) -> IoTypeView
    decreases t,
{
    match t {
        IoType::Tensor { ty, shape, dimension_symbols } => IoTypeView::Tensor {
            ty,
            shape: shape@,
            dimension_symbols: string_views(dimension_symbols@),
        },
        IoType::Sequence(inner) => IoTypeView::Sequence(Box::new(io_type_view(*inner))),
        IoType::Mapping { key, value } => IoTypeView::Mapping { key, value },
        IoType::Optional(inner) => IoTypeView::Optional(Box::new(io_type_view(*inner))),
    }
}

/// `ort`'s element types.
#[verifier::external_type_specification]
#[verifier::external_body]
pub struct ExTensorElementType(TensorElementType);

/// `ort`'s types of inputs and outputs.
#[verifier::external_type_specification]
#[verifier::external_body]
pub struct ExValueType(ValueType);

/// Which of its variants an element type of `ort` is.
pub uninterp spec fn element_variant(ty: TensorElementType) -> ElementType;

/// What a value type of `ort` holds.
pub uninterp spec fn value_type_view(t: ValueType) -> IoTypeView;

/// How a type is shown: the pretty `Debug` format of `ort::value::ValueType`.
pub uninterp spec fn shown_type(t: IoTypeView) -> Seq<char>;

/// The element type in `ort`'s terms: the variant of `ort::value::TensorElementType` with the
/// same name.
#[verifier::external_body]
fn ort_element(ty: ElementType) -> (r: TensorElementType)
    ensures
        element_variant(r) == ty,
{
    match ty {
        ElementType::Float32 => TensorElementType::Float32, ElementType::Uint8 => TensorElementType::Uint8,
        ElementType::Int8 => TensorElementType::Int8, ElementType::Uint16 => TensorElementType::Uint16,
        ElementType::Int16 => TensorElementType::Int16, ElementType::Int32 => TensorElementType::Int32,
        ElementType::Int64 => TensorElementType::Int64, ElementType::String => TensorElementType::String,
        ElementType::Bool => TensorElementType::Bool, ElementType::Float16 => TensorElementType::Float16,
        ElementType::Float64 => TensorElementType::Float64, ElementType::Uint32 => TensorElementType::Uint32,
        ElementType::Uint64 => TensorElementType::Uint64, ElementType::Bfloat16 => TensorElementType::Bfloat16,
        ElementType::Complex64 => TensorElementType::Complex64, ElementType::Complex128 => TensorElementType::Complex128,
        ElementType::Float8E4M3FN => TensorElementType::Float8E4M3FN, ElementType::Float8E4M3FNUZ => TensorElementType::Float8E4M3FNUZ,
        ElementType::Float8E5M2 => TensorElementType::Float8E5M2, ElementType::Float8E5M2FNUZ => TensorElementType::Float8E5M2FNUZ,
        ElementType::Uint4 => TensorElementType::Uint4, ElementType::Int4 => TensorElementType::Int4,
        ElementType::Undefined => TensorElementType::Undefined,
    }
}

/// `ort::value::ValueType::Tensor` with the given element type, `Shape` and
/// `SymbolicDimensions`.
#[verifier::external_body]
fn ort_tensor(ty: TensorElementType, shape: Vec<i64>, dimension_symbols: Vec<String>) -> (r:
    ValueType)
    ensures
        value_type_view(r) == (IoTypeView::Tensor {
            ty: element_variant(ty),
            shape: shape@,
            dimension_symbols: string_views(dimension_symbols@),
        }),
{
    ValueType::Tensor {
        ty,
        shape: ort::value::Shape::new(shape),
        dimension_symbols: ort::value::SymbolicDimensions::new(dimension_symbols),
    }
}

/// `ort::value::ValueType::Map` with the given key and value types.
#[verifier::external_body]
fn ort_map(key: TensorElementType, value: TensorElementType) -> (r: ValueType)
    ensures
        value_type_view(r) == (IoTypeView::Mapping {
            key: element_variant(key),
            value: element_variant(value),
        }),
{
    ValueType::Map { key, value }
}

/// `ort::value::ValueType::Sequence` of the given type.
#[verifier::external_body]
fn ort_sequence(inner: ValueType) -> (r: ValueType)
    ensures
        value_type_view(r) == IoTypeView::Sequence(Box::new(value_type_view(inner))),
{
    ValueType::Sequence(Box::new(inner))
}

/// `ort::value::ValueType::Optional` of the given type.
#[verifier::external_body]
fn ort_optional(inner: ValueType) -> (r: ValueType)
    ensures
        value_type_view(r) == IoTypeView::Optional(Box::new(value_type_view(inner))),
{
    ValueType::Optional(Box::new(inner))
}

/// `Debug` of `ort::value::ValueType` in its pretty format. The text depends on what the
/// type holds and is named `shown_type`; its layout is not stated.
#[verifier::external_body]
fn debug_type(t: &ValueType) -> (r: String)
    ensures
        r@ == shown_type(value_type_view(*t)),
{
    format!("{:#?}", t)
}

/// A copy of some texts.
fn copy_texts(texts: &Vec<String>) -> (r: Vec<String>)
    ensures
        string_views(r@) == string_views(texts@),
{
    let mut out: Vec<String> = Vec::new();
    let mut i: usize = 0;
    while i < texts.len()
        invariant
            i <= texts@.len(),
            out@.len() == i,
            forall|j: int| 0 <= j < i ==> (#[trigger] out@[j])@ == texts@[j]@,
        decreases texts@.len() - i,
    {
        out.push(texts[i].clone());
        i = i + 1;
    }
    out
}

/// A type in `ort`'s terms.
fn ort_type(t: &IoType) -> (r: ValueType)
    ensures
        value_type_view(r) == io_type_view(*t),
    decreases t,
{
    match t {
        IoType::Tensor { ty, shape, dimension_symbols } => ort_tensor(
            ort_element(*ty),
            shape.clone(),
            copy_texts(dimension_symbols),
        ),
        IoType::Sequence(inner) => ort_sequence(ort_type(inner)),
        IoType::Mapping { key, value } => ort_map(ort_element(*key), ort_element(*value)),
        IoType::Optional(inner) => ort_optional(ort_type(inner)),
    }
}

/// How a type is shown to a user.
pub fn type_text(t: &IoType) -> (r: String)
    ensures
        r@ == shown_type(io_type_view(*t)),
{
    debug_type(&ort_type(t))
}

/// The content of a type is what it holds: nothing is left out, added or changed.
pub proof fn law_content_is_what_a_type_holds(t: IoType)
    ensures
        match t {
            IoType::Tensor { ty, shape, dimension_symbols } => io_type_view(t) matches
                IoTypeView::Tensor { ty: seen, shape: dims, dimension_symbols: symbols } && seen
                == ty && dims == shape@ && symbols.len() == dimension_symbols@.len() && forall|
                i: int,
            |
                0 <= i < symbols.len() ==> #[trigger] symbols[i] == dimension_symbols@[i]@,
            IoType::Mapping { key, value } => io_type_view(t) == (IoTypeView::Mapping {
                key,
                value,
            }),
            IoType::Sequence(inner) => io_type_view(t) == IoTypeView::Sequence(
                Box::new(io_type_view(*inner)),
            ),
            IoType::Optional(inner) => io_type_view(t) == IoTypeView::Optional(
                Box::new(io_type_view(*inner)),
            ),
        },
{
}

/// Types with the same content are the same kind of type with the same parts.
pub proof fn law_content_tells_types_apart(a: IoType, b: IoType)
    requires
        io_type_view(a) == io_type_view(b),
    ensures
        match (a, b) {
            (
                IoType::Tensor { ty: ty_a, shape: shape_a, dimension_symbols: symbols_a },
                IoType::Tensor { ty: ty_b, shape: shape_b, dimension_symbols: symbols_b },
            ) => ty_a == ty_b && shape_a@ == shape_b@ && symbols_a@.len() == symbols_b@.len()
                && forall|i: int|
                0 <= i < symbols_a@.len() ==> (#[trigger] symbols_a@[i])@ == symbols_b@[i]@,
            (
                IoType::Mapping { key: key_a, value: value_a },
                IoType::Mapping { key: key_b, value: value_b },
            ) => key_a == key_b && value_a == value_b,
            (IoType::Sequence(inner_a), IoType::Sequence(inner_b)) => io_type_view(*inner_a)
                == io_type_view(*inner_b),
            (IoType::Optional(inner_a), IoType::Optional(inner_b)) => io_type_view(*inner_a)
                == io_type_view(*inner_b),
            _ => false,
        },
{
    if let (
        IoType::Tensor { dimension_symbols: symbols_a, .. },
        IoType::Tensor { dimension_symbols: symbols_b, .. },
    ) = (a, b) {
        let seen_a = string_views(symbols_a@);
        let seen_b = string_views(symbols_b@);
        assert(seen_a == seen_b);
        assert(seen_a.len() == symbols_a@.len() && seen_b.len() == symbols_b@.len());
        assert forall|i: int| 0 <= i < symbols_a@.len() implies (#[trigger] symbols_a@[i])@
            == symbols_b@[i]@ by {
            assert(seen_a[i] == symbols_a@[i]@ && seen_b[i] == symbols_b@[i]@);
        }
    }
}

/// A tensor is shown with its own element type, shape and dimension symbols, and a map with
/// its own key and value types.
pub proof fn law_types_are_shown_as_they_are(t: &IoType, r: String)
    requires
        call_ensures(type_text, (t,), r),
    ensures
        r@ == shown_type(io_type_view(*t)),
        *t matches IoType::Tensor { ty, shape, dimension_symbols } ==> r@ == shown_type(
            IoTypeView::Tensor {
                ty,
                shape: shape@,
                dimension_symbols: dimension_symbols@.map_values(|s: String| s@),
            },
        ),
        *t matches IoType::Mapping { key, value } ==> r@ == shown_type(
            IoTypeView::Mapping { key, value },
        ),
{
    if let IoType::Tensor { dimension_symbols, .. } = *t {
        assert(string_views(dimension_symbols@) == dimension_symbols@.map_values(|s: String| s@));
    }
}

} // verus!
