//! Tensors as they travel between Elixir and ONNX Runtime.
//!
//! A tensor is an element type, a shape, and the bytes of its elements in row-major order,
//! each element in the machine's own representation. The bytes live in an array of the
//! tensor's shape with one more axis, which runs over the bytes of an element and has length
//! zero where there are no elements.

use crate::error::Error;
use crate::io_type::ElementType;
use crate::numeral::{numeral, usize_text};
use crate::text::same_text;
use vstd::prelude::*;

verus! {

/// The type of a tensor's elements.
#[derive(Clone, Copy, Debug, PartialEq, Eq, Structural)]
pub enum Dtype {
    Bf16,
    F16,
    F32,
    F64,
    S8,
    S16,
    S32,
    S64,
    U8,
    U16,
    U32,
    U64,
}

/// The name of an element type's family and its size in bits.
pub open spec fn dtype_name(dtype: Dtype) -> (Seq<char>, usize) {
    match dtype {
        Dtype::Bf16 => ("bf"@, 16),
        Dtype::F16 => ("f"@, 16),
        Dtype::F32 => ("f"@, 32),
        Dtype::F64 => ("f"@, 64),
        Dtype::S8 => ("s"@, 8),
        Dtype::S16 => ("s"@, 16),
        Dtype::S32 => ("s"@, 32),
        Dtype::S64 => ("s"@, 64),
        Dtype::U8 => ("u"@, 8),
        Dtype::U16 => ("u"@, 16),
        Dtype::U32 => ("u"@, 32),
        Dtype::U64 => ("u"@, 64),
    }
}

/// The element type with the given family and size in bits.
pub open spec fn dtype_of(family: Seq<char>, bits: usize) -> Option<Dtype> {
    if family == "bf"@ && bits == 16 {
        Some(Dtype::Bf16)
    } else if family == "f"@ && bits == 16 {
        Some(Dtype::F16)
    } else if family == "f"@ && bits == 32 {
        Some(Dtype::F32)
    } else if family == "f"@ && bits == 64 {
        Some(Dtype::F64)
    } else if family == "s"@ && bits == 8 {
        Some(Dtype::S8)
    } else if family == "s"@ && bits == 16 {
        Some(Dtype::S16)
    } else if family == "s"@ && bits == 32 {
        Some(Dtype::S32)
    } else if family == "s"@ && bits == 64 {
        Some(Dtype::S64)
    } else if family == "u"@ && bits == 8 {
        Some(Dtype::U8)
    } else if family == "u"@ && bits == 16 {
        Some(Dtype::U16)
    } else if family == "u"@ && bits == 32 {
        Some(Dtype::U32)
    } else if family == "u"@ && bits == 64 {
        Some(Dtype::U64)
    } else {
        None
    }
}

/// The size of an element in bytes.
pub open spec fn byte_width(dtype: Dtype) -> usize {
    match dtype {
        Dtype::S8 | Dtype::U8 => 1,
        Dtype::Bf16 | Dtype::F16 | Dtype::S16 | Dtype::U16 => 2,
        Dtype::F32 | Dtype::S32 | Dtype::U32 => 4,
        Dtype::F64 | Dtype::S64 | Dtype::U64 => 8,
    }
}

impl Dtype {
    /// The element type with the given family and size in bits.
    pub fn named(family: &str, bits: usize) -> (r: Option<Dtype>)
        ensures
            r == dtype_of(family@, bits),
    {
        proof {
            lemma_families_differ();
        }
        if same_text(family, "bf") {
            match bits {
                16 => Some(Dtype::Bf16),
                _ => None,
            }
        } else if same_text(family, "f") {
            match bits {
                16 => Some(Dtype::F16),
                32 => Some(Dtype::F32),
                64 => Some(Dtype::F64),
                _ => None,
            }
        } else if same_text(family, "s") {
            match bits {
                8 => Some(Dtype::S8),
                16 => Some(Dtype::S16),
                32 => Some(Dtype::S32),
                64 => Some(Dtype::S64),
                _ => None,
            }
        } else if same_text(family, "u") {
            match bits {
                8 => Some(Dtype::U8),
                16 => Some(Dtype::U16),
                32 => Some(Dtype::U32),
                64 => Some(Dtype::U64),
                _ => None,
            }
        } else {
            None
        }
    }

    /// The name of the family and the size in bits.
    pub fn name(self) -> (r: (String, usize))
        ensures
            (r.0@, r.1) == dtype_name(self),
    {
        let (family, bits): (&str, usize) = match self {
            Dtype::Bf16 => ("bf", 16),
            Dtype::F16 => ("f", 16),
            Dtype::F32 => ("f", 32),
            Dtype::F64 => ("f", 64),
            Dtype::S8 => ("s", 8),
            Dtype::S16 => ("s", 16),
            Dtype::S32 => ("s", 32),
            Dtype::S64 => ("s", 64),
            Dtype::U8 => ("u", 8),
            Dtype::U16 => ("u", 16),
            Dtype::U32 => ("u", 32),
            Dtype::U64 => ("u", 64),
        };
        (family.to_owned(), bits)
    }

    /// The size of an element in bytes.
    pub fn width(self) -> (r: usize)
        ensures
            r == byte_width(self),
    {
        match self {
            Dtype::S8 | Dtype::U8 => 1,
            Dtype::Bf16 | Dtype::F16 | Dtype::S16 | Dtype::U16 => 2,
            Dtype::F32 | Dtype::S32 | Dtype::U32 => 4,
            Dtype::F64 | Dtype::S64 | Dtype::U64 => 8,
        }
    }
}

/// The names of the families are distinct.
proof fn lemma_families_differ()
    ensures
        "bf"@ != "f"@,
        "bf"@ != "s"@,
        "bf"@ != "u"@,
        "f"@ != "s"@,
        "f"@ != "u"@,
        "s"@ != "u"@,
{
    reveal_strlit("bf");
    reveal_strlit("f");
    reveal_strlit("s");
    reveal_strlit("u");
    assert("bf"@.len() == 2 && "f"@.len() == 1 && "s"@.len() == 1 && "u"@.len() == 1);
    assert("f"@[0] == 'f' && "s"@[0] == 's' && "u"@[0] == 'u');
}

/// The number of elements of a shape.
pub open spec fn product(shape: Seq<usize>) -> nat
    decreases shape.len(),
{
    if shape.len() == 0 {
        1
    } else {
        product(shape.drop_last()) * shape.last() as nat
    }
}

/// The product of the axis lengths other than zero.
pub open spec fn nonzero_product(shape: Seq<usize>) -> nat
    decreases shape.len(),
{
    if shape.len() == 0 {
        1
    } else if shape.last() == 0 {
        nonzero_product(shape.drop_last())
    } else {
        nonzero_product(shape.drop_last()) * shape.last() as nat
    }
}

/// `len` elements are enough to fill an array of the given shape, and the shape is one that
/// an array can have.
pub open spec fn shape_fits(shape: Seq<usize>, len: nat) -> bool {
    nonzero_product(shape) <= isize::MAX && product(shape) <= len
}

/// An owned `ndarray` array of bytes with any number of axes.
#[verifier::external_body]
#[derive(Debug)]
pub struct ByteArray {
    inner: ndarray::ArrayD<u8>,
}

/// The lengths of an array's axes.
pub uninterp spec fn axis_lengths(a: ByteArray) -> Seq<usize>;

/// An array's elements in logical order: the rightmost index varies fastest.
pub uninterp spec fn elements(a: ByteArray) -> Seq<u8>;

/// The error of `ndarray` for a shape that does not go with the data.
#[verifier::external_type_specification]
#[verifier::external_body]
pub struct ExShapeError(ndarray::ShapeError);

/// What an error of `ndarray` is about: data that are too short, a shape beyond what memory
/// can hold, or something else.
#[derive(Clone, Copy, Debug, PartialEq, Eq, Structural)]
pub enum ShapeFault {
    OutOfBounds,
    Overflow,
    Other,
}

/// The kind of an error of `ndarray`.
pub uninterp spec fn shape_fault(e: ndarray::ShapeError) -> ShapeFault;

/// `ndarray::ArrayView::from_shape` on a slice, copied by `to_owned`: an array of the given
/// shape that holds the first bytes of the slice in row-major order. It fails where the
/// product of the axis lengths other than zero exceeds `isize::MAX`, with an error of the
/// kind `Overflow`, and else where the slice is shorter than the array, with one of the kind
/// `OutOfBounds`.
#[verifier::external_body]
fn copy_array(shape: &[usize], bytes: &[u8]) -> (r: Result<ByteArray, ndarray::ShapeError>)
    ensures
        r is Ok <==> shape_fits(shape@, bytes@.len()),
        r matches Ok(a) ==> axis_lengths(a) == shape@ && elements(a) == bytes@.take(
            product(shape@) as int,
        ),
        r matches Err(e) ==> shape_fault(e) == (if nonzero_product(shape@) > isize::MAX {
            ShapeFault::Overflow
        } else {
            ShapeFault::OutOfBounds
        }),
{
    let view = ndarray::ArrayView::from_shape(ndarray::IxDyn(shape), bytes)?;
    Ok(ByteArray { inner: view.to_owned() })
}

/// `ndarray`'s `shape`, copied: the lengths of the axes.
#[verifier::external_body]
fn array_shape(a: &ByteArray) -> (r: Vec<usize>)
    ensures
        r@ == axis_lengths(*a),
{
    a.inner.shape().to_vec()
}

/// `ndarray`'s `iter`, copied: the elements in logical order.
#[verifier::external_body]
fn array_elements(a: &ByteArray) -> (r: Vec<u8>)
    ensures
        r@ == elements(*a),
{
    a.inner.iter().copied().collect()
}

/// What a tensor is: element type, shape, and the bytes of its elements.
pub struct TensorView {
    pub dtype: Dtype,
    pub shape: Seq<usize>,
    pub bytes: Seq<u8>,
}

/// The number of bytes of a tensor.
pub open spec fn byte_size(shape: Seq<usize>, dtype: Dtype) -> nat {
    product(shape) * byte_width(dtype) as nat
}

/// Memory can hold a tensor of this shape and element type.
pub open spec fn is_addressable(shape: Seq<usize>, dtype: Dtype) -> bool {
    nonzero_product(shape) <= isize::MAX && byte_size(shape, dtype) <= isize::MAX
}

/// A tensor has as many bytes as its shape and element type say, and fits into memory.
pub open spec fn is_tensor(t: TensorView) -> bool {
    is_addressable(t.shape, t.dtype) && t.bytes.len() == byte_size(t.shape, t.dtype)
}

/// A tensor of the library.
#[derive(Debug)]
pub struct OrtexTensor {
    dtype: Dtype,
    data: ByteArray,
}

impl View for OrtexTensor {
    type V = TensorView;

    closed spec fn view(&self) -> TensorView {
        TensorView {
            dtype: self.dtype,
            shape: axis_lengths(self.data).drop_last(),
            bytes: elements(self.data),
        }
    }
}

/// The bytes do not go with the shape: there are too few, or memory cannot hold the tensor.
#[derive(Debug)]
pub struct ShapeMismatch {
    pub cause: ndarray::ShapeError,
}

/// The tensor whose elements are the first bytes of a binary, where there are enough.
pub open spec fn tensor_of(bin: Seq<u8>, shape: Seq<usize>, dtype: Dtype) -> Option<TensorView> {
    if is_addressable(shape, dtype) && byte_size(shape, dtype) <= bin.len() {
        Some(TensorView { dtype, shape, bytes: bin.take(byte_size(shape, dtype) as int) })
    } else {
        None
    }
}

/// The binary that a tensor is sent as.
pub open spec fn binary_of(t: TensorView) -> Seq<u8> {
    t.bytes
}

impl OrtexTensor {
    /// There is an axis for the bytes of an element behind those of the tensor.
    #[verifier::type_invariant]
    spec fn wf(self) -> bool {
        &&& axis_lengths(self.data).len() > 0
        &&& is_tensor(self@)
    }

    /// The lengths of the axes.
    pub fn shape(&self) -> (r: Vec<usize>)
        ensures
            r@ == self@.shape,
    {
        proof {
            use_type_invariant(self);
        }
        let mut axes = array_shape(&self.data);
        let _ = axes.pop();
        axes
    }

    /// The family of the element type and its size in bits.
    pub fn dtype(&self) -> (r: (String, usize))
        ensures
            (r.0@, r.1) == dtype_name(self@.dtype),
    {
        self.dtype.name()
    }

    /// The bytes of the elements.
    pub fn to_bytes(&self) -> (r: Vec<u8>)
        ensures
            r@ == binary_of(self@),
            is_tensor(self@),
    {
        proof {
            use_type_invariant(self);
        }
        array_elements(&self.data)
    }
}

/// A shape without an axis of length zero has as many elements as its nonzero axes say.
proof fn lemma_product_without_zero(shape: Seq<usize>)
    requires
        !shape.contains(0),
    ensures
        product(shape) == nonzero_product(shape),
    decreases shape.len(),
{
    if shape.len() > 0 {
        assert(shape[shape.len() - 1] != 0);
        assert forall|i: int| 0 <= i < shape.len() - 1 implies #[trigger] shape.drop_last()[i]
            != 0 by {
            assert(shape[i] != 0);
        }
        lemma_product_without_zero(shape.drop_last());
    }
}

/// A shape with an axis of length zero has no elements.
proof fn lemma_product_with_zero(shape: Seq<usize>, i: int)
    requires
        0 <= i < shape.len(),
        shape[i] == 0,
    ensures
        product(shape) == 0,
    decreases shape.len(),
{
    if i < shape.len() - 1 {
        lemma_product_with_zero(shape.drop_last(), i);
        assert(0 * shape.last() as nat == 0);
    } else {
        assert(product(shape.drop_last()) * 0 == 0);
    }
}

/// Whether an array of this shape has no elements.
fn is_empty_shape(shape: &Vec<usize>) -> (r: bool)
    ensures
        r == shape@.contains(0),
{
    let mut i: usize = 0;
    while i < shape.len()
        invariant
            i <= shape@.len(),
            forall|j: int| 0 <= j < i ==> shape@[j] != 0,
        decreases shape@.len() - i,
    {
        if shape[i] == 0 {
            return true;
        }
        i = i + 1;
    }
    false
}

/// Makes a tensor of a binary, a shape, and an element type given by its family and its size
/// in bits, such as `u` and 32.
///
/// The binary may be longer than the tensor; the rest of it is not used.
pub fn from_binary(bin: &[u8], shape: Vec<usize>, dtype_str: String, dtype_bits: usize) -> (r:
    Result<OrtexTensor, ShapeMismatch>)
    requires
        dtype_of(dtype_str@, dtype_bits) is Some,
    ensures
        match r {
            Ok(t) => tensor_of(bin@, shape@, dtype_of(dtype_str@, dtype_bits)->0) == Some(t@),
            Err(e) => {
                let dtype = dtype_of(dtype_str@, dtype_bits)->0;
                &&& tensor_of(bin@, shape@, dtype) is None
                &&& shape_fault(e.cause) == (if is_addressable(shape@, dtype) {
                    ShapeFault::OutOfBounds
                } else {
                    ShapeFault::Overflow
                })
            },
        },
{
    let dtype = Dtype::named(dtype_str.as_str(), dtype_bits).unwrap();
    let width: usize = if is_empty_shape(&shape) {
        0
    } else {
        dtype.width()
    };
    let mut axes = shape;
    axes.push(width);
    proof {
        assert(axes@.drop_last() == shape@);
        if width == 0 {
            let i = choose|i: int| 0 <= i < shape@.len() && shape@[i] == 0;
            lemma_product_with_zero(shape@, i);
            assert(product(shape@) * width as nat == 0 && 0 * byte_width(dtype) as nat == 0);
        } else {
            lemma_product_without_zero(shape@);
            let n = product(shape@);
            assert(n <= n * width) by (nonlinear_arith)
                requires
                    width >= 1,
            ;
        }
    }
    match copy_array(axes.as_slice(), bin) {
        Ok(data) => Ok(OrtexTensor { dtype, data }),
        Err(cause) => Err(ShapeMismatch { cause }),
    }
}

/// The binary that a tensor is sent as. The size of an element and the number of elements
/// that the caller names make no difference.
pub fn to_binary(reference: &OrtexTensor, _bits: usize, _limit: usize) -> (r: Vec<u8>)
    ensures
        r@ == binary_of(reference@),
        is_tensor(reference@),
{
    reference.to_bytes()
}

/// The element type in which a tensor of the library carries elements of a session's type;
/// booleans are carried as bytes.
pub open spec fn dtype_carrying(ty: ElementType) -> Option<Dtype> {
    match ty {
        ElementType::Bfloat16 => Some(Dtype::Bf16),
        ElementType::Float16 => Some(Dtype::F16),
        ElementType::Float32 => Some(Dtype::F32),
        ElementType::Float64 => Some(Dtype::F64),
        ElementType::Int8 => Some(Dtype::S8),
        ElementType::Int16 => Some(Dtype::S16),
        ElementType::Int32 => Some(Dtype::S32),
        ElementType::Int64 => Some(Dtype::S64),
        ElementType::Uint8 => Some(Dtype::U8),
        ElementType::Uint16 => Some(Dtype::U16),
        ElementType::Uint32 => Some(Dtype::U32),
        ElementType::Uint64 => Some(Dtype::U64),
        ElementType::Bool => Some(Dtype::U8),
        _ => None,
    }
}

/// The element type in which a tensor of the library carries elements of a session's type.
pub fn dtype_for(ty: ElementType) -> (r: Option<Dtype>)
    ensures
        r == dtype_carrying(ty),
{
    match ty {
        ElementType::Bfloat16 => Some(Dtype::Bf16),
        ElementType::Float16 => Some(Dtype::F16),
        ElementType::Float32 => Some(Dtype::F32),
        ElementType::Float64 => Some(Dtype::F64),
        ElementType::Int8 => Some(Dtype::S8),
        ElementType::Int16 => Some(Dtype::S16),
        ElementType::Int32 => Some(Dtype::S32),
        ElementType::Int64 => Some(Dtype::S64),
        ElementType::Uint8 => Some(Dtype::U8),
        ElementType::Uint16 => Some(Dtype::U16),
        ElementType::Uint32 => Some(Dtype::U32),
        ElementType::Uint64 => Some(Dtype::U64),
        ElementType::Bool => Some(Dtype::U8),
        _ => None,
    }
}

/// The byte that stands for a boolean.
pub open spec fn bool_byte(b: bool) -> u8 {
    if b {
        1
    } else {
        0
    }
}

/// The bytes that stand for some booleans.
pub open spec fn bool_bytes(elements: Seq<bool>) -> Seq<u8> {
    elements.map_values(|b: bool| bool_byte(b))
}

/// The booleans that some bytes stand for, or the first byte that stands for none.
pub open spec fn bools_denoted(bytes: Seq<u8>) -> Result<Seq<bool>, u8>
    decreases bytes.len(),
{
    if bytes.len() == 0 {
        Ok(Seq::empty())
    } else {
        match bools_denoted(bytes.drop_last()) {
            Err(byte) => Err(byte),
            Ok(done) => if bytes.last() <= 1 {
                Ok(done.push(bytes.last() == 1))
            } else {
                Err(bytes.last())
            },
        }
    }
}

/// The booleans that a tensor of bytes stands for; or a message, where the tensor is none of
/// bytes or some byte is neither 0 nor 1.
pub open spec fn tensor_bools(t: TensorView) -> Result<Seq<bool>, Seq<char>> {
    if t.dtype != Dtype::U8 {
        Err(
            "cannot convert {"@ + dtype_name(t.dtype).0 + ", "@ + numeral(
                dtype_name(t.dtype).1 as nat,
            ) + "} to bool"@,
        )
    } else {
        match bools_denoted(t.bytes) {
            Ok(elements) => Ok(elements),
            Err(byte) => Err("cannot convert "@ + numeral(byte as nat) + " to bool"@),
        }
    }
}

/// The bytes that stand for some booleans.
pub fn bytes_of_bools(elements: &[bool]) -> (r: Vec<u8>)
    ensures
        r@ == bool_bytes(elements@),
{
    let mut out: Vec<u8> = Vec::new();
    let mut i: usize = 0;
    while i < elements.len()
        invariant
            i <= elements@.len(),
            out@.len() == i,
            forall|j: int| 0 <= j < i ==> #[trigger] out@[j] == bool_byte(elements@[j]),
        decreases elements@.len() - i,
    {
        out.push(
            if elements[i] {
                1
            } else {
                0
            },
        );
        i = i + 1;
    }
    out
}

/// Makes a tensor of booleans and a shape. Its elements are the bytes that stand for them.
pub fn from_bools(elements: &[bool], shape: Vec<usize>) -> (r: Result<OrtexTensor, ShapeMismatch>)
    ensures
        match r {
            Ok(t) => tensor_of(bool_bytes(elements@), shape@, Dtype::U8) == Some(t@),
            Err(e) => {
                &&& tensor_of(bool_bytes(elements@), shape@, Dtype::U8) is None
                &&& shape_fault(e.cause) == (if is_addressable(shape@, Dtype::U8) {
                    ShapeFault::OutOfBounds
                } else {
                    ShapeFault::Overflow
                })
            },
        },
{
    proof {
        lemma_families_differ();
    }
    from_binary(bytes_of_bools(elements).as_slice(), shape, "u".to_owned(), 8)
}

/// A byte that stands for no boolean is what the whole row is refused for.
proof fn lemma_bool_failure_stays(bytes: Seq<u8>, k: int)
    requires
        0 <= k <= bytes.len(),
        bools_denoted(bytes.take(k)) is Err,
    ensures
        bools_denoted(bytes) == bools_denoted(bytes.take(k)),
    decreases bytes.len() - k,
{
    if k == bytes.len() {
        assert(bytes.take(k) == bytes);
    } else {
        assert(bytes.take(k + 1).drop_last() == bytes.take(k));
        lemma_bool_failure_stays(bytes, k + 1);
    }
}

/// Reads a tensor as booleans: each element is a byte, 0 or 1.
pub fn bool_elements(t: &OrtexTensor) -> (r: Result<Vec<bool>, Error>)
    ensures
        match r {
            Ok(elements) => tensor_bools(t@) == Ok::<Seq<bool>, Seq<char>>(elements@),
            Err(e) => tensor_bools(t@) == Err::<Seq<bool>, Seq<char>>(e@),
        },
{
    if t.dtype != Dtype::U8 {
        let (family, bits) = t.dtype();
        return Err(
            Error::new(
                "cannot convert {".to_owned().concat(family.as_str()).concat(", ").concat(
                    usize_text(bits).as_str(),
                ).concat("} to bool"),
            ),
        );
    }
    let bytes = t.to_bytes();
    let mut out: Vec<bool> = Vec::new();
    let mut i: usize = 0;
    assert(bytes@.take(0) == Seq::<u8>::empty());
    while i < bytes.len()
        invariant
            i <= bytes@.len(),
            bytes@ == t@.bytes,
            t@.dtype == Dtype::U8,
            bools_denoted(bytes@.take(i as int)) == Ok::<Seq<bool>, u8>(out@),
        decreases bytes@.len() - i,
    {
        assert(bytes@.take(i + 1).drop_last() == bytes@.take(i as int));
        let byte: u8 = bytes[i];
        if byte > 1 {
            proof {
                lemma_bool_failure_stays(bytes@, i + 1);
            }
            return Err(
                Error::new(
                    "cannot convert ".to_owned().concat(usize_text(byte as usize).as_str()).concat(
                        " to bool",
                    ),
                ),
            );
        }
        out.push(byte == 1);
        i = i + 1;
    }
    assert(bytes@.take(bytes@.len() as int) == bytes@);
    Ok(out)
}

/// Booleans that were turned into bytes read back.
pub proof fn law_bools_read_back(elements: Seq<bool>)
    ensures
        bools_denoted(bool_bytes(elements)) == Ok::<Seq<bool>, u8>(elements),
    decreases elements.len(),
{
    if elements.len() > 0 {
        let front = elements.drop_last();
        law_bools_read_back(front);
        assert(bool_bytes(elements).drop_last() == bool_bytes(front));
        assert(front.push(elements.last()) == elements);
    } else {
        assert(elements == Seq::<bool>::empty());
    }
}

/// Booleans come out of a session as a tensor of bytes, which goes into a session as the same
/// booleans.
pub proof fn law_bool_outputs_feed_bool_inputs(elements: Seq<bool>, shape: Seq<usize>)
    requires
        tensor_of(bool_bytes(elements), shape, Dtype::U8) is Some,
        elements.len() == product(shape),
    ensures
        dtype_carrying(ElementType::Bool) == Some(Dtype::U8),
        tensor_bools(tensor_of(bool_bytes(elements), shape, Dtype::U8)->0) == Ok::<
            Seq<bool>,
            Seq<char>,
        >(elements),
{
    law_bools_read_back(elements);
    let bytes = bool_bytes(elements);
    assert(byte_width(Dtype::U8) == 1 && product(shape) * 1 == product(shape));
    assert(byte_size(shape, Dtype::U8) == bytes.len());
    assert(bytes.take(bytes.len() as int) == bytes);
}

/// A tensor can be read as booleans exactly where it is one of bytes and each is 0 or 1.
pub proof fn law_bool_tensors(t: TensorView)
    ensures
        tensor_bools(t) is Ok <==> t.dtype == Dtype::U8 && forall|i: int|
            0 <= i < t.bytes.len() ==> #[trigger] t.bytes[i] <= 1,
{
    lemma_bool_bytes(t.bytes);
}

/// Bytes stand for booleans exactly where each is 0 or 1.
proof fn lemma_bool_bytes(bytes: Seq<u8>)
    ensures
        bools_denoted(bytes) is Ok <==> forall|i: int|
            0 <= i < bytes.len() ==> #[trigger] bytes[i] <= 1,
    decreases bytes.len(),
{
    if bytes.len() > 0 {
        let front = bytes.drop_last();
        lemma_bool_bytes(front);
        assert(bytes.last() == bytes[bytes.len() - 1]);
        if bools_denoted(bytes) is Ok {
            assert forall|i: int| 0 <= i < bytes.len() implies #[trigger] bytes[i] <= 1 by {
                if i < front.len() {
                    assert(front[i] <= 1);
                }
            }
        }
        if bools_denoted(front) is Err {
            let i = choose|i: int| 0 <= i < front.len() && #[trigger] front[i] > 1;
            assert(bytes[i] > 1);
        }
    }
}

/// A tensor that was made of a binary is sent back as the bytes that it was made of; where
/// the binary has just the bytes of the tensor, that is the whole binary.
pub proof fn law_binary_comes_back(bin: Seq<u8>, shape: Seq<usize>, dtype: Dtype)
    requires
        tensor_of(bin, shape, dtype) is Some,
    ensures
        binary_of(tensor_of(bin, shape, dtype)->0) == bin.take(byte_size(shape, dtype) as int),
        bin.len() == byte_size(shape, dtype) ==> binary_of(tensor_of(bin, shape, dtype)->0) == bin,
{
    assert(bin.take(bin.len() as int) == bin);
}

/// A tensor that was sent is made again of its binary, shape and element type.
pub proof fn law_tensor_comes_back(t: TensorView)
    requires
        is_tensor(t),
    ensures
        tensor_of(binary_of(t), t.shape, t.dtype) == Some(t),
{
    assert(t.bytes.take(t.bytes.len() as int) == t.bytes);
}

/// What is made of a binary is a tensor with the shape and element type that were asked for.
pub proof fn law_made_as_asked(bin: Seq<u8>, shape: Seq<usize>, dtype: Dtype)
    requires
        tensor_of(bin, shape, dtype) is Some,
    ensures
        is_tensor(tensor_of(bin, shape, dtype)->0),
        (tensor_of(bin, shape, dtype)->0).shape == shape,
        (tensor_of(bin, shape, dtype)->0).dtype == dtype,
{
}

/// Bytes behind those of the tensor make no difference.
pub proof fn law_rest_is_ignored(bin: Seq<u8>, rest: Seq<u8>, shape: Seq<usize>, dtype: Dtype)
    requires
        tensor_of(bin, shape, dtype) is Some,
    ensures
        tensor_of(bin + rest, shape, dtype) == tensor_of(bin, shape, dtype),
{
    let n = byte_size(shape, dtype) as int;
    assert((bin + rest).take(n) == bin.take(n));
}

/// An element type is found under its name, and its size in bits is that of its bytes.
pub proof fn law_dtype_has_its_name(dtype: Dtype)
    ensures
        dtype_of(dtype_name(dtype).0, dtype_name(dtype).1) == Some(dtype),
        dtype_name(dtype).1 == 8 * byte_width(dtype),
{
    lemma_families_differ();
}

/// What is found under a name has that name.
pub proof fn law_name_has_its_dtype(family: Seq<char>, bits: usize)
    requires
        dtype_of(family, bits) is Some,
    ensures
        dtype_name(dtype_of(family, bits)->0) == (family, bits),
{
}

/// Element types are found under the names of their families and their sizes in bits, and
/// under no others.
pub proof fn law_dtypes_are_found_by_name(family: &str, bits: usize, r: Option<Dtype>)
    requires
        call_ensures(Dtype::named, (family, bits), r),
    ensures
        r == dtype_of(family@, bits),
        r == Some(Dtype::Bf16) <==> family@ == "bf"@ && bits == 16,
        r == Some(Dtype::F16) <==> family@ == "f"@ && bits == 16,
        r == Some(Dtype::F32) <==> family@ == "f"@ && bits == 32,
        r == Some(Dtype::F64) <==> family@ == "f"@ && bits == 64,
        r == Some(Dtype::S8) <==> family@ == "s"@ && bits == 8,
        r == Some(Dtype::S16) <==> family@ == "s"@ && bits == 16,
        r == Some(Dtype::S32) <==> family@ == "s"@ && bits == 32,
        r == Some(Dtype::S64) <==> family@ == "s"@ && bits == 64,
        r == Some(Dtype::U8) <==> family@ == "u"@ && bits == 8,
        r == Some(Dtype::U16) <==> family@ == "u"@ && bits == 16,
        r == Some(Dtype::U32) <==> family@ == "u"@ && bits == 32,
        r == Some(Dtype::U64) <==> family@ == "u"@ && bits == 64,
{
    lemma_families_differ();
}

/// An element type gives the name of its family and its size in bits.
pub proof fn law_dtypes_give_their_names(dtype: Dtype, r: (String, usize))
    requires
        call_ensures(Dtype::name, (dtype,), r),
    ensures
        (r.0@, r.1) == dtype_name(dtype),
        match dtype {
            Dtype::Bf16 => r.0@ == "bf"@ && r.1 == 16,
            Dtype::F16 => r.0@ == "f"@ && r.1 == 16,
            Dtype::F32 => r.0@ == "f"@ && r.1 == 32,
            Dtype::F64 => r.0@ == "f"@ && r.1 == 64,
            Dtype::S8 => r.0@ == "s"@ && r.1 == 8,
            Dtype::S16 => r.0@ == "s"@ && r.1 == 16,
            Dtype::S32 => r.0@ == "s"@ && r.1 == 32,
            Dtype::S64 => r.0@ == "s"@ && r.1 == 64,
            Dtype::U8 => r.0@ == "u"@ && r.1 == 8,
            Dtype::U16 => r.0@ == "u"@ && r.1 == 16,
            Dtype::U32 => r.0@ == "u"@ && r.1 == 32,
            Dtype::U64 => r.0@ == "u"@ && r.1 == 64,
        },
{
}

/// The size of an element in bytes is an eighth of that in bits.
pub proof fn law_widths_are_those_of_the_names(dtype: Dtype, r: usize)
    requires
        call_ensures(Dtype::width, (dtype,), r),
    ensures
        r == byte_width(dtype),
        8 * r == dtype_name(dtype).1,
        match dtype {
            Dtype::Bf16 => r == 2,
            Dtype::F16 => r == 2,
            Dtype::F32 => r == 4,
            Dtype::F64 => r == 8,
            Dtype::S8 => r == 1,
            Dtype::S16 => r == 2,
            Dtype::S32 => r == 4,
            Dtype::S64 => r == 8,
            Dtype::U8 => r == 1,
            Dtype::U16 => r == 2,
            Dtype::U32 => r == 4,
            Dtype::U64 => r == 8,
        },
{
}

/// Elements of a session are carried in the element type of their own kind and size, and
/// booleans in bytes; elements of other types are not carried.
pub proof fn law_elements_are_carried_in_kind(ty: ElementType, r: Option<Dtype>)
    requires
        call_ensures(dtype_for, (ty,), r),
    ensures
        r == dtype_carrying(ty),
        r == Some(Dtype::Bf16) <==> ty is Bfloat16,
        r == Some(Dtype::F16) <==> ty is Float16,
        r == Some(Dtype::F32) <==> ty is Float32,
        r == Some(Dtype::F64) <==> ty is Float64,
        r == Some(Dtype::S8) <==> ty is Int8,
        r == Some(Dtype::S16) <==> ty is Int16,
        r == Some(Dtype::S32) <==> ty is Int32,
        r == Some(Dtype::S64) <==> ty is Int64,
        r == Some(Dtype::U8) <==> ty is Uint8 || ty is Bool,
        r == Some(Dtype::U16) <==> ty is Uint16,
        r == Some(Dtype::U32) <==> ty is Uint32,
        r == Some(Dtype::U64) <==> ty is Uint64,
{
}

/// The number of elements is the product of the axis lengths: a scalar has one element, a row
/// as many as it is long, and axes side by side multiply.
pub proof fn law_elements_multiply_along_axes(front: Seq<usize>, back: Seq<usize>, n: usize)
    ensures
        product(Seq::empty()) == 1,
        product(seq![n]) == n,
        product(front + back) == product(front) * product(back),
    decreases back.len(),
{
    reveal_with_fuel(product, 2);
    assert(seq![n].drop_last() == Seq::<usize>::empty());
    if back.len() == 0 {
        assert(front + back == front);
        assert(product(front) * 1 == product(front));
    } else {
        let rest = back.drop_last();
        law_elements_multiply_along_axes(front, rest, n);
        assert((front + back).drop_last() == front + rest);
        let a = product(front);
        let b = product(rest);
        let c = back.last() as nat;
        assert((a * b) * c == a * (b * c)) by (nonlinear_arith);
    }
}

/// The product of the axis lengths other than zero is the number of elements of the shape
/// without its axes of length zero.
pub proof fn law_axes_of_length_zero_are_left_out(shape: Seq<usize>)
    ensures
        nonzero_product(shape) == product(shape.filter(|n: usize| n != 0)),
    decreases shape.len(),
{
    reveal(Seq::filter);
    if shape.len() > 0 {
        let keep = |n: usize| n != 0;
        let front = shape.drop_last();
        law_axes_of_length_zero_are_left_out(front);
        if shape.last() != 0 {
            assert(shape.filter(keep) == front.filter(keep).push(shape.last()));
            assert(front.filter(keep).push(shape.last()).drop_last() == front.filter(keep));
        }
    }
}

/// A tensor is made of a binary exactly where memory can hold it and the binary has bytes
/// enough. It has the shape and the element type that were asked for and the first bytes of
/// the binary. The refusal says which of the two was missing.
pub proof fn law_binaries_become_tensors(
    bin: &[u8],
    shape: Vec<usize>,
    dtype_str: String,
    dtype_bits: usize,
    r: Result<OrtexTensor, ShapeMismatch>,
)
    requires
        call_ensures(from_binary, (bin, shape, dtype_str, dtype_bits), r),
        dtype_of(dtype_str@, dtype_bits) is Some,
    ensures
        ({
            let size = product(shape@) * (dtype_bits as nat / 8);
            let held = nonzero_product(shape@) <= isize::MAX && size <= isize::MAX;
            match r {
                Ok(t) => {
                    &&& held && size <= bin@.len()
                    &&& t@.shape == shape@
                    &&& dtype_name(t@.dtype) == (dtype_str@, dtype_bits)
                    &&& t@.bytes == bin@.take(size as int)
                },
                Err(e) => if held {
                    size > bin@.len() && shape_fault(e.cause) is OutOfBounds
                } else {
                    shape_fault(e.cause) is Overflow
                },
            }
        }),
{
    let dtype = dtype_of(dtype_str@, dtype_bits)->0;
    law_name_has_its_dtype(dtype_str@, dtype_bits);
    law_dtype_has_its_name(dtype);
    assert(dtype_bits as nat / 8 == byte_width(dtype));
}

/// The binary of a tensor that was made of a binary is what the tensor was made of.
pub proof fn law_sent_bytes_are_those_received(
    bin: &[u8],
    shape: Vec<usize>,
    dtype_str: String,
    dtype_bits: usize,
    t: &OrtexTensor,
    bits: usize,
    limit: usize,
    r: Vec<u8>,
)
    requires
        call_ensures(from_binary, (bin, shape, dtype_str, dtype_bits), Ok(*t)),
        dtype_of(dtype_str@, dtype_bits) is Some,
        call_ensures(to_binary, (t, bits, limit), r),
    ensures
        r@ == bin@.take((product(shape@) * (dtype_bits as nat / 8)) as int),
{
    law_binaries_become_tensors(bin, shape, dtype_str, dtype_bits, Ok(*t));
}

/// A tensor is sent as its bytes, all of them, whatever the caller says of their number.
pub proof fn law_tensors_are_sent_whole(
    t: &OrtexTensor,
    bits: usize,
    limit: usize,
    sent: Vec<u8>,
    bytes: Vec<u8>,
)
    requires
        call_ensures(to_binary, (t, bits, limit), sent),
        call_ensures(OrtexTensor::to_bytes, (t,), bytes),
    ensures
        sent@ == t@.bytes,
        bytes@ == t@.bytes,
        sent@.len() == product(t@.shape) * (dtype_name(t@.dtype).1 as nat / 8),
{
    law_dtype_has_its_name(t@.dtype);
    assert(dtype_name(t@.dtype).1 as nat / 8 == byte_width(t@.dtype));
}

/// Booleans become bytes one for one: true is one and false is zero.
pub proof fn law_booleans_become_ones_and_zeros(elements: &[bool], r: Vec<u8>)
    requires
        call_ensures(bytes_of_bools, (elements,), r),
    ensures
        r@.len() == elements@.len(),
        forall|i: int| 0 <= i < r@.len() ==> (#[trigger] r@[i] == 1 <==> elements@[i]),
        forall|i: int| 0 <= i < r@.len() ==> (#[trigger] r@[i] == 0 <==> !elements@[i]),
{
}

/// What bytes stand for: one boolean for each; or the first byte above one.
proof fn lemma_bools_denoted(bytes: Seq<u8>)
    ensures
        match bools_denoted(bytes) {
            Ok(done) => done.len() == bytes.len() && forall|i: int|
                0 <= i < bytes.len() ==> #[trigger] bytes[i] == (if done[i] {
                    1u8
                } else {
                    0
                }),
            Err(byte) => exists|i: int|
                0 <= i < bytes.len() && #[trigger] bytes[i] == byte && byte > 1 && forall|j: int|
                    0 <= j < i ==> #[trigger] bytes[j] <= 1,
        },
    decreases bytes.len(),
{
    if bytes.len() > 0 {
        let front = bytes.drop_last();
        lemma_bools_denoted(front);
        match bools_denoted(front) {
            Ok(done) => {
                assert forall|i: int| 0 <= i < front.len() implies #[trigger] bytes[i] == (
                if done[i] {
                    1u8
                } else {
                    0
                }) by {
                    assert(front[i] == bytes[i]);
                }
                assert(bytes[bytes.len() - 1] == bytes.last());
            },
            Err(byte) => {
                let i = choose|i: int|
                    0 <= i < front.len() && #[trigger] front[i] == byte && byte > 1 && forall|
                        j: int,
                    |
                        0 <= j < i ==> #[trigger] front[j] <= 1;
                assert(bytes[i] == byte);
                assert forall|j: int| 0 <= j < i implies #[trigger] bytes[j] <= 1 by {
                    assert(front[j] <= 1);
                }
            },
        }
    }
}

/// A tensor of bytes is read as booleans one for one, one as true and zero as false. It is
/// refused for its first byte above one, which is shown; a tensor of another element type is
/// refused for that, which is shown.
pub proof fn law_bytes_are_read_as_booleans(t: &OrtexTensor, r: Result<Vec<bool>, Error>)
    requires
        call_ensures(bool_elements, (t,), r),
    ensures
        match r {
            Ok(elements) => {
                &&& t@.dtype is U8
                &&& elements@.len() == t@.bytes.len()
                &&& forall|i: int|
                    0 <= i < elements@.len() ==> t@.bytes[i] == (if #[trigger] elements@[i] {
                        1u8
                    } else {
                        0
                    })
            },
            Err(e) => if t@.dtype is U8 {
                exists|i: int|
                    0 <= i < t@.bytes.len() && e.message@ == "cannot convert "@ + numeral(
                        (#[trigger] t@.bytes[i]) as nat,
                    ) + " to bool"@ && t@.bytes[i] > 1 && forall|j: int|
                        0 <= j < i ==> #[trigger] t@.bytes[j] <= 1
            } else {
                e.message@ == "cannot convert {"@ + dtype_name(t@.dtype).0 + ", "@ + numeral(
                    dtype_name(t@.dtype).1 as nat,
                ) + "} to bool"@
            },
        },
{
    lemma_bools_denoted(t@.bytes);
    if let Ok(elements) = r {
        assert forall|i: int| 0 <= i < elements@.len() implies t@.bytes[i] == (
        if #[trigger] elements@[i] {
            1u8
        } else {
            0
        }) by {
            assert(t@.bytes[i] == t@.bytes[i]);
        }
    }
}

/// A tensor is made of booleans exactly where memory can hold it and there are enough of
/// them. It is one of bytes with the shape that was asked for, ones for true and zeros for
/// false.
pub proof fn law_booleans_become_tensors(
    elements: &[bool],
    shape: Vec<usize>,
    r: Result<OrtexTensor, ShapeMismatch>,
)
    requires
        call_ensures(from_bools, (elements, shape), r),
    ensures
        ({
            let held = nonzero_product(shape@) <= isize::MAX && product(shape@) <= isize::MAX;
            match r {
                Ok(t) => {
                    &&& held && product(shape@) <= elements@.len()
                    &&& t@.dtype is U8
                    &&& t@.shape == shape@
                    &&& t@.bytes.len() == product(shape@)
                    &&& forall|i: int|
                        0 <= i < t@.bytes.len() ==> #[trigger] t@.bytes[i] == (if elements@[i] {
                            1u8
                        } else {
                            0
                        })
                },
                Err(e) => if held {
                    product(shape@) > elements@.len() && shape_fault(e.cause) is OutOfBounds
                } else {
                    shape_fault(e.cause) is Overflow
                },
            }
        }),
{
    assert(byte_width(Dtype::U8) == 1 && product(shape@) * 1 == product(shape@));
    assert(byte_size(shape@, Dtype::U8) == product(shape@));
}

} // verus!
