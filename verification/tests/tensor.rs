use ndarray::ErrorKind;
use ortex::io_type::ElementType;
use ortex::tensor::{
    bool_elements, bytes_of_bools, dtype_for, from_binary, from_bools, to_binary, Dtype,
};

const ALL: [(&str, usize, usize); 12] = [
    ("bf", 16, 2), ("f", 16, 2), ("f", 32, 4), ("f", 64, 8), ("s", 8, 1), ("s", 16, 2),
    ("s", 32, 4), ("s", 64, 8), ("u", 8, 1), ("u", 16, 2), ("u", 32, 4), ("u", 64, 8),
];

#[test]
fn two_words_of_a_binary() {
    let bin = [1u8, 0, 0, 0, 1, 0, 0, 0];
    let t = from_binary(&bin, vec![2], "u".to_string(), 32).unwrap();
    assert_eq!(t.shape(), vec![2]);
    assert_eq!(t.dtype(), ("u".to_string(), 32));
    assert_eq!(to_binary(&t, 32, 2), bin.to_vec());
}

#[test]
fn binaries_come_back() {
    for (family, bits, width) in ALL {
        let bin: Vec<u8> = (0..6 * width).map(|i| i as u8).collect();
        let t = from_binary(&bin, vec![2, 3], family.to_string(), bits).unwrap();
        assert_eq!(t.shape(), vec![2, 3]);
        assert_eq!(t.dtype(), (family.to_string(), bits));
        assert_eq!(to_binary(&t, bits, 6), bin);
        assert_eq!(to_binary(&t, 0, 0), bin);
        let again = from_binary(&t.to_bytes(), t.shape(), t.dtype().0, t.dtype().1).unwrap();
        assert_eq!(again.to_bytes(), bin);
    }
}

#[test]
fn rest_of_a_binary_is_ignored() {
    let t = from_binary(&[1, 2, 3, 4, 5], vec![2, 2], "s".to_string(), 8).unwrap();
    assert_eq!(t.to_bytes(), vec![1, 2, 3, 4]);
}

#[test]
fn scalars_and_empty_tensors() {
    let t = from_binary(&[7, 8], vec![], "u".to_string(), 16).unwrap();
    assert_eq!(t.shape(), Vec::<usize>::new());
    assert_eq!(t.to_bytes(), vec![7, 8]);
    let t = from_binary(&[], vec![3, 0, 5], "f".to_string(), 64).unwrap();
    assert_eq!(t.shape(), vec![3, 0, 5]);
    assert!(t.to_bytes().is_empty());
    let t = from_binary(&[], vec![0, isize::MAX as usize], "f".to_string(), 64).unwrap();
    assert_eq!(t.shape(), vec![0, isize::MAX as usize]);
}

fn refusal(bin: &[u8], shape: Vec<usize>, family: &str, bits: usize) -> ErrorKind {
    from_binary(bin, shape, family.to_string(), bits).unwrap_err().cause.kind()
}

#[test]
fn too_few_bytes() {
    assert_eq!(refusal(&[1, 2, 3], vec![1], "f", 32), ErrorKind::OutOfBounds);
    assert_eq!(refusal(&[], vec![], "u", 8), ErrorKind::OutOfBounds);
}

#[test]
fn shapes_beyond_memory() {
    let huge = usize::MAX;
    assert_eq!(refusal(&[1], vec![huge, huge], "u", 8), ErrorKind::Overflow);
    assert_eq!(refusal(&[], vec![0, huge], "u", 8), ErrorKind::Overflow);
    assert_eq!(refusal(&[], vec![isize::MAX as usize], "u", 16), ErrorKind::Overflow);
    assert_eq!(refusal(&[], vec![isize::MAX as usize], "u", 8), ErrorKind::OutOfBounds);
}

#[test]
fn session_types_are_carried() {
    assert_eq!(dtype_for(ElementType::Bool), Some(Dtype::U8));
    assert_eq!(dtype_for(ElementType::Uint8), Some(Dtype::U8));
    assert_eq!(dtype_for(ElementType::Uint16), Some(Dtype::U16));
    assert_eq!(dtype_for(ElementType::Uint32), Some(Dtype::U32));
    assert_eq!(dtype_for(ElementType::Uint64), Some(Dtype::U64));
    assert_eq!(dtype_for(ElementType::Int8), Some(Dtype::S8));
    assert_eq!(dtype_for(ElementType::Int16), Some(Dtype::S16));
    assert_eq!(dtype_for(ElementType::Int32), Some(Dtype::S32));
    assert_eq!(dtype_for(ElementType::Int64), Some(Dtype::S64));
    assert_eq!(dtype_for(ElementType::Bfloat16), Some(Dtype::Bf16));
    assert_eq!(dtype_for(ElementType::Float16), Some(Dtype::F16));
    assert_eq!(dtype_for(ElementType::Float32), Some(Dtype::F32));
    assert_eq!(dtype_for(ElementType::Float64), Some(Dtype::F64));
    for ty in [ElementType::String, ElementType::Complex64, ElementType::Uint4] {
        assert_eq!(dtype_for(ty), None);
    }
}

#[test]
fn bool_outputs_feed_bool_inputs() {
    let elements = [true, false, false, true, true, false];
    assert_eq!(bytes_of_bools(&elements), vec![1, 0, 0, 1, 1, 0]);
    let t = from_bools(&elements, vec![2, 3]).unwrap();
    assert_eq!(t.dtype(), ("u".to_string(), 8));
    assert_eq!(t.shape(), vec![2, 3]);
    assert_eq!(t.to_bytes(), vec![1, 0, 0, 1, 1, 0]);
    assert_eq!(bool_elements(&t).unwrap(), elements.to_vec());
    let short = from_bools(&elements, vec![7]).unwrap_err();
    assert_eq!(short.cause.kind(), ErrorKind::OutOfBounds);
}

#[test]
fn only_zeros_and_ones_are_booleans() {
    let t = from_binary(&[0, 1, 7, 200], vec![4], "u".to_string(), 8).unwrap();
    assert_eq!(bool_elements(&t).unwrap_err().message, "cannot convert 7 to bool");
    let t = from_binary(&[0, 1, 200, 7], vec![3], "u".to_string(), 8).unwrap();
    assert_eq!(bool_elements(&t).unwrap_err().message, "cannot convert 200 to bool");
    let t = from_binary(&[0, 1], vec![2], "s".to_string(), 8).unwrap();
    assert_eq!(bool_elements(&t).unwrap_err().message, "cannot convert {s, 8} to bool");
    let t = from_binary(&[], vec![0], "f".to_string(), 32).unwrap();
    assert_eq!(bool_elements(&t).unwrap_err().message, "cannot convert {f, 32} to bool");
    let t = from_binary(&[], vec![0], "u".to_string(), 8).unwrap();
    assert!(bool_elements(&t).unwrap().is_empty());
}

#[test]
fn dtypes_have_their_names() {
    for (family, bits, width) in ALL {
        let dtype = Dtype::named(family, bits).unwrap();
        assert_eq!(dtype.name(), (family.to_string(), bits));
        assert_eq!(dtype.width(), width);
    }
    assert_eq!(Dtype::named("bf", 32), None);
    assert_eq!(Dtype::named("f", 8), None);
    assert_eq!(Dtype::named("s", 128), None);
    assert_eq!(Dtype::named("c", 64), None);
}
