use ort::value::{Shape, SymbolicDimensions, TensorElementType, ValueType};
use ortex::io_type::{type_text, ElementType, IoType};
use ortex::model::{
    collect_output, describe, describe_as, run_inputs, run_outputs, show, OrtexModel, Outlet,
};
use ortex::tensor::from_binary;
use ortex::utils::{is_bool_input, map_opt_level, OptimizationLevel};

fn tensor(ty: ElementType, shape: &[i64]) -> IoType {
    let dimension_symbols = shape.iter().map(|_| String::new()).collect();
    IoType::Tensor { ty, shape: shape.to_vec(), dimension_symbols }
}

fn ort_tensor(ty: TensorElementType, shape: &[i64], symbols: &[&str]) -> ValueType {
    ValueType::Tensor {
        ty,
        shape: Shape::new(shape.iter().copied()),
        dimension_symbols: SymbolicDimensions::new(symbols.iter().map(|s| s.to_string())),
    }
}

fn outlet(name: &str, dtype: IoType) -> Outlet {
    Outlet { name: name.to_string(), dtype }
}

fn strings(names: &[&str]) -> Vec<String> {
    names.iter().map(|n| n.to_string()).collect()
}

fn model() -> OrtexModel {
    OrtexModel {
        inputs: vec![
            outlet("x", tensor(ElementType::Float32, &[-1, 3])),
            outlet("mask", tensor(ElementType::Bool, &[])),
        ],
        outputs: vec![
            outlet("y", tensor(ElementType::Int64, &[2])),
            outlet(
                "z",
                IoType::Mapping { key: ElementType::Int64, value: ElementType::Float32 },
            ),
        ],
    }
}

#[test]
fn show_describes_inputs_and_outputs() {
    let m = model();
    let (inputs, outputs) = show(&m);
    assert_eq!(inputs.len(), 2);
    assert_eq!(inputs[0].0, "x");
    assert_eq!(
        inputs[0].1,
        format!("{:#?}", ort_tensor(TensorElementType::Float32, &[-1, 3], &["", ""]))
    );
    assert_eq!(inputs[0].2, Some(vec![-1, 3]));
    assert_eq!(inputs[1].2, Some(vec![]));
    assert_eq!(outputs[0].0, "y");
    let z = ValueType::Map { key: TensorElementType::Int64, value: TensorElementType::Float32 };
    assert_eq!(outputs[1], ("z".to_string(), format!("{z:#?}"), None));
    assert_eq!(describe(&m.inputs), inputs);
}

#[test]
fn description_of_an_outlet_given_its_type_text() {
    let m = model();
    assert_eq!(
        describe_as(&m.inputs[0], "shown".to_string()),
        ("x".to_string(), "shown".to_string(), Some(vec![-1, 3]))
    );
    assert_eq!(
        describe_as(&m.outputs[1], String::new()),
        ("z".to_string(), String::new(), None)
    );
}

#[test]
fn types_are_shown_with_their_dimension_symbols() {
    let batch = IoType::Tensor {
        ty: ElementType::Float32,
        shape: vec![-1, 3],
        dimension_symbols: strings(&["batch", ""]),
    };
    let text = type_text(&batch);
    assert_eq!(
        text,
        format!("{:#?}", ort_tensor(TensorElementType::Float32, &[-1, 3], &["batch", ""]))
    );
    assert!(text.contains("\"batch\""));
}

#[test]
fn wrapped_types_are_shown() {
    let inner = || ort_tensor(TensorElementType::Bool, &[2], &[""]);
    let sequence = IoType::Sequence(Box::new(tensor(ElementType::Bool, &[2])));
    let shown = ValueType::Sequence(Box::new(inner()));
    assert_eq!(type_text(&sequence), format!("{shown:#?}"));
    let optional = IoType::Optional(Box::new(sequence));
    let shown = ValueType::Optional(Box::new(shown));
    assert_eq!(type_text(&optional), format!("{shown:#?}"));
}

#[test]
fn element_types_are_shown_by_name() {
    let all = [
        (ElementType::Float32, TensorElementType::Float32),
        (ElementType::Uint8, TensorElementType::Uint8),
        (ElementType::Int8, TensorElementType::Int8),
        (ElementType::Uint16, TensorElementType::Uint16),
        (ElementType::Int16, TensorElementType::Int16),
        (ElementType::Int32, TensorElementType::Int32),
        (ElementType::Int64, TensorElementType::Int64),
        (ElementType::String, TensorElementType::String),
        (ElementType::Bool, TensorElementType::Bool),
        (ElementType::Float16, TensorElementType::Float16),
        (ElementType::Float64, TensorElementType::Float64),
        (ElementType::Uint32, TensorElementType::Uint32),
        (ElementType::Uint64, TensorElementType::Uint64),
        (ElementType::Bfloat16, TensorElementType::Bfloat16),
        (ElementType::Complex64, TensorElementType::Complex64),
        (ElementType::Complex128, TensorElementType::Complex128),
        (ElementType::Float8E4M3FN, TensorElementType::Float8E4M3FN),
        (ElementType::Float8E4M3FNUZ, TensorElementType::Float8E4M3FNUZ),
        (ElementType::Float8E5M2, TensorElementType::Float8E5M2),
        (ElementType::Float8E5M2FNUZ, TensorElementType::Float8E5M2FNUZ),
        (ElementType::Uint4, TensorElementType::Uint4),
        (ElementType::Int4, TensorElementType::Int4),
        (ElementType::Undefined, TensorElementType::Undefined),
    ];
    for (ours, ort) in all {
        let shown = ValueType::Map { key: ort, value: TensorElementType::Bool };
        let t = IoType::Mapping { key: ours, value: ElementType::Bool };
        assert_eq!(type_text(&t), format!("{shown:#?}"));
        assert_eq!(format!("{ours:?}"), format!("{ort:?}"));
    }
}

#[test]
fn input_count_is_checked() {
    let m = model();
    assert_eq!(run_inputs(&m, 2).unwrap(), vec![false, true]);
    assert_eq!(run_inputs(&m, 0).unwrap_err().message, "Expected 2 input(s), got 0");
    assert_eq!(run_inputs(&m, 12).unwrap_err().message, "Expected 2 input(s), got 12");
}

#[test]
fn outputs_come_in_declared_order() {
    let plan = run_outputs(&model(), &strings(&["z", "other", "y", "z"]));
    assert_eq!(plan.positions, vec![2, 0]);
    assert!(plan.failure.is_none());
}

#[test]
fn missing_output_is_reported() {
    let plan = run_outputs(&model(), &strings(&["y"]));
    assert_eq!(plan.positions, vec![0]);
    assert_eq!(
        plan.failure.unwrap().message,
        "Expected z to be in the outputs, but didn't find it"
    );
    let plan = run_outputs(&model(), &strings(&["z"]));
    assert!(plan.positions.is_empty());
    assert_eq!(
        plan.failure.unwrap().message,
        "Expected y to be in the outputs, but didn't find it"
    );
}

#[test]
fn collected_output_carries_its_description() {
    let t = from_binary(&[1, 2, 3, 4], vec![1, 2], "s".to_string(), 16).unwrap();
    let (t, shape, dtype, bits) = collect_output(t);
    assert_eq!(t.to_bytes(), vec![1, 2, 3, 4]);
    assert_eq!((shape, dtype.as_str(), bits), (vec![1, 2], "s", 16));
}

#[test]
fn bool_inputs() {
    let b = ElementType::Bool;
    let f = ElementType::Float32;
    assert!(is_bool_input(&tensor(b, &[1])));
    assert!(!is_bool_input(&tensor(f, &[1])));
    assert!(is_bool_input(&IoType::Mapping { key: f, value: b }));
    assert!(!is_bool_input(&IoType::Mapping { key: b, value: f }));
}

#[test]
fn wrapping_keeps_bool() {
    let wrap = |v| IoType::Optional(Box::new(IoType::Sequence(Box::new(v))));
    assert!(is_bool_input(&wrap(tensor(ElementType::Bool, &[]))));
    assert!(is_bool_input(&wrap(wrap(tensor(ElementType::Bool, &[])))));
    assert!(!is_bool_input(&wrap(tensor(ElementType::Uint8, &[]))));
}

#[test]
fn optimization_levels() {
    assert_eq!(map_opt_level(1), OptimizationLevel::Level1);
    assert_eq!(map_opt_level(2), OptimizationLevel::Level2);
    assert_eq!(map_opt_level(3), OptimizationLevel::Level3);
    for n in [0, 4, -1, 99, i32::MAX, i32::MIN] {
        assert_eq!(map_opt_level(n), OptimizationLevel::Disable);
    }
}
