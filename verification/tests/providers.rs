use ort::ep::ExecutionProviderDispatch;
use ortex::providers::{
    map_eps, provider_named, qnn_backend_path, qnn_ep, warn_unknown_provider, ExecutionProvider,
};

fn strings(names: &[&str]) -> Vec<String> {
    names.iter().map(|n| n.to_string()).collect()
}

fn shown(d: &ExecutionProviderDispatch) -> String {
    format!("{d:?}")
}

#[test]
fn each_name_gives_its_provider() {
    let names = strings(&[
        "cpu", "cuda", "tensorrt", "acl", "onednn", "coreml", "directml", "rocm", "qnn",
    ]);
    let choice = map_eps(&names, &None);
    assert!(choice.warnings.is_empty());
    assert_eq!(choice.providers.len(), 9);
    assert!(choice.providers[0].downcast_ref::<ort::ep::CPU>().is_some());
    assert!(choice.providers[1].downcast_ref::<ort::ep::CUDA>().is_some());
    assert!(choice.providers[2].downcast_ref::<ort::ep::TensorRT>().is_some());
    assert!(choice.providers[3].downcast_ref::<ort::ep::ACL>().is_some());
    assert!(choice.providers[4].downcast_ref::<ort::ep::OneDNN>().is_some());
    assert!(choice.providers[5].downcast_ref::<ort::ep::CoreML>().is_some());
    assert!(choice.providers[6].downcast_ref::<ort::ep::DirectML>().is_some());
    assert!(choice.providers[7].downcast_ref::<ort::ep::ROCm>().is_some());
    assert!(choice.providers[8].downcast_ref::<ort::ep::QNN>().is_some());
}

#[test]
fn only_qnn_reports_failure() {
    let names = strings(&["cpu", "cuda", "qnn", "rocm"]);
    let loud: Vec<bool> = map_eps(&names, &None)
        .providers
        .iter()
        .map(|d| shown(d).contains("error_on_failure: true"))
        .collect();
    assert_eq!(loud, vec![false, false, true, false]);
}

#[test]
fn unknown_names_fall_back_with_a_warning() {
    let choice = map_eps(&strings(&["cuda", "CPU", "", "cpu"]), &None);
    assert_eq!(choice.providers.len(), 4);
    assert_eq!(shown(&choice.providers[1]), shown(&choice.providers[3]));
    assert_eq!(shown(&choice.providers[2]), shown(&choice.providers[3]));
    assert_eq!(
        choice.warnings,
        strings(&[
            "[ortex] unknown execution provider \"CPU\"; falling back to CPU",
            "[ortex] unknown execution provider \"\"; falling back to CPU",
        ])
    );
}

#[test]
fn warning_around_a_quoted_name() {
    assert_eq!(
        warn_unknown_provider("\"gpu\""),
        "[ortex] unknown execution provider \"gpu\"; falling back to CPU"
    );
}

#[test]
fn no_names_no_providers() {
    let choice = map_eps(&vec![], &None);
    assert!(choice.providers.is_empty());
    assert!(choice.warnings.is_empty());
}

#[test]
fn qnn_backend() {
    let env = Some("/opt/libQnnCpu.so".to_string());
    assert_eq!(qnn_backend_path(&None), "/usr/lib/libQnnHtp.so");
    assert_eq!(qnn_backend_path(&env), "/opt/libQnnCpu.so");
    let d = qnn_ep(&env);
    assert_eq!(shown(&d), "QNNExecutionProvider { error_on_failure: true }");
    let inner = format!("{:?}", d.downcast_ref::<ort::ep::QNN>().unwrap());
    assert!(inner.contains("backend_path") && inner.contains("/opt/libQnnCpu.so"), "{inner}");
    let inner = format!("{:?}", qnn_ep(&None).downcast_ref::<ort::ep::QNN>().unwrap());
    assert!(inner.contains("/usr/lib/libQnnHtp.so"), "{inner}");
}

#[test]
fn names() {
    assert_eq!(provider_named("qnn"), Some(ExecutionProvider::Qnn));
    assert_eq!(provider_named("tensorrt"), Some(ExecutionProvider::TensorRt));
    assert_eq!(provider_named("TensorRT"), None);
}
