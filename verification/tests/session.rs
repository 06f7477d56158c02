use ortex::providers::map_eps;
use ortex::session::{init, read_option, SessionPlan, SessionStep};

fn opts(pairs: &[(&str, &str)]) -> Vec<(String, String)> {
    pairs.iter().map(|(k, v)| (k.to_string(), v.to_string())).collect()
}

fn plan(use_qnn: bool, opt: i32, o: &[(&str, &str)], env_trace: Option<&str>) -> SessionPlan {
    let eps = map_eps(&vec!["cpu".to_string(), "cuda".to_string()], &None).providers;
    let env_trace = env_trace.map(|s| s.to_string());
    init("model.onnx".to_string(), eps, use_qnn, opt, &opts(o), &env_trace)
}

fn shown(plan: &SessionPlan) -> Vec<String> {
    plan.steps
        .iter()
        .map(|step| match step {
            SessionStep::OptimizationLevel(l) => format!("level {l:?}"),
            SessionStep::ExecutionProviders(eps) => format!("eps {}", eps.len()),
            SessionStep::VerboseLog => "verbose".to_string(),
            SessionStep::IntraThreads(n) => format!("intra {n}"),
            SessionStep::InterThreads(n) => format!("inter {n}"),
            SessionStep::IntraOpSpinning(b) => format!("intra spin {b}"),
            SessionStep::InterOpSpinning(b) => format!("inter spin {b}"),
            SessionStep::Qnn => "qnn".to_string(),
            SessionStep::CommitFromFile(p) => format!("commit {p}"),
        })
        .collect()
}

#[test]
fn plain_session() {
    let p = plan(false, 3, &[], None);
    assert!(p.failure.is_none());
    assert_eq!(shown(&p), vec!["level Level3", "eps 2", "commit model.onnx"]);
}

#[test]
fn all_options() {
    let p = plan(
        true,
        1,
        &[
            ("inter_op_spinning", "off"),
            ("htp_arch", "68"),
            ("intra_threads", "1"),
            ("trace_path", "/t"),
            ("inter_threads", "+2"),
            ("intra_op_spinning", "yes"),
            ("intra_threads", "3"),
        ],
        None,
    );
    assert!(p.failure.is_none());
    assert_eq!(
        shown(&p),
        vec![
            "level Level1",
            "eps 2",
            "verbose",
            "inter spin false",
            "intra 1",
            "inter 2",
            "intra spin true",
            "intra 3",
            "qnn",
            "commit model.onnx",
        ]
    );
}

#[test]
fn environment_makes_verbose() {
    assert_eq!(
        shown(&plan(false, 0, &[], Some("/t"))),
        vec!["level Disable", "eps 2", "verbose", "commit model.onnx"]
    );
}

#[test]
fn unreadable_option_stops_the_plan() {
    let p = plan(
        true,
        2,
        &[("intra_threads", "1"), ("inter_threads", "many"), ("intra_op_spinning", "maybe")],
        None,
    );
    assert_eq!(shown(&p), vec!["level Level2", "eps 2", "intra 1"]);
    assert_eq!(
        p.failure.unwrap().message,
        "inter_threads must be a non-negative integer, got \"many\""
    );
    let p = plan(false, 2, &[("inter_op_spinning", "maybe")], None);
    assert_eq!(
        p.failure.unwrap().message,
        "inter_op_spinning must be a boolean, got \"maybe\""
    );
}

#[test]
fn other_options_make_no_step() {
    assert!(read_option("htp_arch", "x").unwrap().is_none());
    assert!(read_option("env.intra_threads", "x").unwrap().is_none());
    let with = plan(false, 1, &[("intra_threads", "1"), ("x", "y"), ("inter_threads", "2")], None);
    let without = plan(false, 1, &[("intra_threads", "1"), ("inter_threads", "2")], None);
    assert_eq!(shown(&with), shown(&without));
}
