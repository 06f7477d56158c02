use ortex::options::{
    env_settings, is_reserved, lookup, not_a_boolean, not_an_integer, parse_bool, parse_usize,
};
use ortex::trace::{init_tracing, trace_open_failure, tracing_requested};

fn opts(pairs: &[(&str, &str)]) -> Vec<(String, String)> {
    pairs.iter().map(|(k, v)| (k.to_string(), v.to_string())).collect()
}

#[test]
fn lookup_finds_the_first_pair() {
    let o = opts(&[("a", "1"), ("b", "2"), ("a", "3")]);
    assert_eq!(lookup(&o, "a"), Some("1".to_string()));
    assert_eq!(lookup(&o, "b"), Some("2".to_string()));
    assert_eq!(lookup(&o, "c"), None);
    assert_eq!(lookup(&[], "a"), None);
}

#[test]
fn earlier_pairs_win() {
    let front = opts(&[("a", "1")]);
    let back = opts(&[("a", "2"), ("b", "3")]);
    let mut both = front.clone();
    both.extend(back);
    assert_eq!(lookup(&both, "a"), Some("1".to_string()));
    assert_eq!(lookup(&both, "b"), Some("3".to_string()));
}

#[test]
fn integers() {
    assert_eq!(parse_usize("intra_threads", "4").unwrap(), 4);
    assert_eq!(
        parse_usize("intra_threads", "-1").unwrap_err().message,
        "intra_threads must be a non-negative integer, got \"-1\""
    );
    assert_eq!(
        parse_usize("k", "a\"\n\u{7f}é").unwrap_err().message,
        format!("k must be a non-negative integer, got {:?}", "a\"\n\u{7f}é")
    );
}

#[test]
fn truth_values() {
    for s in ["1", "true", "yes", "on"] {
        assert!(parse_bool("k", s).unwrap());
    }
    for s in ["0", "false", "no", "off"] {
        assert!(!parse_bool("k", s).unwrap());
    }
    for s in ["", "True", "2", " on"] {
        assert_eq!(
            parse_bool("intra_op_spinning", s).unwrap_err().message,
            format!("intra_op_spinning must be a boolean, got {s:?}")
        );
    }
}

#[test]
fn keys_have_one_group() {
    for key in [
        "backend_path", "provider_path", "trace_path", "intra_threads", "inter_threads",
        "intra_op_spinning", "inter_op_spinning",
    ] {
        assert!(is_reserved(key));
        assert!(env_settings(&opts(&[(key, "x")])).is_empty());
    }
    for key in ["htp_arch", "env.backend_path", "backend_path ", ""] {
        assert!(!is_reserved(key));
    }
}

#[test]
fn environment_settings_in_order() {
    let o = opts(&[
        ("env.DSP_LIBRARY_PATH", "/dsp"),
        ("htp_arch", "68"),
        ("env.", "x"),
        ("env.DSP_LIBRARY_PATH", "/other"),
    ]);
    assert_eq!(
        env_settings(&o),
        opts(&[("DSP_LIBRARY_PATH", "/dsp"), ("", "x"), ("DSP_LIBRARY_PATH", "/other")])
    );
}

#[test]
fn trace_destination() {
    let with = opts(&[("trace_path", "/tmp/a"), ("trace_path", "/tmp/b")]);
    let env = Some("/tmp/env".to_string());
    assert_eq!(init_tracing(&with, &env), Some("/tmp/a".to_string()));
    assert_eq!(init_tracing(&with, &None), Some("/tmp/a".to_string()));
    assert_eq!(init_tracing(&[], &env), env);
    assert_eq!(init_tracing(&[], &None), None);
}

#[test]
fn tracing_is_requested_iff_there_is_a_destination() {
    for o in [opts(&[]), opts(&[("trace_path", "")]), opts(&[("x", "y")])] {
        for env in [None, Some(String::new())] {
            assert_eq!(tracing_requested(&o, &env), init_tracing(&o, &env).is_some());
        }
    }
}

#[test]
fn trace_failure_message() {
    assert_eq!(
        trace_open_failure("/x", "denied"),
        "ortex: could not open trace file /x: denied"
    );
}

#[test]
fn messages_around_a_quoted_value() {
    assert_eq!(
        not_an_integer("k", "\"x\"").message,
        "k must be a non-negative integer, got \"x\""
    );
    assert_eq!(not_a_boolean("k", "\"x\"").message, "k must be a boolean, got \"x\"");
}
