use ortex::qnn::{not_an_entry, qnn_devices, qnn_paths, read_entries, with_qnn, QnnPaths};

fn opts(pairs: &[(&str, &str)]) -> Vec<(String, String)> {
    pairs.iter().map(|(k, v)| (k.to_string(), v.to_string())).collect()
}

fn paths() -> QnnPaths {
    QnnPaths { provider_path: "/p.so".to_string(), backend_path: "/b.so".to_string() }
}

fn eps(names: &[Option<&str>]) -> Vec<Option<String>> {
    names.iter().map(|n| n.map(|s| s.to_string())).collect()
}

#[test]
fn paths_come_from_options_or_defaults() {
    let p = qnn_paths(&opts(&[("backend_path", "/x")]), "/dp".to_string(), "/db".to_string());
    assert_eq!(p.provider_path, "/dp");
    assert_eq!(p.backend_path, "/x");
    let p = qnn_paths(&opts(&[("provider_path", "/y")]), "/dp".to_string(), "/db".to_string());
    assert_eq!(p.provider_path, "/y");
    assert_eq!(p.backend_path, "/db");
}

#[test]
fn qnn_devices_are_selected_in_order() {
    let names = eps(&[
        Some("CPUExecutionProvider"),
        Some("QNNExecutionProvider"),
        None,
        Some("myQNN"),
        Some("qnn"),
    ]);
    assert_eq!(qnn_devices(&names), vec![1, 3]);
}

#[test]
fn no_device_is_an_error() {
    let e = with_qnn(&[], &paths(), &eps(&[Some("CPUExecutionProvider"), None]), "").unwrap_err();
    assert_eq!(
        e.message,
        "no QNN device found after registering /p.so; devices seen: [CPUExecutionProvider, \
         <unknown>]; backend /b.so"
    );
    let e = with_qnn(&[], &paths(), &vec![], "not an entry").unwrap_err();
    assert_eq!(
        e.message,
        "no QNN device found after registering /p.so; devices seen: []; backend /b.so"
    );
}

#[test]
fn options_are_prefixed_and_filtered() {
    let o = opts(&[
        ("backend_path", "/b.so"),
        ("htp_arch", "68"),
        ("env.ADSP", "x"),
        ("intra_threads", "1"),
        ("vtcm_mb", "8"),
        ("htp_arch", "69"),
    ]);
    let setup = with_qnn(
        &o,
        &paths(),
        &eps(&[Some("CPU"), Some("QNNExecutionProvider"), Some("QNN2")]),
        " htp_performance_mode = burst ,, x=y=z , ",
    )
    .unwrap();
    assert_eq!(setup.devices, vec![1, 2]);
    assert_eq!(
        setup.options,
        opts(&[
            ("QNNExecutionProvider.backend_path", "/b.so"),
            ("QNNExecutionProvider.htp_arch", "68"),
            ("QNNExecutionProvider.vtcm_mb", "8"),
            ("QNNExecutionProvider.htp_arch", "69"),
            ("QNNExecutionProvider.htp_performance_mode", "burst"),
            ("QNNExecutionProvider.x", "y=z"),
        ])
    );
}

#[test]
fn entries_without_equals_sign_are_refused() {
    let e = with_qnn(&[], &paths(), &eps(&[Some("QNN")]), "a=b, c ,d").unwrap_err();
    assert_eq!(e.message, "ORTEX_QNN_OPTS entry \" c \" is not k=v");
    assert!(read_entries("a").is_err());
    assert_eq!(not_an_entry("\"a\"").message, read_entries("a").unwrap_err().message);
}

#[test]
fn entries_read_back() {
    assert_eq!(read_entries("").unwrap(), opts(&[]));
    assert_eq!(read_entries(" , \t,").unwrap(), opts(&[]));
    assert_eq!(read_entries("k=v").unwrap(), opts(&[("k", "v")]));
    assert_eq!(read_entries("=").unwrap(), opts(&[("", "")]));
    assert_eq!(read_entries(" k\t=\u{a0}v=w ").unwrap(), opts(&[("k", "v=w")]));
}
