use ortex::numeral::{read_usize, usize_text};
use ortex::text::{
    chars_of, find_char, has_text, is_white_space_char, join, same_text, split_on, strip_prefix,
    trim,
};

const SAMPLES: [&str; 12] = [
    "", " ", "a", " a ", "\t\n a b \u{a0}", "\u{3000}x\u{2003}", "a=b=c", ",", "a,,b", "é,ü=ß",
    "QNNExecutionProvider", "xQNN",
];

#[test]
fn white_space_agrees_with_std_on_every_char() {
    for code in 0u32..=0x10ffff {
        if let Some(c) = char::from_u32(code) {
            assert_eq!(is_white_space_char(c), c.is_whitespace(), "{code:x}");
        }
    }
}

#[test]
fn trim_agrees_with_std() {
    for s in SAMPLES {
        assert_eq!(trim(s), s.trim());
    }
    assert_eq!(trim("  a b\u{85}"), "a b");
}

#[test]
fn trimming_twice_is_once() {
    for s in SAMPLES {
        assert_eq!(trim(trim(s)), trim(s));
    }
}

#[test]
fn split_agrees_with_std() {
    for s in SAMPLES {
        let expected: Vec<&str> = s.split(',').collect();
        assert_eq!(split_on(s, ','), expected);
    }
    assert_eq!(split_on("a,,b", ','), vec!["a", "", "b"]);
    assert_eq!(split_on("", ','), vec![""]);
}

#[test]
fn segments_join_back() {
    for s in SAMPLES {
        assert_eq!(join(&split_on(s, ','), ","), s);
        for segment in split_on(s, ',') {
            assert!(!segment.contains(','));
        }
    }
}

#[test]
fn join_places_separator_between() {
    assert_eq!(join(&vec![], ", "), "");
    assert_eq!(join(&vec!["a"], ", "), "a");
    assert_eq!(join(&vec!["a", "b", ""], ", "), "a, b, ");
}

#[test]
fn searching() {
    assert!(has_text("QNNExecutionProvider", "QNN"));
    assert!(has_text("xQNN", "QNN"));
    assert!(has_text("QNN", "QNN"));
    assert!(!has_text("QN", "QNN"));
    assert!(!has_text("qnn", "QNN"));
    assert!(has_text("", ""));
    assert_eq!(find_char(&chars_of("é=b=c"), '='), Some(1));
    assert_eq!(find_char(&chars_of("abc"), '='), None);
}

#[test]
fn prefixes() {
    assert_eq!(strip_prefix("env.A", "env."), Some("A"));
    assert_eq!(strip_prefix("env.", "env."), Some(""));
    assert_eq!(strip_prefix("env", "env."), None);
    assert_eq!(strip_prefix("xenv.", "env."), None);
    assert!(same_text("é", "é"));
    assert!(!same_text("e", "é"));
}

#[test]
fn read_usize_agrees_with_std() {
    let max = format!("{}", usize::MAX);
    let above = format!("{}0", usize::MAX);
    let next = "18446744073709551616";
    for s in [
        "", "0", "1", "+1", "-1", "-0", "+", "-", "++1", " 1", "1 ", "007", "1_0", "0x1", "1.0",
        "\u{661}", "18446744073709551615", next, max.as_str(), above.as_str(), "+0000000000000000000000012",
    ] {
        assert_eq!(read_usize(s), s.parse::<usize>().ok(), "{s:?}");
    }
}

#[test]
fn numeral_reads_back() {
    for n in [0usize, 1, 9, 10, 42, 100, 65535, usize::MAX - 1, usize::MAX] {
        assert_eq!(usize_text(n), format!("{n}"));
        assert_eq!(read_usize(&usize_text(n)), Some(n));
        assert_eq!(read_usize(&format!("+{}", usize_text(n))), Some(n));
    }
}
