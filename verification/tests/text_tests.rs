use jumakl_extractor::decimal::{check_float_literal, literal_to_i64, FloatErrorKind};
use jumakl_extractor::text::{
    chars_of, html_escape, i64_to_string, parse_i64, replace_all, trim_str, usize_to_string,
    IntErrorKind,
};

fn std_int_kind(s: &str) -> Result<i64, String> {
    s.parse::<i64>().map_err(|e| e.to_string())
}

fn ours(s: &str) -> Result<i64, String> {
    parse_i64(&chars_of(s)).map_err(|k| k.message())
}

#[test]
fn parse_i64_agrees_with_std() {
    let samples = [
        "0", "42", "+42", "-42", "", "+", "-", "abc", "1a", "9223372036854775807",
        "9223372036854775808", "-9223372036854775808", "-9223372036854775809", "007", "--1",
        "+-1", " 1", "99999999999999999999x",
    ];
    for s in samples {
        assert_eq!(ours(s), std_int_kind(s), "input {:?}", s);
    }
}

#[test]
fn int_error_messages_are_std_messages() {
    assert_eq!(IntErrorKind::Empty.message(), "".parse::<i64>().unwrap_err().to_string());
    assert_eq!(IntErrorKind::InvalidDigit.message(), "x".parse::<i64>().unwrap_err().to_string());
    assert_eq!(
        IntErrorKind::PosOverflow.message(),
        "9223372036854775808".parse::<i64>().unwrap_err().to_string()
    );
    assert_eq!(
        IntErrorKind::NegOverflow.message(),
        "-9223372036854775809".parse::<i64>().unwrap_err().to_string()
    );
}

#[test]
fn integer_text_round_trips() {
    for n in [0i64, 7, -7, 10, 1234567890, i64::MAX, i64::MIN] {
        let t = i64_to_string(n);
        assert_eq!(t, n.to_string());
        assert_eq!(parse_i64(&chars_of(&t)), Ok(n));
    }
    assert_eq!(usize_to_string(0), "0");
    assert_eq!(usize_to_string(905), "905");
}

#[test]
fn trim_agrees_with_std() {
    for s in ["", "  ", " a ", "\t\nx y\r\n", "\u{3000}wide\u{3000}", "\u{85}n\u{a0}", "abc"] {
        assert_eq!(trim_str(s), s.trim(), "input {:?}", s);
    }
}

#[test]
fn replace_all_agrees_with_std() {
    let cases = [
        ("aaa", "aa", "b"),
        ("{{X}}{{X}}", "{{X}}", "1"),
        ("no match", "zz", "y"),
        ("", "a", "b"),
        ("abcabc", "c", ""),
        ("{{STATUS}}_{{STATUS_LABEL}}", "{{STATUS}}", "ok"),
    ];
    for (s, p, r) in cases {
        assert_eq!(replace_all(s, p, r), s.replace(p, r), "input {:?}", (s, p, r));
    }
}

#[test]
fn html_escape_escapes_three_characters() {
    assert_eq!(html_escape("a<b>&c"), "a&lt;b&gt;&amp;c");
    assert_eq!(html_escape("plain text"), "plain text");
    let escaped = html_escape("<script>alert(1)</script>");
    assert!(!escaped.contains('<') && !escaped.contains('>'));
}

#[test]
fn float_literals_agree_with_std() {
    let samples = [
        "1.5", "1e5", "1E-5", "inf", "-inf", "+Infinity", "NaN", "nan", ".5", "5.", "+.5e-3",
        "e5", "1e", "", "abc", ".", "1.2.3", "infinityx", "0x10", "1_000", " 1", "-0",
    ];
    for s in samples {
        let ours = check_float_literal(&chars_of(s)).map_err(|k| k.message());
        let theirs = s.parse::<f64>().map(|_| ()).map_err(|e| e.to_string());
        assert_eq!(ours, theirs, "input {:?}", s);
    }
    assert_eq!(FloatErrorKind::Empty.message(), "".parse::<f64>().unwrap_err().to_string());
    assert_eq!(FloatErrorKind::Invalid.message(), "x".parse::<f64>().unwrap_err().to_string());
}

#[test]
fn literal_integer_part_agrees_with_float_cast() {
    for s in ["12.9", "-3.7", "1e3", "0.0001", "-0.5", "123456.789", "2.5e2", "nan", "inf", "-inf", "1e30", "-1e30"] {
        let v = chars_of(s);
        assert_eq!(literal_to_i64(&v), s.parse::<f64>().unwrap() as i64, "input {:?}", s);
    }
}

#[test]
fn html_escape_is_undone_by_resolving_its_entities() {
    for s in ["a<b>&c", "&lt;", "&amp;amp;", "plain", "", "<<>>&&", "x &gt; y"] {
        let e = html_escape(s);
        assert!(!e.contains('<') && !e.contains('>'));
        assert_eq!(e.replace("&lt;", "<").replace("&gt;", ">").replace("&amp;", "&"), s, "input {:?}", s);
    }
}
