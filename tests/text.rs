use spectre::io::{skip_line, LineReader};
use spectre::text::{
    check_float, is_whitespace, parse_usize, split_tokens, string_of, trimmed, FloatErrorKind,
    IntErrorKind,
};

fn chars(s: &str) -> Vec<char> {
    s.chars().collect()
}

fn toks(s: &str) -> Vec<String> {
    split_tokens(&chars(s)).iter().map(|t| t.iter().collect()).collect()
}

#[test]
fn tokens_split_on_any_whitespace() {
    assert_eq!(toks("  a bb\tc\u{3000}d  "), vec!["a", "bb", "c", "d"]);
    assert!(toks("").is_empty());
    assert!(toks(" \t ").is_empty());
    assert_eq!(toks("x"), vec!["x"]);
}

#[test]
fn whitespace_set() {
    for c in ['\t', '\n', '\r', ' ', '\u{A0}', '\u{2003}', '\u{3000}', '\u{85}'] {
        assert!(is_whitespace(c));
        assert_eq!(is_whitespace(c), c.is_whitespace());
    }
    for c in ['a', '0', '-', '\u{200B}'] {
        assert!(!is_whitespace(c));
        assert_eq!(is_whitespace(c), c.is_whitespace());
    }
}

#[test]
fn trimming() {
    let t: String = trimmed(&chars("  CO  v=0 \r")).iter().collect();
    assert_eq!(t, "CO  v=0");
    assert!(trimmed(&chars("   ")).is_empty());
}

#[test]
fn unsigned_integers() {
    assert_eq!(parse_usize(&chars("0")), Ok(0));
    assert_eq!(parse_usize(&chars("+42")), Ok(42));
    assert_eq!(parse_usize(&chars("007")), Ok(7));
    assert_eq!(parse_usize(&chars("")), Err(IntErrorKind::Empty));
    assert_eq!(parse_usize(&chars("+")), Err(IntErrorKind::InvalidDigit));
    assert_eq!(parse_usize(&chars("-")), Err(IntErrorKind::InvalidDigit));
    assert_eq!(parse_usize(&chars("-1")), Err(IntErrorKind::InvalidDigit));
    assert_eq!(parse_usize(&chars("1 2")), Err(IntErrorKind::InvalidDigit));
    let max = usize::MAX.to_string();
    assert_eq!(parse_usize(&chars(&max)), Ok(usize::MAX));
    let over = format!("{}0", max);
    assert_eq!(parse_usize(&chars(&over)), Err(IntErrorKind::PosOverflow));
    for s in ["12", "+3", "-3", "", "+", "1x", "18446744073709551616", "99999999999999999999x"] {
        let ours = parse_usize(&chars(s));
        let std_ok = s.parse::<usize>().ok();
        assert_eq!(ours.ok(), std_ok, "{}", s);
    }
}

#[test]
fn float_literals() {
    for s in ["1", "1.", ".5", "-0.0", "+3.845", "6.2e-8", "1E+10", "inf", "-Infinity", "NaN", "1e5"] {
        assert_eq!(check_float(&chars(s)), Ok(()), "{}", s);
        assert!(s.parse::<f64>().is_ok());
    }
    for s in [".", "e5", "1e", "1e+", "--1", "1.2.3", "0x10", "in", "infinit", "1 2", "+"] {
        assert_eq!(check_float(&chars(s)), Err(FloatErrorKind::Invalid), "{}", s);
        assert!(s.parse::<f64>().is_err());
    }
    assert_eq!(check_float(&chars("")), Err(FloatErrorKind::Empty));
}

#[test]
fn string_from_characters() {
    let v = chars("spectre");
    assert_eq!(string_of(&v, 0, 7), "spectre");
    assert_eq!(string_of(&v, 2, 5), "ect");
    assert_eq!(string_of(&v, 3, 3), "");
}

#[test]
fn line_reader_walks_lines() {
    let mut r = LineReader::new("a\n\nb c\r\nlast");
    assert_eq!(r.next_line().as_deref(), Some("a"));
    assert_eq!(r.next_line().as_deref(), Some(""));
    assert_eq!(r.next_line().as_deref(), Some("b c\r"));
    assert!(!r.at_end());
    assert_eq!(r.next_line().as_deref(), Some("last"));
    assert!(r.at_end());
    assert_eq!(r.next_line(), None);
    let mut r = LineReader::new("x\n");
    assert_eq!(r.next_line().as_deref(), Some("x"));
    assert_eq!(r.next_line(), None);
}

#[test]
fn skip_line_consumes_one_line() {
    let mut r = LineReader::new("!comment\ndata\n");
    let mut buf = String::from("old");
    skip_line(&mut r, &mut buf);
    assert_eq!(buf, "!comment\n");
    assert_eq!(r.next_line().as_deref(), Some("data"));
    skip_line(&mut r, &mut buf);
    assert_eq!(buf, "");
    assert!(r.at_end());
    let mut r = LineReader::new("a\r\nlast");
    skip_line(&mut r, &mut buf);
    assert_eq!(buf, "a\r\n");
    skip_line(&mut r, &mut buf);
    assert_eq!(buf, "last");
    assert!(r.at_end());
}
