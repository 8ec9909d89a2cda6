//! Whole-line scenarios: each buffer against its expected literal argument
//! sequence, semicolon-joined.

#[test]
fn scenario_unquoted_and_quoted() {
    assert_eq!("unquoted;quoted", wild::unquoted("unquoted \"quoted\""));
}

#[test]
fn scenario_backslash_escaped_quote() {
    assert_eq!("quo\"ted", wild::unquoted(r#""quo\"ted""#));
}

#[test]
fn scenario_doubled_quote() {
    assert_eq!("quo\"ted?", wild::unquoted(r#""quo""ted?""#));
}

#[test]
fn scenario_four_quotes() {
    assert_eq!("\"", wild::unquoted(r#""""""#));
}

#[test]
fn scenario_ranges_in_and_out_of_quotes() {
    // the pair of quotes between the ranges opens and closes outside a
    // quoted region, so nothing is emitted for it
    assert_eq!("[a-c][d-z]", wild::unquoted(r#"[a-c]""[d-z]"#));
    // reached inside a quoted region, the same pair emits a literal quote
    assert_eq!("[a-c]\"[d-z]", wild::unquoted(r#""[a-c]""[d-z]""#));
}

#[test]
fn scenario_lone_quote_is_one_empty_argument() {
    assert_eq!("", wild::unquoted("\""));
    let cmd: Vec<u16> = vec![34];
    let mut records = wild::globs(Some(cmd)).expect("records");
    let first = records.next().expect("one argument");
    assert_eq!(0, first.text.len());
    assert!(records.next().is_none());
}

#[test]
fn scenario_quote_doubling_text() {
    // the doubled quote joins the two halves with one literal quote
    assert_eq!("a\"b", wild::unquoted(r#""a""b""#));
}

#[test]
fn scenario_backslash_parity() {
    // four backslashes before a quote: two literal ones, quoting closed
    assert_eq!("\\\\x", wild::unquoted(r#"\\\\"x"#));
    // three backslashes before a quote: one literal one, a literal quote
    assert_eq!("\\\"", wild::unquoted(r#"\\\""#));
    // five backslashes before a quote, reached inside quotes
    assert_eq!("y\\\\\"z", wild::unquoted(r#""y\\\\\"z""#));
}

#[test]
fn scenario_astral_characters() {
    // a character above U+FFFF travels as a surrogate pair and comes back
    assert_eq!("😀", wild::parsed("😀"));
    assert_eq!("😀;x", wild::unquoted("\"😀\" x"));
}
