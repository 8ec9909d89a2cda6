//! The tokenizer over whole command lines: patterns and literal texts,
//! semicolon-joined.

#[test]
fn test_parse_1() {
    assert_eq!(r#"漢字"#, wild::parsed("漢字"));
    assert_eq!(r#"漢字"#, wild::parsed("\"漢字\""));
    assert_eq!(r#"漢\字"#, wild::parsed("\"漢\\字\""));
    assert_eq!(r#"unquoted"#, wild::parsed("unquoted"));
    assert_eq!(r#"*"#, wild::parsed("*"));
    assert_eq!(r#"?"#, wild::parsed("?"));
    assert_eq!(r#"quoted"#, wild::parsed("\"quoted\""));
    assert_eq!(r#"quoted"#, wild::unquoted("\"quoted\""));
    assert_eq!(r#"[*]"#, wild::parsed("\"*\""));
    assert_eq!(r#"*"#, wild::unquoted("\"*\""));
    assert_eq!(r#"[?]"#, wild::parsed("\"?\""));
    assert_eq!(r#"?"#, wild::unquoted("\"?\""));
    assert_eq!(r#"[]]"#, wild::parsed("\"]\""));
    assert_eq!(r#"]"#, wild::unquoted("\"]\""));
    assert_eq!(r#"quo"ted"#, wild::parsed(r#"  "quo\"ted"  "#)); // backslash can escape quotes
    assert_eq!(r#"quo"ted?  "#, wild::parsed(r#"  "quo""ted?"  "#)); // and quote can escape quotes
    assert_eq!(r#"unquo"ted"#, wild::parsed(r#"  unquo\"ted  "#)); // backslash can escape quotes, even outside quotes
    assert_eq!(r#"unquoted?"#, wild::parsed(r#"  unquo""ted?  "#)); // quote escaping does not work outside quotes
    assert_eq!(r#"""#, wild::parsed(r#""""""#)); // quote escapes quote in quoted string
    assert_eq!(r#"""#, wild::parsed(r#"""""""#));
    assert_eq!(r#""""#, wild::parsed(r#""""""""#));
    assert_eq!(r#""""#, wild::parsed(r#"""""""""#)); // """ == "X", """""" = "X""X"
    assert_eq!(r#""""#, wild::parsed(r#""""""""""#));
    assert_eq!(r#"""""#, wild::parsed(r#"""""""""""#));
    assert_eq!(r#"\\server\share\path with spaces"#, wild::parsed(r#""\\server\share\path with spaces""#)); // lone double backslash is not special
    assert_eq!("aba", wild::parsed(r#""a"b"a""#)); // quotes can go in and out
    assert_eq!("abac", wild::parsed(r#""a"b"a"c"#)); // quotes can go in and out
    assert_eq!("c*a[*]b*a[*]c*", wild::parsed(r#"c*"a*"b*"a*"c*"#)); // quotes can go in and out
    assert_eq!(r#"\\"#, wild::parsed(r#"\\\\""#));
    assert_eq!(r#"?\\?"#, wild::parsed(r#"?\\\\"?"#)); // unpaired quote is interpreted like an end quote
    assert_eq!(r#"\""#, wild::parsed(r#"\\\""#));
    assert_eq!(r#"\"[a-z]"#, wild::parsed(r#"\\\"[a-z]"#));
    assert_eq!("    ", wild::parsed(r#""    "#)); // unterminated quotes are OK
    assert_eq!("", wild::parsed(r#""""#));
    assert_eq!(r#"[a-c][d-z]"#, wild::parsed(r#"[a-c]""[d-z]"#));
    assert_eq!(r#"[[]a-c[]]"[d-z]"#, wild::parsed(r#""[a-c]""[d-z]""#));
    assert_eq!("", wild::parsed(r#"""#));
    assert_eq!("x", wild::parsed(r#"x""#));
    assert_eq!(r#"\"#, wild::parsed(r"\"));
    assert_eq!(r#"\\"#, wild::parsed(r"\\"));
    assert_eq!(r#"\\\"#, wild::parsed(r"\\\"));
    assert_eq!(r#"\\\\"#, wild::parsed(r"\\\\"));
    assert_eq!(r#"\\a"#, wild::parsed(r#"\\\\"a"#));
    assert_eq!(r#"\\a"#, wild::parsed(r#"\\\\"a""#));
    assert_eq!(r#"¥¥"#, wild::parsed(r#"¥¥""#)); // in Unicode this isn't backslash
}

#[test]
fn test_parse_multi() {
    assert_eq!(r#"unquoted;quoted"#, wild::parsed("unquoted \"quoted\""));
    assert_eq!(r#"quo"ted;quo"ted    "#, wild::parsed(r#"  "quo\"ted"  "quo""ted"    "#));
    assert_eq!(r#"unquo"ted;""#, wild::parsed(r#" unquo\"ted """"""#));
    assert_eq!(r#"a;a"#, wild::parsed(r#"a"" a"#));
    assert_eq!(r#"a";a"#, wild::parsed(r#"a""" a"#));
    assert_eq!(r#"\\;\""#, wild::parsed(r#"\\\\"       \\\"  "#));
    assert_eq!("x;    ", wild::parsed(r#" x  "    "#));
}
