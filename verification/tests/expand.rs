//! Expansion against the real filesystem: quoted metacharacters stay
//! literal, non-matching patterns pass through, matching ones expand.
//!
//! The tests run in the crate directory, so `src` and `tests` are the
//! entries the patterns can match.

fn collect_args(line: &str) -> Vec<String> {
    let cmd: Vec<u16> = line.chars().map(|c| c as u16).collect();
    let mut iter = wild::args(Some(cmd));
    let mut out: Vec<String> = Vec::new();
    while let Some(item) = iter.next() {
        out.push(item.unwrap());
    }
    out
}

#[test]
fn expands_matching_pattern() {
    let args = collect_args("foo.exe _not_?a?_[f]ilename_ \"_not_?a?_[p]attern_\" sr?");
    assert_eq!(4, args.len());
    assert_eq!("foo.exe", &args[0]);
    assert_eq!("_not_?a?_[f]ilename_", &args[1]);
    assert_eq!("_not_?a?_[p]attern_", &args[2]);
    assert_eq!("src", &args[3]);
}

#[test]
fn quoted_metachar_stays_literal() {
    // the same pattern expands unquoted and stays literal quoted
    let args = collect_args("tes* \"tes*\"");
    assert_eq!(2, args.len());
    assert_eq!("tests", &args[0]);
    assert_eq!("tes*", &args[1]);
}

#[test]
fn invalid_pattern_passes_through() {
    // an unclosed bracket class does not compile: no expansion, literal text
    let args = collect_args("sr[");
    assert_eq!(1, args.len());
    assert_eq!("sr[", &args[0]);
}

#[test]
fn non_matching_pattern_passes_through() {
    let args = collect_args("nothing_here_?");
    assert_eq!(1, args.len());
    assert_eq!("nothing_here_?", &args[0]);
}

#[test]
fn unavailable_line_gives_no_args() {
    let mut iter = wild::args(None);
    assert!(iter.next().is_none());
}

#[test]
fn invalid_unicode_is_surfaced() {
    // one argument that is a lone high surrogate: its pattern decodes
    // lossily and matches nothing, and the literal fallback is not valid
    // Unicode text
    let cmd: Vec<u16> = vec![0xD800];
    let mut iter = wild::args(Some(cmd));
    let first = iter.next().expect("one argument");
    assert_eq!(Err(wild::ArgError::NotUnicode), first);
    assert!(iter.next().is_none());
}

#[test]
fn argument_count_ignores_filesystem() {
    // one record whether or not the pattern matches anything
    for line in ["sr?", "_no_such_entry_?", "\"sr?\""] {
        let cmd: Vec<u16> = line.chars().map(|c| c as u16).collect();
        let mut records = wild::globs(Some(cmd)).expect("records");
        let mut count: usize = 0;
        while let Some(_) = records.next() {
            count += 1;
        }
        assert_eq!(1, count);
    }
}

#[test]
fn test_actual_args() {
    let cmd: Vec<u16> = "wild.exe check".chars().map(|c| c as u16).collect();
    let mut records = wild::globs(Some(cmd)).expect("args found");
    let mut count: usize = 0;
    while let Some(_) = records.next() {
        count += 1;
    }
    assert!(count >= 1);
}

#[test]
fn literal_fallback_decodes_text() {
    let text: Vec<u16> = "lit".encode_utf16().collect();
    assert_eq!(Ok("lit".to_string()), wild::resolve_record(&text, wild::Expansion::NoMatch));
    assert_eq!(Ok("lit".to_string()), wild::resolve_record(&text, wild::Expansion::NoPattern));
    assert_eq!(
        Err(wild::ArgError::NotUnicode),
        wild::resolve_record(&vec![0xD800], wild::Expansion::NoMatch)
    );
    let found = wild::Expansion::Match(Ok("p".to_string()));
    assert_eq!(Ok("p".to_string()), wild::resolve_record(&text, found));
}
