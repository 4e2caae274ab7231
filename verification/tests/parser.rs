use ketch::config::{find_val, parse_string, ConfigValue};
use ketch::errors::Error;
use ketch::serialize::to_text;

#[test]
fn parser() -> Result<(), Error> {
    assert_eq!(
        parse_string("(jsp a b c)\n(non plus)")?,
        vec![
            ConfigValue::Pair(
                "jsp".to_string(),
                Box::new(ConfigValue::Array(vec![
                    ConfigValue::Ident("a".to_string()),
                    ConfigValue::Ident("b".to_string()),
                    ConfigValue::Ident("c".to_string())
                ]))
            ),
            ConfigValue::Pair(
                "non".to_string(),
                Box::new(ConfigValue::Array(vec![ConfigValue::Ident(
                    "plus".to_string()
                )]))
            )
        ]
    );
    Ok(())
}

#[test]
#[should_panic]
fn no_paren() {
    parse_string("(jsp a b").unwrap();
}

#[test]
fn missing_paren_names_line_one() {
    let e = parse_string("(jsp a b").unwrap_err();
    assert_eq!(e.0, "line 1: Expected `)`, found EOF.");
}

#[test]
fn missing_paren_counts_lines() {
    let e = parse_string("(a b)\n\n(c d").unwrap_err();
    assert_eq!(e.0, "line 3: Expected `)`, found EOF.");
}

#[test]
fn empty_input_parses_to_nothing() {
    assert_eq!(parse_string("").unwrap(), vec![]);
}

#[test]
fn error_line_numbers_reach_two_digits() {
    let text = "\n\n\n\n\n\n\n\n\n\n\n(a b";
    let e = parse_string(text).unwrap_err();
    assert_eq!(e.0, "line 12: Expected `)`, found EOF.");
}

#[test]
fn whitespace_only_parses_to_nothing() {
    assert_eq!(parse_string(" \t\r\n ").unwrap(), vec![]);
}

#[test]
fn bare_identifiers_at_top_level() {
    assert_eq!(
        parse_string("one two").unwrap(),
        vec![
            ConfigValue::Ident("one".to_string()),
            ConfigValue::Ident("two".to_string())
        ]
    );
}

#[test]
fn nested_forms() {
    assert_eq!(
        parse_string("(a (b c))").unwrap(),
        vec![ConfigValue::Pair(
            "a".to_string(),
            Box::new(ConfigValue::Array(vec![ConfigValue::Pair(
                "b".to_string(),
                Box::new(ConfigValue::Array(vec![ConfigValue::Ident(
                    "c".to_string()
                )]))
            )]))
        )]
    );
}

#[test]
fn empty_body() {
    assert_eq!(
        parse_string("(a)").unwrap(),
        vec![ConfigValue::Pair(
            "a".to_string(),
            Box::new(ConfigValue::Array(vec![]))
        )]
    );
}

#[test]
fn find_val_returns_first_match() {
    let vals = parse_string("(k a)(k b)").unwrap();
    assert_eq!(
        find_val(&vals, "k"),
        Some(ConfigValue::Array(vec![ConfigValue::Ident("a".to_string())]))
    );
}

#[test]
fn find_val_absent_key() {
    let vals = parse_string("(k a)").unwrap();
    assert_eq!(find_val(&vals, "missing"), None);
}

#[test]
fn round_trip_reparses_identically() {
    let vals = parse_string("(jsp a b c)\n(non plus)  top (empty) (x (y z))").unwrap();
    let text = to_text(&vals);
    let again = parse_string(&text).unwrap();
    assert_eq!(vals, again);
}

#[test]
fn round_trip_of_serialized_form() {
    let vals = parse_string("(name hello) (version 0.1.0)").unwrap();
    let text = to_text(&vals);
    assert_eq!(text, "(name hello) (version 0.1.0)");
    assert_eq!(parse_string(&text).unwrap(), vals);
}

#[test]
fn parser_keeps_what_it_collected() {
    let mut p = ketch::config::ConfigParser::new("a b");
    let first = p.parse().unwrap();
    let second = p.parse().unwrap();
    assert_eq!(first, second);
}

#[test]
fn decimal_rendering() {
    assert_eq!(ketch::config::usize_to_string(0), "0");
    assert_eq!(ketch::config::usize_to_string(7), "7");
    assert_eq!(ketch::config::usize_to_string(1234), "1234");
}

#[test]
fn string_equality() {
    assert!(ketch::config::str_eq("abc", "abc"));
    assert!(!ketch::config::str_eq("abc", "abd"));
    assert!(!ketch::config::str_eq("abc", "ab"));
    assert!(ketch::config::str_eq("", ""));
}
