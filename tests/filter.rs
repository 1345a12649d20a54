use rhg_engine::filter::{parse_filter, Filter, FilterPart};

fn check(pattern: &str, against: &str, expected: Option<Vec<(FilterPart, String)>>) {
    let f = pattern.parse::<Filter>().expect("failed to parse");
    let cap = f.capture(against);
    assert_eq!(
        cap, expected,
        "filter does not match, expected '{:?}' to be '{:?}'",
        cap, expected
    );
    assert_eq!(f.matches(against), expected.is_some());
}

fn lit(s: &str) -> FilterPart {
    FilterPart::Exact(String::from(s))
}

#[test]
fn parse() {
    let f = "*".parse::<Filter>().expect("parse");
    assert_eq!(f, Filter(vec![FilterPart::Star]));

    let f = "?".parse::<Filter>().expect("parse");
    assert_eq!(f, Filter(vec![FilterPart::Wildcard]));

    let f = "!(bc)".parse::<Filter>().expect("parse");
    assert_eq!(f, Filter(vec![FilterPart::Exclude("bc".to_string())]));

    let f = "test".parse::<Filter>().expect("parse");
    assert_eq!(f, Filter(vec![FilterPart::Exact("test".to_string())]));
}

#[test]
fn star() {
    check(
        "abc*",
        "abc",
        Some(vec![(lit("abc"), String::from("abc")), (FilterPart::Star, String::from(""))]),
    );
    check("abc*", "ab", None);
    check(
        "abc*",
        "abcd",
        Some(vec![(lit("abc"), String::from("abc")), (FilterPart::Star, String::from("d"))]),
    );
    check(
        "*abc",
        "dabc",
        Some(vec![(FilterPart::Star, String::from("d")), (lit("abc"), String::from("abc"))]),
    );
    check(
        "abc*",
        "abc3",
        Some(vec![(lit("abc"), String::from("abc")), (FilterPart::Star, String::from("3"))]),
    );
    check("abc*abc", "abc3", None);
    check(
        "abc*abc",
        "abc3abc",
        Some(vec![
            (lit("abc"), String::from("abc")),
            (FilterPart::Star, String::from("3")),
            (lit("abc"), String::from("abc")),
        ]),
    );
}

#[test]
fn exclude() {
    check("a!(bc)d", "abcd", None);
    check(
        "a!(bc)d",
        "a3d",
        Some(vec![
            (lit("a"), String::from("a")),
            (FilterPart::Exclude(String::from("bc")), String::from("3")),
            (lit("d"), String::from("d")),
        ]),
    );
}

#[test]
fn wildcard() {
    check("a?c", "ac", None);
    check(
        "a?c",
        "abc",
        Some(vec![
            (lit("a"), String::from("a")),
            (FilterPart::Wildcard, String::from("b")),
            (lit("c"), String::from("c")),
        ]),
    );
}

#[test]
fn exact() {
    check("abc", "ac", None);
    check("t", "test.txt", None);
    check("abc", "abc", Some(vec![(lit("abc"), String::from("abc"))]));
}

#[test]
fn exact_literal_lengths() {
    let f = Filter(vec![lit("abc")]);
    assert!(f.matches("abc"));
    assert!(!f.matches("ab"));
    assert!(!f.matches("abcd"));
}

#[test]
fn parse_coalesces_literals_around_specials() {
    let f = Filter::parse("ab*c?d!(x)ef").expect("parse");
    assert_eq!(
        f,
        Filter(vec![
            lit("ab"),
            FilterPart::Star,
            lit("c"),
            FilterPart::Wildcard,
            lit("d"),
            FilterPart::Exclude(String::from("x")),
            lit("ef"),
        ])
    );
    let f = Filter::parse("a)b(").expect("parse");
    assert_eq!(f, Filter(vec![lit("a)b(")]));
    assert_eq!(Filter::parse("").expect("parse"), Filter(vec![]));
}

#[test]
fn parse_rejects_bad_exclusions() {
    assert!(Filter::parse("a!").is_err());
    assert!(Filter::parse("a!b").is_err());
    assert!(Filter::parse("!(abc").is_err());
    let e = parse_filter("x!y").unwrap_err();
    assert_eq!(e.kind(), rhg_engine::error::ErrorKind::IO);
    assert!(e.message().contains("x!y"));
    assert!(parse_filter("*.txt").is_ok());
}

#[test]
fn empty_pattern_matches_only_empty_text() {
    let f = Filter::parse("").expect("parse");
    assert_eq!(f.capture(""), Some(vec![]));
    assert!(!f.matches("a"));
}

#[test]
fn star_yields_to_following_star() {
    let f = Filter::parse("**").expect("parse");
    assert_eq!(
        f.capture("ab"),
        Some(vec![(FilterPart::Star, String::from("")), (FilterPart::Star, String::from("ab"))])
    );
}

#[test]
fn exclusion_at_end_takes_the_rest() {
    let f = Filter::parse("a!(b)").expect("parse");
    assert!(!f.matches("ab"));
    assert_eq!(
        f.capture("abc"),
        Some(vec![
            (lit("a"), String::from("a")),
            (FilterPart::Exclude(String::from("b")), String::from("bc")),
        ])
    );
    assert!(f.matches("a"));
}

#[test]
fn star_stops_at_first_fit_even_when_later_text_is_left() {
    // the star yields at the first "b", the literal takes it, and "xb" is left over
    let f = Filter::parse("a*b").expect("parse");
    assert!(!f.matches("abxb"));
    assert!(f.matches("axxb"));
}

#[test]
fn part_capture_moves_offset() {
    let rest = vec![lit("c")];
    let mut offs: usize = 1;
    let r = FilterPart::Star.capture("abbc", &mut offs, &rest);
    assert_eq!(r, Some(String::from("bb")));
    assert_eq!(offs, 3);

    let mut offs: usize = 2;
    assert_eq!(FilterPart::Wildcard.capture("ab", &mut offs, &[]), None);
    assert_eq!(offs, 2);

    let mut offs: usize = 0;
    assert_eq!(lit("ab").capture("abc", &mut offs, &[]), Some(String::from("ab")));
    assert_eq!(offs, 2);

    let mut offs: usize = 0;
    assert_eq!(FilterPart::Exclude(String::from("ab")).capture("ab", &mut offs, &[]), None);
    assert_eq!(offs, 0);
}

#[test]
fn wildcard_takes_one_character() {
    let f = Filter::parse("?").expect("parse");
    assert!(f.matches("é"));
    assert!(!f.matches(""));
    assert!(!f.matches("ab"));
}

#[test]
fn patterns_print_as_written() {
    for p in ["abc*abc", "a!(bc)d", "a?c", "*", ""] {
        assert_eq!(Filter::parse(p).expect("parse").to_string(), p);
    }
    assert_eq!(FilterPart::Exclude(String::from("x")).to_string(), "!(x)");
    assert_eq!(FilterPart::Wildcard.to_string(), "?");
}

#[test]
fn from_str_fails_on_bad_exclusions_only() {
    for bad in ["!x", "!", "a!(bc"] {
        let e = bad.parse::<Filter>().unwrap_err();
        assert_eq!(e.kind(), rhg_engine::error::ErrorKind::IO);
    }
    assert_eq!("".parse::<Filter>().expect("parse"), Filter(vec![]));
    assert_eq!("a)".parse::<Filter>().expect("parse"), Filter(vec![lit("a)")]));
}
