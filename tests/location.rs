use rhg_engine::error::{Error, ErrorKind};
use rhg_engine::location::Location;

#[test]
fn location_test() {
    assert_eq!(Location::new("test.txt", 10, 4).to_string(), format!("{}", "test.txt:10:4"))
}

#[test]
fn location_getters() {
    let l = Location::new("src/a.rs", 0, 123);
    assert_eq!(l.path(), "src/a.rs");
    assert_eq!(l.line(), 0);
    assert_eq!(l.column(), 123);
    assert_eq!(l.to_string(), "src/a.rs:0:123");
}

#[test]
fn error_keeps_its_parts() {
    let cause = Error::new(ErrorKind::Unknown, String::from("inner"), None, Location::new("a", 1, 2));
    let e = Error::new(ErrorKind::IO, String::from("outer"), Some(cause), Location::new("b", 3, 4));
    assert_eq!(e.kind(), ErrorKind::IO);
    assert_eq!(e.message(), "outer");
    assert_eq!(e.location().to_string(), "b:3:4");
    let c = e.cause().expect("cause");
    assert_eq!(c.kind(), ErrorKind::Unknown);
    assert_eq!(c.message(), "inner");
    assert!(c.cause().is_none());
}

#[test]
fn error_prints_with_its_causes() {
    let cause = Error::new(ErrorKind::Unknown, String::from("inner"), None, Location::new("a.rs", 1, 2));
    let e = Error::new(ErrorKind::IO, String::from("outer"), Some(cause), Location::new("b.rs", 30, 4));
    assert_eq!(e.to_string(), "[IO] outer at b.rs:30:4\nCaused by: [Unknown] inner at a.rs:1:2");
    assert_eq!(ErrorKind::IO.to_string(), "IO");
}

#[test]
fn large_line_numbers_print_in_decimal() {
    assert_eq!(Location::new("p", 1234567890, 0).to_string(), "p:1234567890:0");
    assert_eq!(Location::new("", usize::MAX, 10).to_string(), format!(":{}:10", usize::MAX));
}
