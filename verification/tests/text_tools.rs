use mockserve::synth::digits_to_i64;
use mockserve::text::{contains_route_marker, str_eq, tokenize};

#[test]
fn tokenize_splits_on_whitespace_and_drops_empties() {
    let toks = tokenize("  route   /users \t\n done ");
    assert_eq!(toks, vec!["route", "/users", "done"]);
}

#[test]
fn tokenize_empty_and_blank_strings() {
    assert_eq!(tokenize("").len(), 0);
    assert_eq!(tokenize("   \t \n ").len(), 0);
}

#[test]
fn tokenize_single_token_without_whitespace() {
    assert_eq!(tokenize("route"), vec!["route"]);
}

#[test]
fn route_marker_found_as_substring() {
    assert!(contains_route_marker("route"));
    assert!(contains_route_marker("@route:"));
    assert!(contains_route_marker("myroutes"));
}

#[test]
fn route_marker_absent() {
    assert!(!contains_route_marker(""));
    assert!(!contains_route_marker("rout"));
    assert!(!contains_route_marker("Route"));
    assert!(!contains_route_marker("r o u t e"));
}

#[test]
fn string_equality_by_characters() {
    assert!(str_eq("/users", "/users"));
    assert!(!str_eq("/users", "/user"));
    assert!(!str_eq("", "a"));
    assert!(str_eq("", ""));
}

#[test]
fn digit_strings_parse_to_their_value() {
    assert_eq!(digits_to_i64("000"), 0);
    assert_eq!(digits_to_i64("042"), 42);
    assert_eq!(digits_to_i64("999"), 999);
    assert_eq!(digits_to_i64("123456789012345678"), 123456789012345678);
}
