use stats_helper::parse::{filter, tokenize};

fn tokens(raw: &str) -> Vec<String> {
    tokenize(raw).expect("input should parse")
}

fn values(raw: &str) -> Vec<f64> {
    tokens(raw).iter().map(|t| t.parse::<f64>().expect("token should be numeric")).collect()
}

#[test]
fn simple_list_parses() {
    assert_eq!(tokens("1,2,3"), vec!["1", "2", "3"]);
    assert_eq!(values("1,2,3"), vec![1.0, 2.0, 3.0]);
}

#[test]
fn trailing_comma_is_stripped() {
    assert_eq!(tokens("1,2,3,"), vec!["1", "2", "3"]);
    assert_eq!(values("1,2,3,"), vec![1.0, 2.0, 3.0]);
}

#[test]
fn consecutive_commas_fail() {
    assert!(tokenize("1,2,,3").is_err());
}

#[test]
fn empty_input_fails() {
    assert!(tokenize("").is_err());
}

#[test]
fn letters_only_fail() {
    assert!(tokenize("abc").is_err());
    assert!(tokenize("hello world").is_err());
    assert!(tokenize("nan,infinity").is_err());
}

#[test]
fn whitespace_and_other_characters_are_dropped() {
    assert_eq!(tokens(" 1 , 2a\t,3x "), vec!["1", "2", "3"]);
    assert_eq!(values("[4, 5, 6]"), vec![4.0, 5.0, 6.0]);
}

#[test]
fn signs_and_decimal_points_parse() {
    assert_eq!(values("-1.5,.5,2."), vec![-1.5, 0.5, 2.0]);
}

#[test]
fn malformed_tokens_fail() {
    assert!(tokenize("1.2.3").is_err());
    assert!(tokenize("1-2").is_err());
    assert!(tokenize("-").is_err());
    assert!(tokenize(".").is_err());
    assert!(tokenize(",").is_err());
}

#[test]
fn filter_keeps_digits_point_comma_minus() {
    assert_eq!(filter("a1,b2,"), "1,2");
    assert_eq!(filter("1,2"), "1,2");
    assert_eq!(filter("x"), "");
    assert_eq!(filter(" -3 . 5 ,"), "-3.5");
}

#[test]
fn only_a_single_trailing_comma_is_stripped() {
    assert_eq!(filter("1,,"), "1,");
    assert!(tokenize("1,,").is_err());
}
