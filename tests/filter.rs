use logviewer::filter::{parse_filter, tokenize, FilterError, Token};

#[test]
fn test_simple_pattern() {
    let filter = parse_filter("error").ok().unwrap();
    assert!(filter.matches("this is an error"));
    assert!(!filter.matches("this is fine"));
}

#[test]
fn test_and() {
    let filter = parse_filter("error && fatal").ok().unwrap();
    assert!(filter.matches("fatal error occurred"));
    assert!(!filter.matches("error occurred"));
}

#[test]
fn test_or() {
    let filter = parse_filter("error || warn").ok().unwrap();
    assert!(filter.matches("error occurred"));
    assert!(filter.matches("warn: something"));
    assert!(!filter.matches("info: ok"));
}

#[test]
fn test_complex() {
    let filter = parse_filter("(error || warn) && !debug").ok().unwrap();
    assert!(filter.matches("error in production"));
    assert!(!filter.matches("debug error message"));
}

#[test]
fn test_negative_pattern() {
    let filter = parse_filter("error && !debug").ok().unwrap();
    assert!(filter.matches("error in production"));
    assert!(filter.matches("fatal error occurred"));
    assert!(!filter.matches("debug error message"));
    assert!(!filter.matches("debug: some info"));
    assert!(!filter.matches("no match here"));
}

#[test]
fn test_negative_with_quoted_spaces() {
    let filter = parse_filter(r#"error && !"debug mode""#).ok().unwrap();
    assert!(filter.matches("error in production"));
    assert!(filter.matches("error debug"));
    assert!(!filter.matches("error in debug mode"));
    assert!(!filter.matches("debug mode error"));
}

#[test]
fn seed_single_atom() {
    let f = parse_filter("error").ok().unwrap();
    assert!(f.matches("this is an error"));
    assert!(!f.matches("ok"));
}

#[test]
fn seed_and() {
    let f = parse_filter("error && fatal").ok().unwrap();
    assert!(f.matches("fatal error"));
    assert!(!f.matches("error"));
}

#[test]
fn seed_or() {
    let f = parse_filter("error || warn").ok().unwrap();
    assert!(f.matches("warn: x"));
}

#[test]
fn seed_grouped_not() {
    let f = parse_filter("(error || warn) && !debug").ok().unwrap();
    assert!(f.matches("error in prod"));
    assert!(!f.matches("debug error"));
}

#[test]
fn seed_quoted_not() {
    let f = parse_filter("error && !\"debug mode\"").ok().unwrap();
    assert!(!f.matches("error in debug mode"));
}

#[test]
fn single_quotes_and_escapes() {
    let f = parse_filter(r"'a\'b'").ok().unwrap();
    assert!(f.matches("xa'by"));
    assert!(!f.matches("ab"));
}

#[test]
fn tab_ends_bare_atom() {
    let ts = tokenize("a\tb").ok().unwrap();
    assert_eq!(ts.len(), 2);
    match (&ts[0], &ts[1]) {
        (Token::Pattern(a), Token::Pattern(b)) => {
            assert_eq!(a, "a");
            assert_eq!(b, "b");
        }
        _ => panic!("expected two atoms"),
    }
}

#[test]
fn tokens_of_operators() {
    let ts = tokenize("(a)&&!b||c").ok().unwrap();
    let kinds: Vec<&str> = ts
        .iter()
        .map(|t| match t {
            Token::LParen => "(",
            Token::RParen => ")",
            Token::And => "&&",
            Token::Or => "||",
            Token::Not => "!",
            Token::Pattern(_) => "p",
        })
        .collect();
    assert_eq!(kinds, vec!["(", "p", ")", "&&", "!", "p", "||", "p"]);
}

#[test]
fn error_empty_expression() {
    assert!(matches!(parse_filter("   \t "), Err(FilterError::EmptyExpression)));
}

#[test]
fn error_unterminated_string() {
    assert!(matches!(parse_filter("\"abc"), Err(FilterError::UnterminatedString)));
}

#[test]
fn error_single_ampersand() {
    assert!(matches!(parse_filter("a & b"), Err(FilterError::ExpectedAnd)));
}

#[test]
fn error_single_pipe() {
    assert!(matches!(parse_filter("a | b"), Err(FilterError::ExpectedOr)));
}

#[test]
fn error_unexpected_end() {
    assert!(matches!(parse_filter("a &&"), Err(FilterError::UnexpectedEnd)));
}

#[test]
fn error_unexpected_token() {
    assert!(matches!(parse_filter("a b"), Err(FilterError::UnexpectedToken(1))));
    assert!(matches!(parse_filter(")"), Err(FilterError::UnexpectedToken(0))));
}

#[test]
fn error_missing_paren() {
    assert!(matches!(parse_filter("(a || b"), Err(FilterError::MissingClosingParen)));
}

#[test]
fn error_invalid_regex() {
    match parse_filter("a && (b[") {
        Err(FilterError::InvalidRegex(atom, _)) => assert_eq!(atom, "b["),
        _ => panic!("expected an invalid regex"),
    }
}

#[test]
fn error_messages() {
    let e = parse_filter("a b").err().unwrap();
    assert_eq!(e.message(), "Unexpected token at position 1");
    let e = parse_filter("").err().unwrap();
    assert_eq!(e.message(), "Empty filter expression");
}

#[test]
fn find_all_matches_merges() {
    let f = parse_filter("ab || bc || !x").ok().unwrap();
    assert_eq!(f.find_all_matches("abc x abcd"), vec![(0, 3), (4, 5), (6, 9)]);
}

#[test]
fn find_all_matches_merges_touching() {
    let f = parse_filter("ab || cd").ok().unwrap();
    assert_eq!(f.find_all_matches("abcd ab"), vec![(0, 4), (5, 7)]);
}

#[test]
fn merge_overlapping_sorted_input() {
    let mut v = vec![(0, 2), (1, 5), (5, 6), (8, 9)];
    logviewer::filter::merge_overlapping(&mut v);
    assert_eq!(v, vec![(0, 6), (8, 9)]);
    let mut e: Vec<(usize, usize)> = vec![];
    logviewer::filter::merge_overlapping(&mut e);
    assert!(e.is_empty());
}

#[test]
fn empty_input_matches_nothing_special() {
    let f = parse_filter("x").ok().unwrap();
    assert!(!f.matches(""));
    assert!(f.find_all_matches("").is_empty());
}
