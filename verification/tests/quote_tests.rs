use shmin::QuoteTracker;

#[test]
fn no_quotes() {
    let (s, d) = QuoteTracker::line_has_open_quote("echo hello");
    assert!(!s);
    assert!(!d);
}

#[test]
fn balanced_double() {
    let (s, d) = QuoteTracker::line_has_open_quote(r#"echo "hello world""#);
    assert!(!s);
    assert!(!d);
}

#[test]
fn open_single() {
    let (s, d) = QuoteTracker::line_has_open_quote("echo 'hello");
    assert!(s);
    assert!(!d);
}

#[test]
fn single_inside_double() {
    let (s, d) = QuoteTracker::line_has_open_quote(r#"echo "it's fine""#);
    assert!(!s);
    assert!(!d);
}

#[test]
fn quote_backslash_inside_single_quotes_is_literal() {
    let (s, d) = QuoteTracker::line_has_open_quote(r"echo 'hello\'");
    assert!(!s, "backslash is literal inside single quotes");
    assert!(!d);
}

#[test]
fn escaped_single_quote_outside_quotes() {
    let (s, d) = QuoteTracker::line_has_open_quote(r"echo \'hello");
    assert!(!s, "escaped single quote should not open a string");
    assert!(!d);
}

#[test]
fn double_backslash_before_double_quote() {
    let (s, d) = QuoteTracker::line_has_open_quote(r#"echo "test\\""#);
    assert!(!s);
    assert!(!d, "even number of backslashes means quote is real");
}

#[test]
fn triple_backslash_before_double_quote() {
    let (s, d) = QuoteTracker::line_has_open_quote(r#"echo "test\\\""#);
    assert!(!s);
    assert!(d, "odd number of backslashes means quote is escaped, string is open");
}

#[test]
fn double_backslash_before_single_quote() {
    let (s, d) = QuoteTracker::line_has_open_quote(r"echo \\'hello'");
    assert!(!s, "even backslashes, both single quotes are real");
    assert!(!d);
}
