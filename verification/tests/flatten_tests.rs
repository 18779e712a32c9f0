use shmin::{flatten_line, flatten_lines};

#[test]
fn removes_leading_ws() {
    assert_eq!(flatten_line("  echo hello"), "echo hello");
    assert_eq!(flatten_line("\t\tlocal x"), "local x");
}

#[test]
fn removes_trailing_semi() {
    assert_eq!(flatten_line("echo hello;"), "echo hello");
}

#[test]
fn preserves_double_semi() {
    assert_eq!(flatten_line("pattern);;"), "pattern);;");
}

#[test]
fn removes_eol_comment() {
    assert_eq!(flatten_line("echo hello # comment"), "echo hello ");
}

#[test]
fn preserves_hash_in_single_quotes() {
    assert_eq!(flatten_line("echo 'a # b'"), "echo 'a # b'");
}

#[test]
fn preserves_hash_in_double_quotes() {
    assert_eq!(flatten_line(r#"echo "a # b""#), r#"echo "a # b""#);
}

#[test]
fn strips_comment_after_quoted_string() {
    assert_eq!(flatten_line(r#"echo "hello" # comment"#), r#"echo "hello" "#);
}

#[test]
fn strips_comment_after_single_quoted_string() {
    assert_eq!(flatten_line("echo 'hello' # comment"), "echo 'hello' ");
}

#[test]
fn flatten_lines_works() {
    let lines: Vec<String> = vec![
        "  echo hello;".to_string(),
        "\tlocal x=1".to_string(),
        "echo world # comment".to_string(),
    ];
    let result = flatten_lines(&lines);
    assert_eq!(result[0], "echo hello");
    assert_eq!(result[1], "local x=1");
    assert_eq!(result[2], "echo world ");
}

#[test]
fn flatten_backslash_inside_single_quotes_is_literal() {
    assert_eq!(flatten_line(r"echo 'hello\' # comment"), r"echo 'hello\' ");
}

#[test]
fn preserves_heredoc_whitespace() {
    let lines = vec![
        "  cat <<EOF".to_string(),
        "  indented content".to_string(),
        "  # looks like comment".to_string(),
        "EOF".to_string(),
        "  echo after".to_string(),
    ];
    let result = flatten_lines(&lines);
    assert_eq!(result[0], "cat <<EOF");
    assert_eq!(result[1], "  indented content");
    assert_eq!(result[2], "  # looks like comment");
    assert_eq!(result[3], "EOF");
    assert_eq!(result[4], "echo after");
}
