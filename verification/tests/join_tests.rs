use shmin::join_newlines;

#[test]
fn joins_simple() {
    let input = "echo a\necho b\n";
    let result = join_newlines(input);
    assert!(result.contains("echo a;echo b"));
}

#[test]
fn preserves_heredoc() {
    let input = "cat <<EOF\nhello world\nEOF\necho done\n";
    let result = join_newlines(input);
    assert!(result.contains("hello world\n"));
}

#[test]
fn then_gets_space() {
    let input = "if true; then\n  echo yes\nfi\n";
    let result = join_newlines(input);
    assert!(!result.contains("then;"), "Got: {result}");
    assert!(result.contains("then "), "Got: {result}");
}

#[test]
fn do_gets_space() {
    let input = "for x in a b; do\n  echo $x\ndone\n";
    let result = join_newlines(input);
    assert!(!result.contains("do;"), "Got: {result}");
}

#[test]
fn case_statement() {
    let input = "case \"$x\" in\n  a)\n    echo a\n    ;;\n  b)\n    echo b\n    ;;\nesac\n";
    let result = join_newlines(input);
    assert!(!result.contains("then;"), "Got: {result}");
    assert!(result.contains("esac"), "Got: {result}");
}

#[test]
fn operator_continuation() {
    let input = "echo a ||\n  echo b\n";
    let result = join_newlines(input);
    assert!(result.contains("echo a || echo b"), "Got: {result}");
}

#[test]
fn backslash_continuation() {
    let input = "echo hello \\\nworld\n";
    let result = join_newlines(input);
    assert!(result.contains("echo hello world"), "Got: {result}");
}

#[test]
fn array_spanning_multiline() {
    let input = "arr=(\n  one\n  two\n  three\n)\n";
    let result = join_newlines(input);
    assert!(result.contains("arr=( one two three )"), "Got: {result}");
    assert!(!result.contains('\n'), "Should be single line, got: {result}");
}

#[test]
fn leading_close_paren() {
    let input = "func(\n)\necho done\n";
    let result = join_newlines(input);
    assert!(result.contains(")"), "Got: {result}");
}

#[test]
fn multiline_single_quote() {
    let input = "echo 'hello\nworld'\n";
    let result = join_newlines(input);
    assert!(result.contains("hello"), "Got: {result}");
    assert!(result.contains("world"), "Got: {result}");
}

#[test]
fn multiline_double_quote() {
    let input = "echo \"hello\nworld\"\n";
    let result = join_newlines(input);
    assert!(result.contains("hello"), "Got: {result}");
    assert!(result.contains("world"), "Got: {result}");
}

#[test]
fn case_empty_body() {
    let input = "case \"$1\" in\n  disabled)\n    ;;\n  active)\n    echo yes\n    ;;\nesac\n";
    let result = join_newlines(input);
    assert!(result.contains("disabled);;"), "Got: {result}");
    assert!(result.contains("active)echo yes;;"), "Got: {result}");
}

#[test]
fn case_inline_body() {
    let input = "case \"$x\" in\n  a) echo a ;;\n  b) echo b ;;\nesac\n";
    let result = join_newlines(input);
    assert!(result.contains("a)echo a;;"), "Got: {result}");
}

#[test]
fn blank_lines_skipped() {
    let input = "echo a\n\n\necho b\n";
    let result = join_newlines(input);
    assert_eq!(result, "echo a;echo b;");
}

#[test]
fn else_gets_space() {
    let input = "if true; then\n  echo a\nelse\n  echo b\nfi\n";
    let result = join_newlines(input);
    assert!(!result.contains("else;"), "Got: {result}");
    assert!(result.contains("else "), "Got: {result}");
}

#[test]
fn and_continuation() {
    let input = "cmd1 &&\ncmd2\n";
    let result = join_newlines(input);
    assert!(result.contains("cmd1 && cmd2"), "Got: {result}");
}

#[test]
fn pipe_continuation() {
    let input = "cmd1 |\ncmd2\n";
    let result = join_newlines(input);
    assert!(result.contains("cmd1 | cmd2"), "Got: {result}");
}

#[test]
fn brace_open_continuation() {
    let input = "func() {\necho body\n}\n";
    let result = join_newlines(input);
    assert!(result.contains("func() { echo body"), "Got: {result}");
}

#[test]
fn multiline_double_quote_three_lines() {
    let input = "echo \"hello\nmiddle\nworld\"\n";
    let result = join_newlines(input);
    assert!(result.contains("hello"), "Got: {result}");
    assert!(result.contains("middle"), "Got: {result}");
    assert!(result.contains("world"), "Got: {result}");
    assert!(!result.contains("middle;"), "middle should not be a separate statement, got: {result}");
}

#[test]
fn multiline_single_quote_three_lines() {
    let input = "echo 'hello\nmiddle\nworld'\n";
    let result = join_newlines(input);
    assert!(result.contains("hello"), "Got: {result}");
    assert!(result.contains("middle"), "Got: {result}");
    assert!(result.contains("world"), "Got: {result}");
    assert!(!result.contains("middle;"), "middle should not be a separate statement, got: {result}");
}

#[test]
fn case_with_blank_lines() {
    let input = "case \"$1\" in\n\n  a)\n    echo a\n    ;;\n\n  b)\n    echo b\n    ;;\n\nesac\n";
    let result = join_newlines(input);
    assert!(result.contains("esac"), "Got: {result}");
}

#[test]
fn case_multiline_body() {
    let input = "case \"$1\" in\n  start)\n    echo one\n    echo two\n    ;;\nesac\n";
    let result = join_newlines(input);
    assert!(result.contains("start)echo one;echo two;;"), "Got: {result}");
}

#[test]
fn heredoc_after_single_quoted_string() {
    let input = "echo 'hi' && cat <<EOF\nheredoc content\nEOF\necho after\n";
    let result = join_newlines(input);
    assert!(result.contains("heredoc content\n"), "Got: {result}");
    assert!(result.contains("EOF"), "Got: {result}");
}

#[test]
fn case_without_esac_eof() {
    let input = "case \"$1\" in\n  a)\n    echo a\n    ;;\n";
    let result = join_newlines(input);
    assert!(result.contains("a)echo a;;"), "Got: {result}");
}

#[test]
fn heredoc_double_lt_no_delimiter() {
    let input = "echo << ;\necho after\n";
    let result = join_newlines(input);
    assert!(result.contains("echo <<"), "Got: {result}");
    assert!(result.contains("echo after"), "Got: {result}");
}

#[test]
fn case_with_non_pattern_line() {
    let input = "case \"$1\" in\n  not_a_pattern\n  a)\n    echo a\n    ;;\nesac\n";
    let result = join_newlines(input);
    assert!(result.contains("esac"), "Got: {result}");
}
