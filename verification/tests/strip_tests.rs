use shmin::{should_strip, strip_lines};

#[test]
fn strips_shebang() {
    assert!(should_strip("#!/usr/bin/env bash"));
}

#[test]
fn strips_comment() {
    assert!(should_strip("# this is a comment"));
    assert!(should_strip("  # indented comment"));
}

#[test]
fn strips_blank() {
    assert!(should_strip(""));
    assert!(should_strip("   "));
    assert!(should_strip("\t\t"));
}

#[test]
fn strips_import_call() {
    assert!(should_strip("import string"));
    assert!(should_strip("import fmt"));
    assert!(should_strip("  import is"));
}

#[test]
fn strips_import_function() {
    assert!(should_strip("import() { something; }"));
}

#[test]
fn keeps_import_in_array() {
    assert!(!should_strip("    import import::clear)"));
}

#[test]
fn keeps_import_dynamic() {
    assert!(!should_strip(r#"    import "${_lib}""#));
}

#[test]
fn strips_set_pipefail() {
    assert!(should_strip("set -euo pipefail"));
    assert!(should_strip("  set -euo pipefail"));
    assert!(should_strip("\tset -euo pipefail"));
}

#[test]
fn keeps_code() {
    assert!(!should_strip("echo hello"));
    assert!(!should_strip("local x=1"));
}

#[test]
fn splits_midline_shebang() {
    let input = "}#!/usr/bin/env bash\necho hello";
    let result = strip_lines(input);
    assert_eq!(result, vec!["}", "echo hello"]);
}

#[test]
fn handles_normal_concatenation() {
    let input = "echo a\n#!/usr/bin/env bash\necho b";
    let result = strip_lines(input);
    assert_eq!(result, vec!["echo a", "echo b"]);
}

#[test]
fn preserves_heredoc_content() {
    let input = "cat <<EOF\n# not a comment\nimport something\n  indented\nEOF\necho after";
    let result = strip_lines(input);
    assert_eq!(
        result,
        vec![
            "cat <<EOF",
            "# not a comment",
            "import something",
            "  indented",
            "EOF",
            "echo after",
        ]
    );
}

#[test]
fn preserves_quoted_heredoc() {
    let input = "cat <<'MARKER'\n# comment\nMARKER\necho done";
    let result = strip_lines(input);
    assert_eq!(
        result,
        vec!["cat <<'MARKER'", "# comment", "MARKER", "echo done"]
    );
}

#[test]
fn heredoc_inside_double_quotes_not_detected() {
    let input = "echo \"not a <<EOF\"\n# this is a comment\necho after";
    let result = strip_lines(input);
    assert_eq!(result, vec!["echo \"not a <<EOF\"", "echo after"]);
}

#[test]
fn heredoc_inside_single_quotes_not_detected() {
    let input = "echo 'not a <<EOF'\n# this is a comment\necho after";
    let result = strip_lines(input);
    assert_eq!(result, vec!["echo 'not a <<EOF'", "echo after"]);
}

#[test]
fn heredoc_outside_quotes_still_works() {
    let input = "echo \"hello\" && cat <<EOF\n# heredoc content\nEOF\necho after";
    let result = strip_lines(input);
    assert_eq!(
        result,
        vec![
            "echo \"hello\" && cat <<EOF",
            "# heredoc content",
            "EOF",
            "echo after",
        ]
    );
}
