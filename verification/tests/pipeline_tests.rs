use shmin::{minify, MinifyConfig};

fn cfg(do_obfuscate: bool, var_prefix: &str, ignore_vars: &str) -> MinifyConfig {
    MinifyConfig {
        do_obfuscate,
        var_prefix: var_prefix.to_string(),
        ignore_vars: ignore_vars.to_string(),
    }
}

#[test]
fn pipeline_minify_only() {
    let input = "#!/usr/bin/env bash\n# comment\nset -euo pipefail\n\necho hello\n  echo world\n";
    let result = minify(input, &cfg(false, "a", "usage,args")).unwrap();
    assert!(result.contains("echo hello"));
    assert!(result.contains("echo world"));
    assert!(!result.contains("#!/"));
    assert!(!result.contains("# comment"));
}

#[test]
fn pipeline_obfuscate() {
    let input = "local foo=1\necho $foo\n";
    let result = minify(input, &cfg(true, "a", "usage,args")).unwrap();
    assert!(!result.contains("foo"), "Got: {result}");
    assert!(result.contains("a0"), "Got: {result}");
}

#[test]
fn pipeline_obfuscate_custom_prefix() {
    let input = "local bar=1\necho $bar\n";
    let result = minify(input, &cfg(true, "x", "usage,args")).unwrap();
    assert!(result.contains("x0"), "Got: {result}");
}

#[test]
fn pipeline_ignore_vars() {
    let input = "local foo=1\nlocal bar=2\necho $foo $bar\n";
    let result = minify(input, &cfg(true, "a", "foo")).unwrap();
    assert!(result.contains("foo"), "foo should be kept, got: {result}");
}

#[test]
fn pipeline_underscore_prefix_not_corrupted() {
    let input = "local path=\"${1}\"\nlocal _force=0 _path=\"\"\n_path=\"${1}\"\necho \"${_path}\"\necho \"${path}\"\n";
    let result = minify(input, &cfg(true, "a", "usage,args")).unwrap();
    assert!(!result.contains("_a0"), "_path was partially renamed: {result}");
    assert!(result.contains("${_path}"), "${{_path}} must stay intact: {result}");
}

#[test]
fn pipeline_long_underscore_prefix_not_corrupted() {
    let input = "local path=\"${1}\"\nlocal _argsh_builtin_path=\"\"\n_argsh_builtin_path=\"${1}\"\necho \"${_argsh_builtin_path}\"\necho \"${path}\"\n";
    let result = minify(input, &cfg(true, "a", "usage,args")).unwrap();
    assert!(result.contains("_argsh_builtin_path"), "_argsh_builtin_path was corrupted: {result}");
    assert!(!result.contains("_argsh_builtin_a0"), "_argsh_builtin_path partially renamed: {result}");
}

#[test]
fn pipeline_midline_array_write() {
    let input = "local -a prev\nlocal j=0\nfor (( j=0; j <= n; j++ )); do prev[j]=\"${j}\"; done\necho \"${prev[@]}\"\n";
    let result = minify(input, &cfg(true, "a", "usage,args")).unwrap();
    assert!(
        !regex::Regex::new(r"\bprev\b").unwrap().is_match(&result),
        "prev not fully renamed (mid-line array write missed): {result}"
    );
}

#[test]
fn pipeline_substring_offset_renamed() {
    let input = "local i=0\nlocal str=\"hello\"\necho \"${str:i-1:1}\"\necho \"${str:0:i}\"\n";
    let result = minify(input, &cfg(true, "a", "usage,args")).unwrap();
    assert!(
        !regex::Regex::new(r"\$\{[^}]+:[^}]*\bi\b").unwrap().is_match(&result),
        "i not renamed in substring offset: {result}"
    );
}

#[test]
fn pipeline_bare_array_subscript_renamed() {
    let input = "local -a prev\nlocal j=0\nfor (( j=0; j <= n; j++ )); do prev[j]=\"${j}\"; done\necho $(( prev[j-1] + 1 ))\n";
    let result = minify(input, &cfg(true, "a", "usage,args")).unwrap();
    assert!(
        !regex::Regex::new(r"\w\[j[\]\-+]").unwrap().is_match(&result),
        "j not renamed in bare array subscript: {result}"
    );
}

#[test]
fn pipeline_read_ra_flag_not_corrupted() {
    let input = "local a flags\nIFS='|' read -ra flags <<< \"$a\"\n";
    let result = minify(input, &cfg(true, "a", "usage,args")).unwrap();
    assert!(
        !regex::Regex::new(r"read -ra\d").unwrap().is_match(&result),
        "read -ra flag corrupted: {result}"
    );
}

#[test]
fn pipeline_bad_ignore_pattern_fails() {
    let input = "local foo=1\n";
    let result = minify(input, &cfg(true, "a", "(unclosed"));
    assert!(result.is_err());
    let msg = result.err().unwrap().message();
    assert!(msg.contains("invalid ignore pattern"), "Got: {msg}");
}

#[test]
fn pipeline_single_quoted_assignment_stays() {
    let input = "echo '$foo'\nlocal foo=1\n";
    let result = minify(input, &cfg(true, "a", "usage,args")).unwrap();
    assert!(result.contains("'$foo'"), "Got: {result}");
}
