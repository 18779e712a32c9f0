use shmin::{brace_depth_delta, extract_target, BundleConfig, BundleStep, Bundler, MAX_DEPTH};

#[test]
fn brace_depth_delta_function() {
    assert_eq!(brace_depth_delta("foo() {"), 1);
    assert_eq!(brace_depth_delta("}"), -1);
    assert_eq!(brace_depth_delta("echo ${var}"), 0);
    assert_eq!(brace_depth_delta("foo() { echo ${x}; }"), 0);
    assert_eq!(brace_depth_delta("if true; then {"), 1);
}

#[test]
fn brace_depth_quoted() {
    assert_eq!(brace_depth_delta("echo '{'"), 0);
    assert_eq!(brace_depth_delta("echo \"{\""), 0);
}

#[test]
fn brace_depth_escaped_quote_with_brace() {
    assert_eq!(brace_depth_delta(r#"echo \"{  "#), 1);
    assert_eq!(brace_depth_delta(r#"echo \\"{ "#), 0);
}

#[test]
fn extract_target_patterns() {
    assert_eq!(extract_target("import foo"), Some("foo".into()));
    assert_eq!(extract_target("  import bar"), Some("bar".into()));
    assert_eq!(extract_target("source ./lib.sh"), Some("./lib.sh".into()));
    assert_eq!(extract_target("source \"./lib.sh\""), Some("./lib.sh".into()));
    assert_eq!(extract_target(". ./helper.sh"), Some("./helper.sh".into()));
    assert_eq!(extract_target("source \"${X}\""), None);
    assert_eq!(extract_target("echo hello"), None);
}

/// Run a bundler against an in-memory file set.
fn run_bundle(source: &str, files: &[(&str, &str)]) -> Result<String, String> {
    let mut b = Bundler::new(source, ".", BundleConfig { search_paths: Vec::new() });
    loop {
        match b.step() {
            BundleStep::Done => break,
            BundleStep::Progress => {}
            BundleStep::Resolve(candidates, _target) => {
                let mut hit = None;
                for c in &candidates {
                    for (name, content) in files {
                        if c == name {
                            hit = Some((name.to_string(), content.to_string()));
                            break;
                        }
                    }
                    if hit.is_some() {
                        break;
                    }
                }
                match hit {
                    Some((canon, content)) => match b.found(&canon, &content, ".") {
                        Ok(_) => {}
                        Err(e) => return Err(e.message()),
                    },
                    None => b.not_found(),
                }
            }
        }
    }
    Ok(b.output_lines().join("\n"))
}

#[test]
fn scoped_no_dedup() {
    let files = [("./lib.sh", "echo lib\n")];
    let source = "import lib\nfoo() {\nimport lib\n}\necho main\n";
    let result = run_bundle(source, &files).unwrap();
    let count = result.matches("echo lib").count();
    assert_eq!(count, 2, "Expected 2 occurrences, got {count} in: {result}");
}

#[test]
fn top_level_dedup() {
    let files = [("./shared.sh", "echo shared\n")];
    let source = "import shared\nimport shared\necho main\n";
    let result = run_bundle(source, &files).unwrap();
    let count = result.matches("echo shared").count();
    assert_eq!(count, 1, "Expected 1 occurrence, got {count} in: {result}");
}

#[test]
fn force_annotation_overrides_dedup() {
    let files = [("./lib.sh", "echo lib\n")];
    let source = "import lib\n# minifier force source\nimport lib\necho main\n";
    let result = run_bundle(source, &files).unwrap();
    let count = result.matches("echo lib").count();
    assert_eq!(count, 2, "Expected 2 occurrences, got {count} in: {result}");
}

#[test]
fn unresolvable_left_as_is() {
    let source = "import nonexistent\necho main\n";
    let result = run_bundle(source, &[]).unwrap();
    assert!(result.contains("import nonexistent"), "Got: {result}");
    assert!(result.contains("echo main"), "Got: {result}");
}

#[test]
fn variable_in_path_left_as_is() {
    let source = "source \"${CONFIG}\"\necho main\n";
    let result = run_bundle(source, &[]).unwrap();
    assert!(result.contains("${CONFIG}"), "Got: {result}");
}

#[test]
fn circular_import_deduped() {
    let files = [("./a.sh", "import b\necho a\n"), ("./b.sh", "import a\necho b\n")];
    let source = "import b\necho a\n";
    let result = run_bundle(source, &files).unwrap();
    assert!(result.contains("echo a"), "Got: {result}");
    assert!(result.contains("echo b"), "Got: {result}");
}

#[test]
fn cyclic_force_imports_hit_depth_limit() {
    let files = [
        ("./a.sh", "# minifier force source\nimport b\necho a\n"),
        ("./b.sh", "# minifier force source\nimport a\necho b\n"),
    ];
    let source = "# minifier force source\nimport a\n";
    let result = run_bundle(source, &files);
    assert!(result.is_err(), "Should fail with the depth limit");
    let msg = result.err().unwrap();
    assert!(msg.contains("64"), "Error should mention the depth limit, got: {msg}");
    assert_eq!(MAX_DEPTH, 64);
}

#[test]
fn at_prefix_stripped() {
    let files = [("./core.sh", "echo core\n")];
    let source = "import @core\necho main\n";
    let result = run_bundle(source, &files).unwrap();
    assert!(result.contains("echo core"), "Got: {result}");
}

#[test]
fn path_traversal_rejected() {
    let files = [("./../secret.sh", "echo secret\n")];
    let source = "import ../secret\necho main\n";
    let result = run_bundle(source, &files).unwrap();
    assert!(!result.contains("echo secret"), "Got: {result}");
    assert!(result.contains("import ../secret"), "Got: {result}");
}

#[test]
fn multiline_quote_not_broken_by_import() {
    let files = [("./lib.sh", "echo lib\n")];
    let source = "echo \"line1\nimport lib\nline3\"\necho after\n";
    let result = run_bundle(source, &files).unwrap();
    assert!(result.contains("import lib"), "import inside quotes should stay, got: {result}");
    assert!(result.contains("echo after"), "Got: {result}");
    assert!(!result.contains("echo lib"), "Got: {result}");
}
