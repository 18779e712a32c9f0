use shmin::{build_rename_map, Obfuscator};

fn make_obfuscator(vars: &[&str], prefix: &str) -> Obfuscator {
    let sorted: Vec<String> = vars.iter().map(|s| s.to_string()).collect();
    let map = build_rename_map(&sorted, prefix);
    Obfuscator::new(&sorted, &map)
}

fn lines_of(items: &[&str]) -> Vec<String> {
    items.iter().map(|s| s.to_string()).collect()
}

#[test]
    fn renames_assignment() {
        let ob = make_obfuscator(&["foo"], "a");
        assert_eq!(ob.obfuscate_line("foo=bar"), "a0=bar");
    }

    #[test]
    fn renames_dollar_var() {
        let ob = make_obfuscator(&["name"], "a");
        assert_eq!(ob.obfuscate_line("echo $name "), "echo $a0 ");
    }

    #[test]
    fn renames_brace_var() {
        let ob = make_obfuscator(&["name"], "a");
        assert_eq!(ob.obfuscate_line("echo ${name}"), "echo ${a0}");
    }

    #[test]
    fn preserves_single_quotes() {
        let ob = make_obfuscator(&["foo"], "a");
        assert_eq!(ob.obfuscate_line("echo '$foo'"), "echo '$foo'");
    }

    #[test]
    fn renames_in_double_quotes() {
        let ob = make_obfuscator(&["foo"], "a");
        let result = ob.obfuscate_line(r#"echo "$foo bar""#);
        assert_eq!(result, r#"echo "$a0 bar""#);
    }

    #[test]
    fn obfuscate_lines_works() {
        let ob = make_obfuscator(&["name"], "a");
        let lines: Vec<String> = vec![
            "name=hello".to_string(),
            "echo $name ".to_string(),
        ];
        let result = ob.obfuscate_lines(&lines);
        assert_eq!(result[0], "a0=hello");
        assert_eq!(result[1], "echo $a0 ");
    }

    #[test]
    fn renames_local_declaration() {
        let ob = make_obfuscator(&["myvar"], "a");
        assert_eq!(ob.obfuscate_line("local myvar=test"), "local a0=test");
    }

    #[test]
    fn renames_for_loop() {
        let ob = make_obfuscator(&["item"], "a");
        let result = ob.obfuscate_line("for item in a b c");
        assert!(result.contains("for a0"), "Got: {result}");
    }

    #[test]
    fn renames_array_write() {
        let ob = make_obfuscator(&["arr"], "a");
        assert_eq!(ob.obfuscate_line("arr[0]=val"), "a0[0]=val");
    }

    #[test]
    fn renames_brace_expansion() {
        let ob = make_obfuscator(&["name"], "a");
        assert_eq!(ob.obfuscate_line("echo ${name:-default}"), "echo ${a0:-default}");
    }

    #[test]
    fn renames_read() {
        let ob = make_obfuscator(&["line"], "a");
        let result = ob.obfuscate_line("read -r line ");
        assert!(result.contains("a0"), "Got: {result}");
    }

    #[test]
    fn read_ra_does_not_corrupt_flag() {
        // `read -ra varname` — the `a` in `-ra` is a flag, not a variable.
        // Variable `a` being renamed must NOT match inside the flag string.
        let ob = make_obfuscator(&["varname", "a"], "a");
        // varname=a0, a=a1
        assert_eq!(
            ob.obfuscate_line("read -ra varname "),
            "read -ra a0 ",
            "flag -ra must stay intact"
        );
    }

    #[test]
    fn read_ra_combined_flag_preserved() {
        // Multiple variables with `read -ra` — flag must never be corrupted
        let ob = make_obfuscator(&["aliases", "a"], "a");
        // aliases=a0, a=a1
        assert_eq!(
            ob.obfuscate_line("IFS='|' read -ra aliases "),
            "IFS='|' read -ra a0 ",
            "-ra flag must not become -ra1"
        );
    }

    #[test]
    fn read_ra_with_herestring() {
        // Real-world pattern from args.sh: `IFS='|' read -ra var <<< "$str"`
        let ob = make_obfuscator(&["flags", "a"], "a");
        // flags=a0, a=a1
        let result = ob.obfuscate_line(r#"IFS='|' read -ra flags <<< "${field}""#);
        assert!(
            result.contains("read -ra a0"),
            "flag -ra must stay intact, got: {result}"
        );
        assert!(
            !result.contains("read -ra1"),
            "flag must not be corrupted, got: {result}"
        );
    }

    #[test]
    fn renames_array_subscript_simple() {
        let ob = make_obfuscator(&["i"], "a");
        assert_eq!(
            ob.obfuscate_line(r#"echo "${usage[i]}""#),
            r#"echo "${usage[a0]}""#,
        );
    }

    #[test]
    fn renames_array_subscript_arithmetic() {
        let ob = make_obfuscator(&["i"], "a");
        assert_eq!(
            ob.obfuscate_line(r#"echo "${arr[i+1]}""#),
            r#"echo "${arr[a0+1]}""#,
        );
    }

    #[test]
    fn renames_array_subscript_in_conditional() {
        let ob = make_obfuscator(&["i"], "a");
        assert_eq!(
            ob.obfuscate_line(r#"[[ "${args[i]}" != "-" ]]"#),
            r#"[[ "${args[a0]}" != "-" ]]"#,
        );
    }

    #[test]
    fn renames_var_in_hash_length() {
        let ob = make_obfuscator(&["arr"], "a");
        assert_eq!(
            ob.obfuscate_line(r#"(( ${#arr[@]} > 0 ))"#),
            r#"(( ${#a0[@]} > 0 ))"#,
        );
    }

    #[test]
    fn renames_arithmetic_context_assignment() {
        let ob = make_obfuscator(&["i"], "a");
        assert_eq!(ob.obfuscate_line("(( a0+=2 ))"), "(( a0+=2 ))");
        // Actually test with the real var
        let ob2 = make_obfuscator(&["count"], "a");
        assert_eq!(ob2.obfuscate_line("(( count+=1 ))"), "(( a0+=1 ))");
    }

    #[test]
    fn all_patterns_compile() {
        // Ensure no regex patterns are silently skipped due to compile errors
        let ob = make_obfuscator(&["testvar"], "a");
        // Test a comprehensive input that exercises many patterns.
        let input = r#"local testvar=1; echo $testvar ${testvar} ${arr[testvar]} ${arr[testvar+1]} (( testvar+=1 ))"#;
        let result = ob.obfuscate_line(input);
        // All occurrences should be renamed
        assert!(
            !result.contains("testvar"),
            "All occurrences of testvar should be renamed, got: {result}"
        );
    }

    // These test that renaming short variables (like `a`) doesn't corrupt
    // already-renamed longer variables (like `alias` → `a0`).

    #[test]
    fn multi_var_for_loop_no_collision() {
        // `alias` (longer) is renamed first to `a0`, then `a` to `a1`.
        let ob = make_obfuscator(&["alias", "a"], "a");
        // alias=a0, a=a1 (sorted by length desc)
        assert_eq!(
            ob.obfuscate_line("for alias in x y z"),
            "for a0 in x y z",
        );
        assert_eq!(
            ob.obfuscate_line("for a in x y z"),
            "for a1 in x y z",
        );
    }

    #[test]
    fn multi_var_for_loop_preserves_renamed() {
        // After `alias` → `a0`, processing `a` must not corrupt `for a0 in`
        let ob = make_obfuscator(&["alias", "a"], "a");
        let lines = vec![
            "for alias in 1 2 3".to_string(),
            "echo $alias $a ".to_string(),
        ];
        let result = ob.obfuscate_lines(&lines);
        assert_eq!(result[0], "for a0 in 1 2 3");
        assert_eq!(result[1], "echo $a0 $a1 ");
    }

    #[test]
    fn multi_var_pre_increment_no_collision() {
        let ob = make_obfuscator(&["count", "c"], "a");
        // count=a0, c=a1
        assert_eq!(ob.obfuscate_line("(( ++count ))"), "(( ++a0 ))");
    }

    #[test]
    fn multi_var_assignment_no_collision() {
        let ob = make_obfuscator(&["alias", "a"], "a");
        assert_eq!(ob.obfuscate_line("alias=val"), "a0=val");
        assert_eq!(ob.obfuscate_line("a=val"), "a1=val");
    }

    #[test]
    fn multi_var_dollar_no_collision() {
        // $a must not match inside $a0
        let ob = make_obfuscator(&["alias", "a"], "a");
        assert_eq!(ob.obfuscate_line("echo $alias "), "echo $a0 ");
        assert_eq!(ob.obfuscate_line("echo $a "), "echo $a1 ");
    }

    #[test]
    fn multi_var_brace_no_collision() {
        // ${a} must not match inside ${a0}
        let ob = make_obfuscator(&["alias", "a"], "a");
        assert_eq!(ob.obfuscate_line("echo ${alias}"), "echo ${a0}");
        assert_eq!(ob.obfuscate_line("echo ${a}"), "echo ${a1}");
    }

    #[test]
    fn multi_var_many_variables() {
        // Simulate realistic scenario with many vars of varying lengths
        let ob = make_obfuscator(&["field", "alias", "all", "cmd", "i", "a"], "a");
        // field=a0, alias=a1, all=a2, cmd=a3, i=a4, a=a5
        let lines = vec![
            "for alias in x y".to_string(),
            "for i in 1 2 3".to_string(),
            "for a in p q".to_string(),
            "echo $field $alias $all $cmd $i $a ".to_string(),
        ];
        let result = ob.obfuscate_lines(&lines);
        assert_eq!(result[0], "for a1 in x y", "alias for-loop");
        assert_eq!(result[1], "for a4 in 1 2 3", "i for-loop");
        assert_eq!(result[2], "for a5 in p q", "a for-loop");
        // Verify no original var names remain in the dollar-var line
        let dollar_line = &result[3];
        for var in &["field", "alias", "all", "cmd"] {
            assert!(
                !dollar_line.contains(var),
                "'{var}' should be renamed in: {dollar_line}"
            );
        }
    }

    #[test]
    fn underscore_prefix_not_corrupted_assignment() {
        // `_path=` must NOT be renamed when `path` is a discovered variable.
        let ob = make_obfuscator(&["path"], "a");
        // `path` renamed to `a0`, but `_path` is a different variable — must stay intact.
        assert_eq!(ob.obfuscate_line("_path=val"), "_path=val", "_path must not be renamed");
        assert_eq!(ob.obfuscate_line("path=val"), "a0=val", "path must be renamed");
    }

    #[test]
    fn underscore_prefix_not_corrupted_local() {
        // `local _path=""` — the `path` inside `_path` must not be renamed.
        let ob = make_obfuscator(&["path"], "a");
        assert_eq!(
            ob.obfuscate_line("local _force=0 _path=\"\""),
            "local _force=0 _path=\"\"",
            "_path in local declaration must not be renamed"
        );
        assert_eq!(
            ob.obfuscate_line("local path=\"\""),
            "local a0=\"\"",
            "path in local declaration must be renamed"
        );
    }

    #[test]
    fn underscore_prefix_not_corrupted_brace_ref() {
        // `${_path}` must not be renamed when `path` is discovered.
        let ob = make_obfuscator(&["path"], "a");
        assert_eq!(ob.obfuscate_line("echo ${_path}"), "echo ${_path}");
        assert_eq!(ob.obfuscate_line("echo ${path}"), "echo ${a0}");
    }

    #[test]
    fn underscore_prefix_consistency() {
        // End-to-end: _path must stay _path everywhere — no partial rename.
        let ob = make_obfuscator(&["path"], "a");
        let lines = vec![
            "local path=\"${1}\"".to_string(),
            "local _force=0 _path=\"\"".to_string(),
            "_path=\"${1}\"".to_string(),
            "echo \"${_path}\"".to_string(),
            "echo \"${path}\"".to_string(),
        ];
        let result = ob.obfuscate_lines(&lines);
        assert_eq!(result[0], "local a0=\"${1}\"");
        assert_eq!(result[1], "local _force=0 _path=\"\"", "_path must not be renamed");
        assert_eq!(result[2], "_path=\"${1}\"", "_path assignment must not be renamed");
        assert_eq!(result[3], "echo \"${_path}\"", "${{_path}} must not be renamed");
        assert_eq!(result[4], "echo \"${a0}\"");
    }

    #[test]
    fn array_write_midline() {
        let ob = make_obfuscator(&["prev"], "a");
        // Standalone line — always worked
        assert_eq!(ob.obfuscate_line("prev[0]=val"), "a0[0]=val");
        // a mid-line array write, not just one at the line start
        assert_eq!(
            ob.obfuscate_line("for (( j=0; j <= n; j++ )); do prev[j]=\"${j}\"; done"),
            "for (( j=0; j <= n; j++ )); do a0[j]=\"${j}\"; done",
            "mid-line array write must be renamed"
        );
        // Multiple array writes on one line
        assert_eq!(
            ob.obfuscate_line("prev[0]=1; prev[1]=2"),
            "a0[0]=1; a0[1]=2",
        );
    }

    #[test]
    fn array_write_midline_underscore_safe() {
        let ob = make_obfuscator(&["prev"], "a");
        assert_eq!(ob.obfuscate_line("do _prev[j]=\"${j}\""), "do _prev[j]=\"${j}\"");
        assert_eq!(ob.obfuscate_line("do prev[j]=\"${j}\""), "do a0[j]=\"${j}\"");
    }

    #[test]
    fn underscore_prefix_not_corrupted_dollar_var() {
        let ob = make_obfuscator(&["path"], "a");
        assert_eq!(ob.obfuscate_line("echo $_path "), "echo $_path ");
        assert_eq!(ob.obfuscate_line("echo $path "), "echo $a0 ");
        // Inside double quotes
        assert_eq!(ob.obfuscate_line(r#"echo "$_path ""#), r#"echo "$_path ""#);
        assert_eq!(ob.obfuscate_line(r#"echo "$path ""#), r#"echo "$a0 ""#);
    }

    #[test]
    fn underscore_prefix_not_corrupted_param_expansion() {
        let ob = make_obfuscator(&["path"], "a");
        assert_eq!(
            ob.obfuscate_line("echo ${var:-_path}"),
            "echo ${var:-_path}",
        );
        assert_eq!(
            ob.obfuscate_line("echo ${var:-path}"),
            "echo ${var:-a0}",
        );
    }

    #[test]
    fn underscore_prefix_not_corrupted_array() {
        let ob = make_obfuscator(&["path"], "a");
        assert_eq!(ob.obfuscate_line("_path[0]=val"), "_path[0]=val");
        assert_eq!(ob.obfuscate_line("path[0]=val"), "a0[0]=val");
        assert_eq!(ob.obfuscate_line("echo ${_path[0]}"), "echo ${_path[0]}");
        assert_eq!(ob.obfuscate_line("echo ${path[0]}"), "echo ${a0[0]}");
    }

    #[test]
    fn underscore_prefix_not_corrupted_read() {
        let ob = make_obfuscator(&["path"], "a");
        assert_eq!(ob.obfuscate_line("read -r _path "), "read -r _path ");
        assert_eq!(ob.obfuscate_line("read -r path "), "read -r a0 ");
    }

    #[test]
    fn underscore_prefix_not_corrupted_for_loop() {
        let ob = make_obfuscator(&["path"], "a");
        assert_eq!(ob.obfuscate_line("for _path in a b"), "for _path in a b");
        assert_eq!(ob.obfuscate_line("for path in a b"), "for a0 in a b");
    }

    #[test]
    fn underscore_prefix_not_corrupted_arithmetic() {
        let ob = make_obfuscator(&["count"], "a");
        assert_eq!(ob.obfuscate_line("(( ++_count ))"), "(( ++_count ))");
        assert_eq!(ob.obfuscate_line("(( ++count ))"), "(( ++a0 ))");
        assert_eq!(ob.obfuscate_line("(( _count++ ))"), "(( _count++ ))");
        assert_eq!(ob.obfuscate_line("(( count++ ))"), "(( a0++ ))");
    }

    #[test]
    fn long_underscore_prefix_not_corrupted() {
        // a long identifier that merely ends in the variable's name
        let ob = make_obfuscator(&["path"], "a");
        let lines = vec![
            "local _argsh_builtin_path=\"\"".to_string(),
            "_argsh_builtin_path=\"${1}\"".to_string(),
            "echo \"${_argsh_builtin_path}\"".to_string(),
            "echo \"$_argsh_builtin_path \"".to_string(),
        ];
        let result = ob.obfuscate_lines(&lines);
        for (i, line) in result.iter().enumerate() {
            assert!(
                !line.contains("a0"),
                "line {i} corrupted — path found inside _argsh_builtin_path: {line}"
            );
            assert!(
                line.contains("_argsh_builtin_path"),
                "line {i} — _argsh_builtin_path must stay intact: {line}"
            );
        }
    }

    #[test]
    fn underscore_prefix_hash_length() {
        let ob = make_obfuscator(&["path"], "a");
        assert_eq!(ob.obfuscate_line("[[ ${#_path[@]} -gt 0 ]]"), "[[ ${#_path[@]} -gt 0 ]]");
        assert_eq!(ob.obfuscate_line("[[ ${#path[@]} -gt 0 ]]"), "[[ ${#a0[@]} -gt 0 ]]");
    }

    #[test]
    fn substring_offset_renamed() {
        let ob = make_obfuscator(&["i"], "a");
        // Offset position: `${str:i-1:1}` → `${str:a0-1:1}`
        assert_eq!(ob.obfuscate_line("${str:i-1:1}"), "${str:a0-1:1}");
        // Length position: `${str:0:i}` → `${str:0:a0}`
        assert_eq!(ob.obfuscate_line("${str:0:i}"), "${str:0:a0}");
        // Both positions: `${str:i:i}` → `${str:a0:a0}`
        assert_eq!(ob.obfuscate_line("${str:i:i}"), "${str:a0:a0}");
        // Embedded in expression: `${arr:i+1:j-i}`
        let ob2 = make_obfuscator(&["j", "i"], "a");
        // j=a0, i=a1 (sorted by length, then alpha — both len 1, j before i alphabetically? No, j > i)
        // Actually sorted descending by length, then alpha: j and i both len 1; sorted: ["i", "j"] or ["j", "i"]
        // Let's just check the output
        let result = ob2.obfuscate_line("${arr:i+1:j-i}");
        assert!(!result.contains(":i"), "i not renamed in offset: {result}");
        assert!(!result.contains(":j"), "j not renamed in length: {result}");
    }

    #[test]
    fn substring_offset_not_param_expansion() {
        // Modifiers start with non-word chars (`-`,`+`,`=`,`?`) so \w-based rules skip them.
        let ob = make_obfuscator(&["i"], "a");
        assert_eq!(ob.obfuscate_line("${var:-i}"), "${var:-a0}");
        // `:+` modifier: same
        assert_eq!(ob.obfuscate_line("${var:+i}"), "${var:+a0}");
        // but 14b/14c must NOT touch them either (they start with non-word chars).
        assert_eq!(ob.obfuscate_line("${var:=i}"), "${var:=i}");
        assert_eq!(ob.obfuscate_line("${var:?i}"), "${var:?i}");
    }

    #[test]
    fn substring_offset_underscore_safe() {
        let ob = make_obfuscator(&["i"], "a");
        assert_eq!(ob.obfuscate_line("${str:_i-1:1}"), "${str:_i-1:1}");
        assert_eq!(ob.obfuscate_line("${str:0:_i}"), "${str:0:_i}");
        // But bare `i` must still be renamed
        assert_eq!(ob.obfuscate_line("${str:i-1:1}"), "${str:a0-1:1}");
    }

    #[test]
    fn multi_var_prefix_is_var_name() {
        // Edge case: the prefix itself is a variable name
        // With prefix "x" and variable "x", renamed to "x0".
        // Then `for x0 in` should not be corrupted by pattern for `x`.
        let ob = make_obfuscator(&["xvar", "x"], "x");
        // xvar=x0, x=x1
        assert_eq!(ob.obfuscate_line("for xvar in a b"), "for x0 in a b");
        assert_eq!(ob.obfuscate_line("for x in a b"), "for x1 in a b");
    }
