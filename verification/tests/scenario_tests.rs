use shmin::{
    argsh_type_to_json, check_required_flags, create_renderer, extract_flags,
    extract_flags_for_llm, extract_subcommands, field_lookup, field_name, field_positional,
    format_field, json_escape, levenshtein, minify, parse_field, parse_file,
    parse_flat_json_object, sanitize_tool_name, suggest_command, JsonValue, MinifyConfig,
    Renderer,
};

fn cfg(do_obfuscate: bool, var_prefix: &str, ignore_vars: &str) -> MinifyConfig {
    MinifyConfig {
        do_obfuscate,
        var_prefix: var_prefix.to_string(),
        ignore_vars: ignore_vars.to_string(),
    }
}

#[test]
fn obfuscation_renames_local_and_reference() {
    let input = "local foo=1\necho $foo\n";
    let result = minify(input, &cfg(true, "a", "usage,args")).unwrap();
    assert!(result.contains("a0=1"), "Got: {result}");
    assert!(result.contains("echo $a0"), "Got: {result}");
    assert!(!result.contains("foo"), "Got: {result}");
}

#[test]
fn join_rewrites_multiline_single_quote_with_newline_idiom() {
    let input = "echo 'hello\nworld'\n";
    let result = shmin::join_newlines(input);
    assert!(result.contains("hello"), "Got: {result}");
    assert!(result.contains("world"), "Got: {result}");
    assert!(result.contains("$'\\n'"), "Got: {result}");
    assert!(!result.contains('\n'), "single physical statement expected, got: {result}");
}

#[test]
fn join_keeps_then_with_trailing_space() {
    let input = "if true; then\n  echo yes\nfi\n";
    let result = shmin::join_newlines(input);
    assert!(result.contains("then "), "Got: {result}");
    assert!(!result.contains("then;"), "Got: {result}");
}

#[test]
fn obfuscation_keeps_read_ra_flag_intact() {
    let input = "local a flags str\nread -ra flags <<< \"$str\"\n";
    let result = minify(input, &cfg(true, "a", "usage,args")).unwrap();
    assert!(result.contains("-ra"), "Got: {result}");
    assert!(!regex::Regex::new(r"-ra\d").unwrap().is_match(&result), "Got: {result}");
}

#[test]
fn levenshtein_known_distances() {
    assert_eq!(levenshtein("kitten", "sitting"), 3);
    assert_eq!(levenshtein("", "abc"), 3);
    assert_eq!(levenshtein("abc", ""), 3);
    assert_eq!(levenshtein("same", "same"), 0);
    assert_eq!(levenshtein("a", "b"), 1);
}

#[test]
fn suggest_command_close_match() {
    let usage = vec![
        "build|b".to_string(),
        "Build things".to_string(),
        "install".to_string(),
        "Install things".to_string(),
    ];
    assert_eq!(suggest_command("instal", &usage), Some("install".to_string()));
    assert_eq!(suggest_command("install", &usage), None);
    assert_eq!(suggest_command("zzzzzz", &usage), None);
}

#[test]
fn field_parsing_round() {
    let def = parse_field("flag|f:~int!");
    assert_eq!(def.name, "flag");
    assert_eq!(def.display_name, "flag");
    assert_eq!(def.short.as_deref(), Some("f"));
    assert_eq!(def.kind_name, "int");
    assert!(def.required);
    assert!(!def.is_boolean);
    assert!(!def.is_positional);

    let hidden = parse_field("#hidden|h");
    assert!(hidden.is_hidden);
    assert_eq!(hidden.name, "hidden");

    let dashed = parse_field("my-flag|m");
    assert_eq!(dashed.name, "my_flag");
    assert_eq!(dashed.display_name, "my-flag");

    assert_eq!(field_name("flag|f:~int!", true), "flag");
    assert_eq!(field_name("#hidden|h", true), "hidden");
    assert_eq!(field_name("my-flag|m", true), "my_flag");
    assert_eq!(field_name("my-flag|m", false), "my-flag");
}

#[test]
fn field_boolean_modifier() {
    let def = parse_field("verbose|v:+");
    assert!(def.is_boolean);
    assert_eq!(def.kind_name, "");
}

#[test]
fn field_lookup_finds_long_and_short() {
    let args = vec![
        "flag|f:~int".to_string(),
        "A flag".to_string(),
        "other|o".to_string(),
        "Other".to_string(),
    ];
    assert_eq!(field_lookup("flag", &args), Some(0));
    assert_eq!(field_lookup("f", &args), Some(0));
    assert_eq!(field_lookup("other", &args), Some(2));
    assert_eq!(field_lookup("missing", &args), None);
}

#[test]
fn field_positional_counts() {
    let args = vec![
        "first".to_string(),
        "First arg".to_string(),
        "flag|f".to_string(),
        "A flag".to_string(),
        "second".to_string(),
        "Second arg".to_string(),
    ];
    assert_eq!(field_positional(1, &args), Some(0));
    assert_eq!(field_positional(2, &args), Some(4));
    assert_eq!(field_positional(3, &args), None);
}

#[test]
fn format_field_shapes() {
    let def = parse_field("flag|f:~int!");
    let text = format_field(&def);
    assert_eq!(text, " ! -f, --flag int");
    let pos = parse_field("name:~string");
    assert_eq!(format_field(&pos), "name string");
}

#[test]
fn check_required_flags_reports_missing() {
    let args = vec!["flag|f:!".to_string(), "A required flag".to_string()];
    let matched: Vec<String> = Vec::new();
    let r = check_required_flags(&args, &matched);
    assert!(r.is_err());
    assert_eq!(r.err().unwrap(), "flag");
}

#[test]
fn check_required_flags_sets_boolean_defaults() {
    let args = vec!["verbose|v:+".to_string(), "Verbose".to_string()];
    let matched: Vec<String> = Vec::new();
    let sets = check_required_flags(&args, &matched).unwrap();
    assert_eq!(sets.len(), 1);
    assert_eq!(sets[0].0, "verbose");
    assert_eq!(sets[0].1, "0");
}

#[test]
fn json_escape_exact() {
    assert_eq!(json_escape("a\"b\\c\nd"), "a\\\"b\\\\c\\nd");
    assert_eq!(json_escape("plain"), "plain");
    assert_eq!(json_escape(""), "");
}

#[test]
fn sanitize_tool_name_exact() {
    assert_eq!(sanitize_tool_name("to::int"), "to__int");
    assert_eq!(sanitize_tool_name("ok-name_9"), "ok-name_9");
}

#[test]
fn argsh_type_mapping() {
    assert_eq!(argsh_type_to_json("int", false), "integer");
    assert_eq!(argsh_type_to_json("float", false), "number");
    assert_eq!(argsh_type_to_json("anything", false), "string");
    assert_eq!(argsh_type_to_json("int", true), "boolean");
}

#[test]
fn extract_subcommands_skips_hidden() {
    let usage = vec![
        "build|b".to_string(),
        "Build".to_string(),
        "#secret".to_string(),
        "Hidden".to_string(),
        "-".to_string(),
        "Group".to_string(),
        "run".to_string(),
        "Run".to_string(),
    ];
    let cmds = extract_subcommands(&usage);
    assert_eq!(cmds.len(), 2);
    assert_eq!(cmds[0].name, "build");
    assert_eq!(cmds[1].name, "run");
}

#[test]
fn extract_flags_adds_help() {
    let args = vec!["flag|f:~int".to_string(), "A flag".to_string()];
    let flags = extract_flags(&args);
    assert_eq!(flags.len(), 2);
    assert_eq!(flags[1].name, "help");
    let llm = extract_flags_for_llm(&args);
    assert_eq!(llm.len(), 1);
    assert_eq!(llm[0].name, "flag");
}

#[test]
fn parse_flat_json_object_kinds() {
    let pairs = parse_flat_json_object(
        "{\"a\": \"text\", \"b\": 42, \"c\": true, \"d\": null, \"e\": false}",
    );
    assert_eq!(pairs.len(), 5);
    assert_eq!(pairs[0].0, "a");
    assert!(matches!(&pairs[0].1, JsonValue::Str(s) if s == "text"));
    assert!(matches!(&pairs[1].1, JsonValue::Number(nm) if nm == "42"));
    assert!(matches!(pairs[2].1, JsonValue::Bool(true)));
    assert!(matches!(pairs[3].1, JsonValue::Null));
    assert!(matches!(pairs[4].1, JsonValue::Bool(false)));
}

#[test]
fn parse_flat_json_object_rejects_non_objects() {
    assert_eq!(parse_flat_json_object("[1, 2]").len(), 0);
    assert_eq!(parse_flat_json_object("not json").len(), 0);
}

#[test]
fn renderer_dispatch_and_errors() {
    let r = create_renderer("markdown").unwrap();
    assert_eq!(r.file_extension(), "mdx");
    assert_eq!(create_renderer("json").unwrap().file_extension(), "json");
    assert_eq!(create_renderer("html").unwrap().file_extension(), "html");
    assert!(create_renderer("yaml").is_err());
    assert!(parse_file("notes.txt", "x").is_err());
    let doc = parse_file("lib.sh", "# @description D\nf() { true; }\n").unwrap();
    assert_eq!(doc.functions.len(), 1);
    let text = r.render(&doc);
    assert!(text.contains("### f"), "Got: {text}");
}

#[test]
fn markdown_render_whole_document() {
    let input = "# @file demo\n# @description Demo file\n# @description Greets\n# @arg $1 string Who\n# @exitcode 0 Fine\ngreet() { true; }\n";
    let doc = shmin::doc_bash::parse(input);
    let r = create_renderer("md").unwrap();
    let text = r.render(&doc);
    assert!(text.contains("## Index"), "Got: {text}");
    assert!(text.contains("* [greet](#greet)"), "Got: {text}");
    assert!(text.contains("**$1** (string): Who"), "Got: {text}");
    assert!(text.contains("**0**: Fine"), "Got: {text}");
}

#[test]
fn strip_idempotent_on_plain_source() {
    let inputs = [
        "#!/usr/bin/env bash\n# c\nset -euo pipefail\n\necho hello\nimport fmt\n  echo world\n",
        "a=1\n   \n# note\nimport() { body; }\necho done\n",
        "}#!/usr/bin/env bash\necho after\n",
    ];
    for input in inputs {
        let once = shmin::strip_lines(input);
        let twice = shmin::strip_lines(&once.join("\n"));
        assert_eq!(twice, once, "strip must be idempotent for: {input:?}");
    }
}

#[test]
fn strip_idempotent_with_kept_heredoc_opener() {
    let input = "cat <<EOF\n# body comment\nEOF\necho after\n";
    let once = shmin::strip_lines(input);
    let twice = shmin::strip_lines(&once.join("\n"));
    assert_eq!(twice, once);
}

#[test]
fn join_removes_blanks_before_trailing_keyword() {
    let result = shmin::join_newlines("if true; then\n  echo yes\nfi\n");
    assert_eq!(result, "if true;then echo yes;fi;");
}

#[test]
fn join_keeps_heredoc_body_bytes_even_keyword_semicolons() {
    let input = "cat <<EOF\nthen;\ndo;\nEOF\necho after\n";
    let result = shmin::join_newlines(input);
    assert!(result.contains("\nthen;\n"), "heredoc body must stay byte for byte, got: {result}");
    assert!(result.contains("\ndo;\n"), "heredoc body must stay byte for byte, got: {result}");
    assert!(result.contains("echo after"), "Got: {result}");
}

#[test]
fn obfuscation_never_touches_single_quoted_literals() {
    let sorted = vec!["foo".to_string()];
    let map = shmin::build_rename_map(&sorted, "a");
    let ob = shmin::Obfuscator::new(&sorted, &map);
    assert_eq!(ob.obfuscate_line("echo 'foo=1'"), "echo 'foo=1'");
    assert_eq!(ob.obfuscate_line("echo '$foo'"), "echo '$foo'");
    assert_eq!(ob.obfuscate_line("echo 'for foo in a b'"), "echo 'for foo in a b'");
    // double-quoted text is still renamed
    assert_eq!(ob.obfuscate_line("echo \"foo=1\""), "echo \"a0=1\"");
    assert_eq!(ob.obfuscate_line("foo=1 echo 'foo=1'"), "a0=1 echo 'foo=1'");
}
