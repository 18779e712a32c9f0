use shmin::{discover_variables, parse_ignore_patterns, split_outside_quotes, IgnorePattern};

fn no_patterns() -> Vec<IgnorePattern> {
    Vec::new()
}

#[test]
fn discovers_assignment() {
    let vars = discover_variables("foo=bar\n", &no_patterns());
    assert!(vars.contains(&"foo".to_string()));
}

#[test]
fn discovers_local() {
    let vars = discover_variables("local name value\n", &no_patterns());
    assert!(vars.contains(&"name".to_string()));
    assert!(vars.contains(&"value".to_string()));
}

#[test]
fn skips_ifs() {
    let vars = discover_variables("IFS=:\n", &no_patterns());
    assert!(!vars.contains(&"IFS".to_string()));
}

#[test]
fn skips_ignored() {
    let vars = discover_variables("# obfus ignore variable\nfoo=1\nbar=2\n", &no_patterns());
    assert!(!vars.contains(&"foo".to_string()));
    assert!(vars.contains(&"bar".to_string()));
}

#[test]
fn respects_ignore_patterns() {
    let pats = parse_ignore_patterns("usage,args").unwrap();
    let vars = discover_variables("usage=1\nargs=2\nfoo=3\n", &pats);
    assert!(!vars.contains(&"usage".to_string()));
    assert!(!vars.contains(&"args".to_string()));
    assert!(vars.contains(&"foo".to_string()));
}

#[test]
fn sorted_by_length_desc() {
    let vars = discover_variables("ab=1\nabcde=2\nabc=3\n", &no_patterns());
    assert_eq!(vars[0], "abcde");
    assert_eq!(vars[1], "abc");
    assert_eq!(vars[2], "ab");
}

#[test]
fn discovers_read() {
    let vars = discover_variables("read -r line\n", &no_patterns());
    assert!(vars.contains(&"line".to_string()));
}

#[test]
fn discovers_read_with_flags() {
    let vars = discover_variables("read -s -r passwd\n", &no_patterns());
    assert!(vars.contains(&"passwd".to_string()));
}

#[test]
fn discovers_for_loop() {
    let vars = discover_variables("for item in a b c; do\n  echo $item\ndone\n", &no_patterns());
    assert!(vars.contains(&"item".to_string()));
}

#[test]
fn discovers_array_access() {
    let vars = discover_variables("arr[0]=value\n", &no_patterns());
    assert!(vars.contains(&"arr".to_string()));
}

#[test]
fn discovers_pre_increment() {
    let vars = discover_variables("(( ++counter ))\n", &no_patterns());
    assert!(vars.contains(&"counter".to_string()));
}

#[test]
fn discovers_post_increment() {
    let vars = discover_variables("(( counter++ ))\n", &no_patterns());
    assert!(vars.contains(&"counter".to_string()));
}

#[test]
fn discovers_pre_decrement() {
    let vars = discover_variables("(( --idx ))\n", &no_patterns());
    assert!(vars.contains(&"idx".to_string()));
}

#[test]
fn discovers_post_decrement() {
    let vars = discover_variables("(( idx-- ))\n", &no_patterns());
    assert!(vars.contains(&"idx".to_string()));
}

#[test]
fn parse_ignore_star() {
    let pats = parse_ignore_patterns("*").unwrap();
    assert_eq!(pats.len(), 1);
    assert!(pats[0].is_match("anything"));
}

#[test]
fn parse_ignore_empty_segment() {
    let pats = parse_ignore_patterns("foo,,bar").unwrap();
    assert_eq!(pats.len(), 2);
}

#[test]
fn parse_ignore_anchored_regex() {
    let pats = parse_ignore_patterns("^u").unwrap();
    assert_eq!(pats.len(), 1);
    assert!(pats[0].is_match("usage"));
    assert!(pats[0].is_match("user"));
    assert!(!pats[0].is_match("args"));
}

#[test]
fn skips_declare_local() {
    // a declare declaration binds its names like a local one
    let vars = discover_variables("declare local foo\n", &no_patterns());
    assert!(vars.contains(&"foo".to_string()));
}

#[test]
fn declare_binds_names() {
    let vars = discover_variables("declare x y\n", &no_patterns());
    assert!(vars.contains(&"x".to_string()));
    assert!(vars.contains(&"y".to_string()));
    let vars2 = discover_variables("declare -i count=0\n", &no_patterns());
    assert!(vars2.contains(&"count".to_string()));
}

#[test]
fn semicolon_inside_quotes_not_split() {
    let vars = discover_variables("local msg=\"hello; world\"\nx=1\n", &no_patterns());
    assert!(vars.contains(&"msg".to_string()), "msg should be discovered");
    assert!(vars.contains(&"x".to_string()), "x should be discovered");
    assert!(!vars.contains(&"world".to_string()), "world should NOT be discovered");
}

#[test]
fn split_outside_quotes_basic() {
    let result = split_outside_quotes("a=1; b=2");
    assert_eq!(result, vec!["a=1", " b=2"]);
}

#[test]
fn split_outside_quotes_with_quoted_semicolons() {
    let result = split_outside_quotes(r#"msg="hello; world"; x=1"#);
    assert_eq!(result, vec![r#"msg="hello; world""#, " x=1"]);
}
