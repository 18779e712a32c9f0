use shmin::doc_bash;
use shmin::doc_rust;

#[test]
fn parse_simple_function() {
    let input = r#"# @file test
# @description Test file
# @description
#   A simple function
# @arg $1 string The value
# @exitcode 0 Success
func() {
  echo "$1"
}
"#;
    let doc = doc_bash::parse(input);
    assert_eq!(doc.file.title.as_deref(), Some("test"));
    assert_eq!(doc.file.description.as_deref(), Some("Test file"));
    assert_eq!(doc.functions.len(), 1);
    assert_eq!(doc.functions[0].name, "func");
    assert_eq!(doc.functions[0].description.as_deref(), Some("A simple function"));
    assert_eq!(doc.functions[0].args.len(), 1);
    assert_eq!(doc.functions[0].exit_codes.len(), 1);
}

#[test]
fn parse_namespaced_function() {
    let input = r#"# @description Check array
# @arg $1 string The name
is::array() {
  true
}
"#;
    let doc = doc_bash::parse(input);
    assert_eq!(doc.functions[0].name, "is::array");
}

#[test]
fn parse_internal_preserved() {
    let input = r#"# @internal
# @description Internal function
_helper() {
  true
}
# @description Public function
public() {
  true
}
"#;
    let doc = doc_bash::parse(input);
    assert_eq!(doc.functions.len(), 2);
    assert_eq!(doc.functions[0].name, "_helper");
    assert!(doc.functions[0].is_internal);
    assert_eq!(doc.functions[1].name, "public");
    assert!(!doc.functions[1].is_internal);
}

#[test]
fn parse_example() {
    let input = r#"# @description Trim
# @example
#   string::trim "  hello  "
func() { true; }
"#;
    let doc = doc_bash::parse(input);
    assert!(doc.functions[0].example.is_some());
}

#[test]
fn parse_noargs() {
    let input = r#"# @description No args function
# @noargs
func() { true; }
"#;
    let doc = doc_bash::parse(input);
    assert!(doc.functions[0].noargs);
}

#[test]
fn parse_deferred_brace() {
    let input = r#"# @description Deferred
func()
{
  true
}
"#;
    let doc = doc_bash::parse(input);
    assert_eq!(doc.functions.len(), 1);
    assert_eq!(doc.functions[0].name, "func");
}

#[test]
fn parse_tags() {
    let input = "# @file test\n# @tags core, builtin\n";
    let doc = doc_bash::parse(input);
    assert_eq!(doc.file.tags.as_deref(), Some("core, builtin"));
}

#[test]
fn parse_section() {
    let input = r#"# @file test
# @section Install
# @description Install helpers
# @description Install the thing
# @arg $1 string Path
install() { true; }
"#;
    let doc = doc_bash::parse(input);
    assert_eq!(doc.functions.len(), 1);
    assert!(doc.functions[0].section.is_some());
    let sec = doc.functions[0].section.as_ref().unwrap();
    assert_eq!(sec.title, "Install");
}

#[test]
fn parse_module_docs() {
    let input = "//! to::* builtins\n//!\n//! Mirrors: libraries/to.sh\n\nuse foo;\n";
    let doc = doc_rust::parse(input, "to.rs");
    assert_eq!(doc.file.description.as_deref(), Some("to::* builtins"));
    assert_eq!(doc.file.mirrors.as_deref(), Some("libraries/to.sh"));
}

#[test]
fn parse_export_name() {
    let input = r#"
#[export_name = "to::int_struct"]
pub static mut TO_INT_STRUCT: BashBuiltin = BashBuiltin {
    name: c"to::int".as_ptr(),
    short_doc: c"to::int <value>".as_ptr(),
};
"#;
    let doc = doc_rust::parse(input, "to.rs");
    assert_eq!(doc.functions.len(), 1);
    assert_eq!(doc.functions[0].name, "to::int");
}

#[test]
fn parse_doc_comment_on_exported_fn() {
    let input = "/// Check if variable is an array.\n#[export_name = \"is::array_struct\"]\npub fn is_array() {}\n";
    let doc = doc_rust::parse(input, "is.rs");
    assert_eq!(doc.functions.len(), 1);
    assert_eq!(doc.functions[0].name, "is::array");
    assert_eq!(doc.functions[0].description.as_deref(), Some("Check if variable is an array."));
}

#[test]
fn parse_internal_fn_skipped() {
    let input = "/// Internal helper function.\npub fn helper() {}\n";
    let doc = doc_rust::parse(input, "shared.rs");
    assert_eq!(doc.functions.len(), 0);
}
