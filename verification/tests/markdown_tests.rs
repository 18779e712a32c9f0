use shmin::{derive_output_name, render_arg, render_exitcode, render_set, unindent};

#[test]
fn arg_numbered() {
    assert_eq!(render_arg("$1 string The value"), "**$1** (string): The value");
}

#[test]
fn arg_at() {
    assert_eq!(render_arg("$@ string Additional args"), "**...** (string): Additional args");
}

#[test]
fn exitcode_simple() {
    assert_eq!(render_exitcode("0 If successful"), "**0**: If successful");
}

#[test]
fn exitcode_modifier() {
    assert_eq!(render_exitcode(">0 Generic error"), "**>0**: Generic error");
}

#[test]
fn set_variable() {
    assert_eq!(
        render_set("usage array [get] The usage array"),
        "**usage** (array): [get] The usage array"
    );
}

#[test]
fn unindent_basic() {
    assert_eq!(unindent("  a\n  b\n  c"), "a\nb\nc");
}

#[test]
fn unindent_mixed() {
    assert_eq!(unindent("  a\n    b\n  c"), "a\n  b\nc");
}

#[test]
fn unindent_empty_first() {
    assert_eq!(unindent("\n  a\n  b"), "a\nb");
}

#[test]
fn output_name_from_sh() {
    assert_eq!(derive_output_name("libraries/to.sh"), "to");
    assert_eq!(derive_output_name("to.sh"), "to");
}

#[test]
fn output_name_from_rs() {
    assert_eq!(derive_output_name("builtin/src/to.rs"), "to");
}

#[test]
fn output_name_no_extension() {
    assert_eq!(derive_output_name("Makefile"), "Makefile");
}
