use shmin::{github_slug, render_toc_item, render_toc_link};

#[test]
fn slug_simple() {
    assert_eq!(github_slug("hello world"), "hello-world");
}

#[test]
fn slug_with_colons() {
    assert_eq!(github_slug("string::trim"), "stringtrim");
    assert_eq!(github_slug("is::array"), "isarray");
    assert_eq!(github_slug("to::int"), "toint");
}

#[test]
fn slug_with_hyphens() {
    assert_eq!(github_slug("string::drop-index"), "stringdrop-index");
    assert_eq!(github_slug("string::trim-left"), "stringtrim-left");
}

#[test]
fn slug_uppercase() {
    assert_eq!(github_slug("Hello World"), "hello-world");
}

#[test]
fn toc_link_function() {
    assert_eq!(render_toc_link("string::trim"), "[string::trim](#stringtrim)");
}

#[test]
fn toc_link_relative() {
    assert_eq!(render_toc_link("./other"), "[./other](./other)");
}

#[test]
fn toc_item() {
    assert_eq!(render_toc_item("is::array"), "* [is::array](#isarray)");
}
