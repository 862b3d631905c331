use gembuild::doc::BuildError;
use gembuild::paths::{resolve, template_extension, with_extension};

#[test]
fn resolve_joins_with_separator() {
    assert_eq!(resolve("/in", "a.txt"), "/in/a.txt");
}

#[test]
fn resolve_empty_fragment_is_root_alone() {
    assert_eq!(resolve("/in", ""), "/in");
}

#[test]
fn resolve_empty_root_is_fragment_alone() {
    assert_eq!(resolve("", "a.txt"), "a.txt");
}

#[test]
fn resolve_keeps_existing_separator() {
    assert_eq!(resolve("/in/", "a"), "/in/a");
}

#[test]
fn resolve_absolute_fragment_replaces_root() {
    assert_eq!(resolve("/in", "/abs/p"), "/abs/p");
}

#[test]
fn template_extension_found() {
    assert_eq!(template_extension("/in/page.html").unwrap(), "html");
    assert_eq!(template_extension("page.tmpl").unwrap(), "tmpl");
}

#[test]
fn template_extension_missing() {
    assert_eq!(template_extension("/in/page").unwrap_err(), BuildError::MissingExtension);
    assert_eq!(template_extension(".hidden").unwrap_err(), BuildError::MissingExtension);
    assert_eq!(
        BuildError::MissingExtension.message(),
        "the template has no extension."
    );
}

#[test]
fn with_extension_replaces_the_suffix() {
    assert_eq!(with_extension("x.md", "html"), "x.html");
    assert_eq!(with_extension("a.b.c", "html"), "a.b.html");
}

#[test]
fn with_extension_appends_when_none() {
    assert_eq!(with_extension("noext", "html"), "noext.html");
    assert_eq!(with_extension(".gitignore", "html"), ".gitignore.html");
}

#[test]
fn with_extension_empty_removes() {
    assert_eq!(with_extension("x.md", ""), "x");
}
