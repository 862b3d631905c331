use gembuild::doc::BuildError;
use gembuild::template::compile_text;

#[test]
fn hello_world() {
    let content = "$name$\nWorld";
    let template = "Hello $name$!";
    assert_eq!(compile_text(content, template).unwrap(), "Hello World!");
}

#[test]
fn unknown_token_remains_verbatim() {
    let content = "$name$\nWorld";
    let template = "Hello $name$ and $other$!";
    assert_eq!(
        compile_text(content, template).unwrap(),
        "Hello World and $other$!"
    );
}

#[test]
fn unused_entry_is_silently_ignored() {
    let content = "$name$\nWorld\n$extra$\nunused";
    let template = "Hello $name$!";
    assert_eq!(compile_text(content, template).unwrap(), "Hello World!");
}

#[test]
fn later_entry_rescans_earlier_output() {
    // Entry `a` comes first and expands to text holding `$b$`; the later
    // entry `b` then substitutes inside that output.
    let content = "$a$\nx$b$y\n$b$\nZ";
    let template = "$a$";
    assert_eq!(compile_text(content, template).unwrap(), "xZy");
}

#[test]
fn earlier_pass_does_not_rescan() {
    // Entry `b` runs before entry `a`; the `$b$` that `a` produces is
    // born after `b`'s pass and stays as written.
    let content = "$b$\nZ\n$a$\nx$b$y";
    let template = "$a$";
    assert_eq!(compile_text(content, template).unwrap(), "x$b$y");
}

#[test]
fn every_occurrence_is_replaced() {
    let content = "$w$\nok";
    let template = "$w$ $w$ $w$";
    assert_eq!(compile_text(content, template).unwrap(), "ok ok ok");
}

#[test]
fn multiline_value() {
    let content = "$body$\nline one\nline two";
    let template = "<pre>$body$</pre>";
    assert_eq!(
        compile_text(content, template).unwrap(),
        "<pre>line one\nline two</pre>"
    );
}

#[test]
fn document_without_entries_is_a_parse_error() {
    let r = compile_text("just plain text, no headers", "tpl");
    assert_eq!(r.unwrap_err(), BuildError::Parse);
}

#[test]
fn parse_error_message() {
    assert_eq!(BuildError::Parse.message(), "no valid document defined.");
}
