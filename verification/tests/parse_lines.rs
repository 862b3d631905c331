use gembuild::instr::{parse_line, Instruction};

fn cf(content: &str, template: &str, output: &str) -> Instruction {
    Instruction::CompileFile {
        content: content.to_string(),
        template: template.to_string(),
        output: output.to_string(),
    }
}

#[test]
fn compile_file_line() {
    let r = parse_line("compile a.txt with b.tmpl to c.txt");
    assert_eq!(r, vec![cf("a.txt", "b.tmpl", "c.txt")]);
}

#[test]
fn compile_dir_line() {
    let r = parse_line("compile dir pages with page.tmpl to site");
    assert_eq!(
        r,
        vec![Instruction::CompileDir {
            content_dir: "pages".to_string(),
            template: "page.tmpl".to_string(),
            output_dir: "site".to_string(),
        }]
    );
}

#[test]
fn copy_file_line() {
    let r = parse_line("copy a.bin to b.bin");
    assert_eq!(
        r,
        vec![Instruction::CopyFile { from: "a.bin".to_string(), to: "b.bin".to_string() }]
    );
}

#[test]
fn copy_dir_line() {
    let r = parse_line("copy dir img to static");
    assert_eq!(
        r,
        vec![Instruction::CopyDir { from_dir: "img".to_string(), to_dir: "static".to_string() }]
    );
}

#[test]
fn unrecognized_lines_yield_nothing() {
    assert_eq!(parse_line(""), vec![]);
    assert_eq!(parse_line("# a comment"), vec![]);
    assert_eq!(parse_line("compil a with b to c"), vec![]);
    assert_eq!(parse_line("copy onlyonetoken"), vec![]);
    assert_eq!(parse_line("compile a with b"), vec![]);
}

#[test]
fn one_line_can_fire_two_patterns() {
    let r = parse_line("compile a with b to c copy d to e");
    assert_eq!(r.len(), 2);
    assert_eq!(r[0], cf("a", "b", "c"));
    assert_eq!(
        r[1],
        Instruction::CopyFile { from: "d".to_string(), to: "e".to_string() }
    );
}

#[test]
fn pattern_matches_inside_a_longer_line() {
    let r = parse_line("please compile a with b to c now");
    assert_eq!(r, vec![cf("a", "b", "c")]);
}

#[test]
fn double_space_blocks_the_pattern() {
    assert_eq!(parse_line("copy  a to b"), vec![]);
}

#[test]
fn copy_dir_line_does_not_fire_plain_copy() {
    let r = parse_line("copy dir a to b");
    assert_eq!(
        r,
        vec![Instruction::CopyDir { from_dir: "a".to_string(), to_dir: "b".to_string() }]
    );
}
