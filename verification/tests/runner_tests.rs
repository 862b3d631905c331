use gembuild::doc::BuildError;
use gembuild::instr::Instruction;
use gembuild::runner::{build_plan, plan_compile_dir, plan_copy_dir, DirEntry};

fn file(name: &str) -> DirEntry {
    DirEntry { name: name.to_string(), is_file: true }
}

fn subdir(name: &str) -> DirEntry {
    DirEntry { name: name.to_string(), is_file: false }
}

#[test]
fn scenario_compile_file() {
    let script = "$prg$\n#[input_root(/in)]\n#[output_root(/out)]\ncompile a.txt with b.tmpl to c.txt";
    let plan = build_plan(script).unwrap();
    assert_eq!(
        plan,
        vec![Instruction::CompileFile {
            content: "/in/a.txt".to_string(),
            template: "/in/b.tmpl".to_string(),
            output: "/out/c.txt".to_string(),
        }]
    );
}

#[test]
fn scenario_copy_file() {
    let script = "$prg$\n#[input_root(/in)]\n#[output_root(/out)]\ncopy a.bin to b.bin";
    let plan = build_plan(script).unwrap();
    assert_eq!(
        plan,
        vec![Instruction::CopyFile {
            from: "/in/a.bin".to_string(),
            to: "/out/b.bin".to_string(),
        }]
    );
}

#[test]
fn scenario_compile_dir() {
    let script = "$prg$\n#[input_root(/in)]\n#[output_root(/out)]\ncompile dir pages with page.html to site";
    let plan = build_plan(script).unwrap();
    assert_eq!(
        plan,
        vec![Instruction::CompileDir {
            content_dir: "/in/pages".to_string(),
            template: "/in/page.html".to_string(),
            output_dir: "/out/site".to_string(),
        }]
    );
    let listing = vec![file("x.md"), file("y.md")];
    let pairs = plan_compile_dir(&listing, "/in/pages", "/in/page.html", "/out/site").unwrap();
    assert_eq!(
        pairs,
        vec![
            ("/in/pages/x.md".to_string(), "/out/site/x.html".to_string()),
            ("/in/pages/y.md".to_string(), "/out/site/y.html".to_string()),
        ]
    );
}

#[test]
fn batch_skips_subdirectories() {
    let listing = vec![file("x.md"), subdir("nested"), file("y.md")];
    let pairs = plan_compile_dir(&listing, "/in/pages", "/in/page.html", "/out/site").unwrap();
    assert_eq!(pairs.len(), 2);
    assert_eq!(pairs[0].0, "/in/pages/x.md");
    assert_eq!(pairs[1].0, "/in/pages/y.md");
    let copies = plan_copy_dir(&listing, "/in/pages", "/out/mirror");
    assert_eq!(
        copies,
        vec![
            ("/in/pages/x.md".to_string(), "/out/mirror/x.md".to_string()),
            ("/in/pages/y.md".to_string(), "/out/mirror/y.md".to_string()),
        ]
    );
}

#[test]
fn compile_dir_without_template_extension_fails() {
    let listing = vec![file("x.md")];
    let r = plan_compile_dir(&listing, "/in/pages", "/in/template", "/out/site");
    assert_eq!(r.unwrap_err(), BuildError::MissingExtension);
}

#[test]
fn missing_roots_default_to_empty() {
    let script = "$prg$\ncopy a to b";
    let plan = build_plan(script).unwrap();
    assert_eq!(
        plan,
        vec![Instruction::CopyFile { from: "a".to_string(), to: "b".to_string() }]
    );
}

#[test]
fn script_without_entries_is_a_parse_error() {
    let r = build_plan("no document headers here");
    assert_eq!(r.unwrap_err(), BuildError::Parse);
}

#[test]
fn unrecognized_lines_produce_no_operations() {
    let script = "$prg$\n# comment\n\nnothing to see\ncopy a to b\nbad line";
    let plan = build_plan(script).unwrap();
    assert_eq!(plan.len(), 1);
}

#[test]
fn plan_keeps_program_order() {
    let script = "$prg$\n#[input_root(i)]\n#[output_root(o)]\ncopy a to b\ncompile c with t.x to d\ncopy dir e to f";
    let plan = build_plan(script).unwrap();
    assert_eq!(
        plan,
        vec![
            Instruction::CopyFile { from: "i/a".to_string(), to: "o/b".to_string() },
            Instruction::CompileFile {
                content: "i/c".to_string(),
                template: "i/t.x".to_string(),
                output: "o/d".to_string(),
            },
            Instruction::CopyDir { from_dir: "i/e".to_string(), to_dir: "o/f".to_string() },
        ]
    );
}
