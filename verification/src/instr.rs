//! The instruction language: four verb patterns, matched independently
//! against each script line.  A pattern matches at the first position where
//! its leading keyword begins a full `keyword token ... token` shape; a line
//! may fire several patterns, and a line that fires none is inert.

use vstd::prelude::*;

use crate::text::{has_at, token_end, starts_with_at, scan_token_end};

verus! {

/// The mathematical shape of an instruction.  The paths are the relative
/// fragments written in the script until they are resolved against the
/// roots; after resolution the same shape carries the full paths.
pub enum InstrModel {
    CompileFile { content: Seq<char>, template: Seq<char>, output: Seq<char> },
    CompileDir { content_dir: Seq<char>, template: Seq<char>, output_dir: Seq<char> },
    CopyFile { from: Seq<char>, to: Seq<char> },
    CopyDir { from_dir: Seq<char>, to_dir: Seq<char> },
}

/// One unit of work of the runner.
#[derive(Debug, Clone, PartialEq, Eq)]
pub enum Instruction {
    CompileFile { content: String, template: String, output: String },
    CompileDir { content_dir: String, template: String, output_dir: String },
    CopyFile { from: String, to: String },
    CopyDir { from_dir: String, to_dir: String },
}

impl View for Instruction {
    type V = InstrModel;

    open spec fn view(&self) -> InstrModel {
        match self {
            Instruction::CompileFile { content, template, output } => InstrModel::CompileFile {
                content: content@,
                template: template@,
                output: output@,
            },
            Instruction::CompileDir { content_dir, template, output_dir } => InstrModel::CompileDir {
                content_dir: content_dir@,
                template: template@,
                output_dir: output_dir@,
            },
            Instruction::CopyFile { from, to } => InstrModel::CopyFile { from: from@, to: to@ },
            Instruction::CopyDir { from_dir, to_dir } => InstrModel::CopyDir {
                from_dir: from_dir@,
                to_dir: to_dir@,
            },
        }
    }
}

/// The views of a list of instructions.
pub open spec fn instrs_view(v: Seq<Instruction>) -> Seq<InstrModel> {
    v.map_values(|ins: Instruction| ins@)
}

/// The three-token pattern `lit0 T1 lit_a T2 lit_b T3` read at position `i`
/// of `l`: each token is a maximal nonempty run of non-whitespace characters
/// and must be followed immediately by the next literal.
pub open spec fn pat3_at(
    l: Seq<char>,
    i: int,
    lit0: Seq<char>,
    lit_a: Seq<char>,
    lit_b: Seq<char>,
) -> Option<(Seq<char>, Seq<char>, Seq<char>)> {
    if !has_at(l, lit0, i) {
        None
    } else {
        let p1 = i + lit0.len();
        let q1 = token_end(l, p1);
        if q1 <= p1 || !has_at(l, lit_a, q1) {
            None
        } else {
            let p2 = q1 + lit_a.len();
            let q2 = token_end(l, p2);
            if q2 <= p2 || !has_at(l, lit_b, q2) {
                None
            } else {
                let p3 = q2 + lit_b.len();
                let q3 = token_end(l, p3);
                if q3 <= p3 {
                    None
                } else {
                    Some((l.subrange(p1, q1), l.subrange(p2, q2), l.subrange(p3, q3)))
                }
            }
        }
    }
}

/// The two-token pattern `lit0 T1 lit_a T2` read at position `i` of `l`.
pub open spec fn pat2_at(l: Seq<char>, i: int, lit0: Seq<char>, lit_a: Seq<char>) -> Option<
    (Seq<char>, Seq<char>),
> {
    if !has_at(l, lit0, i) {
        None
    } else {
        let p1 = i + lit0.len();
        let q1 = token_end(l, p1);
        if q1 <= p1 || !has_at(l, lit_a, q1) {
            None
        } else {
            let p2 = q1 + lit_a.len();
            let q2 = token_end(l, p2);
            if q2 <= p2 {
                None
            } else {
                Some((l.subrange(p1, q1), l.subrange(p2, q2)))
            }
        }
    }
}

/// The first position at or after `from` where the three-token pattern
/// matches, with its tokens.
pub open spec fn mat3_from(
    l: Seq<char>,
    lit0: Seq<char>,
    lit_a: Seq<char>,
    lit_b: Seq<char>,
    from: int,
) -> Option<(Seq<char>, Seq<char>, Seq<char>)>
    decreases l.len() - from + 1 when 0 <= from
{
    if from > l.len() {
        None
    } else if pat3_at(l, from, lit0, lit_a, lit_b) is Some {
        pat3_at(l, from, lit0, lit_a, lit_b)
    } else {
        mat3_from(l, lit0, lit_a, lit_b, from + 1)
    }
}

/// The first position at or after `from` where the two-token pattern
/// matches, with its tokens.
pub open spec fn mat2_from(
    l: Seq<char>,
    lit0: Seq<char>,
    lit_a: Seq<char>,
    from: int,
) -> Option<(Seq<char>, Seq<char>)>
    decreases l.len() - from + 1 when 0 <= from
{
    if from > l.len() {
        None
    } else if pat2_at(l, from, lit0, lit_a) is Some {
        pat2_at(l, from, lit0, lit_a)
    } else {
        mat2_from(l, lit0, lit_a, from + 1)
    }
}

/// The instructions that one (already trimmed) line yields: all four verb
/// patterns are tried independently, in a fixed order, so one line can
/// yield several instructions; an unrecognized line yields none.
pub open spec fn line_instrs(l: Seq<char>) -> Seq<InstrModel> {
    let cf = match mat3_from(l, "compile "@, " with "@, " to "@, 0) {
        Some(t) => seq![
            InstrModel::CompileFile { content: t.0, template: t.1, output: t.2 },
        ],
        None => Seq::empty(),
    };
    let cd = match mat3_from(l, "compile dir "@, " with "@, " to "@, 0) {
        Some(t) => seq![
            InstrModel::CompileDir { content_dir: t.0, template: t.1, output_dir: t.2 },
        ],
        None => Seq::empty(),
    };
    let yd = match mat2_from(l, "copy dir "@, " to "@, 0) {
        Some(t) => seq![InstrModel::CopyDir { from_dir: t.0, to_dir: t.1 }],
        None => Seq::empty(),
    };
    let yf = match mat2_from(l, "copy "@, " to "@, 0) {
        Some(t) => seq![InstrModel::CopyFile { from: t.0, to: t.1 }],
        None => Seq::empty(),
    };
    cf + cd + yd + yf
}

fn pat3(l: &str, i: usize, lit0: &str, lit_a: &str, lit_b: &str) -> (r: Option<
    (String, String, String),
>)
    requires
        i <= l@.len(),
    ensures
        match pat3_at(l@, i as int, lit0@, lit_a@, lit_b@) {
            None => r is None,
            Some(t) => r matches Some(x) && x.0@ == t.0 && x.1@ == t.1 && x.2@ == t.2,
        },
{
    let n: usize = l.unicode_len();
    proof {
        assert(n == l@.len());
    }
    if !starts_with_at(l, i, lit0) {
        return None;
    }
    let p1 = i + lit0.unicode_len();
    let q1 = scan_token_end(l, p1);
    if q1 <= p1 || !starts_with_at(l, q1, lit_a) {
        return None;
    }
    let p2 = q1 + lit_a.unicode_len();
    let q2 = scan_token_end(l, p2);
    if q2 <= p2 || !starts_with_at(l, q2, lit_b) {
        return None;
    }
    let p3 = q2 + lit_b.unicode_len();
    let q3 = scan_token_end(l, p3);
    if q3 <= p3 {
        return None;
    }
    Some(
        (
            String::from_str(l.substring_char(p1, q1)),
            String::from_str(l.substring_char(p2, q2)),
            String::from_str(l.substring_char(p3, q3)),
        ),
    )
}

fn pat2(l: &str, i: usize, lit0: &str, lit_a: &str) -> (r: Option<(String, String)>)
    requires
        i <= l@.len(),
    ensures
        match pat2_at(l@, i as int, lit0@, lit_a@) {
            None => r is None,
            Some(t) => r matches Some(x) && x.0@ == t.0 && x.1@ == t.1,
        },
{
    let n: usize = l.unicode_len();
    proof {
        assert(n == l@.len());
    }
    if !starts_with_at(l, i, lit0) {
        return None;
    }
    let p1 = i + lit0.unicode_len();
    let q1 = scan_token_end(l, p1);
    if q1 <= p1 || !starts_with_at(l, q1, lit_a) {
        return None;
    }
    let p2 = q1 + lit_a.unicode_len();
    let q2 = scan_token_end(l, p2);
    if q2 <= p2 {
        return None;
    }
    Some((String::from_str(l.substring_char(p1, q1)), String::from_str(l.substring_char(p2, q2))))
}

fn mat3(l: &str, lit0: &str, lit_a: &str, lit_b: &str) -> (r: Option<(String, String, String)>)
    ensures
        match mat3_from(l@, lit0@, lit_a@, lit_b@, 0) {
            None => r is None,
            Some(t) => r matches Some(x) && x.0@ == t.0 && x.1@ == t.1 && x.2@ == t.2,
        },
{
    let n = l.unicode_len();
    let mut i: usize = 0;
    loop
        invariant
            i <= n,
            n == l@.len(),
            mat3_from(l@, lit0@, lit_a@, lit_b@, 0) == mat3_from(l@, lit0@, lit_a@, lit_b@, i as int),
        decreases n - i,
    {
        let r = pat3(l, i, lit0, lit_a, lit_b);
        if r.is_some() {
            return r;
        }
        if i == n {
            proof {
                assert(mat3_from(l@, lit0@, lit_a@, lit_b@, i + 1) is None);
            }
            return None;
        }
        i += 1;
    }
}

fn mat2(l: &str, lit0: &str, lit_a: &str) -> (r: Option<(String, String)>)
    ensures
        match mat2_from(l@, lit0@, lit_a@, 0) {
            None => r is None,
            Some(t) => r matches Some(x) && x.0@ == t.0 && x.1@ == t.1,
        },
{
    let n = l.unicode_len();
    let mut i: usize = 0;
    loop
        invariant
            i <= n,
            n == l@.len(),
            mat2_from(l@, lit0@, lit_a@, 0) == mat2_from(l@, lit0@, lit_a@, i as int),
        decreases n - i,
    {
        let r = pat2(l, i, lit0, lit_a);
        if r.is_some() {
            return r;
        }
        if i == n {
            proof {
                assert(mat2_from(l@, lit0@, lit_a@, i + 1) is None);
            }
            return None;
        }
        i += 1;
    }
}

/// All instructions that one trimmed line yields, in the fixed pattern
/// order: compile file, compile directory, copy directory, copy file.
pub fn parse_line(line: &str) -> (r: Vec<Instruction>)
    ensures
        instrs_view(r@) == line_instrs(line@),
{
    let mut r: Vec<Instruction> = Vec::new();
    match mat3(line, "compile ", " with ", " to ") {
        Some(t) => r.push(Instruction::CompileFile { content: t.0, template: t.1, output: t.2 }),
        None => {},
    }
    match mat3(line, "compile dir ", " with ", " to ") {
        Some(t) => r.push(
            Instruction::CompileDir { content_dir: t.0, template: t.1, output_dir: t.2 },
        ),
        None => {},
    }
    match mat2(line, "copy dir ", " to ") {
        Some(t) => r.push(Instruction::CopyDir { from_dir: t.0, to_dir: t.1 }),
        None => {},
    }
    match mat2(line, "copy ", " to ") {
        Some(t) => r.push(Instruction::CopyFile { from: t.0, to: t.1 }),
        None => {},
    }
    proof {
        assert(instrs_view(r@) =~= line_instrs(line@));
    }
    r
}

} // verus!
