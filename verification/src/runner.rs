//! The program runner's verified core: a script document is turned into a
//! plan of resolved instructions, and the two directory verbs are turned
//! into per-file work lists.  Executing the plan (reading, writing and
//! copying files) is the caller's business.

use vstd::prelude::*;

use crate::text::{find_from, trim_spec, trim};
use crate::doc::{
    BuildError, DocModel, doc_of, parse_document, entry_matches, tags_represent, tag_pairs,
    tag_lookup, lemma_lookup_in_map,
};
use crate::instr::{Instruction, InstrModel, instrs_view, line_instrs, parse_line};
use crate::paths::{resolve_spec, resolve, ext_of, with_ext, template_extension, with_extension};

verus! {

/// The lines of `s` from `from` on: the pieces between newline characters.
pub open spec fn split_from(s: Seq<char>, from: int) -> Seq<Seq<char>>
    decreases s.len() - from when 0 <= from <= s.len()
    via split_from_decreases
{
    match find_from(s, seq!['\n'], from) {
        None => seq![s.subrange(from, s.len() as int)],
        Some(i) => seq![s.subrange(from, i)] + split_from(s, i + 1),
    }
}

#[via_fn]
proof fn split_from_decreases(s: Seq<char>, from: int) {
    crate::text::lemma_find_from_props(s, seq!['\n'], from);
}

/// The lines of `s`.
pub open spec fn split_lines(s: Seq<char>) -> Seq<Seq<char>> {
    split_from(s, 0)
}

/// The views of a list of lines.
pub open spec fn lines_view(v: Seq<String>) -> Seq<Seq<char>> {
    v.map_values(|x: String| x@)
}

/// The lines of `s`, split at newline characters.
pub fn split_text_lines(s: &str) -> (v: Vec<String>)
    ensures
        lines_view(v@) == split_lines(s@),
{
    let n = s.unicode_len();
    let mut v: Vec<String> = Vec::new();
    let mut start: usize = 0;
    let mut i: usize = 0;
    while i < n
        invariant
            start <= i <= n,
            n == s@.len(),
            find_from(s@, seq!['\n'], start as int) == find_from(s@, seq!['\n'], i as int),
            split_from(s@, 0) == lines_view(v@) + split_from(s@, start as int),
        decreases n - i,
    {
        if s.get_char(i) == '\n' {
            let ghost v0 = v@;
            let ghost start0 = start as int;
            let ghost i0 = i as int;
            proof {
                assert(s@.subrange(i0, i0 + 1) =~= seq!['\n']);
                assert(find_from(s@, seq!['\n'], i0) == Some(i0));
            }
            v.push(String::from_str(s.substring_char(start, i)));
            start = i + 1;
            i = start;
            proof {
                let line = s@.subrange(start0, i0);
                assert(split_from(s@, start0) == seq![line] + split_from(s@, i0 + 1));
                assert(lines_view(v@) =~= lines_view(v0).push(line));
                assert(lines_view(v0).push(line) + split_from(s@, start as int) =~= lines_view(v0)
                    + (seq![line] + split_from(s@, start as int)));
            }
        } else {
            proof {
                if i + 1 <= n {
                    assert(s@.subrange(i as int, i as int + 1) != seq!['\n']) by {
                        assert(s@.subrange(i as int, i as int + 1)[0] == s@[i as int]);
                    }
                }
            }
            i += 1;
        }
    }
    proof {
        assert(find_from(s@, seq!['\n'], i as int) is None);
    }
    let ghost v1 = v@;
    v.push(String::from_str(s.substring_char(start, n)));
    proof {
        assert(lines_view(v@) =~= lines_view(v1).push(s@.subrange(start as int, n as int)));
        assert(lines_view(v1).push(s@.subrange(start as int, n as int)) =~= lines_view(v1) + seq![
            s@.subrange(start as int, n as int),
        ]);
    }
    v
}

/// The root recorded under `key` in a tag mapping, or the empty path.
pub open spec fn root_of(m: Map<Seq<char>, Seq<char>>, key: Seq<char>) -> Seq<char> {
    if m.contains_key(key) {
        m[key]
    } else {
        Seq::empty()
    }
}

/// `ins` with every source path resolved against the input root and every
/// destination path resolved against the output root.
pub open spec fn resolve_instr_spec(ins: InstrModel, ir: Seq<char>, or: Seq<char>) -> InstrModel {
    match ins {
        InstrModel::CompileFile { content, template, output } => InstrModel::CompileFile {
            content: resolve_spec(ir, content),
            template: resolve_spec(ir, template),
            output: resolve_spec(or, output),
        },
        InstrModel::CompileDir { content_dir, template, output_dir } => InstrModel::CompileDir {
            content_dir: resolve_spec(ir, content_dir),
            template: resolve_spec(ir, template),
            output_dir: resolve_spec(or, output_dir),
        },
        InstrModel::CopyFile { from, to } => InstrModel::CopyFile {
            from: resolve_spec(ir, from),
            to: resolve_spec(or, to),
        },
        InstrModel::CopyDir { from_dir, to_dir } => InstrModel::CopyDir {
            from_dir: resolve_spec(ir, from_dir),
            to_dir: resolve_spec(or, to_dir),
        },
    }
}

/// The resolved instructions of one raw program line.
pub open spec fn resolved_line_instrs(l: Seq<char>, ir: Seq<char>, or: Seq<char>) -> Seq<
    InstrModel,
> {
    line_instrs(trim_spec(l)).map_values(|m: InstrModel| resolve_instr_spec(m, ir, or))
}

/// The resolved instructions of a whole program text, line by line, in
/// order.
pub open spec fn program_instrs(prog: Seq<char>, ir: Seq<char>, or: Seq<char>) -> Seq<InstrModel> {
    split_lines(prog).flat_map(|l: Seq<char>| resolved_line_instrs(l, ir, or))
}

/// The plan of a script document: the first entry's value is the program,
/// its tags carry the two roots.
pub open spec fn plan_spec(doc: DocModel) -> Seq<InstrModel> {
    program_instrs(
        doc[0].1,
        root_of(doc[0].2, "input_root"@),
        root_of(doc[0].2, "output_root"@),
    )
}

/// `ins` with its paths resolved against the two roots.
pub fn resolve_instruction(ins: &Instruction, input_root: &str, output_root: &str) -> (r:
    Instruction)
    ensures
        r@ == resolve_instr_spec(ins@, input_root@, output_root@),
{
    match ins {
        Instruction::CompileFile { content, template, output } => Instruction::CompileFile {
            content: resolve(input_root, content.as_str()),
            template: resolve(input_root, template.as_str()),
            output: resolve(output_root, output.as_str()),
        },
        Instruction::CompileDir { content_dir, template, output_dir } => Instruction::CompileDir {
            content_dir: resolve(input_root, content_dir.as_str()),
            template: resolve(input_root, template.as_str()),
            output_dir: resolve(output_root, output_dir.as_str()),
        },
        Instruction::CopyFile { from, to } => Instruction::CopyFile {
            from: resolve(input_root, from.as_str()),
            to: resolve(output_root, to.as_str()),
        },
        Instruction::CopyDir { from_dir, to_dir } => Instruction::CopyDir {
            from_dir: resolve(input_root, from_dir.as_str()),
            to_dir: resolve(output_root, to_dir.as_str()),
        },
    }
}

/// The root stored under `key` in the tag list, or the empty path when
/// the tag is absent.
fn lookup_root(
    tags: &Vec<(String, String)>,
    key: &str,
    Ghost(m): Ghost<Map<Seq<char>, Seq<char>>>,
) -> (r: String)
    requires
        tags_represent(tag_pairs(tags@), m),
    ensures
        r@ == root_of(m, key@),
{
    match tag_lookup(tags, key) {
        Some(v) => {
            proof {
                let i = choose|i: int|
                    0 <= i < tags@.len() && (#[trigger] tags@[i]).0@ == key@ && tags@[i].1@ == v@;
                assert(tag_pairs(tags@)[i] == (tags@[i].0@, tags@[i].1@));
                assert(m.contains_pair(key@, v@));
            }
            v
        },
        None => {
            proof {
                assert forall|i: int|
                    0 <= i < tag_pairs(tags@).len() implies (#[trigger] tag_pairs(
                    tags@,
                )[i]).0 != key@ by {
                    assert(tag_pairs(tags@)[i].0 == tags@[i].0@);
                }
                lemma_lookup_in_map(tag_pairs(tags@), m, key@);
            }
            String::new()
        },
    }
}

/// The plan of a script: the script text is parsed as a document, the two
/// roots are read from the first entry's tags (empty when absent), and the
/// first entry's value is split into lines, each trimmed and parsed into
/// its instructions, which are resolved against the roots.  The one error
/// is a script that yields no entries.
pub fn build_plan(script: &str) -> (r: Result<Vec<Instruction>, BuildError>)
    ensures
        r matches Err(e) ==> e is Parse && doc_of(script@).len() == 0,
        doc_of(script@).len() == 0 ==> r is Err,
        r matches Ok(p) ==> doc_of(script@).len() > 0 && instrs_view(p@) == plan_spec(
            doc_of(script@),
        ),
{
    let entries = match parse_document(script) {
        Ok(es) => es,
        Err(e) => {
            return Err(e);
        },
    };
    if entries.len() == 0 {
        return Err(BuildError::Parse);
    }
    let ghost doc = doc_of(script@);
    proof {
        assert(entry_matches(entries@[0], doc[0]));
    }
    let input_root = lookup_root(&entries[0].tags, "input_root", Ghost(doc[0].2));
    let output_root = lookup_root(&entries[0].tags, "output_root", Ghost(doc[0].2));
    let prog = entries[0].value.as_str();
    let lines = split_text_lines(prog);
    let ghost f = |l: Seq<char>| resolved_line_instrs(l, input_root@, output_root@);
    let ghost ls = split_lines(prog@);
    let n = lines.len();
    let mut plan: Vec<Instruction> = Vec::new();
    let mut k: usize = 0;
    proof {
        assert(ls.take(0) =~= Seq::<Seq<char>>::empty());
        assert(instrs_view(plan@) =~= ls.take(0).flat_map(f));
    }
    while k < n
        invariant
            k <= n,
            n == lines@.len(),
            lines_view(lines@) == ls,
            ls == split_lines(prog@),
            f == (|l: Seq<char>| resolved_line_instrs(l, input_root@, output_root@)),
            instrs_view(plan@) == ls.take(k as int).flat_map(f),
        decreases n - k,
    {
        let ghost k0 = k as int;
        let line = trim(lines[k].as_str());
        let instrs = parse_line(line);
        let m = instrs.len();
        let mut j: usize = 0;
        proof {
            assert(lines@[k0]@ == ls[k0]);
            assert(line@ == trim_spec(ls[k0]));
            assert(f(ls[k0]) == line_instrs(line@).map_values(
                |mm: InstrModel| resolve_instr_spec(mm, input_root@, output_root@),
            ));
            assert(f(ls[k0]).take(0) =~= Seq::<InstrModel>::empty());
            assert(instrs_view(plan@) + f(ls[k0]).take(0) =~= instrs_view(plan@));
        }
        let ghost base = instrs_view(plan@);
        while j < m
            invariant
                j <= m,
                m == instrs@.len(),
                instrs_view(instrs@) == line_instrs(line@),
                f(ls[k0]) == line_instrs(line@).map_values(
                    |mm: InstrModel| resolve_instr_spec(mm, input_root@, output_root@),
                ),
                instrs_view(plan@) == base + f(ls[k0]).take(j as int),
            decreases m - j,
        {
            let ghost plan0 = plan@;
            let ghost j0 = j as int;
            let ri = resolve_instruction(&instrs[j], input_root.as_str(), output_root.as_str());
            proof {
                assert(instrs@[j0]@ == line_instrs(line@)[j0]);
                assert(f(ls[k0])[j0] == resolve_instr_spec(line_instrs(line@)[j0], input_root@, output_root@));
            }
            plan.push(ri);
            j += 1;
            proof {
                assert(instrs_view(plan@) =~= instrs_view(plan0).push(ri@));
                assert(f(ls[k0]).take(j0 + 1) =~= f(ls[k0]).take(j0).push(f(ls[k0])[j0]));
                assert(base + f(ls[k0]).take(j0).push(f(ls[k0])[j0]) =~= (base + f(ls[k0]).take(j0)).push(f(ls[k0])[j0]));
            }
        }
        k += 1;
        proof {
            assert(f(ls[k0]).take(m as int) =~= f(ls[k0]));
            ls.lemma_flat_map_take_append(f, k0);
        }
    }
    proof {
        assert(ls.take(n as int) =~= ls);
        assert(ls.flat_map(f) =~= ls.flat_map(
            |l: Seq<char>| resolved_line_instrs(l, root_of(doc[0].2, "input_root"@), root_of(doc[0].2, "output_root"@)),
        )) by {
            assert(ls.map_values(f) =~= ls.map_values(
                |l: Seq<char>| resolved_line_instrs(l, root_of(doc[0].2, "input_root"@), root_of(doc[0].2, "output_root"@)),
            ));
        }
        assert(entries@[0].value@ == doc[0].1);
    }
    Ok(plan)
}

/// A sequence of lines contributes the instructions of its first line and
/// then those of the rest.
proof fn lemma_flat_map_first(ls: Seq<Seq<char>>, f: spec_fn(Seq<char>) -> Seq<InstrModel>)
    requires
        ls.len() > 0,
    ensures
        ls.flat_map(f) == f(ls[0]) + ls.drop_first().flat_map(f),
{
    assert(ls.map_values(f).drop_first() =~= ls.drop_first().map_values(f));
    assert(ls.flat_map(f) == ls.map_values(f).first() + ls.map_values(f).drop_first().flatten());
}

/// An unrecognized line is inert: a line whose trimmed text matches none
/// of the four verb patterns contributes no instruction to the program,
/// and removing it leaves the plan unchanged.  No error arises from such
/// a line: line parsing is total and yields a plain, possibly empty,
/// instruction list.
pub proof fn lemma_unrecognized_line_inert(
    ls: Seq<Seq<char>>,
    i: int,
    ir: Seq<char>,
    or: Seq<char>,
)
    requires
        0 <= i < ls.len(),
        line_instrs(trim_spec(ls[i])).len() == 0,
    ensures
        ls.flat_map(|l: Seq<char>| resolved_line_instrs(l, ir, or)) == ls.remove(i).flat_map(
            |l: Seq<char>| resolved_line_instrs(l, ir, or),
        ),
    decreases ls.len(),
{
    let f = |l: Seq<char>| resolved_line_instrs(l, ir, or);
    lemma_flat_map_first(ls, f);
    if i == 0 {
        assert(f(ls[0]).len() == 0);
        assert(f(ls[0]) + ls.drop_first().flat_map(f) =~= ls.drop_first().flat_map(f));
        assert(ls.remove(0) =~= ls.drop_first());
    } else {
        lemma_unrecognized_line_inert(ls.drop_first(), i - 1, ir, or);
        assert(ls.remove(i).len() > 0);
        lemma_flat_map_first(ls.remove(i), f);
        assert(ls.remove(i)[0] == ls[0]);
        assert(ls.remove(i).drop_first() =~= ls.drop_first().remove(i - 1));
        assert(ls.drop_first()[i - 1] == ls[i]);
    }
}

/// One immediate entry of a directory listing: its bare name and whether
/// it is a plain file.
#[derive(Debug, Clone)]
pub struct DirEntry {
    pub name: String,
    pub is_file: bool,
}

impl View for DirEntry {
    type V = (Seq<char>, bool);

    open spec fn view(&self) -> (Seq<char>, bool) {
        (self.name@, self.is_file)
    }
}

/// The views of a directory listing.
pub open spec fn dir_view(es: Seq<DirEntry>) -> Seq<(Seq<char>, bool)> {
    es.map_values(|d: DirEntry| d@)
}

/// The names of the plain files among the entries, in listing order; an
/// entry that is not a plain file (a subdirectory among them) is skipped.
pub open spec fn kept_files(es: Seq<(Seq<char>, bool)>) -> Seq<Seq<char>>
    decreases es.len(),
{
    if es.len() == 0 {
        Seq::empty()
    } else if es.last().1 {
        kept_files(es.drop_last()).push(es.last().0)
    } else {
        kept_files(es.drop_last())
    }
}

/// For a directory compilation: each kept file name, with the content
/// file it is read from and the output file it is written to (the name
/// with the template's extension in place of its own).
pub open spec fn compile_dir_pairs(
    names: Seq<Seq<char>>,
    content_dir: Seq<char>,
    ext: Seq<char>,
    output_dir: Seq<char>,
) -> Seq<(Seq<char>, Seq<char>)> {
    names.map_values(
        |nm: Seq<char>|
            (resolve_spec(content_dir, nm), resolve_spec(output_dir, with_ext(nm, ext))),
    )
}

/// For a directory copy: each kept file name, read from the source
/// directory and written under its unchanged name.
pub open spec fn copy_dir_pairs(names: Seq<Seq<char>>, from_dir: Seq<char>, to_dir: Seq<char>) -> Seq<
    (Seq<char>, Seq<char>),
> {
    names.map_values(|nm: Seq<char>| (resolve_spec(from_dir, nm), resolve_spec(to_dir, nm)))
}

/// The views of a list of path pairs.
pub open spec fn pairs_view(v: Seq<(String, String)>) -> Seq<(Seq<char>, Seq<char>)> {
    v.map_values(|p: (String, String)| (p.0@, p.1@))
}

/// The per-file work list of `compile dir`: every plain file of the
/// listing, in order, with its derived output path; the one error is a
/// template path without an extension.
pub fn plan_compile_dir(
    entries: &Vec<DirEntry>,
    content_dir: &str,
    template: &str,
    output_dir: &str,
) -> (r: Result<Vec<(String, String)>, BuildError>)
    ensures
        match r {
            Err(e) => e is MissingExtension && ext_of(template@) is None,
            Ok(v) => ext_of(template@) matches Some(e) && pairs_view(v@) == compile_dir_pairs(
                kept_files(dir_view(entries@)),
                content_dir@,
                e,
                output_dir@,
            ),
        },
{
    let ext = match template_extension(template) {
        Ok(e) => e,
        Err(er) => {
            return Err(er);
        },
    };
    let n = entries.len();
    let mut out: Vec<(String, String)> = Vec::new();
    let mut k: usize = 0;
    proof {
        assert(dir_view(entries@).take(0) =~= Seq::<(Seq<char>, bool)>::empty());
        assert(pairs_view(out@) =~= compile_dir_pairs(
            kept_files(dir_view(entries@).take(0)),
            content_dir@,
            ext@,
            output_dir@,
        ));
    }
    while k < n
        invariant
            k <= n,
            n == entries@.len(),
            ext_of(template@) == Some(ext@),
            pairs_view(out@) == compile_dir_pairs(
                kept_files(dir_view(entries@).take(k as int)),
                content_dir@,
                ext@,
                output_dir@,
            ),
        decreases n - k,
    {
        let ghost k0 = k as int;
        let ghost dv = dir_view(entries@);
        if entries[k].is_file {
            let src = resolve(content_dir, entries[k].name.as_str());
            let dst_name = with_extension(entries[k].name.as_str(), ext.as_str());
            let dst = resolve(output_dir, dst_name.as_str());
            let ghost srcv = src@;
            let ghost dstv = dst@;
            let ghost out0 = out@;
            out.push((src, dst));
            k += 1;
            proof {
                assert(dv.take(k0 + 1).drop_last() =~= dv.take(k0));
                assert(dv.take(k0 + 1).last() == dv[k0]);
                assert(dv[k0] == (entries@[k0].name@, entries@[k0].is_file));
                assert(kept_files(dv.take(k0 + 1)) =~= kept_files(dv.take(k0)).push(
                    entries@[k0].name@,
                ));
                assert(pairs_view(out@) =~= pairs_view(out0).push((srcv, dstv)));
                assert(compile_dir_pairs(
                    kept_files(dv.take(k0)).push(entries@[k0].name@),
                    content_dir@,
                    ext@,
                    output_dir@,
                ) =~= compile_dir_pairs(
                    kept_files(dv.take(k0)),
                    content_dir@,
                    ext@,
                    output_dir@,
                ).push((srcv, dstv)));
            }
        } else {
            k += 1;
            proof {
                assert(dv.take(k0 + 1).drop_last() =~= dv.take(k0));
                assert(dv.take(k0 + 1).last() == dv[k0]);
                assert(kept_files(dv.take(k0 + 1)) =~= kept_files(dv.take(k0)));
            }
        }
    }
    proof {
        assert(dir_view(entries@).take(n as int) =~= dir_view(entries@));
    }
    Ok(out)
}

/// The per-file work list of `copy dir`: every plain file of the listing,
/// in order, with its unchanged target name.
pub fn plan_copy_dir(entries: &Vec<DirEntry>, from_dir: &str, to_dir: &str) -> (r: Vec<
    (String, String),
>)
    ensures
        pairs_view(r@) == copy_dir_pairs(kept_files(dir_view(entries@)), from_dir@, to_dir@),
{
    let n = entries.len();
    let mut out: Vec<(String, String)> = Vec::new();
    let mut k: usize = 0;
    proof {
        assert(dir_view(entries@).take(0) =~= Seq::<(Seq<char>, bool)>::empty());
        assert(pairs_view(out@) =~= copy_dir_pairs(
            kept_files(dir_view(entries@).take(0)),
            from_dir@,
            to_dir@,
        ));
    }
    while k < n
        invariant
            k <= n,
            n == entries@.len(),
            pairs_view(out@) == copy_dir_pairs(
                kept_files(dir_view(entries@).take(k as int)),
                from_dir@,
                to_dir@,
            ),
        decreases n - k,
    {
        let ghost k0 = k as int;
        let ghost dv = dir_view(entries@);
        if entries[k].is_file {
            let src = resolve(from_dir, entries[k].name.as_str());
            let dst = resolve(to_dir, entries[k].name.as_str());
            let ghost srcv = src@;
            let ghost dstv = dst@;
            let ghost out0 = out@;
            out.push((src, dst));
            k += 1;
            proof {
                assert(dv.take(k0 + 1).drop_last() =~= dv.take(k0));
                assert(dv.take(k0 + 1).last() == dv[k0]);
                assert(dv[k0] == (entries@[k0].name@, entries@[k0].is_file));
                assert(kept_files(dv.take(k0 + 1)) =~= kept_files(dv.take(k0)).push(
                    entries@[k0].name@,
                ));
                assert(pairs_view(out@) =~= pairs_view(out0).push((srcv, dstv)));
                assert(copy_dir_pairs(
                    kept_files(dv.take(k0)).push(entries@[k0].name@),
                    from_dir@,
                    to_dir@,
                ) =~= copy_dir_pairs(kept_files(dv.take(k0)), from_dir@, to_dir@).push(
                    (srcv, dstv),
                ));
            }
        } else {
            k += 1;
            proof {
                assert(dv.take(k0 + 1).drop_last() =~= dv.take(k0));
                assert(dv.take(k0 + 1).last() == dv[k0]);
                assert(kept_files(dv.take(k0 + 1)) =~= kept_files(dv.take(k0)));
            }
        }
    }
    proof {
        assert(dir_view(entries@).take(n as int) =~= dir_view(entries@));
    }
    out
}

} // verus!
