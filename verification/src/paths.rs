//! Path resolution and file-name derivation.  Resolution is pure
//! concatenation of a root and a relative fragment, with no existence
//! check and no normalization; extensions follow the usual file-name
//! rules (the part after the last dot of the file name, where a lone
//! leading dot does not begin an extension).

use vstd::prelude::*;

use crate::doc::BuildError;

verus! {

/// `root` with `frag` appended as a child path: an empty fragment leaves
/// the root alone, an absolute fragment replaces the root, and otherwise
/// a single separator joins the two.
pub open spec fn resolve_spec(root: Seq<char>, frag: Seq<char>) -> Seq<char> {
    if frag.len() == 0 {
        root
    } else if frag[0] == '/' {
        frag
    } else if root.len() == 0 {
        frag
    } else if root[root.len() - 1] == '/' {
        root + frag
    } else {
        root + seq!['/'] + frag
    }
}

/// The index right after the last `/` of `p` strictly before `i`, or 0.
pub open spec fn after_last_sep(p: Seq<char>, i: int) -> int
    decreases i when 0 <= i <= p.len()
{
    if i <= 0 {
        0
    } else if p[i - 1] == '/' {
        i
    } else {
        after_last_sep(p, i - 1)
    }
}

/// Where the file name of `p` starts: right after the last separator.
pub open spec fn file_start(p: Seq<char>) -> int {
    after_last_sep(p, p.len() as int)
}

/// The position of the last `.` of `p` at or after `lo` (and strictly
/// before `i`), if any.
pub open spec fn last_dot_from(p: Seq<char>, i: int, lo: int) -> Option<int>
    decreases i when 0 <= lo <= i <= p.len()
{
    if i <= lo {
        None
    } else if p[i - 1] == '.' {
        Some(i - 1)
    } else {
        last_dot_from(p, i - 1, lo)
    }
}

/// The extension of `p`: what follows the last dot of its file name,
/// unless that dot is the file name's first character.
pub open spec fn ext_of(p: Seq<char>) -> Option<Seq<char>> {
    let s = file_start(p);
    match last_dot_from(p, p.len() as int, s) {
        Some(d) => if d > s {
            Some(p.subrange(d + 1, p.len() as int))
        } else {
            None
        },
        None => None,
    }
}

/// Where the stem of `p` ends: at the dot that begins its extension, or
/// at the end when there is none.
pub open spec fn stem_end(p: Seq<char>) -> int {
    let s = file_start(p);
    match last_dot_from(p, p.len() as int, s) {
        Some(d) => if d > s {
            d
        } else {
            p.len() as int
        },
        None => p.len() as int,
    }
}

/// `name` with its extension replaced by `ext` (appended when `name` has
/// none, removed when `ext` is empty).
pub open spec fn with_ext(name: Seq<char>, ext: Seq<char>) -> Seq<char> {
    if ext.len() == 0 {
        name.subrange(0, stem_end(name))
    } else {
        name.subrange(0, stem_end(name)) + seq!['.'] + ext
    }
}

/// `root` with `frag` appended as a child path.
pub fn resolve(root: &str, frag: &str) -> (r: String)
    ensures
        r@ == resolve_spec(root@, frag@),
{
    let fl = frag.unicode_len();
    if fl == 0 {
        return String::from_str(root);
    }
    if frag.get_char(0) == '/' {
        return String::from_str(frag);
    }
    let rl = root.unicode_len();
    if rl == 0 {
        return String::from_str(frag);
    }
    if root.get_char(rl - 1) == '/' {
        return String::from_str(root).concat(frag);
    }
    let r = String::from_str(root).concat("/").concat(frag);
    proof {
        reveal_strlit("/");
        assert(r@ =~= resolve_spec(root@, frag@));
    }
    r
}

/// Where the file name of `p` starts.
fn find_file_start(p: &str) -> (s: usize)
    ensures
        s == file_start(p@),
        s <= p@.len(),
{
    let n = p.unicode_len();
    let mut i: usize = n;
    while i > 0 && p.get_char(i - 1) != '/'
        invariant
            i <= n,
            n == p@.len(),
            after_last_sep(p@, n as int) == after_last_sep(p@, i as int),
        decreases i,
    {
        i -= 1;
    }
    i
}

/// The position of the last dot of `p` at or after `lo`, if any.
fn find_last_dot(p: &str, lo: usize) -> (r: Option<usize>)
    requires
        lo <= p@.len(),
    ensures
        match r {
            Some(d) => last_dot_from(p@, p@.len() as int, lo as int) == Some(d as int) && lo <= d
                < p@.len(),
            None => last_dot_from(p@, p@.len() as int, lo as int) is None,
        },
{
    let n = p.unicode_len();
    let mut i: usize = n;
    while i > lo && p.get_char(i - 1) != '.'
        invariant
            lo <= i <= n,
            n == p@.len(),
            last_dot_from(p@, n as int, lo as int) == last_dot_from(p@, i as int, lo as int),
        decreases i,
    {
        i -= 1;
    }
    if i == lo {
        None
    } else {
        Some(i - 1)
    }
}

/// The extension of the template path, or the error that it has none.
pub fn template_extension(p: &str) -> (r: Result<String, BuildError>)
    ensures
        match r {
            Ok(e) => ext_of(p@) == Some(e@),
            Err(er) => er is MissingExtension && ext_of(p@) is None,
        },
{
    let s = find_file_start(p);
    let n = p.unicode_len();
    match find_last_dot(p, s) {
        Some(d) => {
            if d > s {
                Ok(String::from_str(p.substring_char(d + 1, n)))
            } else {
                Err(BuildError::MissingExtension)
            }
        },
        None => Err(BuildError::MissingExtension),
    }
}

/// `name` with its extension replaced by `ext`.
pub fn with_extension(name: &str, ext: &str) -> (r: String)
    ensures
        r@ == with_ext(name@, ext@),
{
    let s = find_file_start(name);
    let n = name.unicode_len();
    let se = match find_last_dot(name, s) {
        Some(d) => if d > s {
            d
        } else {
            n
        },
        None => n,
    };
    let stem = name.substring_char(0, se);
    if ext.unicode_len() == 0 {
        String::from_str(stem)
    } else {
        let r = String::from_str(stem).concat(".").concat(ext);
        proof {
            reveal_strlit(".");
            assert(r@ =~= with_ext(name@, ext@));
        }
        r
    }
}

} // verus!
