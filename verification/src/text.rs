//! Character-level text primitives: whitespace, substring occurrence,
//! trimming, and single-pass replace-all.

use vstd::prelude::*;

verus! {

/// The whitespace characters that delimit tokens and are trimmed from
/// instruction lines (the ASCII whitespace set).
pub open spec fn is_space(c: char) -> bool {
    c == ' ' || c == '\t' || c == '\n' || c == '\r' || c == '\u{b}' || c == '\u{c}'
}

/// `pat` occurs in `s` starting at index `i`.
pub open spec fn has_at(s: Seq<char>, pat: Seq<char>, i: int) -> bool {
    &&& 0 <= i
    &&& i + pat.len() <= s.len()
    &&& s.subrange(i, i + pat.len()) == pat
}

/// The least index `>= from` where `pat` occurs in `s`, if any.
pub open spec fn find_from(s: Seq<char>, pat: Seq<char>, from: int) -> Option<int>
    decreases s.len() - from + 1 when 0 <= from
{
    if from + pat.len() > s.len() {
        None
    } else if has_at(s, pat, from) {
        Some(from)
    } else {
        find_from(s, pat, from + 1)
    }
}

/// What `find_from` returns: the first occurrence at or after `from`,
/// or `None` exactly when there is none.
pub proof fn lemma_find_from_props(s: Seq<char>, pat: Seq<char>, from: int)
    requires
        0 <= from,
    ensures
        match find_from(s, pat, from) {
            Some(i) => from <= i && i + pat.len() <= s.len() && has_at(s, pat, i)
                && (forall|j: int| from <= j < i ==> !has_at(s, pat, j)),
            None => forall|j: int| from <= j ==> !has_at(s, pat, j),
        },
    decreases s.len() - from + 1,
{
    if from + pat.len() > s.len() {
        assert forall|j: int| from <= j implies !has_at(s, pat, j) by {}
    } else if has_at(s, pat, from) {
    } else {
        lemma_find_from_props(s, pat, from + 1);
    }
}

/// The end of the token starting at `p`: the first index at or after `p`
/// holding whitespace, or the end of `s`.
pub open spec fn token_end(s: Seq<char>, p: int) -> int
    decreases s.len() - p when 0 <= p <= s.len()
{
    if p >= s.len() {
        p
    } else if is_space(s[p]) {
        p
    } else {
        token_end(s, p + 1)
    }
}

/// The first index at or after `i` holding a non-space character.
pub open spec fn trim_start_from(s: Seq<char>, i: int) -> int
    decreases s.len() - i when 0 <= i <= s.len()
{
    if i >= s.len() {
        i
    } else if is_space(s[i]) {
        trim_start_from(s, i + 1)
    } else {
        i
    }
}

/// One past the last non-space character strictly before `i`.
pub open spec fn trim_end_to(s: Seq<char>, i: int) -> int
    decreases i when 0 <= i <= s.len()
{
    if i <= 0 {
        0
    } else if is_space(s[i - 1]) {
        trim_end_to(s, i - 1)
    } else {
        i
    }
}

/// `s` with leading and trailing whitespace removed.
pub open spec fn trim_spec(s: Seq<char>) -> Seq<char> {
    let a = trim_start_from(s, 0);
    let b = trim_end_to(s, s.len() as int);
    if a < b {
        s.subrange(a, b)
    } else {
        Seq::empty()
    }
}

/// `s` with, working left to right in a single pass, every occurrence of
/// `pat` at or after `from` replaced by `rep`; the scan resumes after the
/// replaced occurrence, never inside it or inside `rep`.
pub open spec fn replace_from(s: Seq<char>, pat: Seq<char>, rep: Seq<char>, from: int) -> Seq<char>
    decreases s.len() - from when 0 <= from <= s.len() && pat.len() > 0
    via replace_from_decreases
{
    match find_from(s, pat, from) {
        None => s.subrange(from, s.len() as int),
        Some(i) => s.subrange(from, i) + rep + replace_from(s, pat, rep, i + pat.len()),
    }
}

#[via_fn]
proof fn replace_from_decreases(s: Seq<char>, pat: Seq<char>, rep: Seq<char>, from: int) {
    lemma_find_from_props(s, pat, from);
}

/// The positions that one replacement pass replaces: the leftmost
/// occurrence of `pat` at or after `from`, then the leftmost at or after
/// the end of the previous one, and so on.
pub open spec fn occs(s: Seq<char>, pat: Seq<char>, from: int) -> Seq<int>
    decreases s.len() - from when 0 <= from && pat.len() > 0
    via occs_decreases
{
    match find_from(s, pat, from) {
        None => Seq::empty(),
        Some(i) => seq![i] + occs(s, pat, i + pat.len()),
    }
}

#[via_fn]
proof fn occs_decreases(s: Seq<char>, pat: Seq<char>, from: int) {
    lemma_find_from_props(s, pat, from);
}

/// The text rebuilt around the replaced positions: the untouched pieces
/// of `s` between consecutive occurrences, with `rep` in place of each.
pub open spec fn render(s: Seq<char>, pat: Seq<char>, rep: Seq<char>, ps: Seq<int>, from: int) -> Seq<char>
    decreases ps.len(),
{
    if ps.len() == 0 {
        s.subrange(from, s.len() as int)
    } else {
        s.subrange(from, ps[0]) + rep + render(s, pat, rep, ps.drop_first(), ps[0] + pat.len())
    }
}

/// Every replaced position is a genuine occurrence of `pat` in the
/// original text, at or after `from`, and the positions are strictly
/// ordered with no two occurrences overlapping.
pub proof fn lemma_occs_are_occurrences(s: Seq<char>, pat: Seq<char>, from: int, j: int)
    requires
        0 <= from,
        pat.len() > 0,
        0 <= j < occs(s, pat, from).len(),
    ensures
        from <= occs(s, pat, from)[j],
        has_at(s, pat, occs(s, pat, from)[j]),
        j + 1 < occs(s, pat, from).len() ==> occs(s, pat, from)[j] + pat.len() <= occs(
            s,
            pat,
            from,
        )[j + 1],
    decreases s.len() - from,
{
    lemma_find_from_props(s, pat, from);
    match find_from(s, pat, from) {
        None => {},
        Some(i) => {
            if j > 0 {
                lemma_occs_are_occurrences(s, pat, i + pat.len(), j - 1);
            } else {
                if 1 < occs(s, pat, from).len() {
                    lemma_occs_are_occurrences(s, pat, i + pat.len(), 0);
                }
            }
        },
    }
}

/// One pass consumes every occurrence of `pat` in the original text:
/// each occurrence at or after `from` starts inside one of the replaced
/// intervals.  Together with `lemma_replace_renders`, this is the sense
/// in which every occurrence of a placeholder is replaced, single-pass,
/// left to right.
pub proof fn lemma_every_occurrence_consumed(s: Seq<char>, pat: Seq<char>, from: int, q: int)
    requires
        0 <= from <= q,
        pat.len() > 0,
        has_at(s, pat, q),
    ensures
        exists|j: int|
            0 <= j < occs(s, pat, from).len() && (#[trigger] occs(s, pat, from)[j]) <= q < occs(
                s,
                pat,
                from,
            )[j] + pat.len(),
    decreases s.len() - from,
{
    lemma_find_from_props(s, pat, from);
    match find_from(s, pat, from) {
        None => {
            assert(false);
        },
        Some(i) => {
            if q < i + pat.len() {
                assert(occs(s, pat, from)[0] == i);
                assert(0 < occs(s, pat, from).len());
            } else {
                lemma_every_occurrence_consumed(s, pat, i + pat.len(), q);
                let j = choose|j: int|
                    0 <= j < occs(s, pat, i + pat.len()).len() && (#[trigger] occs(
                        s,
                        pat,
                        i + pat.len(),
                    )[j]) <= q < occs(s, pat, i + pat.len())[j] + pat.len();
                assert(occs(s, pat, from)[j + 1] == occs(s, pat, i + pat.len())[j]);
            }
        },
    }
}

/// The pass is exactly the render of the original text around its
/// replaced positions: the pieces between the occurrences pass through
/// untouched and each occurrence becomes `rep`.
pub proof fn lemma_replace_renders(s: Seq<char>, pat: Seq<char>, rep: Seq<char>, from: int)
    requires
        0 <= from <= s.len(),
        pat.len() > 0,
    ensures
        replace_from(s, pat, rep, from) == render(s, pat, rep, occs(s, pat, from), from),
    decreases s.len() - from,
{
    lemma_find_from_props(s, pat, from);
    match find_from(s, pat, from) {
        None => {},
        Some(i) => {
            lemma_replace_renders(s, pat, rep, i + pat.len());
            assert(occs(s, pat, from).drop_first() =~= occs(s, pat, i + pat.len()));
            assert(occs(s, pat, from)[0] == i);
        },
    }
}

/// A stretch of the original text that no replaced interval touches
/// appears in the output verbatim and contiguously: in particular an
/// unrecognized placeholder token that does not overlap any replaced
/// occurrence survives the pass exactly as written.
pub proof fn lemma_untouched_segment_preserved(
    s: Seq<char>,
    pat: Seq<char>,
    rep: Seq<char>,
    from: int,
    a: int,
    b: int,
)
    requires
        0 <= from <= s.len(),
        pat.len() > 0,
        from <= a <= b <= s.len(),
        forall|j: int|
            0 <= j < occs(s, pat, from).len() ==> (b <= (#[trigger] occs(s, pat, from)[j]) || occs(
                s,
                pat,
                from,
            )[j] + pat.len() <= a),
    ensures
        exists|k: int|
            0 <= k && k + (b - a) <= replace_from(s, pat, rep, from).len() && (#[trigger] replace_from(
                s,
                pat,
                rep,
                from,
            ).subrange(k, k + (b - a))) == s.subrange(a, b),
    decreases s.len() - from,
{
    lemma_find_from_props(s, pat, from);
    match find_from(s, pat, from) {
        None => {
            let r = replace_from(s, pat, rep, from);
            assert(r == s.subrange(from, s.len() as int));
            let k = a - from;
            assert(r.subrange(k, k + (b - a)) =~= s.subrange(a, b));
        },
        Some(i) => {
            let r = replace_from(s, pat, rep, from);
            let pre = s.subrange(from, i);
            let rest = replace_from(s, pat, rep, i + pat.len());
            assert(r == pre + rep + rest);
            assert(occs(s, pat, from)[0] == i);
            assert(0 < occs(s, pat, from).len());
            if b <= i {
                let k = a - from;
                assert(r.subrange(k, k + (b - a)) =~= s.subrange(a, b));
            } else {
                assert(i + pat.len() <= a);
                assert(forall|j: int|
                    0 <= j < occs(s, pat, i + pat.len()).len() ==> (#[trigger] occs(
                        s,
                        pat,
                        i + pat.len(),
                    )[j]) == occs(s, pat, from)[j + 1]);
                lemma_untouched_segment_preserved(s, pat, rep, i + pat.len(), a, b);
                let k1 = choose|k1: int|
                    0 <= k1 && k1 + (b - a) <= rest.len() && (#[trigger] rest.subrange(
                        k1,
                        k1 + (b - a),
                    )) == s.subrange(a, b);
                let k = pre.len() + rep.len() + k1;
                assert(r.subrange(k, k + (b - a)) =~= rest.subrange(k1, k1 + (b - a)));
            }
        },
    }
}

/// A text in which the pattern does not occur passes through the pass
/// verbatim.
pub proof fn lemma_no_occurrence_unchanged(s: Seq<char>, pat: Seq<char>, rep: Seq<char>)
    requires
        pat.len() > 0,
        find_from(s, pat, 0) is None,
    ensures
        replace_from(s, pat, rep, 0) == s,
{
    assert(s.subrange(0, s.len() as int) =~= s);
}

pub fn is_space_char(c: char) -> (b: bool)
    ensures
        b == is_space(c),
{
    c == ' ' || c == '\t' || c == '\n' || c == '\r' || c == '\u{b}' || c == '\u{c}'
}

/// Whether `lit` occurs in `l` at index `i`.
pub fn starts_with_at(l: &str, i: usize, lit: &str) -> (b: bool)
    requires
        i <= l@.len(),
    ensures
        b == has_at(l@, lit@, i as int),
{
    let n = l.unicode_len();
    let m = lit.unicode_len();
    if m > n - i {
        return false;
    }
    let mut j: usize = 0;
    while j < m
        invariant
            i + m <= n,
            n == l@.len(),
            m == lit@.len(),
            j <= m,
            forall|k: int| 0 <= k < j ==> l@[i + k] == lit@[k],
        decreases m - j,
    {
        if l.get_char(i + j) != lit.get_char(j) {
            proof {
                if has_at(l@, lit@, i as int) {
                    assert(l@.subrange(i as int, i + lit@.len())[j as int] == l@[i + j]);
                }
            }
            return false;
        }
        j += 1;
    }
    proof {
        assert(l@.subrange(i as int, i + lit@.len()) =~= lit@);
    }
    true
}

/// Character-for-character equality of two string slices.
pub fn str_eq(a: &str, b: &str) -> (r: bool)
    ensures
        r == (a@ == b@),
{
    let n = a.unicode_len();
    if n != b.unicode_len() {
        return false;
    }
    let mut i: usize = 0;
    while i < n
        invariant
            i <= n,
            n == a@.len(),
            n == b@.len(),
            forall|k: int| 0 <= k < i ==> a@[k] == b@[k],
        decreases n - i,
    {
        if a.get_char(i) != b.get_char(i) {
            return false;
        }
        i += 1;
    }
    proof {
        assert(a@ =~= b@);
    }
    true
}

/// The end of the token starting at `p`.
pub fn scan_token_end(l: &str, p: usize) -> (q: usize)
    requires
        p <= l@.len(),
    ensures
        p <= q <= l@.len(),
        q == token_end(l@, p as int),
{
    let n = l.unicode_len();
    let mut q = p;
    while q < n && !is_space_char(l.get_char(q))
        invariant
            p <= q <= n,
            n == l@.len(),
            token_end(l@, p as int) == token_end(l@, q as int),
        decreases n - q,
    {
        q += 1;
    }
    q
}

/// `l` with leading and trailing whitespace removed.
pub fn trim(l: &str) -> (r: &str)
    ensures
        r@ == trim_spec(l@),
{
    let n = l.unicode_len();
    let mut a: usize = 0;
    while a < n && is_space_char(l.get_char(a))
        invariant
            a <= n,
            n == l@.len(),
            trim_start_from(l@, 0) == trim_start_from(l@, a as int),
        decreases n - a,
    {
        a += 1;
    }
    let mut b: usize = n;
    while b > 0 && is_space_char(l.get_char(b - 1))
        invariant
            b <= n,
            n == l@.len(),
            trim_end_to(l@, n as int) == trim_end_to(l@, b as int),
        decreases b,
    {
        b -= 1;
    }
    if a < b {
        l.substring_char(a, b)
    } else {
        let r = l.substring_char(0, 0);
        proof {
            assert(r@ =~= trim_spec(l@));
        }
        r
    }
}

/// `text` with every occurrence of `pat` replaced by `rep`, scanning left
/// to right in a single pass.
pub fn replace_all(text: &str, pat: &str, rep: &str) -> (r: String)
    requires
        pat@.len() > 0,
    ensures
        r@ == replace_from(text@, pat@, rep@, 0),
{
    let n = text.unicode_len();
    let plen = pat.unicode_len();
    let mut out = String::new();
    let mut pos: usize = 0;
    let mut i: usize = 0;
    proof {
        assert(Seq::<char>::empty() + replace_from(text@, pat@, rep@, 0) =~= replace_from(
            text@,
            pat@,
            rep@,
            0,
        ));
    }
    while i < n
        invariant
            pat@.len() == plen,
            plen > 0,
            n == text@.len(),
            pos <= i <= n,
            find_from(text@, pat@, pos as int) == find_from(text@, pat@, i as int),
            replace_from(text@, pat@, rep@, 0) == out@ + replace_from(
                text@,
                pat@,
                rep@,
                pos as int,
            ),
        decreases n - i,
    {
        if plen <= n - i && starts_with_at(text, i, pat) {
            let ghost out0 = out@;
            let ghost pos0 = pos as int;
            let ghost i0 = i as int;
            proof {
                assert(find_from(text@, pat@, i0) == Some(i0));
            }
            out.append(text.substring_char(pos, i));
            out.append(rep);
            pos = i + plen;
            i = pos;
            proof {
                let a = text@.subrange(pos0, i0);
                assert(replace_from(text@, pat@, rep@, pos0) == a + rep@ + replace_from(
                    text@,
                    pat@,
                    rep@,
                    pos as int,
                ));
                assert(((out0 + a) + rep@) + replace_from(text@, pat@, rep@, pos as int) =~= out0
                    + ((a + rep@) + replace_from(text@, pat@, rep@, pos as int)));
            }
        } else {
            i += 1;
        }
    }
    proof {
        assert(find_from(text@, pat@, i as int) is None);
        assert(replace_from(text@, pat@, rep@, pos as int) == text@.subrange(
            pos as int,
            n as int,
        ));
    }
    out.append(text.substring_char(pos, n));
    out
}

} // verus!
