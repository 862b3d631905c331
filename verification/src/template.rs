//! The template compiler: each entry of a content document is applied to
//! the working text in document order, one single replacement pass per
//! entry.  A later entry's pass scans text that earlier passes produced;
//! no pass ever rescans its own output.

use vstd::prelude::*;

use crate::text::{replace_from, replace_all};
use crate::doc::{Entry, BuildError, DocModel, doc_of, parse_document};

verus! {

/// The placeholder token of a key: the key wrapped in the delimiter `$`
/// on both sides.
pub open spec fn token_of(key: Seq<char>) -> Seq<char> {
    seq!['$'] + key + seq!['$']
}

/// The key/value pairs of an entry list.
pub open spec fn entry_pairs(es: Seq<Entry>) -> Seq<(Seq<char>, Seq<char>)> {
    es.map_values(|e: Entry| (e.key@, e.value@))
}

/// The key/value pairs of a document model.
pub open spec fn doc_pairs(doc: DocModel) -> Seq<(Seq<char>, Seq<char>)> {
    doc.map_values(|d: (Seq<char>, Seq<char>, Map<Seq<char>, Seq<char>>)| (d.0, d.1))
}

/// The working text after the entries are applied in order: for each
/// entry, one left-to-right replacement pass of its token by its value
/// over the current text.
pub open spec fn apply_entries_spec(t: Seq<char>, es: Seq<(Seq<char>, Seq<char>)>) -> Seq<char>
    decreases es.len(),
{
    if es.len() == 0 {
        t
    } else {
        apply_entries_spec(replace_from(t, token_of(es[0].0), es[0].1, 0), es.drop_first())
    }
}

/// Substitution is sequential and in document order: applying a document
/// is applying its front entries and then the remaining entries to the
/// already-substituted text.  A later entry's pass scans what earlier
/// passes produced; an earlier pass never rescans a later entry's output.
pub proof fn lemma_apply_entries_split(
    t: Seq<char>,
    es1: Seq<(Seq<char>, Seq<char>)>,
    es2: Seq<(Seq<char>, Seq<char>)>,
)
    ensures
        apply_entries_spec(t, es1 + es2) == apply_entries_spec(apply_entries_spec(t, es1), es2),
    decreases es1.len(),
{
    if es1.len() == 0 {
        assert(es1 + es2 =~= es2);
    } else {
        assert((es1 + es2)[0] == es1[0]);
        assert((es1 + es2).drop_first() =~= es1.drop_first() + es2);
        lemma_apply_entries_split(
            replace_from(t, token_of(es1[0].0), es1[0].1, 0),
            es1.drop_first(),
            es2,
        );
    }
}

/// A single entry is exactly one replacement pass: its token, its value,
/// once over the whole text.
pub proof fn lemma_single_entry_is_one_pass(t: Seq<char>, key: Seq<char>, value: Seq<char>)
    ensures
        apply_entries_spec(t, seq![(key, value)]) == replace_from(t, token_of(key), value, 0),
{
    assert(seq![(key, value)].drop_first() =~= Seq::<(Seq<char>, Seq<char>)>::empty());
    assert(apply_entries_spec(replace_from(t, token_of(key), value, 0), Seq::empty())
        == replace_from(t, token_of(key), value, 0));
}

/// An unknown placeholder survives: when a document holds one entry, any
/// token occurrence in the template that does not overlap an occurrence
/// the pass replaces — in particular the token of a key the document does
/// not define, standing apart from the defined one — appears verbatim and
/// contiguously in the compiled output.
pub proof fn lemma_unknown_token_survives(
    t: Seq<char>,
    key: Seq<char>,
    value: Seq<char>,
    u: Seq<char>,
    q: int,
)
    requires
        crate::text::has_at(t, token_of(u), q),
        forall|j: int|
            0 <= j < crate::text::occs(t, token_of(key), 0).len() ==> (q + token_of(u).len()
                <= (#[trigger] crate::text::occs(t, token_of(key), 0)[j]) || crate::text::occs(
                t,
                token_of(key),
                0,
            )[j] + token_of(key).len() <= q),
    ensures
        exists|k: int|
            0 <= k && k + token_of(u).len() <= apply_entries_spec(t, seq![(key, value)]).len()
                && (#[trigger] apply_entries_spec(t, seq![(key, value)]).subrange(
                k,
                k + token_of(u).len(),
            )) == token_of(u),
{
    lemma_single_entry_is_one_pass(t, key, value);
    crate::text::lemma_untouched_segment_preserved(
        t,
        token_of(key),
        value,
        0,
        q,
        q + token_of(u).len(),
    );
    assert(t.subrange(q, q + token_of(u).len()) == token_of(u));
}

/// A template in which no entry's token occurs passes through the
/// compiler verbatim; in particular a placeholder token with no matching
/// entry key stays in the output exactly as written.
pub proof fn lemma_unmatched_tokens_verbatim(t: Seq<char>, es: Seq<(Seq<char>, Seq<char>)>)
    requires
        forall|k: int|
            0 <= k < es.len() ==> crate::text::find_from(t, token_of((#[trigger] es[k]).0), 0) is None,
    ensures
        apply_entries_spec(t, es) == t,
    decreases es.len(),
{
    if es.len() > 0 {
        crate::text::lemma_no_occurrence_unchanged(t, token_of(es[0].0), es[0].1);
        assert(forall|k: int|
            0 <= k < es.drop_first().len() ==> (#[trigger] es.drop_first()[k]) == es[k + 1]);
        lemma_unmatched_tokens_verbatim(t, es.drop_first());
    }
}

/// The placeholder token of `key`.
pub fn token_string(key: &str) -> (r: String)
    ensures
        r@ == token_of(key@),
        r@.len() == key@.len() + 2,
{
    let r = String::from_str("$").concat(key).concat("$");
    proof {
        reveal_strlit("$");
        assert(r@ =~= token_of(key@));
    }
    r
}

/// `template` with the entries applied in document order.
pub fn apply_entries(template: &str, entries: &Vec<Entry>) -> (r: String)
    ensures
        r@ == apply_entries_spec(template@, entry_pairs(entries@)),
{
    let mut cur = String::from_str(template);
    let n = entries.len();
    let mut k: usize = 0;
    proof {
        assert(entry_pairs(entries@).skip(0) =~= entry_pairs(entries@));
    }
    while k < n
        invariant
            k <= n,
            n == entries@.len(),
            apply_entries_spec(template@, entry_pairs(entries@)) == apply_entries_spec(
                cur@,
                entry_pairs(entries@).skip(k as int),
            ),
        decreases n - k,
    {
        let ghost k0 = k as int;
        let ghost ps = entry_pairs(entries@);
        let tok = token_string(entries[k].key.as_str());
        let next = replace_all(cur.as_str(), tok.as_str(), entries[k].value.as_str());
        cur = next;
        k += 1;
        proof {
            assert(ps.skip(k0)[0] == ps[k0]);
            assert(ps.skip(k0).drop_first() =~= ps.skip(k0 + 1));
        }
    }
    proof {
        assert(entry_pairs(entries@).skip(n as int).len() == 0);
    }
    cur
}

/// Renders `template` against the content document `content`: the
/// document is parsed, must yield at least one entry, and its entries are
/// applied in document order.
pub fn compile_text(content: &str, template: &str) -> (r: Result<String, BuildError>)
    ensures
        r matches Err(e) ==> e is Parse && doc_of(content@).len() == 0,
        doc_of(content@).len() == 0 ==> r is Err,
        r matches Ok(out) ==> doc_of(content@).len() > 0 && out@ == apply_entries_spec(
            template@,
            doc_pairs(doc_of(content@)),
        ),
{
    let entries = match parse_document(content) {
        Ok(es) => es,
        Err(e) => {
            return Err(e);
        },
    };
    if entries.len() == 0 {
        return Err(BuildError::Parse);
    }
    let out = apply_entries(template, &entries);
    proof {
        assert(entry_pairs(entries@) =~= doc_pairs(doc_of(content@)));
    }
    Ok(out)
}

} // verus!
