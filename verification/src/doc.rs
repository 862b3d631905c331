//! Structured documents: the external document format supplies ordered
//! entries, each a key, a value and a tag mapping.  Parsing is done by the
//! geml crate; everything after the parse is verified against the named
//! result `doc_of`.

use vstd::prelude::*;

use crate::text::str_eq;

verus! {

/// An error of the build runner.
#[derive(Clone, Copy, Debug, PartialEq, Eq, Structural)]
pub enum BuildError {
    /// The script or a content document yielded no entries.
    Parse,
    /// A template path carries no extension, so no output name can be
    /// derived for a directory compilation.
    MissingExtension,
}

impl BuildError {
    /// A human-readable description of the error.
    pub fn message(&self) -> (r: &'static str)
        ensures
            *self is Parse ==> r@ == "no valid document defined."@,
            *self is MissingExtension ==> r@ == "the template has no extension."@,
    {
        match self {
            BuildError::Parse => "no valid document defined.",
            BuildError::MissingExtension => "the template has no extension.",
        }
    }
}

/// One entry of a parsed document: a key, a value, and the entry's tag
/// mapping as a list of key/value pairs.
#[derive(Debug, Clone)]
pub struct Entry {
    pub key: String,
    pub value: String,
    pub tags: Vec<(String, String)>,
}

/// The mathematical shape of a parsed document: for each entry in order,
/// its key, its value, and its tag mapping.
pub type DocModel = Seq<(Seq<char>, Seq<char>, Map<Seq<char>, Seq<char>>)>;

/// What the external parser yields on a given text.  The result depends on
/// the text alone; its exact value is fixed only by the geml crate.
pub uninterp spec fn doc_of(s: Seq<char>) -> DocModel;

/// The views of a list of tag pairs.
pub open spec fn tag_pairs(tags: Seq<(String, String)>) -> Seq<(Seq<char>, Seq<char>)> {
    tags.map_values(|p: (String, String)| (p.0@, p.1@))
}

/// The pair list `t` carries exactly the mapping `m`: keys are unique,
/// every pair is in `m`, and every key of `m` appears.
pub open spec fn tags_represent(t: Seq<(Seq<char>, Seq<char>)>, m: Map<Seq<char>, Seq<char>>) -> bool {
    &&& forall|i: int, j: int| #![trigger t[i], t[j]] 0 <= i < j < t.len() ==> t[i].0 != t[j].0
    &&& forall|i: int| 0 <= i < t.len() ==> m.contains_pair((#[trigger] t[i]).0, t[i].1)
    &&& forall|k: Seq<char>| m.contains_key(k) ==> exists|i: int| 0 <= i < t.len() && (#[trigger] t[i]).0 == k
}

/// `e` is the entry that the model `d` describes.
pub open spec fn entry_matches(e: Entry, d: (Seq<char>, Seq<char>, Map<Seq<char>, Seq<char>>)) -> bool {
    &&& e.key@ == d.0
    &&& e.value@ == d.1
    &&& tags_represent(tag_pairs(e.tags@), d.2)
}

/// `es` is the entry list that the model `doc` describes.
pub open spec fn entries_match(es: Seq<Entry>, doc: DocModel) -> bool {
    &&& es.len() == doc.len()
    &&& forall|i: int| 0 <= i < es.len() ==> entry_matches(#[trigger] es[i], doc[i])
}

/// Relies on geml::Geml::deserialize: it splits a text into entries, each
/// headed by a line of the form `$key$` and carrying leading `#[tag(value)]`
/// annotations followed by the entry's body; its source returns `Ok` on
/// every input, and the result is a function of the text alone.
#[verifier::external_body]
pub(crate) fn parse_document(s: &str) -> (r: Result<Vec<Entry>, BuildError>)
    ensures
        r is Ok,
        r matches Ok(es) ==> entries_match(es@, doc_of(s@)),
{
    match geml::Geml::deserialize(s.to_string()) {
        Ok(gemls) => Ok(gemls
            .into_iter()
            .map(|g| Entry {
                key: g.key,
                value: g.value,
                tags: g.tags.into_iter().collect(),
            })
            .collect()),
        Err(_) => Err(BuildError::Parse),
    }
}

/// The value stored under `key` in the pair list, if any.
pub fn tag_lookup(tags: &Vec<(String, String)>, key: &str) -> (r: Option<String>)
    ensures
        match r {
            Some(v) => exists|i: int|
                0 <= i < tags@.len() && (#[trigger] tags@[i]).0@ == key@ && tags@[i].1@ == v@,
            None => forall|i: int| 0 <= i < tags@.len() ==> (#[trigger] tags@[i]).0@ != key@,
        },
{
    let n = tags.len();
    let mut i: usize = 0;
    while i < n
        invariant
            i <= n,
            n == tags@.len(),
            forall|j: int| 0 <= j < i ==> (#[trigger] tags@[j]).0@ != key@,
        decreases n - i,
    {
        if str_eq(tags[i].0.as_str(), key) {
            return Some(tags[i].1.clone());
        }
        i += 1;
    }
    None
}

/// With `tags_represent` in hand, what `tag_lookup`'s answer says of the
/// mapping itself.
pub proof fn lemma_lookup_in_map(
    t: Seq<(Seq<char>, Seq<char>)>,
    m: Map<Seq<char>, Seq<char>>,
    key: Seq<char>,
)
    requires
        tags_represent(t, m),
    ensures
        (exists|i: int| 0 <= i < t.len() && (#[trigger] t[i]).0 == key) ==> m.contains_key(key),
        forall|i: int|
            0 <= i < t.len() && (#[trigger] t[i]).0 == key ==> m.contains_pair(key, t[i].1),
        (forall|i: int| 0 <= i < t.len() ==> (#[trigger] t[i]).0 != key) ==> !m.contains_key(key),
{
}

} // verus!
