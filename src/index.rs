//! The index: a postings list for each lowercase term, and the original text
//! of each document.

use std::collections::HashMap;
use vstd::prelude::*;
use vstd::string::*;

use crate::highlight::{highlight, highlighted};
use crate::tokenizer::{tokenize, tokens};

verus! {

broadcast use vstd::std_specs::hash::group_hash_axioms;

/// The lowercase form of a text, as `str::to_lowercase` gives it.
pub uninterp spec fn lower_of(s: Seq<char>) -> Seq<char>;

/// Relies on `str::to_lowercase`: the result depends on the text alone.
#[verifier::external_body]
fn lowercase(s: &str) -> (r: String)
    ensures
        r@ == lower_of(s@),
{
    s.to_lowercase()
}

/// The postings of `t` in `p`, empty where `t` has none.
pub open spec fn ids_for(p: Map<Seq<char>, Seq<usize>>, t: Seq<char>) -> Seq<usize> {
    if p.contains_key(t) {
        p[t]
    } else {
        seq![]
    }
}

/// How many of `toks` equal `t`.
pub open spec fn occurrences(toks: Seq<Seq<char>>, t: Seq<char>) -> nat
    decreases toks.len(),
{
    if toks.len() == 0 {
        0
    } else {
        occurrences(toks.drop_last(), t) + if toks.last() == t {
            1nat
        } else {
            0nat
        }
    }
}

/// The postings `p` after a document `id` with tokens `toks` is added: each
/// term of `toks` gets `id` appended once for each time it occurs.
pub open spec fn posted(p: Map<Seq<char>, Seq<usize>>, toks: Seq<Seq<char>>, id: usize) -> Map<
    Seq<char>,
    Seq<usize>,
> {
    Map::new(
        |t: Seq<char>| p.contains_key(t) || toks.contains(t),
        |t: Seq<char>| ids_for(p, t) + Seq::new(occurrences(toks, t), |i: int| id),
    )
}

/// Adding one more token `t` to a document appends `id` to `t`'s postings
/// and leaves every other term as it was.
proof fn lemma_posted_push(p: Map<Seq<char>, Seq<usize>>, toks: Seq<Seq<char>>, t: Seq<char>, id: usize)
    ensures
        posted(p, toks.push(t), id) == posted(p, toks, id).insert(
            t,
            ids_for(posted(p, toks, id), t).push(id),
        ),
{
    let q = posted(p, toks, id);
    let after = posted(p, toks.push(t), id);
    assert(toks.push(t).drop_last() =~= toks);
    assert forall|u: Seq<char>| #[trigger] after.contains_key(u) <==> q.insert(
        t,
        ids_for(q, t).push(id),
    ).contains_key(u) by {
        if toks.push(t).contains(u) && u != t {
            let k = choose|k: int| 0 <= k < toks.push(t).len() && toks.push(t)[k] == u;
            assert(toks[k] == u);
        }
        if toks.contains(u) {
            let k = choose|k: int| 0 <= k < toks.len() && toks[k] == u;
            assert(toks.push(t)[k] == u);
        }
        assert(toks.push(t)[toks.len() as int] == t);
    }
    assert forall|u: Seq<char>| #[trigger] after.contains_key(u) implies after[u] == q.insert(
        t,
        ids_for(q, t).push(id),
    )[u] by {
        assert(occurrences(toks.push(t), u) == occurrences(toks, u) + if u == t {
            1nat
        } else {
            0nat
        });
        if u == t {
            if !q.contains_key(t) {
                lemma_absent_term_never_occurs(toks, t);
                assert(ids_for(p, t) =~= seq![]);
            }
            assert(after[u] =~= ids_for(q, t).push(id));
        } else {
            assert(q.contains_key(u));
        }
    }
    assert(after =~= q.insert(t, ids_for(q, t).push(id)));
}

/// A term that is not among the tokens occurs zero times.
proof fn lemma_absent_term_never_occurs(toks: Seq<Seq<char>>, t: Seq<char>)
    requires
        !toks.contains(t),
    ensures
        occurrences(toks, t) == 0,
    decreases toks.len(),
{
    if toks.len() > 0 {
        assert(toks.last() == toks[toks.len() - 1]);
        assert forall|k: int| 0 <= k < toks.drop_last().len() implies toks.drop_last()[k] != t by {
            assert(toks.drop_last()[k] == toks[k]);
        }
        lemma_absent_term_never_occurs(toks.drop_last(), t);
    }
}

/// Adding a document appends its id to a term's postings once for each time
/// the term occurs among its tokens, after the ids that were there.
pub proof fn lemma_add_appends(p: Map<Seq<char>, Seq<usize>>, toks: Seq<Seq<char>>, id: usize, t: Seq<char>)
    ensures
        ids_for(posted(p, toks, id), t) == ids_for(p, t) + Seq::new(occurrences(toks, t), |i: int| id),
{
    if !posted(p, toks, id).contains_key(t) {
        lemma_absent_term_never_occurs(toks, t);
        assert(ids_for(p, t) + Seq::new(occurrences(toks, t), |i: int| id) =~= seq![]);
    }
}

/// Postings keep the order of the `add` calls, not the order of the ids:
/// after adding `a` and then `b`, a term's postings are those it had, then
/// `a` once for each of its occurrences in `a`'s tokens, then `b` likewise.
pub proof fn lemma_postings_keep_call_order(
    p: Map<Seq<char>, Seq<usize>>,
    a_toks: Seq<Seq<char>>,
    a: usize,
    b_toks: Seq<Seq<char>>,
    b: usize,
    t: Seq<char>,
)
    ensures
        ids_for(posted(posted(p, a_toks, a), b_toks, b), t) == ids_for(p, t) + Seq::new(
            occurrences(a_toks, t),
            |i: int| a,
        ) + Seq::new(occurrences(b_toks, t), |i: int| b),
{
    lemma_add_appends(p, a_toks, a, t);
    lemma_add_appends(posted(p, a_toks, a), b_toks, b, t);
}

/// A document whose tokens do not hold `t` leaves `t` as it was: a term that
/// no added document held stays without postings.
pub proof fn lemma_add_without_term(p: Map<Seq<char>, Seq<usize>>, toks: Seq<Seq<char>>, id: usize, t: Seq<char>)
    requires
        !toks.contains(t),
    ensures
        posted(p, toks, id).contains_key(t) == p.contains_key(t),
        ids_for(posted(p, toks, id), t) == ids_for(p, t),
{
    lemma_absent_term_never_occurs(toks, t);
    assert(ids_for(p, t) + Seq::new(0, |i: int| id) =~= ids_for(p, t));
}

/// Every id in a postings list names a stored document, so a query never
/// meets an id whose text is missing.
pub proof fn lemma_postings_have_docs(idx: InvertedIndex)
    requires
        idx.wf(),
    ensures
        forall|t: Seq<char>, j: int|
            idx.postings().contains_key(t) && 0 <= j < idx.postings()[t].len()
                ==> #[trigger] idx.docs().contains_key(idx.postings()[t][j]),
{
    assert forall|t: Seq<char>, j: int|
        idx.postings().contains_key(t) && 0 <= j < idx.postings()[t].len()
            implies #[trigger] idx.docs().contains_key(idx.postings()[t][j]) by {
        assert(idx.documents@.contains_key(idx.model@[t][j]));
    }
}

/// A term whose lowercase form has no postings gives an empty result.
pub proof fn lemma_unindexed_term_gives_nothing(idx: InvertedIndex, term: Seq<char>)
    requires
        !idx.postings().contains_key(lower_of(term)),
    ensures
        idx.query_result(term) == Seq::<Seq<char>>::empty(),
{
    assert(idx.query_result(term) =~= Seq::<Seq<char>>::empty());
}

/// A query's result depends only on the index's postings and texts and on
/// the lowercase form of the term: asking twice without an `add` between
/// gives the same result, and so do terms that differ only in case.
pub proof fn lemma_query_depends_on_lowercase_term(
    a: InvertedIndex,
    b: InvertedIndex,
    s: Seq<char>,
    t: Seq<char>,
)
    requires
        a.postings() == b.postings(),
        a.docs() == b.docs(),
        lower_of(s) == lower_of(t),
    ensures
        a.query_result(s) == b.query_result(t),
{
}

/// A stored document: its id and its original text.
pub struct Document {
    pub id: usize,
    pub content: String,
}

/// A term with the ids of the documents that hold it.
struct Posting {
    term: String,
    ids: Vec<usize>,
}

/// Lowercase terms mapped to the ids of the documents that hold them, in the
/// order in which the documents were added, and each document's original
/// text by id.
pub struct InvertedIndex {
    indexes: Vec<Posting>,
    documents: HashMap<usize, Document>,
    model: Ghost<Map<Seq<char>, Seq<usize>>>,
}

impl InvertedIndex {
    /// Each term's postings.
    pub closed spec fn postings(&self) -> Map<Seq<char>, Seq<usize>> {
        self.model@
    }

    /// Each document's original text, by id.
    pub closed spec fn docs(&self) -> Map<usize, Seq<char>> {
        self.documents@.map_values(|d: Document| d.content@)
    }

    /// The terms are distinct, each entry holds the postings of its term,
    /// every id in a postings list names a stored document, and each stored
    /// document carries the id it is stored under.
    pub closed spec fn wf(&self) -> bool {
        &&& forall|i: int|
            #![trigger self.indexes@[i]]
            0 <= i < self.indexes@.len() ==> self.model@.contains_key(self.indexes@[i].term@)
                && self.model@[self.indexes@[i].term@] == self.indexes@[i].ids@
        &&& forall|t: Seq<char>| #[trigger]
            self.model@.contains_key(t) ==> exists|i: int|
                0 <= i < self.indexes@.len() && #[trigger] self.indexes@[i].term@ == t
        &&& forall|i: int, j: int|
            0 <= i < j < self.indexes@.len() ==> #[trigger] self.indexes@[i].term@
                != #[trigger] self.indexes@[j].term@
        &&& forall|t: Seq<char>, j: int|
            #![trigger self.model@[t][j]]
            self.model@.contains_key(t) && 0 <= j < self.model@[t].len()
                ==> self.documents@.contains_key(self.model@[t][j])
        &&& forall|id: usize| #[trigger]
            self.documents@.contains_key(id) ==> self.documents@[id].id == id
    }

    /// What `query(term)` returns: for each id in the postings of the
    /// lowercase term, in order, that document's text highlighted.
    pub open spec fn query_result(&self, term: Seq<char>) -> Seq<Seq<char>> {
        let key = lower_of(term);
        ids_for(self.postings(), key).map_values(|id: usize| highlighted(key, self.docs()[id]))
    }

    /// An empty index.
    pub fn new() -> (r: InvertedIndex)
        ensures
            r.wf(),
            r.postings() == Map::<Seq<char>, Seq<usize>>::empty(),
            r.docs() == Map::<usize, Seq<char>>::empty(),
    {
        let r = InvertedIndex {
            indexes: Vec::new(),
            documents: HashMap::new(),
            model: Ghost(Map::empty()),
        };
        assert(r.docs() =~= Map::<usize, Seq<char>>::empty());
        r
    }

    /// The position of `t` among the entries, if it has one.
    fn find(&self, t: &String) -> (r: Option<usize>)
        requires
            self.wf(),
        ensures
            match r {
                Some(i) => i < self.indexes@.len() && self.indexes@[i as int].term@ == t@,
                None => !self.postings().contains_key(t@),
            },
    {
        let mut i: usize = 0;
        while i < self.indexes.len()
            invariant
                self.wf(),
                i <= self.indexes@.len(),
                forall|j: int| 0 <= j < i ==> #[trigger] self.indexes@[j].term@ != t@,
            decreases self.indexes@.len() - i,
        {
            if self.indexes[i].term == *t {
                return Some(i);
            }
            i = i + 1;
        }
        None
    }

    /// Appends `id` to the postings of `term`, creating them if absent.
    fn append_id(&mut self, term: &str, id: usize)
        requires
            old(self).wf(),
            old(self).documents@.contains_key(id),
        ensures
            final(self).wf(),
            final(self).postings() == old(self).postings().insert(
                term@,
                ids_for(old(self).postings(), term@).push(id),
            ),
            final(self).documents@ == old(self).documents@,
    {
        let key = term.to_owned();
        let ghost entries0 = self.indexes@;
        let ghost model0 = self.model@;
        match self.find(&key) {
            Some(i) => {
                self.indexes[i].ids.push(id);
                self.model = Ghost(self.model@.insert(key@, self.indexes@[i as int].ids@));
                assert forall|j: int| 0 <= j < self.indexes@.len() implies #[trigger] self.indexes@[j].term@
                    == entries0[j].term@ by {
                    if j != i {
                        assert(self.indexes@[j] == entries0[j]);
                    }
                }
                assert forall|t: Seq<char>| #[trigger]
                    self.model@.contains_key(t) implies exists|j: int|
                    0 <= j < self.indexes@.len() && #[trigger] self.indexes@[j].term@ == t by {
                    if t != key@ {
                        let j = choose|j: int| 0 <= j < entries0.len() && #[trigger] entries0[j].term@ == t;
                        assert(self.indexes@[j].term@ == t);
                    } else {
                        assert(self.indexes@[i as int].term@ == t);
                    }
                }
                assert forall|j: int| 0 <= j < self.indexes@.len() implies #[trigger] self.model@[self.indexes@[j].term@]
                    == self.indexes@[j].ids@ by {
                    if j != i {
                        assert(self.indexes@[j] == entries0[j]);
                        assert(entries0[j].term@ != key@);
                    }
                }
                assert(self.wf());
            },
            None => {
                let mut ids: Vec<usize> = Vec::new();
                ids.push(id);
                self.indexes.push(Posting { term: key, ids });
                self.model = Ghost(self.model@.insert(key@, seq![id]));
                assert(seq![id] =~= Seq::<usize>::empty().push(id));
                let ghost last = entries0.len() as int;
                assert forall|j: int| 0 <= j < last implies #[trigger] self.indexes@[j] == entries0[j] by {}
                assert forall|t: Seq<char>| #[trigger]
                    self.model@.contains_key(t) implies exists|j: int|
                    0 <= j < self.indexes@.len() && #[trigger] self.indexes@[j].term@ == t by {
                    if t != key@ {
                        let j = choose|j: int| 0 <= j < entries0.len() && #[trigger] entries0[j].term@ == t;
                        assert(self.indexes@[j].term@ == t);
                    } else {
                        assert(self.indexes@[last].term@ == t);
                    }
                }
                assert forall|j: int| 0 <= j < last implies #[trigger] self.indexes@[j].term@ != key@ by {
                    assert(model0.contains_key(entries0[j].term@));
                }
                assert(self.wf());
            },
        }
    }

    /// Adds a document: each token of its lowercase form gets `id` appended
    /// to its postings, and `content` is stored as the text of `id`,
    /// replacing any text stored before under that id.
    pub fn add(&mut self, id: usize, content: &str)
        requires
            old(self).wf(),
        ensures
            final(self).wf(),
            final(self).postings() == posted(old(self).postings(), tokens(lower_of(content@)), id),
            final(self).docs() == old(self).docs().insert(id, content@),
    {
        let content_lowercase = lowercase(content);
        let words = tokenize(content_lowercase.as_str());
        let ghost toks = words@.map_values(|t: &str| t@);
        let ghost p0 = self.model@;
        let ghost d0 = self.docs();
        let ghost docs0 = self.documents@;
        let ghost entries0 = self.indexes@;
        self.documents.insert(id, Document { id, content: content.to_owned() });
        assert forall|k: usize| #[trigger] self.documents@.contains_key(k) implies self.documents@[k].id
            == k by {
            if k != id {
                assert(docs0.contains_key(k));
            }
        }
        assert(self.docs() =~= d0.insert(id, content@));
        assert forall|t: Seq<char>, j: int|
            self.model@.contains_key(t) && 0 <= j < self.model@[t].len()
                implies self.documents@.contains_key(#[trigger] self.model@[t][j]) by {
            assert(docs0.contains_key(self.model@[t][j]));
        }
        assert forall|t: Seq<char>| #[trigger] self.model@.contains_key(t) implies exists|i: int|
            0 <= i < self.indexes@.len() && #[trigger] self.indexes@[i].term@ == t by {
            let i = choose|i: int| 0 <= i < entries0.len() && #[trigger] entries0[i].term@ == t;
            assert(self.indexes@[i].term@ == t);
        }
        assert(self.wf());
        let mut k: usize = 0;
        assert(toks.subrange(0, 0) =~= seq![]);
        assert(posted(p0, seq![], id) =~= p0);
        while k < words.len()
            invariant
                self.wf(),
                toks == words@.map_values(|t: &str| t@),
                toks == tokens(lower_of(content@)),
                k <= words.len(),
                self.documents@.contains_key(id),
                self.docs() == d0.insert(id, content@),
                self.model@ == posted(p0, toks.subrange(0, k as int), id),
            decreases words.len() - k,
        {
            self.append_id(words[k], id);
            proof {
                assert(toks.subrange(0, k + 1) =~= toks.subrange(0, k as int).push(toks[k as int]));
                lemma_posted_push(p0, toks.subrange(0, k as int), toks[k as int], id);
            }
            k = k + 1;
        }
        assert(toks.subrange(0, k as int) =~= toks);
    }
    /// The documents that hold the lowercase form of `term`, in the order of
    /// its postings, each with every case-insensitive occurrence of the term
    /// highlighted. A term that was never indexed gives no documents.
    pub fn query(&self, term: &str) -> (r: Vec<String>)
        requires
            self.wf(),
        ensures
            r@.map_values(|s: String| s@) == self.query_result(term@),
            !self.postings().contains_key(lower_of(term@)) ==> r@.len() == 0,
    {
        let term_lowercase = lowercase(term);
        let ghost key = term_lowercase@;
        match self.find(&term_lowercase) {
            None => {
                let r: Vec<String> = Vec::new();
                assert(r@.map_values(|s: String| s@) =~= self.query_result(term@));
                r
            },
            Some(i) => {
                let doc_ids = &self.indexes[i].ids;
                let ghost ids = doc_ids@;
                assert(ids == ids_for(self.postings(), key));
                let mut out: Vec<String> = Vec::new();
                let mut k: usize = 0;
                while k < doc_ids.len()
                    invariant
                        self.wf(),
                        ids == doc_ids@,
                        ids == ids_for(self.postings(), key),
                        self.postings().contains_key(key),
                        key == lower_of(term@),
                        key == term_lowercase@,
                        k <= ids.len(),
                        out@.map_values(|s: String| s@) == ids.subrange(0, k as int).map_values(
                            |id: usize| highlighted(key, self.docs()[id]),
                        ),
                    decreases ids.len() - k,
                {
                    let ghost before = out@.map_values(|s: String| s@);
                    assert(self.documents@.contains_key(self.model@[key][k as int]));
                    match self.documents.get(&doc_ids[k]) {
                        Some(doc) => {
                            assert(self.docs()[ids[k as int]] == doc.content@);
                            out.push(highlight(term_lowercase.as_str(), doc.content.as_str()));
                            assert(out@.map_values(|s: String| s@) =~= before.push(
                                highlighted(key, self.docs()[ids[k as int]]),
                            ));
                        },
                        None => {
                            assert(false);
                        },
                    }
                    assert(ids.subrange(0, k + 1) =~= ids.subrange(0, k as int).push(ids[k as int]));
                    assert(out@.map_values(|s: String| s@) =~= ids.subrange(0, k + 1).map_values(
                        |id: usize| highlighted(key, self.docs()[id]),
                    ));
                    k = k + 1;
                }
                assert(ids.subrange(0, k as int) =~= ids);
                out
            },
        }
    }
}

} // verus!
