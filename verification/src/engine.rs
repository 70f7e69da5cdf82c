//! The completion engine: candidate labels for a completion request.

use vstd::prelude::*;

use crate::store::DocumentStore;
use crate::tokenizer::{label_set, tokenize, tokens_of};

verus! {

/// A suggested insertable label returned to the editor.  Candidates carry
/// no metadata beyond the token text itself.
pub struct CompletionCandidate {
    pub label: String,
}

/// The set of labels carried by a candidate vector, regardless of order.
pub open spec fn candidate_label_set(v: Seq<CompletionCandidate>) -> Set<Seq<char>> {
    Set::new(|t: Seq<char>| exists|k: int| 0 <= k < v.len() && v[k].label@ == t)
}

/// The candidate label set owed for a completion request: every token of
/// the document's current text, or nothing at all when the identity was
/// never opened.
pub open spec fn complete_spec(m: Map<Seq<char>, Seq<char>>, id: Seq<char>) -> Set<Seq<char>> {
    if m.contains_key(id) {
        tokens_of(m[id])
    } else {
        Set::<Seq<char>>::empty()
    }
}

/// A completion request for a never-opened identity yields the empty
/// candidate set — graceful degradation, not an error.
pub proof fn lemma_complete_unknown_empty(m: Map<Seq<char>, Seq<char>>, id: Seq<char>)
    requires
        !m.contains_key(id),
    ensures
        complete_spec(m, id) == Set::<Seq<char>>::empty(),
{
}

/// Writing a record and then reading the same identity yields exactly the
/// text last written, whatever the store held before: the model behind
/// `DocumentStore::upsert` followed by `DocumentStore::get`.
pub proof fn lemma_last_write_wins(
    m: Map<Seq<char>, Seq<char>>,
    id: Seq<char>,
    text: Seq<char>,
)
    ensures
        m.insert(id, text).contains_key(id),
        m.insert(id, text)[id] == text,
{
}

/// The completion candidates for the document `id` given the current
/// store: one candidate per distinct token of the document's text, and an
/// empty list when the document was never opened.
pub fn complete(id: &String, store: &DocumentStore) -> (r: Vec<CompletionCandidate>)
    requires
        store.wf(),
    ensures
        candidate_label_set(r@) == complete_spec(store@, id@),
        forall|a: int, b: int| 0 <= a < b < r@.len() ==> r@[a].label@ != r@[b].label@,
        !store@.contains_key(id@) ==> r@.len() == 0,
{
    match store.get(id) {
        Some(text) => {
            let words = tokenize(text.as_str());
            let mut r: Vec<CompletionCandidate> = Vec::new();
            let mut k: usize = 0;
            while k < words.len()
                invariant
                    k <= words@.len(),
                    r@.len() == k,
                    forall|m: int| 0 <= m < k ==> r@[m].label == words@[m],
                    forall|a: int, b: int| 0 <= a < b < words@.len() ==> words@[a]@ != words@[b]@,
                decreases words@.len() - k,
            {
                r.push(CompletionCandidate { label: words[k].clone() });
                k = k + 1;
            }
            proof {
                assert forall|a: int, b: int| 0 <= a < b < r@.len() implies r@[a].label@
                    != r@[b].label@ by {
                    assert(r@[a].label == words@[a]);
                    assert(r@[b].label == words@[b]);
                    assert(words@[a]@ != words@[b]@);
                }
                assert forall|t: Seq<char>|
                    candidate_label_set(r@).contains(t) == label_set(words@).contains(t) by {
                    if candidate_label_set(r@).contains(t) {
                        let j = choose|j: int| 0 <= j < r@.len() && r@[j].label@ == t;
                        assert(words@[j]@ == t);
                    }
                    if label_set(words@).contains(t) {
                        let j = choose|j: int| 0 <= j < words@.len() && words@[j]@ == t;
                        assert(r@[j].label@ == t);
                    }
                }
                assert(candidate_label_set(r@) =~= complete_spec(store@, id@));
            }
            r
        },
        None => {
            let r: Vec<CompletionCandidate> = Vec::new();
            proof {
                assert(candidate_label_set(r@) =~= complete_spec(store@, id@));
            }
            r
        },
    }
}

} // verus!
