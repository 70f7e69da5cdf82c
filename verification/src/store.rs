//! The document store: the current full text of every open document.
//!
//! A document identity is an opaque key (the text of its resource
//! locator); the store maps each identity to the document's current full
//! text.  A new full-text notification replaces the record in place; no
//! history is kept, and nothing is ever removed (a close notification is
//! deliberately a no-op for the store, so entries may outlive their
//! logical lifetime until the server exits).

use vstd::prelude::*;

verus! {

/// Some entry of `s` carries the identity `id`.
pub open spec fn has_doc(s: Seq<(String, String)>, id: Seq<char>) -> bool {
    exists|k: int| 0 <= k < s.len() && s[k].0@ == id
}

/// The text of the entry of `s` carrying the identity `id`.
pub open spec fn doc_text(s: Seq<(String, String)>, id: Seq<char>) -> Seq<char> {
    s[choose|k: int| 0 <= k < s.len() && s[k].0@ == id].1@
}

/// No two entries share a document identity.
pub open spec fn keys_distinct(s: Seq<(String, String)>) -> bool {
    forall|a: int, b: int| 0 <= a < b < s.len() ==> s[a].0@ != s[b].0@
}

/// With distinct identities, the entry at `j` settles both the presence
/// and the text of its identity.
proof fn lemma_doc_text_at(s: Seq<(String, String)>, j: int)
    requires
        keys_distinct(s),
        0 <= j < s.len(),
    ensures
        has_doc(s, s[j].0@),
        doc_text(s, s[j].0@) == s[j].1@,
{
    let id = s[j].0@;
    assert(has_doc(s, id));
    let c = choose|k: int| 0 <= k < s.len() && s[k].0@ == id;
    if c < j {
        assert(s[c].0@ != s[j].0@);
    } else if j < c {
        assert(s[j].0@ != s[c].0@);
    }
}

/// A process-lifetime mapping from document identity to current full
/// text, modelled as the map from identity characters to text characters.
pub struct DocumentStore {
    docs: Vec<(String, String)>,
}

impl View for DocumentStore {
    type V = Map<Seq<char>, Seq<char>>;

    closed spec fn view(&self) -> Map<Seq<char>, Seq<char>> {
        Map::new(
            |id: Seq<char>| has_doc(self.docs@, id),
            |id: Seq<char>| doc_text(self.docs@, id),
        )
    }
}

/// Index of the entry carrying `id`, if any.
fn find_index(docs: &Vec<(String, String)>, id: &String) -> (r: Option<usize>)
    ensures
        match r {
            Some(i) => i < docs@.len() && docs@[i as int].0@ == id@,
            None => !has_doc(docs@, id@),
        },
{
    let mut k: usize = 0;
    while k < docs.len()
        invariant
            k <= docs@.len(),
            forall|m: int| 0 <= m < k ==> docs@[m].0@ != id@,
        decreases docs@.len() - k,
    {
        if docs[k].0 == *id {
            return Some(k);
        }
        k = k + 1;
    }
    None
}

impl DocumentStore {
    /// The store's invariant: one record per open document identity.
    pub closed spec fn wf(&self) -> bool {
        keys_distinct(self.docs@)
    }

    /// An empty store: no document has been opened yet.
    pub fn new() -> (r: DocumentStore)
        ensures
            r.wf(),
            r@ == Map::<Seq<char>, Seq<char>>::empty(),
    {
        let r = DocumentStore { docs: Vec::new() };
        proof {
            assert(r@ =~= Map::<Seq<char>, Seq<char>>::empty());
        }
        r
    }

    /// Replaces (or creates) the record for `id` with `text`.  Always
    /// succeeds; the text is stored as given, without validation.  The
    /// previous text for `id`, if any, is discarded: last write wins.
    pub fn upsert(&mut self, id: String, text: String)
        requires
            old(self).wf(),
        ensures
            final(self).wf(),
            final(self)@ == old(self)@.insert(id@, text@),
    {
        let ghost s0 = self.docs@;
        let ghost idv = id@;
        let ghost tv = text@;
        match find_index(&self.docs, &id) {
            Some(i) => {
                self.docs[i] = (id, text);
                proof {
                    let s1 = self.docs@;
                    assert(s1 == s0.update(i as int, (s1[i as int].0, s1[i as int].1)));
                    assert forall|a: int, b: int| 0 <= a < b < s1.len() implies s1[a].0@
                        != s1[b].0@ by {
                        assert(s0[a].0@ != s0[b].0@);
                        assert(a != i ==> s1[a] == s0[a]);
                        assert(b != i ==> s1[b] == s0[b]);
                        assert(s1[i as int].0@ == s0[i as int].0@);
                    }
                    lemma_doc_text_at(s1, i as int);
                    assert forall|k: Seq<char>|
                        self@.contains_key(k) == old(self)@.insert(idv, tv).contains_key(k) by {
                        if k == idv {
                            assert(has_doc(s1, k));
                        } else {
                            if has_doc(s1, k) {
                                let j = choose|j: int| 0 <= j < s1.len() && s1[j].0@ == k;
                                assert(s0[j].0@ == k);
                            }
                            if has_doc(s0, k) {
                                let j = choose|j: int| 0 <= j < s0.len() && s0[j].0@ == k;
                                assert(s1[j].0@ == k);
                            }
                        }
                    }
                    assert forall|k: Seq<char>| #[trigger]
                        self@.contains_key(k) && k != idv implies self@[k] == old(self)@[k] by {
                        let j = choose|j: int| 0 <= j < s1.len() && s1[j].0@ == k;
                        assert(j != i);
                        assert(s1[j] == s0[j]);
                        lemma_doc_text_at(s1, j);
                        lemma_doc_text_at(s0, j);
                    }
                    assert(self@[idv] == tv);
                    assert(self@ =~= old(self)@.insert(idv, tv));
                }
            },
            None => {
                self.docs.push((id, text));
                proof {
                    let s1 = self.docs@;
                    assert(s1 == s0.push((s1.last().0, s1.last().1)));
                    assert forall|a: int, b: int| 0 <= a < b < s1.len() implies s1[a].0@
                        != s1[b].0@ by {
                        if b < s0.len() {
                            assert(s0[a].0@ != s0[b].0@);
                        } else {
                            assert(s1[b].0@ == idv);
                            assert(s1[a] == s0[a]);
                        }
                    }
                    lemma_doc_text_at(s1, s1.len() - 1);
                    assert forall|k: Seq<char>|
                        self@.contains_key(k) == old(self)@.insert(idv, tv).contains_key(k) by {
                        if k == idv {
                            assert(has_doc(s1, k));
                        } else {
                            if has_doc(s1, k) {
                                let j = choose|j: int| 0 <= j < s1.len() && s1[j].0@ == k;
                                assert(j < s0.len());
                                assert(s0[j].0@ == k);
                            }
                            if has_doc(s0, k) {
                                let j = choose|j: int| 0 <= j < s0.len() && s0[j].0@ == k;
                                assert(s1[j].0@ == k);
                            }
                        }
                    }
                    assert forall|k: Seq<char>| #[trigger]
                        self@.contains_key(k) && k != idv implies self@[k] == old(self)@[k] by {
                        let j = choose|j: int| 0 <= j < s1.len() && s1[j].0@ == k;
                        assert(j < s0.len());
                        assert(s1[j] == s0[j]);
                        lemma_doc_text_at(s1, j);
                        lemma_doc_text_at(s0, j);
                    }
                    assert(self@[idv] == tv);
                    assert(self@ =~= old(self)@.insert(idv, tv));
                }
            },
        }
    }

    /// The current text for `id`: `Some` exactly when the identity has
    /// been opened, and then the text most recently written for it —
    /// never a silent empty string for an unknown document.
    pub fn get(&self, id: &String) -> (r: Option<&String>)
        requires
            self.wf(),
        ensures
            match r {
                Some(text) => self@.contains_key(id@) && text@ == self@[id@],
                None => !self@.contains_key(id@),
            },
    {
        match find_index(&self.docs, id) {
            Some(i) => {
                proof {
                    lemma_doc_text_at(self.docs@, i as int);
                }
                Some(&self.docs[i].1)
            },
            None => None,
        }
    }
}

} // verus!
