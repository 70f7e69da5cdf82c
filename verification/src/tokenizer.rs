//! Extraction of identifier-like tokens from document text.
//!
//! A token is a maximal run of word characters (ASCII letters, digits,
//! underscore) that begins with an ASCII letter or underscore and is at
//! least two characters long.  Single-character identifiers are deliberately
//! excluded from suggestions.

use vstd::prelude::*;

verus! {

use vstd::string::*;

/// A character that may begin a token: an ASCII letter or an underscore.
pub open spec fn is_start_char(c: char) -> bool {
    ('A' <= c && c <= 'Z') || ('a' <= c && c <= 'z') || c == '_'
}

/// A character that may continue a token: an ASCII letter, an ASCII digit,
/// or an underscore.
pub open spec fn is_word_char(c: char) -> bool {
    is_start_char(c) || ('0' <= c && c <= '9')
}

/// End of the run of word characters that begins at position `i`:
/// the first position at or after `i` whose character is not a word
/// character (or the end of the text).
pub open spec fn run_end(s: Seq<char>, i: int) -> int
    decreases s.len() - i when 0 <= i <= s.len()
{
    if i >= s.len() || !is_word_char(s[i]) {
        i
    } else {
        run_end(s, i + 1)
    }
}

/// The set of tokens found by a left-to-right scan of `s` starting at
/// position `i`.  A scan position starts a token exactly when it holds a
/// start character followed immediately by at least one word character;
/// the token then extends to the end of the word-character run, and the
/// scan resumes after it.  A lone start character is skipped, as is any
/// non-start character.
pub open spec fn tokens_from(s: Seq<char>, i: int) -> Set<Seq<char>>
    decreases s.len() - i when 0 <= i <= s.len() via tokens_from_decreases
{
    if i >= s.len() {
        Set::empty()
    } else if is_start_char(s[i]) && i + 1 < s.len() && is_word_char(s[i + 1]) {
        tokens_from(s, run_end(s, i)).insert(s.subrange(i, run_end(s, i)))
    } else {
        tokens_from(s, i + 1)
    }
}

#[via_fn]
proof fn tokens_from_decreases(s: Seq<char>, i: int) {
    if i < s.len() && is_start_char(s[i]) && i + 1 < s.len() && is_word_char(s[i + 1]) {
        lemma_run_end(s, i + 1);
    }
}

/// The set of distinct identifier-like tokens of a text.
pub open spec fn tokens_of(s: Seq<char>) -> Set<Seq<char>> {
    tokens_from(s, 0)
}

/// The run of word characters starting at `i` covers exactly the
/// positions up to `run_end(s, i)`.
pub proof fn lemma_run_end(s: Seq<char>, i: int)
    requires
        0 <= i <= s.len(),
    ensures
        i <= run_end(s, i) <= s.len(),
        forall|k: int| i <= k < run_end(s, i) ==> is_word_char(s[k]),
        run_end(s, i) < s.len() ==> !is_word_char(s[run_end(s, i)]),
    decreases s.len() - i,
{
    if i < s.len() && is_word_char(s[i]) {
        lemma_run_end(s, i + 1);
    }
}

/// The shape every extracted token has: at least two characters, a start
/// character first, and word characters throughout.
pub open spec fn is_token_shape(t: Seq<char>) -> bool {
    &&& t.len() >= 2
    &&& is_start_char(t[0])
    &&& forall|k: int| 0 <= k < t.len() ==> is_word_char(t[k])
}

proof fn lemma_tokens_from_shape(s: Seq<char>, i: int, t: Seq<char>)
    requires
        0 <= i <= s.len(),
        tokens_from(s, i).contains(t),
    ensures
        is_token_shape(t),
    decreases s.len() - i,
{
    if i < s.len() {
        if is_start_char(s[i]) && i + 1 < s.len() && is_word_char(s[i + 1]) {
            let e = run_end(s, i);
            lemma_run_end(s, i);
            lemma_run_end(s, i + 2);
            if t == s.subrange(i, e) {
                assert(e == run_end(s, i + 2));
                assert(is_token_shape(t)) by {
                    assert(t[0] == s[i]);
                    assert(forall|k: int| 0 <= k < t.len() ==> t[k] == s[i + k]);
                }
            } else {
                lemma_tokens_from_shape(s, e, t);
            }
        } else {
            lemma_tokens_from_shape(s, i + 1, t);
        }
    }
}

/// Every token extracted from any text has length at least two, begins
/// with an ASCII letter or underscore, and consists only of ASCII
/// letters, digits and underscores.
pub proof fn lemma_token_shape(s: Seq<char>, t: Seq<char>)
    requires
        tokens_of(s).contains(t),
    ensures
        is_token_shape(t),
{
    lemma_tokens_from_shape(s, 0, t);
}

proof fn lemma_tokens_from_no_start(s: Seq<char>, i: int)
    requires
        0 <= i <= s.len(),
        forall|k: int| 0 <= k < s.len() ==> !is_start_char(s[k]),
    ensures
        tokens_from(s, i) == Set::<Seq<char>>::empty(),
    decreases s.len() - i,
{
    if i < s.len() {
        lemma_tokens_from_no_start(s, i + 1);
    }
}

/// A text with no start character anywhere — in particular the empty
/// text, or one of only punctuation, whitespace or digits — has no
/// tokens at all.
pub proof fn lemma_tokens_of_no_start_empty(s: Seq<char>)
    requires
        forall|k: int| 0 <= k < s.len() ==> !is_start_char(s[k]),
    ensures
        tokens_of(s) == Set::<Seq<char>>::empty(),
{
    lemma_tokens_from_no_start(s, 0);
}

/// The tokens joined into one text with a single space between
/// consecutive tokens.
pub open spec fn space_join(ts: Seq<Seq<char>>) -> Seq<char>
    decreases ts.len(),
{
    if ts.len() == 0 {
        Seq::empty()
    } else if ts.len() == 1 {
        ts[0]
    } else {
        ts[0] + seq![' '] + space_join(ts.drop_first())
    }
}

/// The set of distinct character sequences occurring in `ts`.
pub open spec fn token_set_of(ts: Seq<Seq<char>>) -> Set<Seq<char>> {
    Set::new(|t: Seq<char>| exists|k: int| 0 <= k < ts.len() && ts[k] == t)
}

/// `run_end` is pinned down by the characters alone: if everything from
/// `i` up to `j` is a word character and `j` is a boundary, the run ends
/// at `j`.
proof fn lemma_run_end_is(s: Seq<char>, i: int, j: int)
    requires
        0 <= i <= j <= s.len(),
        forall|k: int| i <= k < j ==> is_word_char(s[k]),
        j == s.len() || !is_word_char(s[j]),
    ensures
        run_end(s, i) == j,
    decreases j - i,
{
    if i < j {
        lemma_run_end_is(s, i + 1, j);
    }
}

proof fn lemma_tokens_from_join(s: Seq<char>, p: int, ts: Seq<Seq<char>>)
    requires
        0 <= p <= s.len(),
        s.subrange(p, s.len() as int) == space_join(ts),
        forall|k: int| 0 <= k < ts.len() ==> is_token_shape(#[trigger] ts[k]),
    ensures
        tokens_from(s, p) == token_set_of(ts),
    decreases ts.len(),
{
    let suf = s.subrange(p, s.len() as int);
    if ts.len() == 0 {
        assert(p == s.len());
        assert forall|t: Seq<char>| !token_set_of(ts).contains(t) by {}
        assert(tokens_from(s, p) =~= token_set_of(ts));
    } else {
        let t0 = ts[0];
        assert(is_token_shape(t0));
        let e = p + t0.len();
        assert(forall|k: int| 0 <= k < suf.len() ==> suf[k] == s[p + k]);
        if ts.len() == 1 {
            assert(suf == t0);
            assert(e == s.len());
            assert forall|k: int| p <= k < e implies is_word_char(s[k]) by {
                assert(s[k] == t0[k - p]);
            }
            lemma_run_end_is(s, p, e);
            assert(s[p] == t0[0] && s[p + 1] == t0[1]);
            assert(tokens_from(s, p) == tokens_from(s, e).insert(s.subrange(p, e)));
            assert(s.subrange(p, e) =~= t0);
            assert forall|t: Seq<char>| token_set_of(ts).contains(t) implies t == t0 by {
                let k = choose|k: int| 0 <= k < ts.len() && ts[k] == t;
                assert(k == 0);
            }
            assert(token_set_of(ts).contains(t0));
            assert(tokens_from(s, p) =~= token_set_of(ts));
        } else {
            let rest = space_join(ts.drop_first());
            assert(suf == t0 + seq![' '] + rest);
            assert(suf.len() == t0.len() + 1 + rest.len());
            assert forall|k: int| 0 <= k < t0.len() implies suf[k] == t0[k] by {}
            assert(suf[t0.len() as int] == ' ');
            assert forall|m: int| 0 <= m < rest.len() implies suf[t0.len() + 1 + m] == rest[m] by {}
            assert forall|k: int| p <= k < e implies is_word_char(s[k]) by {
                assert(s[k] == suf[k - p]);
                assert(suf[k - p] == t0[k - p]);
            }
            assert(e < s.len());
            assert(s[e] == ' ');
            assert(!is_word_char(' ')) by {}
            lemma_run_end_is(s, p, e);
            assert(s[p] == t0[0] && s[p + 1] == t0[1]);
            assert(tokens_from(s, p) == tokens_from(s, e).insert(s.subrange(p, e)));
            assert(s.subrange(p, e) =~= t0);
            assert(tokens_from(s, e) == tokens_from(s, e + 1));
            assert(s.subrange(e + 1, s.len() as int) =~= rest) by {
                assert forall|m: int| 0 <= m < s.len() - e - 1 implies s.subrange(
                    e + 1,
                    s.len() as int,
                )[m] == rest[m] by {
                    assert(s.subrange(e + 1, s.len() as int)[m] == s[e + 1 + m]);
                    assert(s[e + 1 + m] == suf[t0.len() + 1 + m]);
                }
            }
            assert forall|k: int| 0 <= k < ts.drop_first().len() implies is_token_shape(
                #[trigger] ts.drop_first()[k],
            ) by {
                assert(ts.drop_first()[k] == ts[k + 1]);
            }
            lemma_tokens_from_join(s, e + 1, ts.drop_first());
            assert forall|t: Seq<char>| token_set_of(ts).contains(t) implies token_set_of(
                ts.drop_first(),
            ).insert(t0).contains(t) by {
                let k = choose|k: int| 0 <= k < ts.len() && ts[k] == t;
                if k > 0 {
                    assert(ts.drop_first()[k - 1] == t);
                }
            }
            assert forall|t: Seq<char>| token_set_of(ts.drop_first()).insert(t0).contains(
                t,
            ) implies token_set_of(ts).contains(t) by {
                if t == t0 {
                    assert(ts[0] == t);
                } else {
                    let k = choose|k: int| 0 <= k < ts.drop_first().len() && ts.drop_first()[k]
                        == t;
                    assert(ts[k + 1] == t);
                }
            }
            assert(token_set_of(ts) =~= token_set_of(ts.drop_first()).insert(t0));
            assert(tokens_from(s, p) =~= token_set_of(ts));
        }
    }
}

/// Tokenization is idempotent on its own output: joining any collection
/// of token-shaped strings with single spaces and tokenizing the result
/// yields exactly that collection of strings, as a set.  By
/// [`lemma_token_shape`], everything [`tokenize`] emits is token-shaped,
/// so re-tokenizing a space-joined extraction recovers the same token set.
pub proof fn lemma_tokenize_idempotent(ts: Seq<Seq<char>>)
    requires
        forall|k: int| 0 <= k < ts.len() ==> is_token_shape(#[trigger] ts[k]),
    ensures
        tokens_of(space_join(ts)) == token_set_of(ts),
{
    let s = space_join(ts);
    assert(s.subrange(0, s.len() as int) =~= s);
    lemma_tokens_from_join(s, 0, ts);
}

/// The set of views of the strings in a sequence: the labels a token
/// vector carries, regardless of order.
pub open spec fn label_set(v: Seq<String>) -> Set<Seq<char>> {
    Set::new(|t: Seq<char>| exists|k: int| 0 <= k < v.len() && v[k]@ == t)
}

/// Pushing a string onto a vector adds exactly its view to the label set.
proof fn lemma_label_set_push(v: Seq<String>, x: String)
    ensures
        label_set(v.push(x)) == label_set(v).insert(x@),
{
    let w = v.push(x);
    assert forall|t: Seq<char>| label_set(w).contains(t) implies label_set(v).insert(
        x@,
    ).contains(t) by {
        let k = choose|k: int| 0 <= k < w.len() && w[k]@ == t;
        if k < v.len() {
            assert(v[k]@ == t);
        } else {
            assert(t == x@);
        }
    }
    assert forall|t: Seq<char>| label_set(v).insert(x@).contains(t) implies label_set(
        w,
    ).contains(t) by {
        if label_set(v).contains(t) {
            let k = choose|k: int| 0 <= k < v.len() && v[k]@ == t;
            assert(w[k]@ == t);
        } else {
            assert(w[v.len() as int]@ == t);
        }
    }
    assert(label_set(w) =~= label_set(v).insert(x@));
}

/// Whether some string in `v` has the same characters as `t`.
fn contains_label(v: &Vec<String>, t: &String) -> (r: bool)
    ensures
        r == label_set(v@).contains(t@),
{
    let mut k: usize = 0;
    while k < v.len()
        invariant
            k <= v@.len(),
            forall|m: int| 0 <= m < k ==> v@[m]@ != t@,
        decreases v@.len() - k,
    {
        if v[k] == *t {
            assert(label_set(v@).contains(t@));
            return true;
        }
        k = k + 1;
    }
    false
}

/// Executable search for the end of the word-character run at `i`.
fn find_run_end(text: &str, i: usize, n: usize) -> (j: usize)
    requires
        n == text@.len(),
        i <= n,
    ensures
        i <= j <= n,
        j == run_end(text@, i as int),
{
    let mut j: usize = i;
    while j < n && word_char(text.get_char(j))
        invariant
            n == text@.len(),
            i <= j <= n,
            run_end(text@, i as int) == run_end(text@, j as int),
        decreases n - j,
    {
        j = j + 1;
    }
    j
}

/// Extracts the distinct identifier-like tokens of `text`, in first-seen
/// order and without duplicates.  The set of returned labels is exactly
/// [`tokens_of`] the text.
pub fn tokenize(text: &str) -> (r: Vec<String>)
    ensures
        label_set(r@) == tokens_of(text@),
        forall|a: int, b: int| 0 <= a < b < r@.len() ==> r@[a]@ != r@[b]@,
        forall|k: int| 0 <= k < r@.len() ==> is_token_shape(#[trigger] r@[k]@),
{
    let n = text.unicode_len();
    let mut r: Vec<String> = Vec::new();
    let mut i: usize = 0;
    while i < n
        invariant
            n == text@.len(),
            i <= n,
            tokens_of(text@) == label_set(r@).union(tokens_from(text@, i as int)),
            forall|a: int, b: int| 0 <= a < b < r@.len() ==> r@[a]@ != r@[b]@,
        decreases n - i,
    {
        let ghost s = text@;
        let c = text.get_char(i);
        if start_char(c) && i + 1 < n && word_char(text.get_char(i + 1)) {
            let j = find_run_end(text, i, n);
            proof {
                lemma_run_end(s, i as int);
            }
            let tok = text.substring_char(i, j).to_owned();
            let ghost old_r = r@;
            if !contains_label(&r, &tok) {
                r.push(tok);
                proof {
                    lemma_label_set_push(old_r, r@.last());
                }
            }
            proof {
                assert(tokens_from(s, i as int) == tokens_from(s, j as int).insert(
                    s.subrange(i as int, j as int),
                ));
                assert(tokens_of(s) =~= label_set(r@).union(tokens_from(s, j as int)));
            }
            i = j;
        } else {
            i = i + 1;
        }
    }
    proof {
        assert(tokens_from(text@, n as int) =~= Set::<Seq<char>>::empty());
        assert(label_set(r@) =~= tokens_of(text@));
        assert forall|k: int| 0 <= k < r@.len() implies is_token_shape(#[trigger] r@[k]@) by {
            assert(label_set(r@).contains(r@[k]@));
            lemma_token_shape(text@, r@[k]@);
        }
    }
    r
}

/// Executable test for [`is_start_char`].
pub fn start_char(c: char) -> (r: bool)
    ensures
        r == is_start_char(c),
{
    ('A' <= c && c <= 'Z') || ('a' <= c && c <= 'z') || c == '_'
}

/// Executable test for [`is_word_char`].
pub fn word_char(c: char) -> (r: bool)
    ensures
        r == is_word_char(c),
{
    start_char(c) || ('0' <= c && c <= '9')
}

} // verus!
