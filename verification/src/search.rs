//! Locating a byte pattern inside a text.

use vstd::prelude::*;

verus! {

/// `pattern` lies in `text` starting at index `at`.
pub open spec fn occurs_at(text: Seq<u8>, pattern: Seq<u8>, at: int) -> bool {
    &&& 0 <= at
    &&& at + pattern.len() <= text.len()
    &&& text.subrange(at, at + pattern.len()) == pattern
}

/// `pattern` lies in `text` at `at`, and nowhere in `from..at`.
pub open spec fn is_first_occurrence(text: Seq<u8>, pattern: Seq<u8>, from: int, at: int) -> bool {
    &&& from <= at
    &&& occurs_at(text, pattern, at)
    &&& forall|k: int| from <= k < at ==> !occurs_at(text, pattern, k)
}

/// The least index at or after `from` where `pattern` lies in `text`, if there is one.
pub open spec fn first_occurrence(text: Seq<u8>, pattern: Seq<u8>, from: int) -> Option<int> {
    if exists|at: int| is_first_occurrence(text, pattern, from, at) {
        Some(choose|at: int| is_first_occurrence(text, pattern, from, at))
    } else {
        None
    }
}

/// `pattern` lies somewhere in `text`.
pub open spec fn contains(text: Seq<u8>, pattern: Seq<u8>) -> bool {
    exists|at: int| occurs_at(text, pattern, at)
}

/// A first occurrence is the only one: `first_occurrence` names it.
pub proof fn lemma_first_occurrence_is(text: Seq<u8>, pattern: Seq<u8>, from: int, at: int)
    requires
        is_first_occurrence(text, pattern, from, at),
    ensures
        first_occurrence(text, pattern, from) == Some(at),
{
    let chosen = choose|k: int| is_first_occurrence(text, pattern, from, k);
    assert(is_first_occurrence(text, pattern, from, chosen));
    if chosen < at {
        assert(!occurs_at(text, pattern, chosen));
    } else if at < chosen {
        assert(!occurs_at(text, pattern, at));
    }
}

/// Any occurrence at or after `from` has a first one at or before it.
pub proof fn lemma_first_occurrence_exists(text: Seq<u8>, pattern: Seq<u8>, from: int, at: int)
    requires
        from <= at,
        occurs_at(text, pattern, at),
    ensures
        first_occurrence(text, pattern, from) is Some,
        from <= first_occurrence(text, pattern, from)->0 <= at,
        is_first_occurrence(text, pattern, from, first_occurrence(text, pattern, from)->0),
    decreases at - from,
{
    if exists|k: int| from <= k < at && occurs_at(text, pattern, k) {
        let k = choose|k: int| from <= k < at && occurs_at(text, pattern, k);
        lemma_first_occurrence_exists(text, pattern, from, k);
    } else {
        assert(is_first_occurrence(text, pattern, from, at));
        lemma_first_occurrence_is(text, pattern, from, at);
    }
}

/// `first_occurrence` is `None` exactly when `pattern` does not occur at or after `from`.
pub proof fn lemma_first_occurrence_none(text: Seq<u8>, pattern: Seq<u8>, from: int)
    ensures
        first_occurrence(text, pattern, from) is None <==> forall|k: int|
            from <= k ==> !occurs_at(text, pattern, k),
{
    if first_occurrence(text, pattern, from) is None {
        assert forall|k: int| from <= k implies !occurs_at(text, pattern, k) by {
            if occurs_at(text, pattern, k) {
                lemma_first_occurrence_exists(text, pattern, from, k);
            }
        }
    } else {
        let at = first_occurrence(text, pattern, from)->0;
        assert(is_first_occurrence(text, pattern, from, at));
    }
}

/// Whether `pattern` lies in `text` at index `at`.
pub fn matches_at(text: &[u8], pattern: &[u8], at: usize) -> (found: bool)
    ensures
        found == occurs_at(text@, pattern@, at as int),
{
    let n: usize = pattern.len();
    if n > text.len() || at > text.len() - n {
        return false;
    }
    let mut i: usize = 0;
    while i < n
        invariant
            n == pattern.len(),
            at + n <= text.len(),
            i <= n,
            forall|k: int| 0 <= k < i ==> text@[at + k] == pattern@[k],
        decreases n - i,
    {
        if text[at + i] != pattern[i] {
            proof {
                let window = text@.subrange(at as int, at + n);
                assert(window[i as int] == text@[at + i]);
            }
            return false;
        }
        i += 1;
    }
    assert(text@.subrange(at as int, at + n) =~= pattern@);
    true
}

/// The first index at or after `from` where `pattern` lies in `text`.
pub fn find_from(text: &[u8], pattern: &[u8], from: usize) -> (found: Option<usize>)
    ensures
        match found {
            Some(at) => first_occurrence(text@, pattern@, from as int) == Some(at as int),
            None => first_occurrence(text@, pattern@, from as int) is None,
        },
{
    let n: usize = pattern.len();
    if n > text.len() || from > text.len() - n {
        proof {
            lemma_first_occurrence_none(text@, pattern@, from as int);
        }
        return None;
    }
    let last: usize = text.len() - n;
    let mut at: usize = from;
    while at < last
        invariant
            n == pattern.len(),
            last + n == text.len(),
            from <= at <= last,
            forall|k: int| from <= k < at ==> !occurs_at(text@, pattern@, k),
        decreases last - at,
    {
        if matches_at(text, pattern, at) {
            proof {
                lemma_first_occurrence_is(text@, pattern@, from as int, at as int);
            }
            return Some(at);
        }
        at += 1;
    }
    if matches_at(text, pattern, at) {
        proof {
            lemma_first_occurrence_is(text@, pattern@, from as int, at as int);
        }
        Some(at)
    } else {
        proof {
            lemma_first_occurrence_none(text@, pattern@, from as int);
        }
        None
    }
}

} // verus!
