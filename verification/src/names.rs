//! File names as bytes: their order and their extensions.

use vstd::prelude::*;

verus! {

/// The byte `.`, which separates a file name from its extension.
pub const DOT: u8 = 0x2e;

/// `a` and `b` are the same on their first `upto` bytes.
pub open spec fn agree_upto(a: Seq<u8>, b: Seq<u8>, upto: int) -> bool {
    &&& 0 <= upto <= a.len()
    &&& upto <= b.len()
    &&& forall|i: int| 0 <= i < upto ==> a[i] == b[i]
}

/// `a` and `b` agree before index `at`, and there `a` ends or has the smaller byte.
pub open spec fn precedes_at(a: Seq<u8>, b: Seq<u8>, at: int) -> bool {
    &&& agree_upto(a, b, at)
    &&& (at == a.len() || (at < b.len() && a[at] < b[at]))
}

/// `a` comes before `b`, or equals it, in byte-wise dictionary order: `a` is a
/// prefix of `b`, or `a` has the smaller byte where the two first differ.
pub open spec fn name_le(a: Seq<u8>, b: Seq<u8>) -> bool {
    exists|at: int| precedes_at(a, b, at)
}

/// Every name comes before, or equals, each name after it.
pub open spec fn is_sorted(names: Seq<Seq<u8>>) -> bool {
    forall|i: int, j: int| 0 <= i < j < names.len() ==> name_le(names[i], names[j])
}

/// Of two names, one comes before the other or equals it.
pub proof fn lemma_name_le_total(a: Seq<u8>, b: Seq<u8>)
    ensures
        name_le(a, b) || name_le(b, a),
{
    lemma_total_from(a, b, 0);
}

proof fn lemma_total_from(a: Seq<u8>, b: Seq<u8>, upto: int)
    requires
        agree_upto(a, b, upto),
    ensures
        name_le(a, b) || name_le(b, a),
    decreases a.len() - upto,
{
    if upto == a.len() {
        assert(precedes_at(a, b, upto));
    } else if upto == b.len() {
        assert(precedes_at(b, a, upto));
    } else if a[upto] < b[upto] {
        assert(precedes_at(a, b, upto));
    } else if b[upto] < a[upto] {
        assert(precedes_at(b, a, upto));
    } else {
        lemma_total_from(a, b, upto + 1);
    }
}

/// The order is transitive.
pub proof fn lemma_name_le_transitive(a: Seq<u8>, b: Seq<u8>, c: Seq<u8>)
    requires
        name_le(a, b),
        name_le(b, c),
    ensures
        name_le(a, c),
{
    let first = choose|at: int| precedes_at(a, b, at);
    let second = choose|at: int| precedes_at(b, c, at);
    if first <= second {
        assert(precedes_at(a, c, first));
    } else {
        assert(precedes_at(a, c, second));
    }
}

/// Two names that each come before the other are equal.
pub proof fn lemma_name_le_antisymmetric(a: Seq<u8>, b: Seq<u8>)
    requires
        name_le(a, b),
        name_le(b, a),
    ensures
        a == b,
{
    let first = choose|at: int| precedes_at(a, b, at);
    let second = choose|at: int| precedes_at(b, a, at);
    if first < second {
        assert(b[first] == a[first]);
    } else if second < first {
        assert(a[second] == b[second]);
    }
    assert(a =~= b);
}

/// Every name comes before or equals itself.
pub proof fn lemma_name_le_reflexive(a: Seq<u8>)
    ensures
        name_le(a, a),
{
    assert(precedes_at(a, a, a.len() as int));
}

/// Whether `a` comes before `b`, or equals it, in byte-wise dictionary order.
pub fn precedes(a: &[u8], b: &[u8]) -> (le: bool)
    ensures
        le == name_le(a@, b@),
{
    let mut i: usize = 0;
    while i < a.len() && i < b.len()
        invariant
            agree_upto(a@, b@, i as int),
        decreases a.len() - i,
    {
        if a[i] != b[i] {
            proof {
                if a[i as int] < b[i as int] {
                    assert(precedes_at(a@, b@, i as int));
                } else {
                    assert forall|at: int| !precedes_at(a@, b@, at) by {
                        if precedes_at(a@, b@, at) && at > i {
                            assert(a@[i as int] == b@[i as int]);
                        }
                    }
                }
            }
            return a[i] < b[i];
        }
        i += 1;
    }
    proof {
        if i == a.len() {
            assert(precedes_at(a@, b@, i as int));
        } else {
            assert forall|at: int| !precedes_at(a@, b@, at) by {}
        }
    }
    i == a.len()
}

/// `name` is longer than `.` and `extension`, and ends with the two:
/// the extension of a name is what follows its last `.`, and a name that only
/// begins with a `.` has none.
pub open spec fn has_extension(name: Seq<u8>, extension: Seq<u8>) -> bool {
    &&& name.len() > extension.len() + 1
    &&& name[name.len() - extension.len() - 1] == DOT
    &&& name.subrange(name.len() - extension.len(), name.len() as int) == extension
}

/// `name` has no extension at all: no `.` after its first byte, or it is `..`.
pub open spec fn lacks_extension(name: Seq<u8>) -> bool {
    ||| name == seq![DOT, DOT]
    ||| forall|i: int| 0 < i < name.len() ==> name[i] != DOT
}

/// Whether the extension of `name` is `extension`.
pub fn ends_with_extension(name: &[u8], extension: &[u8]) -> (has: bool)
    ensures
        has == has_extension(name@, extension@),
{
    let n: usize = name.len();
    let e: usize = extension.len();
    if n <= e || n - e <= 1 {
        return false;
    }
    let start: usize = n - e;
    if name[start - 1] != DOT {
        return false;
    }
    let mut i: usize = 0;
    while i < e
        invariant
            n == name.len(),
            e == extension.len(),
            start + e == n,
            i <= e,
            forall|k: int| 0 <= k < i ==> name@[start + k] == extension@[k],
        decreases e - i,
    {
        if name[start + i] != extension[i] {
            proof {
                let tail = name@.subrange(start as int, n as int);
                assert(tail[i as int] == name@[start + i]);
            }
            return false;
        }
        i += 1;
    }
    assert(name@.subrange(start as int, n as int) =~= extension@);
    true
}

/// Whether `name` has no extension at all.
pub fn is_without_extension(name: &[u8]) -> (lacks: bool)
    ensures
        lacks == lacks_extension(name@),
{
    let n: usize = name.len();
    if n == 2 && name[0] == DOT && name[1] == DOT {
        assert(name@ =~= seq![DOT, DOT]);
        return true;
    }
    let mut i: usize = 1;
    while i < n
        invariant
            n == name.len(),
            1 <= i,
            !(n == 2 && name@[0] == DOT && name@[1] == DOT),
            forall|k: int| 0 < k < i && k < n ==> name@[k] != DOT,
        decreases n - i,
    {
        if name[i] == DOT {
            proof {
                if name@ == seq![DOT, DOT] {
                    assert(seq![DOT, DOT][0] == DOT);
                    assert(seq![DOT, DOT][1] == DOT);
                }
            }
            return false;
        }
        i += 1;
    }
    true
}

} // verus!
