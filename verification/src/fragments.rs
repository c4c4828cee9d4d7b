//! Choosing the fragments of a source directory and joining what they hold.

use vstd::prelude::*;
use vstd::multiset::group_multiset_axioms;
use vstd::relations::{sorted_by, total_ordering};
use vstd::seq_lib::{lemma_sorted_unique, to_multiset_build, to_multiset_insert};
use crate::bytes::{append, copy_of};
use crate::error::{BuildError, InputProblem};
use crate::names::{
    ends_with_extension, has_extension, is_sorted, lemma_name_le_antisymmetric,
    lemma_name_le_reflexive, lemma_name_le_total, lemma_name_le_transitive, name_le, precedes,
};

verus! {

/// The extension that marks a file as a fragment: `lua`.
pub open spec fn fragment_extension() -> Seq<u8> {
    seq![0x6cu8, 0x75u8, 0x61u8]
}

/// The fragment extension as bytes.
pub fn fragment_extension_bytes() -> (e: [u8; 3])
    ensures
        e@ == fragment_extension(),
{
    let e: [u8; 3] = [0x6c, 0x75, 0x61];
    assert(e@ =~= fragment_extension());
    e
}

/// `name` is the file name of a fragment.
pub open spec fn is_fragment_name(name: Seq<u8>) -> bool {
    has_extension(name, fragment_extension())
}

/// The byte strings that a sequence of byte vectors holds.
pub open spec fn views(names: Seq<Vec<u8>>) -> Seq<Seq<u8>> {
    Seq::new(names.len(), |i: int| names[i]@)
}

/// The fragment names among `entries`, in the order of `entries`.
pub open spec fn fragment_names(entries: Seq<Seq<u8>>) -> Seq<Seq<u8>> {
    entries.filter(|name: Seq<u8>| is_fragment_name(name))
}

/// `names` are the fragment names among `entries`, each as often as it is
/// listed, in ascending order.
pub open spec fn is_resolution(entries: Seq<Seq<u8>>, names: Seq<Seq<u8>>) -> bool {
    &&& is_sorted(names)
    &&& names.to_multiset() == fragment_names(entries).to_multiset()
}

/// What looking at the source directory found.
#[derive(Debug)]
pub enum DirectoryProbe {
    /// Nothing exists at the path.
    Missing,
    /// The path names something other than a directory.
    NotADirectory,
    /// The file names of the directory's immediate children, in any order.
    Listing { entries: Vec<Vec<u8>> },
}

/// The fragments of one rebuild, by file name: at least one, in ascending order.
#[derive(Debug)]
pub struct FragmentSet {
    names: Vec<Vec<u8>>,
}

impl View for FragmentSet {
    type V = Seq<Seq<u8>>;

    closed spec fn view(&self) -> Seq<Seq<u8>> {
        views(self.names@)
    }
}

impl FragmentSet {
    /// The set is not empty, holds fragment names only, and is in ascending order.
    pub open spec fn wf(&self) -> bool {
        &&& self@.len() > 0
        &&& is_sorted(self@)
        &&& forall|i: int| 0 <= i < self@.len() ==> is_fragment_name(#[trigger] self@[i])
    }

    /// The file names, in ascending order.
    pub fn names(&self) -> (names: &Vec<Vec<u8>>)
        ensures
            views(names@) == self@,
    {
        &self.names
    }

    /// How many fragments the set holds.
    pub fn len(&self) -> (n: usize)
        ensures
            n == self@.len(),
    {
        self.names.len()
    }
}

/// Puts `name` into `names` at the place that keeps them in ascending order.
fn insert_sorted(names: &mut Vec<Vec<u8>>, name: Vec<u8>) -> (at: usize)
    requires
        is_sorted(views(old(names)@)),
    ensures
        at <= old(names)@.len(),
        views(final(names)@) == views(old(names)@).insert(at as int, name@),
        is_sorted(views(final(names)@)),
{
    let ghost before = views(names@);
    let mut at: usize = 0;
    while at < names.len() && precedes(names[at].as_slice(), name.as_slice())
        invariant
            at <= names.len(),
            views(names@) == before,
            forall|k: int| 0 <= k < at ==> name_le(before[k], name@),
        decreases names.len() - at,
    {
        at += 1;
    }
    proof {
        assert forall|k: int| at <= k < before.len() implies name_le(name@, before[k]) by {
            lemma_name_le_total(before[at as int], name@);
            if at < k {
                lemma_name_le_transitive(name@, before[at as int], before[k]);
            }
        }
    }
    names.insert(at, name);
    proof {
        let after = views(names@);
        assert(after =~= before.insert(at as int, name@));
        assert forall|i: int, j: int| 0 <= i < j < after.len() implies name_le(
            after[i],
            after[j],
        ) by {
            if j < at {
                assert(name_le(before[i], before[j]));
            } else if j == at {
                assert(name_le(before[i], name@));
            } else if i < at {
                assert(name_le(before[i], before[j - 1]));
            } else if i == at {
                assert(name_le(name@, before[j - 1]));
            } else {
                assert(name_le(before[i - 1], before[j - 1]));
            }
        }
    }
    at
}

/// Chooses the fragments of the source directory.
///
/// A path that is missing or no directory is refused. Of the directory's
/// children those with the fragment extension are kept and put in ascending
/// order of their names; a directory without any is refused, too.
pub fn resolve(probe: &DirectoryProbe) -> (result: Result<FragmentSet, BuildError>)
    ensures
        match result {
            Ok(set) => {
                &&& probe matches DirectoryProbe::Listing { entries }
                &&& set.wf()
                &&& is_resolution(views(entries@), set@)
            },
            Err(e) => match probe {
                DirectoryProbe::Missing => e == (BuildError::InvalidInput {
                    problem: InputProblem::NotFound,
                }),
                DirectoryProbe::NotADirectory => e == (BuildError::InvalidInput {
                    problem: InputProblem::NotADirectory,
                }),
                DirectoryProbe::Listing { entries } => {
                    &&& fragment_names(views(entries@)).len() == 0
                    &&& e == BuildError::NoSourcesFound
                },
            },
        },
{
    let entries = match probe {
        DirectoryProbe::Missing => {
            return Err(BuildError::InvalidInput { problem: InputProblem::NotFound });
        },
        DirectoryProbe::NotADirectory => {
            return Err(BuildError::InvalidInput { problem: InputProblem::NotADirectory });
        },
        DirectoryProbe::Listing { entries } => entries,
    };
    let extension = fragment_extension_bytes();
    let ghost listed = views(entries@);
    let ghost wanted = |name: Seq<u8>| is_fragment_name(name);
    let mut names: Vec<Vec<u8>> = Vec::new();
    let mut i: usize = 0;
    proof {
        reveal(Seq::filter);
        assert(listed.take(0).filter(wanted) =~= Seq::<Seq<u8>>::empty());
        assert(views(names@) =~= Seq::<Seq<u8>>::empty());
    }
    while i < entries.len()
        invariant
            i <= entries.len(),
            listed == views(entries@),
            wanted == |name: Seq<u8>| is_fragment_name(name),
            extension@ == fragment_extension(),
            is_sorted(views(names@)),
            views(names@).len() == listed.take(i as int).filter(wanted).len(),
            views(names@).to_multiset() == listed.take(i as int).filter(wanted).to_multiset(),
            forall|k: int| 0 <= k < names@.len() ==> is_fragment_name(#[trigger] views(names@)[k]),
        decreases entries.len() - i,
    {
        let entry = entries[i].as_slice();
        let ghost before = views(names@);
        let ghost seen = listed.take(i as int);
        proof {
            reveal(Seq::filter);
            assert(listed.take(i + 1).drop_last() =~= seen);
            assert(listed.take(i + 1).last() == entry@);
        }
        if ends_with_extension(entry, extension.as_slice()) {
            let at = insert_sorted(&mut names, copy_of(entry));
            proof {
                to_multiset_insert(before, at as int, entry@);
                to_multiset_build(seen.filter(wanted), entry@);
                let after = views(names@);
                assert forall|k: int| 0 <= k < after.len() implies is_fragment_name(
                    #[trigger] after[k],
                ) by {
                    if k < at {
                        assert(after[k] == before[k]);
                    } else if k > at {
                        assert(after[k] == before[k - 1]);
                    }
                }
            }
        }
        i += 1;
    }
    assert(listed.take(i as int) =~= listed);
    if names.len() == 0 {
        return Err(BuildError::NoSourcesFound);
    }
    Ok(FragmentSet { names })
}

/// How often `name` occurs among the fragment names of `entries`: as often as
/// among `entries` where it is a fragment name, and never where it is not.
proof fn lemma_fragment_name_count(entries: Seq<Seq<u8>>, name: Seq<u8>)
    ensures
        fragment_names(entries).to_multiset().count(name) == if is_fragment_name(name) {
            entries.to_multiset().count(name)
        } else {
            0
        },
    decreases entries.len(),
{
    broadcast use group_multiset_axioms;

    reveal(Seq::filter);
    let wanted = |name: Seq<u8>| is_fragment_name(name);
    if entries.len() == 0 {
        entries.to_multiset_ensures();
        assert(entries.to_multiset().len() == 0);
    } else {
        let rest = entries.drop_last();
        let last = entries.last();
        lemma_fragment_name_count(rest, name);
        assert(entries =~= rest.push(last));
        to_multiset_build(rest, last);
        if is_fragment_name(last) {
            to_multiset_build(rest.filter(wanted), last);
        }
    }
}

/// The order in which a directory lists its children does not matter: two
/// listings with the same names resolve to the same sequence of fragments.
pub proof fn lemma_resolution_ignores_listing_order(
    first: Seq<Seq<u8>>,
    second: Seq<Seq<u8>>,
    from_first: Seq<Seq<u8>>,
    from_second: Seq<Seq<u8>>,
)
    requires
        first.to_multiset() == second.to_multiset(),
        is_resolution(first, from_first),
        is_resolution(second, from_second),
    ensures
        from_first == from_second,
{
    let order = |a: Seq<u8>, b: Seq<u8>| name_le(a, b);
    assert forall|a: Seq<u8>| #[trigger] order(a, a) by {
        lemma_name_le_reflexive(a);
    }
    assert forall|a: Seq<u8>, b: Seq<u8>| #[trigger] order(a, b) && #[trigger] order(b, a) implies a
        == b by {
        lemma_name_le_antisymmetric(a, b);
    }
    assert forall|a: Seq<u8>, b: Seq<u8>, c: Seq<u8>| #[trigger]
        order(a, b) && #[trigger] order(b, c) implies order(a, c) by {
        lemma_name_le_transitive(a, b, c);
    }
    assert forall|a: Seq<u8>, b: Seq<u8>| #[trigger] order(a, b) || #[trigger] order(b, a) by {
        lemma_name_le_total(a, b);
    }
    assert(total_ordering(order));
    assert(sorted_by(from_first, order));
    assert(sorted_by(from_second, order));
    assert forall|name: Seq<u8>|
        fragment_names(first).to_multiset().count(name) == fragment_names(
            second,
        ).to_multiset().count(name) by {
        lemma_fragment_name_count(first, name);
        lemma_fragment_name_count(second, name);
    }
    assert(fragment_names(first).to_multiset() =~= fragment_names(second).to_multiset());
    lemma_sorted_unique(from_first, from_second, order);
}

/// What reading one fragment gave: its bytes, or nothing where it could not be read.
#[derive(Debug)]
pub struct SourceRead {
    pub path: Vec<u8>,
    pub content: Option<Vec<u8>>,
}

/// Every fragment was read.
pub open spec fn all_readable(reads: Seq<SourceRead>) -> bool {
    forall|i: int| 0 <= i < reads.len() ==> (#[trigger] reads[i]).content is Some
}

/// The fragment at `at` could not be read, and all before it could.
pub open spec fn is_first_unreadable(reads: Seq<SourceRead>, at: int) -> bool {
    &&& 0 <= at < reads.len()
    &&& reads[at].content is None
    &&& forall|k: int| 0 <= k < at ==> (#[trigger] reads[k]).content is Some
}

/// What the fragments hold, one byte string each, in their order.
pub open spec fn bodies(reads: Seq<SourceRead>) -> Seq<Seq<u8>> {
    Seq::new(reads.len(), |i: int| reads[i].content->0@)
}

/// Joins what the fragments hold into one code blob.
///
/// The bodies follow each other in the order given, byte for byte, with
/// nothing between them. Where a fragment could not be read, nothing is
/// joined, and the failure names the first such fragment.
pub fn concatenate(reads: &Vec<SourceRead>) -> (result: Result<Vec<u8>, BuildError>)
    ensures
        match result {
            Ok(blob) => all_readable(reads@) && blob@ == bodies(reads@).flatten(),
            Err(e) => {
                &&& e is ReadFailure
                &&& exists|at: int|
                    is_first_unreadable(reads@, at) && e->path@ == (#[trigger] reads@[at]).path@
            },
        },
{
    let mut blob: Vec<u8> = Vec::new();
    let mut i: usize = 0;
    assert(bodies(reads@.take(0)) =~= Seq::<Seq<u8>>::empty());
    while i < reads.len()
        invariant
            i <= reads.len(),
            all_readable(reads@.take(i as int)),
            blob@ == bodies(reads@.take(i as int)).flatten(),
        decreases reads.len() - i,
    {
        let read = &reads[i];
        match &read.content {
            Some(body) => {
                append(&mut blob, body.as_slice());
                proof {
                    let done = bodies(reads@.take(i as int));
                    assert(bodies(reads@.take(i + 1)) =~= done.push(body@));
                    done.lemma_flatten_push(body@);
                    assert forall|j: int| 0 <= j < i + 1 implies (#[trigger] reads@.take(
                        i + 1,
                    )[j]).content is Some by {
                        if j < i {
                            assert(reads@.take(i as int)[j].content is Some);
                        }
                    }
                }
            },
            None => {
                proof {
                    assert forall|j: int| 0 <= j < i implies (#[trigger] reads@[j]).content
                        is Some by {
                        assert(reads@.take(i as int)[j].content is Some);
                    }
                    assert(is_first_unreadable(reads@, i as int));
                }
                return Err(BuildError::ReadFailure { path: copy_of(read.path.as_slice()) });
            },
        }
        i += 1;
    }
    assert(reads@.take(i as int) =~= reads@);
    Ok(blob)
}

} // verus!
