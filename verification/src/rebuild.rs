//! One rebuild: from what was read to what is written.

use vstd::prelude::*;
use crate::bytes::copy_of;
use crate::error::BuildError;
use crate::fragments::{all_readable, bodies, concatenate, is_first_unreadable, SourceRead};
use crate::markers::asset_marker;
use crate::search::contains;
use crate::splice::{lemma_splice_idempotent, splice, spliced};

verus! {

/// The container content that a rebuild writes, or `None` where it writes
/// nothing: without fragments, with an unreadable fragment, with an unreadable
/// container, or with a container that lacks a marker.
pub open spec fn rebuilt(reads: Seq<SourceRead>, container: Option<Seq<u8>>) -> Option<Seq<u8>> {
    if reads.len() == 0 || !all_readable(reads) {
        None
    } else {
        match container {
            Some(existing) => spliced(existing, bodies(reads).flatten()),
            None => None,
        }
    }
}

/// Computes the new content of the container from the fragments as read and
/// the container as read; `container` is `None` where the file at
/// `container_path` could not be read.
///
/// The steps fail in their order: no fragment at all, then the first fragment
/// that could not be read, then the container that could not be read, then a
/// container without its markers. Nothing is to be written unless the result
/// is `Ok`, and then it is the whole new content.
pub fn rebuild(reads: &Vec<SourceRead>, container_path: &[u8], container: &Option<Vec<u8>>) -> (result:
    Result<Vec<u8>, BuildError>)
    ensures
        match result {
            Ok(content) => {
                &&& container is Some
                &&& rebuilt(reads@, Some(container->0@)) == Some(content@)
            },
            Err(e) => {
                if reads@.len() == 0 {
                    e == BuildError::NoSourcesFound
                } else if !all_readable(reads@) {
                    &&& e is ReadFailure
                    &&& exists|at: int|
                        is_first_unreadable(reads@, at) && e->path@ == (#[trigger] reads@[at]).path@
                } else {
                    match container {
                        None => e is ReadFailure && e->path@ == container_path@,
                        Some(existing) => {
                            &&& spliced(existing@, bodies(reads@).flatten()) is None
                            &&& e == BuildError::MalformedContainer
                        },
                    }
                }
            },
        },
{
    if reads.len() == 0 {
        return Err(BuildError::NoSourcesFound);
    }
    let code = match concatenate(reads) {
        Ok(code) => code,
        Err(e) => {
            return Err(e);
        },
    };
    let existing = match container {
        Some(existing) => existing,
        None => {
            let path = copy_of(container_path);
            return Err(BuildError::ReadFailure { path });
        },
    };
    splice(existing.as_slice(), code.as_slice())
}

/// A rebuild is idempotent: run again on its own output with the fragments
/// unchanged, it yields that output again, provided the fragments hold no
/// asset-section marker.
pub proof fn lemma_rebuild_idempotent(reads: Seq<SourceRead>, container: Seq<u8>)
    requires
        rebuilt(reads, Some(container)) is Some,
        !contains(bodies(reads).flatten(), asset_marker()),
    ensures
        rebuilt(reads, Some(rebuilt(reads, Some(container))->0)) == rebuilt(reads, Some(container)),
{
    lemma_splice_idempotent(container, bodies(reads).flatten());
}

} // verus!
