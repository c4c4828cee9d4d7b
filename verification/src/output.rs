//! Settling which container file a build writes to.

use vstd::prelude::*;
use crate::bytes::{append, copy_of};
use crate::error::{BuildError, InputProblem};
use crate::fragments::views;
use crate::names::{ends_with_extension, has_extension, is_without_extension, lacks_extension, DOT};

verus! {

/// The extension of a container file: `p8`.
pub open spec fn container_extension() -> Seq<u8> {
    seq![0x70u8, 0x38u8]
}

/// The container extension as bytes.
pub fn container_extension_bytes() -> (e: [u8; 2])
    ensures
        e@ == container_extension(),
{
    let e: [u8; 2] = [0x70, 0x38];
    assert(e@ =~= container_extension());
    e
}

/// `name` is the file name of a container.
pub open spec fn is_container_name(name: Seq<u8>) -> bool {
    has_extension(name, container_extension())
}

/// The container names among `entries`, in the order of `entries`.
pub open spec fn container_names(entries: Seq<Seq<u8>>) -> Seq<Seq<u8>> {
    entries.filter(|name: Seq<u8>| is_container_name(name))
}

/// The name of the container that is created for a directory: the
/// directory's name, a `.` and the container extension.
pub open spec fn default_container_name(directory_name: Seq<u8>) -> Seq<u8> {
    directory_name + seq![DOT] + container_extension()
}

/// What exists at a path.
#[derive(Debug, Clone, Copy, PartialEq, Eq, Structural)]
pub enum PathKind {
    /// Nothing.
    Missing,
    /// A regular file.
    File,
    /// Something else, such as a directory.
    Other,
}

/// Which file the build writes to, and whether it has to be created first.
#[derive(Debug, PartialEq, Eq)]
pub enum OutputChoice {
    /// The file that was asked for; it exists.
    UseRequested,
    /// The file that was asked for; it is to be created empty.
    CreateRequested,
    /// The one container that the working directory holds.
    UseFound { name: Vec<u8> },
    /// A container named after the working directory, to be created empty.
    CreateDefault { name: Vec<u8> },
}

/// Judges the output path that was asked for, by the file name it ends in and
/// by what exists there.
///
/// A path where nothing exists is accepted and the file created. An existing
/// regular file is accepted where its name has the container extension.
/// Anything else is refused.
pub fn check_requested_output(file_name: &[u8], kind: PathKind) -> (result: Result<
    OutputChoice,
    BuildError,
>)
    ensures
        result == (match kind {
            PathKind::Missing => Ok::<OutputChoice, BuildError>(OutputChoice::CreateRequested),
            PathKind::Other => Err(BuildError::InvalidInput { problem: InputProblem::NotAFile }),
            PathKind::File => if is_container_name(file_name@) {
                Ok(OutputChoice::UseRequested)
            } else if lacks_extension(file_name@) {
                Err(BuildError::InvalidInput { problem: InputProblem::MissingExtension })
            } else {
                Err(BuildError::InvalidInput { problem: InputProblem::WrongExtension })
            },
        }),
{
    match kind {
        PathKind::Missing => Ok(OutputChoice::CreateRequested),
        PathKind::Other => Err(BuildError::InvalidInput { problem: InputProblem::NotAFile }),
        PathKind::File => {
            let extension = container_extension_bytes();
            if ends_with_extension(file_name, extension.as_slice()) {
                Ok(OutputChoice::UseRequested)
            } else if is_without_extension(file_name) {
                Err(BuildError::InvalidInput { problem: InputProblem::MissingExtension })
            } else {
                Err(BuildError::InvalidInput { problem: InputProblem::WrongExtension })
            }
        },
    }
}

/// Finds the output where none was asked for, among the file names of the
/// working directory's children.
///
/// With one container there, it is the output. With none, a container named
/// after the directory is to be created. With several, the choice is refused
/// as ambiguous.
pub fn find_output(entries: &Vec<Vec<u8>>, directory_name: &[u8]) -> (result: Result<
    OutputChoice,
    BuildError,
>)
    ensures
        ({
            let found = container_names(views(entries@));
            match result {
                Ok(OutputChoice::CreateDefault { name }) => {
                    &&& found.len() == 0
                    &&& name@ == default_container_name(directory_name@)
                },
                Ok(OutputChoice::UseFound { name }) => found.len() == 1 && name@ == found[0],
                Ok(_) => false,
                Err(e) => found.len() > 1 && e == BuildError::AmbiguousOutput,
            }
        }),
{
    let extension = container_extension_bytes();
    let ghost listed = views(entries@);
    let ghost wanted = |name: Seq<u8>| is_container_name(name);
    let mut count: usize = 0;
    let mut first: usize = 0;
    let mut i: usize = 0;
    proof {
        reveal(Seq::filter);
        assert(listed.take(0).filter(wanted) =~= Seq::<Seq<u8>>::empty());
    }
    while i < entries.len()
        invariant
            i <= entries.len(),
            listed == views(entries@),
            wanted == |name: Seq<u8>| is_container_name(name),
            extension@ == container_extension(),
            count == listed.take(i as int).filter(wanted).len(),
            count <= i,
            count > 0 ==> first < i && listed.take(i as int).filter(wanted)[0] == listed[first as int],
        decreases entries.len() - i,
    {
        proof {
            reveal(Seq::filter);
            assert(listed.take(i + 1).drop_last() =~= listed.take(i as int));
            assert(listed.take(i + 1).last() == entries@[i as int]@);
        }
        if ends_with_extension(entries[i].as_slice(), extension.as_slice()) {
            if count == 0 {
                first = i;
            }
            count += 1;
        }
        i += 1;
    }
    assert(listed.take(i as int) =~= listed);
    if count == 0 {
        let mut name = copy_of(directory_name);
        name.push(DOT);
        append(&mut name, extension.as_slice());
        assert(name@ =~= default_container_name(directory_name@));
        Ok(OutputChoice::CreateDefault { name })
    } else if count == 1 {
        Ok(OutputChoice::UseFound { name: copy_of(entries[first].as_slice()) })
    } else {
        Err(BuildError::AmbiguousOutput)
    }
}

} // verus!
