use p8bundle::error::{BuildError, InputProblem};
use p8bundle::output::{check_requested_output, container_extension_bytes, find_output, OutputChoice, PathKind};

fn entries(names: &[&str]) -> Vec<Vec<u8>> {
    names.iter().map(|n| n.as_bytes().to_vec()).collect()
}

#[test]
fn container_extension_is_p8() {
    assert_eq!(&container_extension_bytes()[..], b"p8");
}

#[test]
fn requested_output_that_is_missing_is_created() {
    assert_eq!(check_requested_output(b"game.p8", PathKind::Missing), Ok(OutputChoice::CreateRequested));
    assert_eq!(check_requested_output(b"game", PathKind::Missing), Ok(OutputChoice::CreateRequested));
}

#[test]
fn requested_output_that_exists_is_used() {
    assert_eq!(check_requested_output(b"game.p8", PathKind::File), Ok(OutputChoice::UseRequested));
    assert_eq!(check_requested_output(b"my.game.p8", PathKind::File), Ok(OutputChoice::UseRequested));
}

#[test]
fn requested_output_with_wrong_extension() {
    let wrong = Err(BuildError::InvalidInput { problem: InputProblem::WrongExtension });
    assert_eq!(check_requested_output(b"game.png", PathKind::File), wrong);
    assert_eq!(check_requested_output(b"game.p8.bak", PathKind::File), wrong);
    assert_eq!(check_requested_output(b"game.", PathKind::File), wrong);
}

#[test]
fn requested_output_without_extension() {
    let missing = Err(BuildError::InvalidInput { problem: InputProblem::MissingExtension });
    assert_eq!(check_requested_output(b"game", PathKind::File), missing);
    assert_eq!(check_requested_output(b".p8", PathKind::File), missing);
}

#[test]
fn requested_output_that_is_no_file() {
    assert_eq!(
        check_requested_output(b"game.p8", PathKind::Other),
        Err(BuildError::InvalidInput { problem: InputProblem::NotAFile })
    );
}

#[test]
fn single_container_is_found() {
    assert_eq!(
        find_output(&entries(&["src", "notes.txt", "game.p8", ".p8"]), b"project"),
        Ok(OutputChoice::UseFound { name: b"game.p8".to_vec() })
    );
}

#[test]
fn container_is_named_after_directory() {
    assert_eq!(
        find_output(&entries(&["src", "notes.txt"]), b"project"),
        Ok(OutputChoice::CreateDefault { name: b"project.p8".to_vec() })
    );
    assert_eq!(
        find_output(&entries(&[]), b""),
        Ok(OutputChoice::CreateDefault { name: b".p8".to_vec() })
    );
}

#[test]
fn several_containers_are_ambiguous() {
    assert_eq!(
        find_output(&entries(&["a.p8", "src", "b.p8"]), b"project"),
        Err(BuildError::AmbiguousOutput)
    );
    assert_eq!(
        find_output(&entries(&["a.p8", "b.p8", "c.p8"]), b"project"),
        Err(BuildError::AmbiguousOutput)
    );
}
