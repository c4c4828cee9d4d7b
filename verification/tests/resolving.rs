use p8bundle::error::{BuildError, InputProblem};
use p8bundle::fragments::{concatenate, resolve, DirectoryProbe, SourceRead};
use p8bundle::names::{ends_with_extension, is_without_extension, precedes};
use p8bundle::rebuild::rebuild;

fn listing(names: &[&str]) -> DirectoryProbe {
    DirectoryProbe::Listing { entries: names.iter().map(|n| n.as_bytes().to_vec()).collect() }
}

fn resolved(names: &[&str]) -> Vec<String> {
    let set = resolve(&listing(names)).unwrap();
    set.names().iter().map(|n| String::from_utf8(n.clone()).unwrap()).collect()
}

fn read(path: &str, content: Option<&str>) -> SourceRead {
    SourceRead { path: path.as_bytes().to_vec(), content: content.map(|c| c.as_bytes().to_vec()) }
}

#[test]
fn concatenation_order() {
    for order in [
        ["a.lua", "b.lua", "c.lua"],
        ["c.lua", "a.lua", "b.lua"],
        ["b.lua", "c.lua", "a.lua"],
        ["c.lua", "b.lua", "a.lua"],
    ] {
        let names = resolved(&order);
        assert_eq!(names, vec!["a.lua", "b.lua", "c.lua"]);
        let reads: Vec<SourceRead> = names
            .iter()
            .map(|n| {
                let body = match n.as_str() {
                    "a.lua" => "1",
                    "b.lua" => "2",
                    _ => "3",
                };
                read(n, Some(body))
            })
            .collect();
        assert_eq!(concatenate(&reads), Ok(b"123".to_vec()));
    }
}

#[test]
fn resolve_keeps_fragments_only() {
    let names = resolved(&["main.lua", "notes.txt", ".lua", "lua", "x.lua.bak", "b.LUA", "..lua", "a.b.lua"]);
    assert_eq!(names, vec!["..lua", "a.b.lua", "main.lua"]);
}

#[test]
fn resolve_orders_by_bytes() {
    let names = resolved(&["b.lua", "B.lua", "ab.lua", "a.lua", "a_.lua", "10.lua", "9.lua"]);
    assert_eq!(names, vec!["10.lua", "9.lua", "B.lua", "a.lua", "a_.lua", "ab.lua", "b.lua"]);
}

#[test]
fn resolve_keeps_repeated_names() {
    let set = resolve(&listing(&["a.lua", "a.lua"])).unwrap();
    assert_eq!(set.len(), 2);
}

#[test]
fn empty_source_set() {
    assert_eq!(resolve(&listing(&[])).err(), Some(BuildError::NoSourcesFound));
    assert_eq!(
        resolve(&listing(&["readme.md", "game.p8", ".lua"])).err(),
        Some(BuildError::NoSourcesFound)
    );
}

#[test]
fn resolve_refuses_missing_directory() {
    assert_eq!(
        resolve(&DirectoryProbe::Missing).err(),
        Some(BuildError::InvalidInput { problem: InputProblem::NotFound })
    );
}

#[test]
fn resolve_refuses_a_file() {
    assert_eq!(
        resolve(&DirectoryProbe::NotADirectory).err(),
        Some(BuildError::InvalidInput { problem: InputProblem::NotADirectory })
    );
}

#[test]
fn precedes_is_dictionary_order() {
    assert!(precedes(b"", b""));
    assert!(precedes(b"", b"a"));
    assert!(!precedes(b"a", b""));
    assert!(precedes(b"a", b"a"));
    assert!(precedes(b"a", b"ab"));
    assert!(!precedes(b"ab", b"a"));
    assert!(precedes(b"ab", b"b"));
    assert!(!precedes(b"b", b"ab"));
    assert!(precedes(b"Z", b"a"));
    assert!(precedes(b"a\x7f", b"a\x80"));
}

#[test]
fn extension_follows_the_last_dot() {
    assert!(ends_with_extension(b"a.lua", b"lua"));
    assert!(ends_with_extension(b"a.b.lua", b"lua"));
    assert!(!ends_with_extension(b".lua", b"lua"));
    assert!(!ends_with_extension(b"alua", b"lua"));
    assert!(!ends_with_extension(b"a.lua", b"ua"));
    assert!(!ends_with_extension(b"a.lua2", b"lua"));
    assert!(!ends_with_extension(b"", b"lua"));
    assert!(ends_with_extension(b"a.", b""));
}

#[test]
fn names_without_extension() {
    assert!(is_without_extension(b"makefile"));
    assert!(is_without_extension(b".hidden"));
    assert!(is_without_extension(b".."));
    assert!(is_without_extension(b""));
    assert!(is_without_extension(b"."));
    assert!(!is_without_extension(b"a.b"));
    assert!(!is_without_extension(b"a."));
    assert!(!is_without_extension(b"..."));
    assert!(!is_without_extension(b".a."));
}

#[test]
fn concatenate_adds_no_separator() {
    let reads = vec![read("a.lua", Some("x = 1")), read("b.lua", Some("")), read("c.lua", Some("\ny = 2\r\n"))];
    assert_eq!(concatenate(&reads), Ok(b"x = 1\ny = 2\r\n".to_vec()));
}

#[test]
fn concatenate_of_nothing_is_empty() {
    assert_eq!(concatenate(&Vec::new()), Ok(Vec::new()));
}

#[test]
fn concatenate_fails_at_first_unreadable() {
    let reads = vec![
        read("src/a.lua", Some("1")),
        read("src/b.lua", None),
        read("src/c.lua", Some("3")),
        read("src/d.lua", None),
    ];
    assert_eq!(
        concatenate(&reads),
        Err(BuildError::ReadFailure { path: b"src/b.lua".to_vec() })
    );
}

#[test]
fn rebuild_splices_the_joined_code() {
    let reads = vec![read("a.lua", Some("one\n")), read("b.lua", Some("two\n"))];
    let container = Some(b"hdr\n__lua__\nold\n__gfx__\nassets".to_vec());
    assert_eq!(
        rebuild(&reads, b"game.p8", &container),
        Ok(b"hdr\n__lua__\none\ntwo\n__gfx__\nassets".to_vec())
    );
}

#[test]
fn rebuild_bootstraps_an_empty_container() {
    let reads = vec![read("a.lua", Some("x"))];
    assert_eq!(
        rebuild(&reads, b"game.p8", &Some(Vec::new())),
        Ok(b"pico-8 cartridge // http://www.pico-8.com\nversion 16\n__lua__\nx__gfx__\n".to_vec())
    );
}

#[test]
fn rebuild_is_idempotent() {
    let reads = vec![read("a.lua", Some("a()\n")), read("b.lua", Some("b()\n"))];
    let first = rebuild(&reads, b"game.p8", &Some(b"h__lua__\n__gfx__\nf".to_vec())).unwrap();
    let second = rebuild(&reads, b"game.p8", &Some(first.clone())).unwrap();
    assert_eq!(first, second);
}

#[test]
fn rebuild_without_fragments() {
    assert_eq!(
        rebuild(&Vec::new(), b"game.p8", &Some(Vec::new())),
        Err(BuildError::NoSourcesFound)
    );
    assert_eq!(rebuild(&Vec::new(), b"game.p8", &None), Err(BuildError::NoSourcesFound));
}

#[test]
fn rebuild_with_unreadable_fragment() {
    let reads = vec![read("a.lua", None)];
    assert_eq!(
        rebuild(&reads, b"game.p8", &None),
        Err(BuildError::ReadFailure { path: b"a.lua".to_vec() })
    );
}

#[test]
fn rebuild_with_unreadable_container() {
    let reads = vec![read("a.lua", Some("x"))];
    assert_eq!(
        rebuild(&reads, b"out/game.p8", &None),
        Err(BuildError::ReadFailure { path: b"out/game.p8".to_vec() })
    );
}

#[test]
fn rebuild_with_malformed_container() {
    let reads = vec![read("a.lua", Some("x"))];
    assert_eq!(
        rebuild(&reads, b"game.p8", &Some(b"__lua__\nno assets".to_vec())),
        Err(BuildError::MalformedContainer)
    );
}
