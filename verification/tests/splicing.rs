use p8bundle::error::BuildError;
use p8bundle::markers::{asset_marker_bytes, bootstrap_header_bytes, code_marker_bytes};
use p8bundle::search::{find_from, matches_at};
use p8bundle::splice::splice;

const HEADER: &[u8] = b"pico-8 cartridge // http://www.pico-8.com\nversion 16\n";

#[test]
fn markers_are_the_format_lines() {
    assert_eq!(&code_marker_bytes()[..], b"__lua__\n");
    assert_eq!(&asset_marker_bytes()[..], b"__gfx__\n");
    assert_eq!(&bootstrap_header_bytes()[..], HEADER);
}

#[test]
fn find_from_gives_first_occurrence() {
    let text = b"abcabcabc";
    assert_eq!(find_from(text, b"abc", 0), Some(0));
    assert_eq!(find_from(text, b"abc", 1), Some(3));
    assert_eq!(find_from(text, b"abc", 4), Some(6));
    assert_eq!(find_from(text, b"abc", 7), None);
    assert_eq!(find_from(text, b"abd", 0), None);
}

#[test]
fn find_from_at_the_edges() {
    assert_eq!(find_from(b"", b"a", 0), None);
    assert_eq!(find_from(b"a", b"ab", 0), None);
    assert_eq!(find_from(b"ab", b"ab", 0), Some(0));
    assert_eq!(find_from(b"ab", b"", 2), Some(2));
    assert_eq!(find_from(b"ab", b"", 3), None);
    assert_eq!(find_from(b"xab", b"ab", 1), Some(1));
    assert_eq!(find_from(b"xab", b"ab", usize::MAX), None);
}

#[test]
fn matches_at_compares_the_window() {
    assert!(matches_at(b"hello", b"ell", 1));
    assert!(!matches_at(b"hello", b"ell", 2));
    assert!(!matches_at(b"hello", b"lo!", 3));
    assert!(matches_at(b"hello", b"", 5));
    assert!(!matches_at(b"hello", b"", 6));
    assert!(!matches_at(b"hello", b"o", usize::MAX));
}

#[test]
fn bootstrap_of_empty_container() {
    let out = splice(b"", b"x").unwrap();
    assert_eq!(
        out,
        b"pico-8 cartridge // http://www.pico-8.com\nversion 16\n__lua__\nx__gfx__\n".to_vec()
    );
    let code_at = find_from(&out, b"__lua__\n", 0).unwrap();
    assert_eq!(find_from(&out, b"__lua__\n", code_at + 1), None);
    let asset_at = find_from(&out, b"__gfx__\n", 0).unwrap();
    assert_eq!(find_from(&out, b"__gfx__\n", asset_at + 1), None);
    assert_eq!(&out[code_at + 8..asset_at], b"x");
    assert_eq!(asset_at + 8, out.len());
}

#[test]
fn bootstrap_with_empty_code() {
    let out = splice(b"", b"").unwrap();
    let mut expected = HEADER.to_vec();
    expected.extend_from_slice(b"__lua__\n__gfx__\n");
    assert_eq!(out, expected);
}

#[test]
fn splice_replaces_only_the_code_body() {
    let existing = b"head\r\n__lua__\nold code\n__gfx__\n0123\n__sfx__\nabcd \n";
    let out = splice(existing, b"print(1)\n").unwrap();
    assert_eq!(
        out,
        b"head\r\n__lua__\nprint(1)\n__gfx__\n0123\n__sfx__\nabcd \n".to_vec()
    );
}

#[test]
fn splice_keeps_header_and_footer_bytes() {
    let header = b"anything \xff\x00 at all\n__lua__\n";
    let footer = b"__gfx__\n\x00\x01\xfe\r\n  __music__\n";
    let mut existing = header.to_vec();
    existing.extend_from_slice(b"-- old\n");
    existing.extend_from_slice(footer);
    let code = b"-- new and longer than before\n";
    let out = splice(&existing, code).unwrap();
    assert_eq!(&out[..header.len()], header);
    assert_eq!(&out[out.len() - footer.len()..], footer);
    assert_eq!(&out[header.len()..out.len() - footer.len()], code);
}

#[test]
fn splice_uses_first_asset_marker_after_code_marker() {
    let existing = b"__gfx__\nearly\n__lua__\nold\n__gfx__\ndata__gfx__\nmore";
    let out = splice(existing, b"new").unwrap();
    assert_eq!(
        out,
        b"__gfx__\nearly\n__lua__\nnew__gfx__\ndata__gfx__\nmore".to_vec()
    );
}

#[test]
fn splice_uses_first_code_marker() {
    let existing = b"h__lua__\na__lua__\nb__gfx__\nf";
    let out = splice(existing, b"c").unwrap();
    assert_eq!(out, b"h__lua__\nc__gfx__\nf".to_vec());
}

#[test]
fn splice_with_empty_code_body() {
    let existing = b"__lua__\n__gfx__\n";
    assert_eq!(splice(existing, b"").unwrap(), existing.to_vec());
    assert_eq!(splice(existing, b"z").unwrap(), b"__lua__\nz__gfx__\n".to_vec());
}

#[test]
fn splice_is_idempotent() {
    let existing = b"hdr\n__lua__\nold\n__gfx__\nassets\n__sfx__\n";
    let code = b"function _init() end\n";
    let once = splice(existing, code).unwrap();
    let twice = splice(&once, code).unwrap();
    assert_eq!(once, twice);
    let fresh = splice(b"", code).unwrap();
    assert_eq!(splice(&fresh, code).unwrap(), fresh);
}

#[test]
fn splice_twice_differs_when_code_holds_asset_marker() {
    let code = b"__gfx__\n";
    let once = splice(b"", code).unwrap();
    let twice = splice(&once, code).unwrap();
    assert_ne!(once, twice);
    assert_eq!(twice.len(), once.len() + 8);
}

#[test]
fn malformed_without_asset_marker() {
    assert_eq!(splice(b"hdr\n__lua__\ncode\n", b"x"), Err(BuildError::MalformedContainer));
}

#[test]
fn malformed_without_code_marker() {
    assert_eq!(splice(b"hdr\n__gfx__\ndata\n", b"x"), Err(BuildError::MalformedContainer));
    assert_eq!(splice(b" ", b"x"), Err(BuildError::MalformedContainer));
}

#[test]
fn malformed_when_asset_marker_only_precedes_code_marker() {
    assert_eq!(splice(b"__gfx__\n__lua__\ncode", b"x"), Err(BuildError::MalformedContainer));
}

#[test]
fn malformed_when_markers_lack_line_feed() {
    assert_eq!(splice(b"__lua__code__gfx__", b"x"), Err(BuildError::MalformedContainer));
}
