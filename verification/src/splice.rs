//! Replacing the code section of a container and nothing else.

use vstd::prelude::*;
use crate::bytes::{append, append_range};
use crate::error::BuildError;
use crate::markers::{
    asset_marker, asset_marker_bytes, bootstrap_header, bootstrap_header_bytes, code_marker,
    code_marker_bytes, MARKER_LEN,
};
use crate::markers::lemma_bootstrap_header_has_no_underscore;
use crate::search::{
    contains, find_from, first_occurrence, is_first_occurrence, lemma_first_occurrence_exists,
    lemma_first_occurrence_is, occurs_at,
};

verus! {

/// The index just past the first code-section marker of `text`.
pub open spec fn header_end(text: Seq<u8>) -> Option<int> {
    match first_occurrence(text, code_marker(), 0) {
        Some(at) => Some(at + code_marker().len()),
        None => None,
    }
}

/// The index of the first asset-section marker that starts after the code-section marker.
pub open spec fn footer_start(text: Seq<u8>) -> Option<int> {
    match header_end(text) {
        Some(end) => first_occurrence(text, asset_marker(), end),
        None => None,
    }
}

/// `text` has a code-section marker and, after it, an asset-section marker.
pub open spec fn is_well_formed(text: Seq<u8>) -> bool {
    footer_start(text) is Some
}

/// Everything up to and including the code-section marker.
pub open spec fn header(text: Seq<u8>) -> Seq<u8>
    recommends
        is_well_formed(text),
{
    text.subrange(0, header_end(text)->0)
}

/// Everything from the asset-section marker on.
pub open spec fn footer(text: Seq<u8>) -> Seq<u8>
    recommends
        is_well_formed(text),
{
    text.subrange(footer_start(text)->0, text.len() as int)
}

/// The body of the code section: what lies between header and footer.
pub open spec fn code_body(text: Seq<u8>) -> Seq<u8>
    recommends
        is_well_formed(text),
{
    text.subrange(header_end(text)->0, footer_start(text)->0)
}

/// The container made from nothing around `code`: it has no asset body.
pub open spec fn bootstrap(code: Seq<u8>) -> Seq<u8> {
    bootstrap_header() + code_marker() + code + asset_marker()
}

/// The container that results from putting `code` into `existing`, or `None`
/// where `existing` has content but lacks a marker.
pub open spec fn spliced(existing: Seq<u8>, code: Seq<u8>) -> Option<Seq<u8>> {
    if existing.len() == 0 {
        Some(bootstrap(code))
    } else if is_well_formed(existing) {
        Some(header(existing) + code + footer(existing))
    } else {
        None
    }
}

/// Puts `code` into the code section of `existing`.
///
/// An empty `existing` yields a fresh container. Otherwise everything up to and
/// including the first code-section marker, and everything from the first
/// asset-section marker after it, is kept byte for byte, and only what lay
/// between them is replaced. A non-empty `existing` without these two markers
/// is refused.
pub fn splice(existing: &[u8], code: &[u8]) -> (result: Result<Vec<u8>, BuildError>)
    ensures
        match result {
            Ok(out) => spliced(existing@, code@) == Some(out@),
            Err(e) => spliced(existing@, code@) is None && e == BuildError::MalformedContainer,
        },
{
    let code_mark = code_marker_bytes();
    let asset_mark = asset_marker_bytes();
    let mut out: Vec<u8> = Vec::new();
    if existing.len() == 0 {
        let intro = bootstrap_header_bytes();
        append(&mut out, intro.as_slice());
        append(&mut out, code_mark.as_slice());
        append(&mut out, code);
        append(&mut out, asset_mark.as_slice());
        assert(out@ =~= bootstrap(code@));
        return Ok(out);
    }
    let code_at = match find_from(existing, code_mark.as_slice(), 0) {
        Some(at) => at,
        None => {
            return Err(BuildError::MalformedContainer);
        },
    };
    let end: usize = code_at + MARKER_LEN;
    let asset_at = match find_from(existing, asset_mark.as_slice(), end) {
        Some(at) => at,
        None => {
            return Err(BuildError::MalformedContainer);
        },
    };
    append_range(&mut out, existing, 0, end);
    append(&mut out, code);
    append_range(&mut out, existing, asset_at, existing.len());
    assert(out@ =~= header(existing@) + code@ + footer(existing@));
    Ok(out)
}

/// Whether `pattern` lies at `at` depends only on the bytes up to the end of that window.
proof fn lemma_occurrence_in_prefix(a: Seq<u8>, b: Seq<u8>, upto: int, pattern: Seq<u8>, at: int)
    requires
        0 <= at,
        at + pattern.len() <= upto,
        upto <= a.len(),
        upto <= b.len(),
        a.subrange(0, upto) == b.subrange(0, upto),
    ensures
        occurs_at(a, pattern, at) == occurs_at(b, pattern, at),
{
    let end = at + pattern.len();
    assert(a.subrange(at, end) =~= a.subrange(0, upto).subrange(at, end));
    assert(b.subrange(at, end) =~= b.subrange(0, upto).subrange(at, end));
}

/// A text that ends with its first code-section marker stays the header of
/// whatever it is extended by.
proof fn lemma_header_found(head: Seq<u8>, rest: Seq<u8>)
    requires
        is_first_occurrence(head, code_marker(), 0, head.len() - code_marker().len()),
    ensures
        header_end(head + rest) == Some(head.len() as int),
        header(head + rest) == head,
{
    let whole = head + rest;
    let at = head.len() - code_marker().len();
    let upto = head.len() as int;
    assert(whole.subrange(0, upto) =~= head.subrange(0, upto));
    lemma_occurrence_in_prefix(whole, head, upto, code_marker(), at);
    assert forall|k: int| 0 <= k < at implies !occurs_at(whole, code_marker(), k) by {
        lemma_occurrence_in_prefix(whole, head, upto, code_marker(), k);
    }
    lemma_first_occurrence_is(whole, code_marker(), 0, at);
    assert(whole.subrange(0, upto) =~= head);
}

/// Where a tail that opens with the asset-section marker follows the code, that
/// marker is found at or before the tail's start.
proof fn lemma_footer_exists(head: Seq<u8>, code: Seq<u8>, tail: Seq<u8>)
    requires
        occurs_at(tail, asset_marker(), 0),
    ensures
        first_occurrence(head + code + tail, asset_marker(), head.len() as int) is Some,
{
    let whole = head + code + tail;
    let at: int = (head.len() + code.len()) as int;
    assert(whole.subrange(at, at + asset_marker().len()) =~= tail.subrange(
        0,
        asset_marker().len() as int,
    ));
    lemma_first_occurrence_exists(whole, asset_marker(), head.len() as int, at);
}

/// Where the code holds no asset-section marker, the first such marker after
/// the header is the one that opens the tail.
proof fn lemma_footer_found(head: Seq<u8>, code: Seq<u8>, tail: Seq<u8>)
    requires
        occurs_at(tail, asset_marker(), 0),
        !contains(code, asset_marker()),
    ensures
        first_occurrence(head + code + tail, asset_marker(), head.len() as int) == Some(
            (head.len() + code.len()) as int,
        ),
{
    let whole = head + code + tail;
    let mark = asset_marker();
    let start = head.len() as int;
    let at: int = (head.len() + code.len()) as int;
    assert(tail.subrange(0, mark.len() as int)[7] == 0x0au8);
    assert(whole.subrange(at, at + mark.len()) =~= tail.subrange(0, mark.len() as int));
    assert forall|k: int| start <= k < at implies !occurs_at(whole, mark, k) by {
        if occurs_at(whole, mark, k) {
            let window = whole.subrange(k, k + mark.len());
            if k + mark.len() <= at {
                assert(code.subrange(k - start, k - start + mark.len()) =~= window);
                assert(occurs_at(code, mark, k - start));
            } else {
                let d = k + 7 - at;
                assert(window[7] == whole[k + 7]);
                assert(whole[k + 7] == tail[d]);
                assert(tail[d] == tail.subrange(0, mark.len() as int)[d]);
            }
        }
    }
    lemma_first_occurrence_is(whole, mark, start, at);
}

/// The header and the tail that `spliced` puts around the code.
proof fn lemma_spliced_parts(existing: Seq<u8>, code: Seq<u8>) -> (parts: (Seq<u8>, Seq<u8>))
    requires
        spliced(existing, code) is Some,
    ensures
        spliced(existing, code) == Some(parts.0 + code + parts.1),
        is_first_occurrence(parts.0, code_marker(), 0, parts.0.len() - code_marker().len()),
        occurs_at(parts.1, asset_marker(), 0),
        existing.len() > 0 ==> parts.0 == header(existing) && parts.1 == footer(existing),
        existing.len() == 0 ==> parts.0 == bootstrap_header() + code_marker() && parts.1
            == asset_marker(),
{
    if existing.len() == 0 {
        let head = bootstrap_header() + code_marker();
        let tail = asset_marker();
        lemma_bootstrap_header_has_no_underscore();
        let at = bootstrap_header().len() as int;
        assert(head.subrange(at, at + code_marker().len()) =~= code_marker());
        assert forall|k: int| 0 <= k < at implies !occurs_at(head, code_marker(), k) by {
            if occurs_at(head, code_marker(), k) {
                assert(head.subrange(k, k + code_marker().len())[0] == head[k]);
                assert(head[k] == bootstrap_header()[k]);
            }
        }
        assert(tail.subrange(0, tail.len() as int) =~= tail);
        (head, tail)
    } else {
        let at = first_occurrence(existing, code_marker(), 0)->0;
        let end = header_end(existing)->0;
        let from = footer_start(existing)->0;
        assert(is_first_occurrence(existing, code_marker(), 0, at));
        assert(is_first_occurrence(existing, asset_marker(), end, from));
        let head = header(existing);
        let tail = footer(existing);
        assert(head.subrange(0, end) =~= existing.subrange(0, end));
        lemma_occurrence_in_prefix(head, existing, end, code_marker(), at);
        assert forall|k: int| 0 <= k < at implies !occurs_at(head, code_marker(), k) by {
            lemma_occurrence_in_prefix(head, existing, end, code_marker(), k);
        }
        assert(tail.subrange(0, asset_marker().len() as int) =~= existing.subrange(
            from,
            from + asset_marker().len(),
        ));
        (head, tail)
    }
}

/// A text is well formed exactly when it holds a code-section marker and,
/// somewhere after that marker's end, an asset-section marker.
pub proof fn lemma_well_formed_means_markers_in_order(text: Seq<u8>)
    ensures
        is_well_formed(text) <==> exists|i: int, j: int|
            occurs_at(text, code_marker(), i) && i + code_marker().len() <= j && occurs_at(
                text,
                asset_marker(),
                j,
            ),
{
    if is_well_formed(text) {
        let i = first_occurrence(text, code_marker(), 0)->0;
        let j = footer_start(text)->0;
        assert(is_first_occurrence(text, code_marker(), 0, i));
        assert(is_first_occurrence(text, asset_marker(), i + code_marker().len(), j));
        assert(occurs_at(text, code_marker(), i) && i + code_marker().len() <= j && occurs_at(
            text,
            asset_marker(),
            j,
        ));
    }
    if exists|i: int, j: int|
        occurs_at(text, code_marker(), i) && i + code_marker().len() <= j && occurs_at(
            text,
            asset_marker(),
            j,
        ) {
        let (i, j) = choose|i: int, j: int|
            occurs_at(text, code_marker(), i) && i + code_marker().len() <= j && occurs_at(
                text,
                asset_marker(),
                j,
            );
        lemma_first_occurrence_exists(text, code_marker(), 0, i);
        let end = header_end(text)->0;
        lemma_first_occurrence_exists(text, asset_marker(), end, j);
    }
}

/// A container with content that lacks either marker is refused.
pub proof fn lemma_missing_marker_is_malformed(existing: Seq<u8>, code: Seq<u8>)
    requires
        existing.len() > 0,
        !contains(existing, code_marker()) || !contains(existing, asset_marker()),
    ensures
        spliced(existing, code) is None,
{
    lemma_well_formed_means_markers_in_order(existing);
}

/// A container splits into header, code body and footer, in this order.
pub proof fn lemma_container_parts(text: Seq<u8>)
    requires
        is_well_formed(text),
    ensures
        0 <= header_end(text)->0 <= footer_start(text)->0 <= text.len(),
        text == header(text) + code_body(text) + footer(text),
        occurs_at(header(text), code_marker(), header(text).len() - code_marker().len()),
        occurs_at(footer(text), asset_marker(), 0),
{
    let parts = lemma_spliced_parts(text, code_body(text));
    let end = header_end(text)->0;
    let from = footer_start(text)->0;
    assert(is_first_occurrence(text, asset_marker(), end, from));
    assert(text =~= header(text) + code_body(text) + footer(text));
}

/// Splicing keeps the sections around the code: the result begins with the
/// header of `existing`, ends with its footer, and holds `code` and nothing
/// else between them.
pub proof fn lemma_splice_preserves_sections(existing: Seq<u8>, code: Seq<u8>)
    requires
        existing.len() > 0,
        spliced(existing, code) is Some,
    ensures
        ({
            let out = spliced(existing, code)->0;
            let head = header(existing);
            let tail = footer(existing);
            &&& out.len() == head.len() + code.len() + tail.len()
            &&& out.subrange(0, head.len() as int) == head
            &&& out.subrange(head.len() as int, (head.len() + code.len()) as int) == code
            &&& out.subrange((head.len() + code.len()) as int, out.len() as int) == tail
            &&& header(out) == head
        }),
{
    let out = spliced(existing, code)->0;
    let head = header(existing);
    let tail = footer(existing);
    lemma_container_parts(existing);
    assert(out.subrange(0, head.len() as int) =~= head);
    assert(out.subrange(head.len() as int, (head.len() + code.len()) as int) =~= code);
    assert(out.subrange((head.len() + code.len()) as int, out.len() as int) =~= tail);
    let parts = lemma_spliced_parts(existing, code);
    assert(out =~= head + (code + tail));
    lemma_header_found(head, code + tail);
}

/// What splicing produces is never empty and never lacks a marker, whatever
/// the code holds.
pub proof fn lemma_spliced_is_well_formed(existing: Seq<u8>, code: Seq<u8>)
    requires
        spliced(existing, code) is Some,
    ensures
        spliced(existing, code)->0.len() > 0,
        is_well_formed(spliced(existing, code)->0),
{
    let out = spliced(existing, code)->0;
    let parts = lemma_spliced_parts(existing, code);
    assert(out =~= parts.0 + (code + parts.1));
    lemma_header_found(parts.0, code + parts.1);
    lemma_footer_exists(parts.0, code, parts.1);
}

/// Where the code holds no asset-section marker, the result reads back as it
/// was put together: its code body is `code`, and its footer is the old footer
/// or, for a fresh container, the bare asset-section marker.
pub proof fn lemma_spliced_reads_back(existing: Seq<u8>, code: Seq<u8>)
    requires
        spliced(existing, code) is Some,
        !contains(code, asset_marker()),
    ensures
        code_body(spliced(existing, code)->0) == code,
        existing.len() > 0 ==> footer(spliced(existing, code)->0) == footer(existing),
        existing.len() == 0 ==> footer(spliced(existing, code)->0) == asset_marker(),
{
    let out = spliced(existing, code)->0;
    let parts = lemma_spliced_parts(existing, code);
    assert(out =~= parts.0 + (code + parts.1));
    lemma_header_found(parts.0, code + parts.1);
    lemma_footer_found(parts.0, code, parts.1);
    assert(code_body(out) =~= code);
    assert(footer(out) =~= parts.1);
}

/// Splicing the same code a second time changes nothing, provided the code
/// holds no asset-section marker.
pub proof fn lemma_splice_idempotent(existing: Seq<u8>, code: Seq<u8>)
    requires
        spliced(existing, code) is Some,
        !contains(code, asset_marker()),
    ensures
        spliced(spliced(existing, code)->0, code) == spliced(existing, code),
{
    let out = spliced(existing, code)->0;
    let parts = lemma_spliced_parts(existing, code);
    assert(out =~= parts.0 + (code + parts.1));
    lemma_header_found(parts.0, code + parts.1);
    lemma_footer_found(parts.0, code, parts.1);
    assert(footer(out) =~= parts.1);
    assert(header(out) + code + footer(out) =~= out);
}

} // verus!
