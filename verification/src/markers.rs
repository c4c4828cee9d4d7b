//! The fixed byte strings of the container format.

use vstd::prelude::*;

verus! {

/// Length in bytes of each section marker.
pub const MARKER_LEN: usize = 8;

/// Length in bytes of the header of a freshly created container.
pub const BOOTSTRAP_HEADER_LEN: usize = 53;

/// The line that opens the code section: `__lua__` and a line feed.
pub open spec fn code_marker() -> Seq<u8> {
    seq![0x5fu8, 0x5fu8, 0x6cu8, 0x75u8, 0x61u8, 0x5fu8, 0x5fu8, 0x0au8]
}

/// The line that opens the asset section: `__gfx__` and a line feed.
pub open spec fn asset_marker() -> Seq<u8> {
    seq![0x5fu8, 0x5fu8, 0x67u8, 0x66u8, 0x78u8, 0x5fu8, 0x5fu8, 0x0au8]
}

/// The two lines that identify the format and its version, written only when a
/// container is created from nothing:
/// `pico-8 cartridge // http://www.pico-8.com` and `version 16`, each ended by a line feed.
pub open spec fn bootstrap_header() -> Seq<u8> {
    seq![
        0x70u8, 0x69u8, 0x63u8, 0x6fu8, 0x2du8, 0x38u8, 0x20u8, 0x63u8,
        0x61u8, 0x72u8, 0x74u8, 0x72u8, 0x69u8, 0x64u8, 0x67u8, 0x65u8,
        0x20u8, 0x2fu8, 0x2fu8, 0x20u8, 0x68u8, 0x74u8, 0x74u8, 0x70u8,
        0x3au8, 0x2fu8, 0x2fu8, 0x77u8, 0x77u8, 0x77u8, 0x2eu8, 0x70u8,
        0x69u8, 0x63u8, 0x6fu8, 0x2du8, 0x38u8, 0x2eu8, 0x63u8, 0x6fu8,
        0x6du8, 0x0au8, 0x76u8, 0x65u8, 0x72u8, 0x73u8, 0x69u8, 0x6fu8,
        0x6eu8, 0x20u8, 0x31u8, 0x36u8, 0x0au8,
    ]
}

/// The code-section marker as bytes.
pub fn code_marker_bytes() -> (m: [u8; 8])
    ensures
        m@ == code_marker(),
{
    let m: [u8; 8] = [0x5f, 0x5f, 0x6c, 0x75, 0x61, 0x5f, 0x5f, 0x0a];
    assert(m@ =~= code_marker());
    m
}

/// The asset-section marker as bytes.
pub fn asset_marker_bytes() -> (m: [u8; 8])
    ensures
        m@ == asset_marker(),
{
    let m: [u8; 8] = [0x5f, 0x5f, 0x67, 0x66, 0x78, 0x5f, 0x5f, 0x0a];
    assert(m@ =~= asset_marker());
    m
}

/// The header of a freshly created container as bytes.
pub fn bootstrap_header_bytes() -> (h: [u8; 53])
    ensures
        h@ == bootstrap_header(),
{
    let h: [u8; 53] = [
        0x70, 0x69, 0x63, 0x6f, 0x2d, 0x38, 0x20, 0x63,
        0x61, 0x72, 0x74, 0x72, 0x69, 0x64, 0x67, 0x65,
        0x20, 0x2f, 0x2f, 0x20, 0x68, 0x74, 0x74, 0x70,
        0x3a, 0x2f, 0x2f, 0x77, 0x77, 0x77, 0x2e, 0x70,
        0x69, 0x63, 0x6f, 0x2d, 0x38, 0x2e, 0x63, 0x6f,
        0x6d, 0x0a, 0x76, 0x65, 0x72, 0x73, 0x69, 0x6f,
        0x6e, 0x20, 0x31, 0x36, 0x0a,
    ];
    assert(h@ =~= bootstrap_header());
    h
}

/// No byte of the bootstrap header is an underscore, so no marker starts inside it.
pub proof fn lemma_bootstrap_header_has_no_underscore()
    ensures
        bootstrap_header().len() == BOOTSTRAP_HEADER_LEN,
        forall|k: int| 0 <= k < bootstrap_header().len() ==> bootstrap_header()[k] != 0x5fu8,
{
}

} // verus!
