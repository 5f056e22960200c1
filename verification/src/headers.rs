//! The true-format header tables: the magic bytes that the engine's
//! fake header displaces and that restoration puts back.

use vstd::prelude::*;

verus! {

/// The 16-byte PNG table: the 8-byte PNG signature followed by the
/// start of the IHDR chunk.
pub open spec fn png_header_table() -> Seq<u8> {
    seq![
        0x89u8, 0x50, 0x4e, 0x47, 0x0d, 0x0a, 0x1a, 0x0a,
        0x00, 0x00, 0x00, 0x0d, 0x49, 0x48, 0x44, 0x52,
    ]
}

/// The 27-byte OGG table: the "OggS" capture pattern followed by
/// zeroed page-header fields.
pub open spec fn ogg_header_table() -> Seq<u8> {
    seq![
        0x4fu8, 0x67, 0x67, 0x53, 0x00, 0x00, 0x00, 0x00,
        0x00, 0x00, 0x00, 0x00, 0x00, 0x00, 0x00, 0x00,
        0x00, 0x00, 0x00, 0x00, 0x00, 0x00, 0x00, 0x00,
        0x00, 0x00, 0x00,
    ]
}

/// The 16-byte M4A table: a 32-byte `ftyp` box header for the
/// `M4A ` brand, truncated to its first half.
pub open spec fn m4a_header_table() -> Seq<u8> {
    seq![
        0x00u8, 0x00, 0x00, 0x20, 0x66, 0x74, 0x79, 0x70,
        0x4d, 0x34, 0x41, 0x20, 0x00, 0x00, 0x00, 0x00,
    ]
}

/// Builds `png_header_table` as a vector.
pub fn png_header_bytes() -> (v: Vec<u8>)
    ensures
        v@ == png_header_table(),
{
    let v: Vec<u8> = vec![
        0x89u8, 0x50, 0x4e, 0x47, 0x0d, 0x0a, 0x1a, 0x0a,
        0x00, 0x00, 0x00, 0x0d, 0x49, 0x48, 0x44, 0x52,
    ];
    proof {
        assert(v@ =~= png_header_table());
    }
    v
}

/// Builds `ogg_header_table` as a vector.
pub fn ogg_header_bytes() -> (v: Vec<u8>)
    ensures
        v@ == ogg_header_table(),
{
    let v: Vec<u8> = vec![
        0x4fu8, 0x67, 0x67, 0x53, 0x00, 0x00, 0x00, 0x00,
        0x00, 0x00, 0x00, 0x00, 0x00, 0x00, 0x00, 0x00,
        0x00, 0x00, 0x00, 0x00, 0x00, 0x00, 0x00, 0x00,
        0x00, 0x00, 0x00,
    ];
    proof {
        assert(v@ =~= ogg_header_table());
    }
    v
}

/// Builds `m4a_header_table` as a vector.
pub fn m4a_header_bytes() -> (v: Vec<u8>)
    ensures
        v@ == m4a_header_table(),
{
    let v: Vec<u8> = vec![
        0x00u8, 0x00, 0x00, 0x20, 0x66, 0x74, 0x79, 0x70,
        0x4d, 0x34, 0x41, 0x20, 0x00, 0x00, 0x00, 0x00,
    ];
    proof {
        assert(v@ =~= m4a_header_table());
    }
    v
}

} // verus!
