//! The wire framing of a transfer.
//!
//! The only structured message in the protocol is the metadata frame: a
//! 4-byte big-endian `u32` length prefix followed by exactly that many
//! bytes of encoded metadata.  The metadata encoding itself is the file's
//! base name, as a `u64` little-endian byte count followed by the name
//! bytes, then the payload size as a `u64` little-endian value.  All
//! payload bytes after the frame travel as an undelimited raw stream.

use crate::errors::TransferError;
use vstd::bytes::{
    lemma_auto_spec_u64_to_from_le_bytes, spec_u64_from_le_bytes, spec_u64_to_le_bytes,
    u64_from_le_bytes, u64_to_le_bytes,
};
use vstd::prelude::*;
use vstd::slice::{slice_subrange, slice_to_vec};

verus! {

/// The metadata sent once per transfer, before any payload bytes.
///
/// `name` holds the UTF-8 bytes of the file's base name and is used
/// verbatim as the receiver's output file name; `size` is the exact byte
/// length of the payload that follows the frame, and is the sole
/// termination signal for the payload phase.
#[derive(Debug, PartialEq, Eq)]
pub struct FileMetadata {
    pub name: Vec<u8>,
    pub size: u64,
}

/// The encoding of one metadata record.
pub open spec fn spec_metadata_encoding(name: Seq<u8>, size: u64) -> Seq<u8> {
    spec_u64_to_le_bytes(name.len() as u64) + name + spec_u64_to_le_bytes(size)
}

/// Whether `b` is exactly one well-formed metadata encoding: long enough
/// to hold the two fixed fields, with a name length that accounts for
/// every remaining byte.
pub open spec fn metadata_encoding_well_formed(b: Seq<u8>) -> bool {
    &&& b.len() >= 16
    &&& spec_u64_from_le_bytes(b.subrange(0, 8)) == b.len() - 16
}

/// The name bytes of a well-formed encoding.
pub open spec fn spec_decoded_name(b: Seq<u8>) -> Seq<u8>
    recommends
        metadata_encoding_well_formed(b),
{
    b.subrange(8, b.len() - 8)
}

/// The size field of a well-formed encoding.
pub open spec fn spec_decoded_size(b: Seq<u8>) -> u64
    recommends
        metadata_encoding_well_formed(b),
{
    spec_u64_from_le_bytes(b.subrange(b.len() - 8, b.len() as int))
}

/// Appends every byte of `src` to `dst`, in order.
pub fn append_bytes(dst: &mut Vec<u8>, src: &[u8])
    ensures
        final(dst)@ == old(dst)@ + src@,
{
    proof {
        assert(old(dst)@ + src@.subrange(0, 0) =~= old(dst)@);
    }
    let mut i: usize = 0;
    while i < src.len()
        invariant
            i <= src@.len(),
            dst@ == old(dst)@ + src@.subrange(0, i as int),
        decreases src@.len() - i,
    {
        proof {
            assert(src@.subrange(0, i as int + 1) =~= src@.subrange(0, i as int).push(
                src@[i as int],
            ));
        }
        dst.push(src[i]);
        i += 1;
    }
    proof {
        assert(src@.subrange(0, src@.len() as int) =~= src@);
    }
}

/// Encodes a metadata record for the wire.
pub fn encode_metadata(m: &FileMetadata) -> (r: Vec<u8>)
    ensures
        r@ == spec_metadata_encoding(m.name@, m.size),
        r@.len() == 16 + m.name@.len(),
{
    let mut out = u64_to_le_bytes(m.name.len() as u64);
    append_bytes(&mut out, m.name.as_slice());
    let mut tail = u64_to_le_bytes(m.size);
    out.append(&mut tail);
    proof {
        assert(out@ =~= spec_metadata_encoding(m.name@, m.size));
    }
    out
}

/// Decodes one metadata record, failing with a protocol error on any
/// buffer that is not exactly one well-formed encoding (too short,
/// truncated name, or trailing bytes).
pub fn decode_metadata(b: &[u8]) -> (r: Result<FileMetadata, TransferError>)
    ensures
        r is Ok <==> metadata_encoding_well_formed(b@),
        r matches Ok(m) ==> m.name@ == spec_decoded_name(b@) && m.size == spec_decoded_size(b@),
        r matches Err(e) ==> e == TransferError::Protocol,
{
    if b.len() < 16 {
        return Err(TransferError::Protocol);
    }
    let declared = u64_from_le_bytes(slice_subrange(b, 0, 8));
    let remainder = (b.len() - 16) as u64;
    if declared != remainder {
        return Err(TransferError::Protocol);
    }
    let name = slice_to_vec(slice_subrange(b, 8, b.len() - 8));
    let size = u64_from_le_bytes(slice_subrange(b, b.len() - 8, b.len()));
    Ok(FileMetadata { name, size })
}

/// Round trip of the metadata encoding: every record whose name length
/// fits the length field encodes to a well-formed buffer that decodes
/// back to the same name and size.
pub proof fn lemma_metadata_round_trip(name: Seq<u8>, size: u64)
    requires
        name.len() <= u64::MAX,
    ensures
        metadata_encoding_well_formed(spec_metadata_encoding(name, size)),
        spec_decoded_name(spec_metadata_encoding(name, size)) == name,
        spec_decoded_size(spec_metadata_encoding(name, size)) == size,
{
    let e = spec_metadata_encoding(name, size);
    lemma_auto_spec_u64_to_from_le_bytes();
    assert(e.len() == 16 + name.len());
    assert(e.subrange(0, 8) =~= spec_u64_to_le_bytes(name.len() as u64));
    assert(e.subrange(8, e.len() - 8) =~= name);
    assert(e.subrange(e.len() - 8, e.len() as int) =~= spec_u64_to_le_bytes(size));
}

/// Whether a received name is safe to join to the output directory: a
/// single nonempty path component, with no path separators, no NUL, and
/// neither a dot nor a dot-dot segment.  The name field is
/// peer-controlled input; an unchecked join could write outside the
/// output directory.
pub open spec fn spec_name_is_safe(name: Seq<u8>) -> bool {
    &&& name.len() > 0
    &&& forall|i: int|
        0 <= i < name.len() ==> name[i] != 0x2f && name[i] != 0x5c && name[i] != 0
    &&& name != seq![0x2eu8]
    &&& name != seq![0x2eu8, 0x2eu8]
}

/// Checks that a received name is confined to a single path component.
pub fn name_is_safe(name: &[u8]) -> (r: bool)
    ensures
        r == spec_name_is_safe(name@),
{
    if name.len() == 0 {
        return false;
    }
    if name.len() == 1 && name[0] == 0x2e {
        proof {
            assert(name@ =~= seq![0x2eu8]);
        }
        return false;
    }
    if name.len() == 2 && name[0] == 0x2e && name[1] == 0x2e {
        proof {
            assert(name@ =~= seq![0x2eu8, 0x2eu8]);
        }
        return false;
    }
    let mut i: usize = 0;
    while i < name.len()
        invariant
            i <= name@.len(),
            forall|j: int| 0 <= j < i ==> name@[j] != 0x2f && name@[j] != 0x5c && name@[j] != 0,
        decreases name@.len() - i,
    {
        let b = name[i];
        if b == 0x2f || b == 0x5c || b == 0 {
            return false;
        }
        i += 1;
    }
    true
}

/// The big-endian bytes of a `u32`, most significant first.
pub open spec fn spec_u32_to_be_bytes(x: u32) -> Seq<u8> {
    seq![
        ((x >> 24) & 0xff) as u8,
        ((x >> 16) & 0xff) as u8,
        ((x >> 8) & 0xff) as u8,
        (x & 0xff) as u8,
    ]
}

/// The `u32` read from four big-endian bytes.
pub open spec fn spec_u32_from_be_bytes(s: Seq<u8>) -> u32
    recommends
        s.len() == 4,
{
    ((s[0] as u32) << 24) | ((s[1] as u32) << 16) | ((s[2] as u32) << 8) | (s[3] as u32)
}

/// Round trip of the big-endian `u32` encoding.
pub proof fn lemma_u32_be_round_trip(x: u32)
    ensures
        spec_u32_to_be_bytes(x).len() == 4,
        spec_u32_from_be_bytes(spec_u32_to_be_bytes(x)) == x,
{
    assert((((((x >> 24) & 0xff) as u8) as u32) << 24 | ((((x >> 16) & 0xff) as u8) as u32) << 16
        | ((((x >> 8) & 0xff) as u8) as u32) << 8 | (((x & 0xff) as u8) as u32)) == x)
        by (bit_vector);
}

/// Writes `x` as four big-endian bytes.
pub fn u32_to_be_bytes_vec(x: u32) -> (r: Vec<u8>)
    ensures
        r@ == spec_u32_to_be_bytes(x),
        r@.len() == 4,
{
    proof {
        assert((x >> 24) & 0xff < 256 && (x >> 16) & 0xff < 256 && (x >> 8) & 0xff < 256 && x
            & 0xff < 256) by (bit_vector);
    }
    let mut r: Vec<u8> = Vec::new();
    r.push(((x >> 24) & 0xff) as u8);
    r.push(((x >> 16) & 0xff) as u8);
    r.push(((x >> 8) & 0xff) as u8);
    r.push((x & 0xff) as u8);
    proof {
        assert(r@ =~= spec_u32_to_be_bytes(x));
    }
    r
}

/// Reads a `u32` from four big-endian bytes.
pub fn u32_from_be_bytes_slice(b: &[u8]) -> (r: u32)
    requires
        b@.len() == 4,
    ensures
        r == spec_u32_from_be_bytes(b@),
{
    ((b[0] as u32) << 24) | ((b[1] as u32) << 16) | ((b[2] as u32) << 8) | (b[3] as u32)
}

/// The complete metadata frame: length prefix, then the frame body.
pub open spec fn spec_frame(body: Seq<u8>) -> Seq<u8> {
    spec_u32_to_be_bytes(body.len() as u32) + body
}

/// Encodes the complete metadata frame for a record: the big-endian
/// length of the encoded metadata, then the encoded metadata itself.
pub fn encode_metadata_frame(m: &FileMetadata) -> (r: Vec<u8>)
    requires
        m.name@.len() + 16 <= u32::MAX,
    ensures
        r@ == spec_frame(spec_metadata_encoding(m.name@, m.size)),
        r@.len() == 20 + m.name@.len(),
{
    let body = encode_metadata(m);
    let mut r = u32_to_be_bytes_vec(body.len() as u32);
    append_bytes(&mut r, body.as_slice());
    r
}

/// Round trip of the whole frame: the prefix of an encoded frame reads
/// back as the body length, and the rest of the frame is the body.
pub proof fn lemma_frame_round_trip(body: Seq<u8>)
    requires
        body.len() <= u32::MAX,
    ensures
        spec_frame(body).len() == 4 + body.len(),
        spec_u32_from_be_bytes(spec_frame(body).subrange(0, 4)) == body.len(),
        spec_frame(body).subrange(4, spec_frame(body).len() as int) == body,
{
    let f = spec_frame(body);
    lemma_u32_be_round_trip(body.len() as u32);
    assert(f.subrange(0, 4) =~= spec_u32_to_be_bytes(body.len() as u32));
    assert(f.subrange(4, f.len() as int) =~= body);
}

} // verus!
