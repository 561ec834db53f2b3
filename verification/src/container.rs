//! The container framing format: an 8-byte little-endian payload length,
//! the file-extension bytes, one zero terminator byte, then the raw payload.
//! An empty extension marks the payload as a plain-text message.

use vstd::prelude::*;
use vstd::bytes::lemma_auto_spec_u64_to_from_le_bytes;
use vstd::bytes::spec_u64_from_le_bytes;
use vstd::bytes::spec_u64_to_le_bytes;
use vstd::bytes::u64_from_le_bytes;
use vstd::bytes::u64_to_le_bytes;
use vstd::slice::slice_subrange;
use vstd::slice::slice_to_vec;
use crate::errors::StegError;

verus! {

/// The serialized container for a payload and an extension tag.
pub open spec fn container_bytes(payload: Seq<u8>, extension: Seq<u8>) -> Seq<u8> {
    spec_u64_to_le_bytes(payload.len() as u64) + extension + seq![0u8] + payload
}

/// Index of the first zero byte of `d` at or after `i`, or `-1` if there is
/// none.
pub open spec fn find_zero(d: Seq<u8>, i: int) -> int
    recommends
        0 <= i <= d.len(),
    decreases d.len() - i,
    when 0 <= i <= d.len()
{
    if i >= d.len() {
        -1
    } else if d[i] == 0 {
        i
    } else {
        find_zero(d, i + 1)
    }
}

/// What decoding a flat byte buffer yields: the payload and the extension,
/// or the exact error. The length field must be present, a terminator must
/// follow the extension, and the declared payload must fit in what remains.
pub open spec fn decode_spec(d: Seq<u8>) -> Result<(Seq<u8>, Seq<u8>), StegError> {
    if d.len() < 8 {
        Err(StegError::MalformedContainer)
    } else {
        let z = find_zero(d, 8);
        if z < 0 {
            Err(StegError::MalformedContainer)
        } else {
            let length = spec_u64_from_le_bytes(d.subrange(0, 8)) as int;
            if length > d.len() - z - 1 {
                Err(StegError::TruncatedPayload)
            } else {
                Ok((d.subrange(z + 1, z + 1 + length), d.subrange(8, z)))
            }
        }
    }
}

/// Serializes a payload and an extension into the container layout.
pub fn encode_container(payload: &[u8], extension: &[u8]) -> (r: Vec<u8>)
    requires
        payload@.len() + extension@.len() + 9 <= usize::MAX,
    ensures
        r@ == container_bytes(payload@, extension@),
{
    proof {
        lemma_auto_spec_u64_to_from_le_bytes();
    }
    let mut out = u64_to_le_bytes(payload.len() as u64);
    out.extend_from_slice(extension);
    out.push(0);
    out.extend_from_slice(payload);
    proof {
        assert(out@ =~= container_bytes(payload@, extension@));
    }
    out
}

proof fn lemma_find_zero_skip(d: Seq<u8>, i: int, z: int)
    requires
        0 <= i <= z <= d.len(),
        forall|j: int| i <= j < z ==> d[j] != 0,
    ensures
        find_zero(d, i) == find_zero(d, z),
    decreases z - i,
{
    if i < z {
        lemma_find_zero_skip(d, i + 1, z);
    }
}

/// Deserializes a flat byte buffer (the result of extraction) back into a
/// payload and an extension, exactly as [`decode_spec`] describes.
pub fn decode_container(data: &[u8]) -> (r: Result<(Vec<u8>, Vec<u8>), StegError>)
    ensures
        (r is Ok) == (decode_spec(data@) is Ok),
        r matches Ok(pe) ==> {
            &&& decode_spec(data@) matches Ok(s)
            &&& pe.0@ == s.0
            &&& pe.1@ == s.1
        },
        r matches Err(e) ==> decode_spec(data@) == Result::<(Seq<u8>, Seq<u8>), StegError>::Err(e),
{
    if data.len() < 8 {
        return Err(StegError::MalformedContainer);
    }

    let length = u64_from_le_bytes(slice_subrange(data, 0, 8));

    let mut z: usize = 8;
    while z < data.len() && data[z] != 0
        invariant
            8 <= z <= data@.len(),
            forall|j: int| 8 <= j < z ==> data@[j] != 0,
        decreases data@.len() - z,
    {
        z += 1;
    }

    proof {
        lemma_find_zero_skip(data@, 8, z as int);
    }

    if z == data.len() {
        return Err(StegError::MalformedContainer);
    }

    let avail = (data.len() - z - 1) as u64;
    if length > avail {
        return Err(StegError::TruncatedPayload);
    }

    let len_usize = length as usize;
    let payload = slice_to_vec(slice_subrange(data, z + 1, z + 1 + len_usize));
    let extension = slice_to_vec(slice_subrange(data, 8, z));
    Ok((payload, extension))
}

/// Decoding inverts encoding: a container built from a payload and a
/// zero-free extension, possibly followed by zero padding, decodes back to
/// exactly that payload and extension.
pub proof fn lemma_container_round_trip(p: Seq<u8>, e: Seq<u8>, pad: Seq<u8>)
    requires
        forall|j: int| 0 <= j < e.len() ==> e[j] != 0,
        forall|j: int| 0 <= j < pad.len() ==> pad[j] == 0,
        p.len() <= u64::MAX,
    ensures
        decode_spec(container_bytes(p, e) + pad) == Ok::<_, StegError>((p, e)),
{
    lemma_auto_spec_u64_to_from_le_bytes();
    let d = container_bytes(p, e) + pad;
    let elen = e.len() as int;
    assert(d.subrange(0, 8) =~= spec_u64_to_le_bytes(p.len() as u64));
    lemma_find_zero_skip(d, 8, 8 + elen);
    assert(d[8 + elen] == 0);
    assert(find_zero(d, 8 + elen) == 8 + elen);
    let z = 8 + elen;
    let length = spec_u64_from_le_bytes(d.subrange(0, 8)) as int;
    assert(length == p.len());
    assert(length <= d.len() - z - 1);
    assert(d.subrange(z + 1, z + 1 + length) =~= p);
    assert(d.subrange(8, z) =~= e);
}

} // verus!
