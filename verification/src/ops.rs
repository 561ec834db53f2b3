//! The two top-level operations: embed a framed payload into a pixel buffer,
//! and extract one back by diffing a carrier image against its original.

use vstd::prelude::*;
use vstd::arithmetic::div_mod::lemma_fundamental_div_mod;
use vstd::arithmetic::div_mod::lemma_mod_bound;
use vstd::bytes::lemma_auto_spec_u64_to_from_le_bytes;
use vstd::math::min;
use crate::bits::bit_of;
use crate::bits::bits_of_bytes;
use crate::bits::byte_of_bits;
use crate::bits::lemma_byte_of_bits;
use crate::bits::packed_bytes;
use crate::capacity::max_data_bytes;
use crate::capacity::plan_capacity;
use crate::capacity::spec_container_size;
use crate::capacity::spec_max_data_bytes;
use crate::capacity::spec_real_size;
use crate::container::container_bytes;
use crate::container::decode_container;
use crate::container::decode_spec;
use crate::container::encode_container;
use crate::engine::diff_bits;
use crate::engine::embed_bits;
use crate::engine::embedded_data;
use crate::engine::extract_bits;
use crate::engine::lemma_carrier_count_total;
use crate::engine::lemma_diff_of_embedded;
use crate::container::lemma_container_round_trip;
use crate::errors::StegError;
use crate::image::ColorKind;
use crate::image::ImageMeta;
use crate::image::channel_info;
use crate::image::check_bit_depth;
use crate::image::color_bpp;
use crate::image::color_has_alpha;

verus! {

/// Whether an image's metadata lets it carry data at all.
pub open spec fn meta_supported(meta: ImageMeta) -> bool {
    meta.color != ColorKind::Indexed && meta.bit_depth >= 8
}

/// What extraction recovers from an original/carrier buffer pair: the
/// carrier's difference bits packed into bytes, decoded as a container.
pub open spec fn extracted_result(
    original: Seq<u8>,
    carrier: Seq<u8>,
    bpp: int,
    has_alpha: bool,
) -> Result<(Seq<u8>, Seq<u8>), StegError> {
    decode_spec(
        packed_bytes(
            diff_bits(
                original,
                carrier,
                bpp,
                has_alpha,
                min(original.len() as int, carrier.len() as int),
            ),
        ),
    )
}

/// Frames the payload and extension as a container and embeds its bits into
/// the pixel buffer, after checking that the image format is supported and
/// the container fits the image's capacity. On any error the buffer is left
/// untouched.
pub fn embed_payload(
    data: &mut Vec<u8>,
    meta: ImageMeta,
    payload: &[u8],
    extension: &[u8],
) -> (r: Result<(), StegError>)
    requires
        payload@.len() + extension@.len() + 9 <= usize::MAX,
    ensures
        (r is Ok) == (meta_supported(meta) && spec_container_size(
            payload@.len() as int,
            extension@.len() as int,
        ) <= spec_max_data_bytes(meta.width as int, meta.height as int, color_bpp(meta.color) as int)),
        r is Ok ==> final(data)@ == embedded_data(
            old(data)@,
            container_bytes(payload@, extension@),
            color_bpp(meta.color) as int,
            color_has_alpha(meta.color),
        ),
        !(r is Ok) ==> final(data)@ == old(data)@,
        r matches Err(e) ==> e == if !meta_supported(meta) {
            StegError::UnsupportedImageFormat
        } else {
            StegError::PayloadTooLarge {
                real_size: spec_real_size(
                    spec_max_data_bytes(
                        meta.width as int,
                        meta.height as int,
                        color_bpp(meta.color) as int,
                    ),
                    extension@.len() as int,
                ) as u64,
            }
        },
{
    let info = match channel_info(meta.color) {
        Ok(p) => p,
        Err(e) => {
            return Err(e);
        },
    };
    let has_alpha = info.0;
    let bpp = info.1;
    match check_bit_depth(meta.bit_depth) {
        Ok(u) => u,
        Err(e) => {
            return Err(e);
        },
    };
    let max = max_data_bytes(meta.width, meta.height, bpp);
    match plan_capacity(payload.len(), extension.len(), max) {
        Ok(u) => u,
        Err(e) => {
            return Err(e);
        },
    };
    let cont = encode_container(payload, extension);
    embed_bits(data, cont.as_slice(), bpp, has_alpha);
    Ok(())
}

/// Recovers the payload and extension from a carrier image by diffing it
/// against the untouched original. The two images must agree on geometry,
/// color layout and bit depth; that is checked before any bit is read.
pub fn extract_payload(
    original: &[u8],
    original_meta: ImageMeta,
    carrier: &[u8],
    carrier_meta: ImageMeta,
) -> (r: Result<(Vec<u8>, Vec<u8>), StegError>)
    ensures
        (r == Err::<(Vec<u8>, Vec<u8>), StegError>(StegError::FormatMismatch)) == (original_meta
            != carrier_meta),
        original_meta == carrier_meta && !meta_supported(carrier_meta) ==> r == Err::<
            (Vec<u8>, Vec<u8>),
            StegError,
        >(StegError::UnsupportedImageFormat),
        original_meta == carrier_meta && meta_supported(carrier_meta) ==> {
            let s = extracted_result(
                original@,
                carrier@,
                color_bpp(carrier_meta.color) as int,
                color_has_alpha(carrier_meta.color),
            );
            &&& (r is Ok) == (s is Ok)
            &&& (r matches Ok(pe) ==> {
                &&& s matches Ok(sv)
                &&& pe.0@ == sv.0
                &&& pe.1@ == sv.1
            })
            &&& (r matches Err(e) ==> s == Result::<(Seq<u8>, Seq<u8>), StegError>::Err(e))
        },
{
    if !(original_meta == carrier_meta) {
        return Err(StegError::FormatMismatch);
    }
    let info = match channel_info(carrier_meta.color) {
        Ok(p) => p,
        Err(e) => {
            return Err(e);
        },
    };
    let has_alpha = info.0;
    let bpp = info.1;
    match check_bit_depth(carrier_meta.bit_depth) {
        Ok(u) => u,
        Err(e) => {
            return Err(e);
        },
    };
    let extracted = extract_bits(original, carrier, bpp, has_alpha);
    decode_container(extracted.as_slice())
}

/// The round-trip law: any payload and zero-free extension whose framed
/// container fits the image's capacity is recovered exactly when the
/// embedded buffer is extracted against the original buffer.
pub proof fn lemma_round_trip(orig: Seq<u8>, payload: Seq<u8>, extension: Seq<u8>, meta: ImageMeta)
    requires
        meta_supported(meta),
        orig.len() == (meta.width as int) * (meta.height as int) * (color_bpp(meta.color) as int
            + if color_has_alpha(meta.color) {
            1int
        } else {
            0int
        }),
        forall|j: int| 0 <= j < extension.len() ==> extension[j] != 0,
        spec_container_size(payload.len() as int, extension.len() as int) <= spec_max_data_bytes(
            meta.width as int,
            meta.height as int,
            color_bpp(meta.color) as int,
        ),
    ensures
        extracted_result(
            orig,
            embedded_data(
                orig,
                container_bytes(payload, extension),
                color_bpp(meta.color) as int,
                color_has_alpha(meta.color),
            ),
            color_bpp(meta.color) as int,
            color_has_alpha(meta.color),
        ) == Ok::<(Seq<u8>, Seq<u8>), StegError>((payload, extension)),
{
    let w = meta.width as int;
    let h = meta.height as int;
    let bpp = color_bpp(meta.color) as int;
    let ha = color_has_alpha(meta.color);
    let cont = container_bytes(payload, extension);
    lemma_auto_spec_u64_to_from_le_bytes();
    assert(cont.len() == payload.len() + extension.len() + 9);

    let emb = embedded_data(orig, cont, bpp, ha);
    let n = orig.len() as int;
    assert(emb.len() == n);
    lemma_diff_of_embedded(orig, cont, bpp, ha, n);
    lemma_carrier_count_total(w, h, bpp, ha);
    let db = diff_bits(orig, emb, bpp, ha, n);
    let whb = w * h * bpp;
    assert(db.len() == whb);

    let max = spec_max_data_bytes(w, h, bpp);
    lemma_fundamental_div_mod(whb, 8);
    lemma_mod_bound(whb, 8);
    assert(cont.len() * 8 <= whb);

    let clen = cont.len() as int;
    let packed = packed_bytes(db);
    assert(packed.len() == whb / 8);
    assert forall|i: int| 0 <= i < packed.len() implies packed[i] == (if i < clen {
        cont[i]
    } else {
        0u8
    }) by {
        let group = db.subrange(8 * i, 8 * i + 8);
        if i < clen {
            assert forall|k: int| 0 <= k < 8 implies #[trigger] group[k] == bit_of(cont[i], k) by {
                assert((8 * i + k) / 8 == i && (8 * i + k) % 8 == k) by (nonlinear_arith)
                    requires
                        0 <= k < 8,
                ;
                assert(8 * i + k < clen * 8);
                assert(group[k] == db[8 * i + k]);
                assert(db[8 * i + k] == bits_of_bytes(cont)[8 * i + k]);
            }
            lemma_byte_of_bits(cont[i], group);
        } else {
            assert forall|k: int| 0 <= k < 8 implies #[trigger] group[k] == false by {
                assert(8 * i + k >= clen * 8);
                assert(group[k] == db[8 * i + k]);
            }
            assert(byte_of_bits(group) == 0);
        }
    }

    assert(whb <= 0xffffffff * 0xffffffff * 3) by (nonlinear_arith)
        requires
            whb == w * h * bpp,
            0 <= w <= 0xffffffff,
            0 <= h <= 0xffffffff,
            1 <= bpp <= 3,
    ;
    assert(payload.len() <= max <= whb);

    assert(clen <= packed.len());
    let pad = packed.subrange(clen, packed.len() as int);
    assert(packed =~= cont + pad);
    lemma_container_round_trip(payload, extension, pad);
    assert(extracted_result(orig, emb, bpp, ha) == decode_spec(packed));
}

} // verus!

