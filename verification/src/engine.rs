//! The embedding and extraction engines: walk the eligible pixel bytes in
//! buffer order, nudge each carrier byte by one to store a bit, and recover
//! the bits later by diffing the encoded image against the original.

use vstd::prelude::*;
use vstd::arithmetic::div_mod::lemma_div_multiples_vanish;
use vstd::arithmetic::div_mod::lemma_fundamental_div_mod;
use vstd::arithmetic::div_mod::lemma_fundamental_div_mod_converse;
use vstd::arithmetic::div_mod::lemma_mod_bound;
use vstd::math::min;
use vstd::slice::slice_to_vec;
use crate::bits::BitGetter;
use crate::bits::BitSetter;
use crate::bits::bit_of;
use crate::bits::bits_of_bytes;
use crate::bits::lemma_byte_of_bits;
use crate::bits::packed_bytes;

verus! {

/// The placement policy: byte `i` of the pixel buffer may carry a payload
/// bit unless it sits at the alpha position of its pixel's byte group.
pub open spec fn is_carrier_index(i: int, bpp: int, has_alpha: bool) -> bool {
    !has_alpha || i % (bpp + 1) != bpp
}

/// How many carrier bytes lie below index `n`.
pub open spec fn carrier_count(n: int, bpp: int, has_alpha: bool) -> int
    decreases n,
{
    if n <= 0 {
        0
    } else {
        carrier_count(n - 1, bpp, has_alpha) + if is_carrier_index(n - 1, bpp, has_alpha) {
            1int
        } else {
            0int
        }
    }
}

pub proof fn lemma_carrier_count_bounds(n: int, bpp: int, has_alpha: bool)
    requires
        n >= 0,
    ensures
        0 <= carrier_count(n, bpp, has_alpha) <= n,
    decreases n,
{
    if n > 0 {
        lemma_carrier_count_bounds(n - 1, bpp, has_alpha);
    }
}

/// With no alpha channel every byte is a carrier.
pub proof fn lemma_carrier_count_no_alpha(n: int, bpp: int)
    requires
        n >= 0,
    ensures
        carrier_count(n, bpp, false) == n,
    decreases n,
{
    if n > 0 {
        lemma_carrier_count_no_alpha(n - 1, bpp);
    }
}

/// With an alpha channel exactly the alpha positions are skipped: `n / (bpp
/// + 1)` of the first `n` bytes.
pub proof fn lemma_carrier_count_alpha(n: int, bpp: int)
    requires
        n >= 0,
        bpp >= 1,
    ensures
        carrier_count(n, bpp, true) == n - n / (bpp + 1),
    decreases n,
{
    let d = bpp + 1;
    if n == 0 {
        lemma_fundamental_div_mod_converse(0, d, 0, 0);
    } else {
        lemma_carrier_count_alpha(n - 1, bpp);
        let q = (n - 1) / d;
        let r = (n - 1) % d;
        lemma_fundamental_div_mod(n - 1, d);
        lemma_mod_bound(n - 1, d);
        if r == d - 1 {
            assert(n == (q + 1) * d + 0) by (nonlinear_arith)
                requires
                    n - 1 == d * q + r,
                    r == d - 1,
            ;
            lemma_fundamental_div_mod_converse(n, d, q + 1, 0);
        } else {
            assert(n == q * d + (r + 1)) by (nonlinear_arith)
                requires
                    n - 1 == d * q + r,
            ;
            lemma_fundamental_div_mod_converse(n, d, q, r + 1);
        }
    }
}

/// The carrier bytes of a whole `width x height` pixel buffer are exactly
/// the color bytes: `width * height * bpp` of them.
pub proof fn lemma_carrier_count_total(w: int, h: int, bpp: int, has_alpha: bool)
    requires
        w >= 0,
        h >= 0,
        bpp >= 1,
    ensures
        carrier_count(
            w * h * (bpp + if has_alpha {
                1int
            } else {
                0int
            }),
            bpp,
            has_alpha,
        ) == w * h * bpp,
{
    let m = w * h;
    assert(m >= 0) by (nonlinear_arith)
        requires
            m == w * h,
            w >= 0,
            h >= 0,
    ;
    if has_alpha {
        let d = bpp + 1;
        let n = m * d;
        assert(n >= 0) by (nonlinear_arith)
            requires
                n == m * d,
                m >= 0,
                d > 0,
        ;
        lemma_carrier_count_alpha(n, bpp);
        lemma_div_multiples_vanish(m, d);
        assert(n == d * m) by (nonlinear_arith)
            requires
                n == m * d,
        ;
        assert(m * d - m == m * bpp) by (nonlinear_arith)
            requires
                d == bpp + 1,
        ;
    } else {
        lemma_carrier_count_no_alpha(m * bpp, bpp);
    }
}

/// Exec mirror of [`is_carrier_index`].
pub fn is_carrier(i: usize, bpp: u8, has_alpha: bool) -> (r: bool)
    requires
        bpp < 255,
    ensures
        r == is_carrier_index(i as int, bpp as int, has_alpha),
{
    !has_alpha || i % (bpp as usize + 1) != bpp as usize
}

/// How a carrier byte stores one bit: a zero bit leaves it alone; a one bit
/// moves it up by one, or down by one when it is already at the maximum, so
/// the stored byte always differs from the original by exactly one.
pub open spec fn perturbed(b: u8, bit: bool) -> u8 {
    if !bit {
        b
    } else if b == 255 {
        254u8
    } else {
        (b + 1) as u8
    }
}

/// Byte `i` of the pixel buffer after embedding: carrier bytes take the next
/// container bit in order; alpha bytes and bytes past the bit stream's end
/// are untouched.
pub open spec fn embedded_byte(orig: Seq<u8>, cont: Seq<u8>, bpp: int, has_alpha: bool, i: int) -> u8 {
    let j = carrier_count(i, bpp, has_alpha);
    if is_carrier_index(i, bpp, has_alpha) && j < cont.len() * 8 {
        perturbed(orig[i], bits_of_bytes(cont)[j])
    } else {
        orig[i]
    }
}

/// The whole pixel buffer after embedding a serialized container.
pub open spec fn embedded_data(orig: Seq<u8>, cont: Seq<u8>, bpp: int, has_alpha: bool) -> Seq<u8> {
    Seq::new(orig.len(), |i: int| embedded_byte(orig, cont, bpp, has_alpha, i))
}

/// Embeds the container's bits into the pixel buffer, one bit per carrier
/// byte in ascending order, stopping once the bit stream is exhausted.
pub fn embed_bits(data: &mut Vec<u8>, container: &[u8], bpp: u8, has_alpha: bool)
    requires
        bpp == 1 || bpp == 3,
    ensures
        final(data)@ == embedded_data(old(data)@, container@, bpp as int, has_alpha),
{
    let ghost orig = old(data)@;
    let ghost clen8: int = (container@.len() * 8) as int;
    let mut getter = BitGetter::new(container);
    let mut i: usize = 0;
    while i < data.len()
        invariant
            getter.wf(),
            getter.src() == container@,
            bpp == 1 || bpp == 3,
            i <= data@.len(),
            data@.len() == orig.len(),
            clen8 == container@.len() * 8,
            getter.pos() == if carrier_count(i as int, bpp as int, has_alpha) < clen8 {
                carrier_count(i as int, bpp as int, has_alpha)
            } else {
                clen8
            },
            forall|t: int|
                0 <= t < i ==> data@[t] == embedded_byte(orig, container@, bpp as int, has_alpha, t),
            forall|t: int| i <= t < data@.len() ==> data@[t] == orig[t],
        decreases data@.len() - i,
    {
        proof {
            lemma_carrier_count_bounds(i as int, bpp as int, has_alpha);
        }
        if is_carrier(i, bpp, has_alpha) {
            match getter.next() {
                Some(bit) => {
                    if bit {
                        let v = data[i];
                        if v == 255 {
                            data[i] = 254;
                        } else {
                            data[i] = v + 1;
                        }
                    }
                },
                None => {},
            }
        }
        i += 1;
    }
    proof {
        assert(data@ =~= embedded_data(orig, container@, bpp as int, has_alpha));
    }
}

/// The bit stream extraction recovers from two pixel buffers compared up to
/// index `n`: one bit per carrier byte, set when the bytes differ.
pub open spec fn diff_bits(orig: Seq<u8>, carrier: Seq<u8>, bpp: int, has_alpha: bool, n: int) -> Seq<bool>
    decreases n,
{
    if n <= 0 {
        Seq::empty()
    } else {
        diff_bits(orig, carrier, bpp, has_alpha, n - 1) + if is_carrier_index(
            n - 1,
            bpp,
            has_alpha,
        ) {
            seq![orig[n - 1] != carrier[n - 1]]
        } else {
            Seq::<bool>::empty()
        }
    }
}

/// Alpha preservation: embedding never touches a byte the placement policy
/// skips, whatever the payload.
pub proof fn lemma_alpha_preserved(orig: Seq<u8>, cont: Seq<u8>, bpp: int, has_alpha: bool, i: int)
    requires
        0 <= i < orig.len(),
        !is_carrier_index(i, bpp, has_alpha),
    ensures
        embedded_data(orig, cont, bpp, has_alpha)[i] == orig[i],
{
}

/// The one invariant extraction relies on: a stored one bit always leaves
/// the byte different from the original (a byte at the maximum saturates
/// down to 254 instead of overflowing), and a zero bit leaves it equal.
pub proof fn lemma_perturbed_differs(b: u8, bit: bool)
    ensures
        (perturbed(b, bit) != b) == bit,
        perturbed(255u8, true) == 254u8,
{
}

/// What the difference bits of an embedded buffer against its original are:
/// the container's own bit stream, followed by zero bits for every carrier
/// byte the stream did not reach.
pub proof fn lemma_diff_of_embedded(orig: Seq<u8>, cont: Seq<u8>, bpp: int, has_alpha: bool, n: int)
    requires
        0 <= n <= orig.len(),
    ensures
        ({
            let db = diff_bits(orig, embedded_data(orig, cont, bpp, has_alpha), bpp, has_alpha, n);
            &&& db.len() == carrier_count(n, bpp, has_alpha)
            &&& forall|j: int|
                0 <= j < db.len() ==> #[trigger] db[j] == (j < cont.len() * 8 && bits_of_bytes(
                    cont,
                )[j])
        }),
    decreases n,
{
    if n > 0 {
        lemma_diff_of_embedded(orig, cont, bpp, has_alpha, n - 1);
        lemma_carrier_count_bounds(n - 1, bpp, has_alpha);
        let emb = embedded_data(orig, cont, bpp, has_alpha);
        let prev = diff_bits(orig, emb, bpp, has_alpha, n - 1);
        let db = diff_bits(orig, emb, bpp, has_alpha, n);
        if is_carrier_index(n - 1, bpp, has_alpha) {
            let j0 = carrier_count(n - 1, bpp, has_alpha);
            assert(emb[n - 1] == embedded_byte(orig, cont, bpp, has_alpha, n - 1));
            if j0 < cont.len() * 8 {
                assert(emb[n - 1] == perturbed(orig[n - 1], bits_of_bytes(cont)[j0]));
                assert((orig[n - 1] != emb[n - 1]) == bits_of_bytes(cont)[j0]);
            } else {
                assert(emb[n - 1] == orig[n - 1]);
            }
            assert(db == prev + seq![orig[n - 1] != emb[n - 1]]);
            assert forall|j: int| 0 <= j < db.len() implies #[trigger] db[j] == (j < cont.len() * 8
                && bits_of_bytes(cont)[j]) by {
                if j < prev.len() {
                    assert(db[j] == prev[j]);
                } else {
                    assert(j == j0);
                    assert(db[j] == (orig[n - 1] != emb[n - 1]));
                }
            }
        } else {
            assert(db =~= prev);
        }
    }
}

/// Walks the eligible bytes of the original and the carrier image side by
/// side, up to the shorter buffer's end, and packs the difference bits into
/// bytes.
pub fn extract_bits(original: &[u8], carrier: &[u8], bpp: u8, has_alpha: bool) -> (r: Vec<u8>)
    requires
        bpp == 1 || bpp == 3,
    ensures
        r@ == packed_bytes(
            diff_bits(
                original@,
                carrier@,
                bpp as int,
                has_alpha,
                min(original@.len() as int, carrier@.len() as int),
            ),
        ),
{
    let n = if original.len() < carrier.len() {
        original.len()
    } else {
        carrier.len()
    };
    let mut setter = BitSetter::new();
    let mut i: usize = 0;
    while i < n
        invariant
            setter.wf(),
            setter.pushed() == diff_bits(original@, carrier@, bpp as int, has_alpha, i as int),
            i <= n,
            n <= original@.len(),
            n <= carrier@.len(),
            n == min(original@.len() as int, carrier@.len() as int),
            bpp == 1 || bpp == 3,
        decreases n - i,
    {
        if is_carrier(i, bpp, has_alpha) {
            setter.push_bit(original[i] != carrier[i]);
        }
        i += 1;
        proof {
            assert(setter.pushed() =~= diff_bits(
                original@,
                carrier@,
                bpp as int,
                has_alpha,
                i as int,
            ));
        }
    }

    let out = slice_to_vec(setter.data());
    proof {
        let db = diff_bits(original@, carrier@, bpp as int, has_alpha, n as int);
        assert forall|t: int| 0 <= t < out@.len() implies out@[t] == packed_bytes(db)[t] by {
            let group = db.subrange(8 * t, 8 * t + 8);
            assert forall|k: int| 0 <= k < 8 implies #[trigger] group[k] == bit_of(out@[t], k) by {
                assert(bit_of(out@[t], k) == db[t * 8 + k]);
            }
            lemma_byte_of_bits(out@[t], group);
        }
        assert(out@ =~= packed_bytes(db));
    }
    out
}

} // verus!
