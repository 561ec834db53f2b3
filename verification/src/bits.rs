//! Bit-stream primitives: a reader that yields the bits of a byte buffer
//! LSB-first within each byte, and a writer that packs pushed bits back into
//! bytes, flushing one byte every eight pushes.

use vstd::prelude::*;

verus! {

/// Bit `k` (0 = least significant) of a byte.
pub open spec fn bit_of(byte: u8, k: int) -> bool
    recommends
        0 <= k < 8,
{
    (byte >> (k as u8)) & 1 == 1
}

/// All bits of a byte sequence: bit `i` is bit `i % 8` of byte `i / 8`,
/// so each byte is read from its least significant bit up.
pub open spec fn bits_of_bytes(bytes: Seq<u8>) -> Seq<bool> {
    Seq::new(bytes.len() * 8, |i: int| bit_of(bytes[i / 8], i % 8))
}

/// Yields the bits of a borrowed byte buffer one at a time, LSB-first within
/// each byte; exhausted after `8 * len` bits, after which it returns `None`.
pub struct BitGetter<'a> {
    data: &'a [u8],
    byte_ptr: usize,
    bit_ptr: u8,
}

impl<'a> BitGetter<'a> {
    /// The byte buffer the bits come from.
    pub closed spec fn src(self) -> Seq<u8> {
        self.data@
    }

    /// How many bits have been yielded so far.
    pub closed spec fn pos(self) -> int {
        self.byte_ptr * 8 + self.bit_ptr
    }

    pub closed spec fn wf(self) -> bool {
        &&& self.bit_ptr < 8
        &&& self.byte_ptr <= self.data@.len()
        &&& (self.byte_ptr == self.data@.len() ==> self.bit_ptr == 0)
    }

    pub fn new(data: &'a [u8]) -> (r: Self)
        ensures
            r.wf(),
            r.src() == data@,
            r.pos() == 0,
    {
        BitGetter { data, byte_ptr: 0, bit_ptr: 0 }
    }

    /// Yields the next bit, or `None` once all `8 * len` bits are out.
    pub fn next(&mut self) -> (r: Option<bool>)
        requires
            old(self).wf(),
        ensures
            final(self).wf(),
            final(self).src() == old(self).src(),
            old(self).pos() < old(self).src().len() * 8 ==> {
                &&& r == Some(bits_of_bytes(old(self).src())[old(self).pos()])
                &&& final(self).pos() == old(self).pos() + 1
            },
            old(self).pos() >= old(self).src().len() * 8 ==> {
                &&& r is None
                &&& final(self).pos() == old(self).pos()
            },
    {
        if self.byte_ptr < self.data.len() {
            let byte = self.data[self.byte_ptr];
            let bit = (byte >> self.bit_ptr) & 1 != 0;

            proof {
                let p = self.byte_ptr * 8 + self.bit_ptr;
                assert(p / 8 == self.byte_ptr && p % 8 == self.bit_ptr) by (nonlinear_arith)
                    requires
                        self.bit_ptr < 8,
                        p == self.byte_ptr * 8 + self.bit_ptr,
                ;
                let b8 = self.bit_ptr as u8;
                assert(((byte >> b8) & 1 != 0) == ((byte >> b8) & 1 == 1)) by (bit_vector);
            }

            self.bit_ptr += 1;
            if self.bit_ptr == 8 {
                self.bit_ptr = 0;
                self.byte_ptr += 1;
            }

            Some(bit)
        } else {
            None
        }
    }
}

pub open spec fn bit_val(b: bool) -> u8 {
    if b {
        1u8
    } else {
        0u8
    }
}

/// The byte whose bit `k` is `bits[k]`: the inverse of reading a byte
/// LSB-first.
pub open spec fn byte_of_bits(bits: Seq<bool>) -> u8
    recommends
        bits.len() == 8,
{
    (bit_val(bits[0]) + 2 * bit_val(bits[1]) + 4 * bit_val(bits[2]) + 8 * bit_val(bits[3]) + 16
        * bit_val(bits[4]) + 32 * bit_val(bits[5]) + 64 * bit_val(bits[6]) + 128 * bit_val(
        bits[7],
    )) as u8
}

/// Packs a bit sequence into bytes, eight bits each, first bit at bit 0;
/// a trailing group of fewer than eight bits is dropped.
pub open spec fn packed_bytes(bits: Seq<bool>) -> Seq<u8> {
    Seq::new(bits.len() / 8, |i: int| byte_of_bits(bits.subrange(8 * i, 8 * i + 8)))
}

/// A byte is determined by its eight bits.
pub proof fn lemma_byte_of_bits(b: u8, bits: Seq<bool>)
    requires
        bits.len() == 8,
        forall|k: int| 0 <= k < 8 ==> #[trigger] bits[k] == bit_of(b, k),
    ensures
        byte_of_bits(bits) == b,
{
    assert(forall|k: u8| k < 8 ==> #[trigger] ((b >> k) & 1) <= 1) by (bit_vector);
    assert(b == ((b >> 0) & 1) + 2 * ((b >> 1) & 1) + 4 * ((b >> 2) & 1) + 8 * ((b >> 3) & 1) + 16
        * ((b >> 4) & 1) + 32 * ((b >> 5) & 1) + 64 * ((b >> 6) & 1) + 128 * ((b >> 7) & 1))
        by (bit_vector);
    assert forall|k: int| 0 <= k < 8 implies bit_val(bits[k]) == (b >> (k as u8)) & 1 by {
        assert(((b >> (k as u8)) & 1) <= 1);
    }
}

/// Packing inverts reading: the bytes packed from a byte sequence's own
/// LSB-first bit stream are that byte sequence.
pub proof fn lemma_pack_unpack(bytes: Seq<u8>)
    ensures
        packed_bytes(bits_of_bytes(bytes)) == bytes,
{
    let bits = bits_of_bytes(bytes);
    assert forall|i: int| 0 <= i < bytes.len() implies packed_bytes(bits)[i] == bytes[i] by {
        let group = bits.subrange(8 * i, 8 * i + 8);
        assert forall|k: int| 0 <= k < 8 implies #[trigger] group[k] == bit_of(bytes[i], k) by {
            assert((8 * i + k) / 8 == i && (8 * i + k) % 8 == k) by (nonlinear_arith)
                requires
                    0 <= k < 8,
            ;
        }
        lemma_byte_of_bits(bytes[i], group);
    }
    assert(packed_bytes(bits) =~= bytes);
}

proof fn lemma_shift_chain(c: u8, b: u8, k: u8)
    by (bit_vector)
    requires
        k < 7,
    ensures
        (((c >> 1) | (b << 7)) >> k) & 1 == (c >> ((k + 1) as u8)) & 1,
{
}

proof fn lemma_shift_top(c: u8, b: u8)
    by (bit_vector)
    requires
        b <= 1,
    ensures
        ((((c >> 1) | (b << 7)) >> 7) & 1 == 1) == (b == 1),
{
}

proof fn lemma_zero_bits(k: u8)
    by (bit_vector)
    ensures
        (0u8 >> k) & 1 == 0,
{
}

/// Accumulates pushed bits into bytes. Each push shifts the accumulator down
/// and puts the new bit on top, so after eight pushes the first pushed bit
/// sits at bit 0 of the flushed byte and the eighth at bit 7: the writer is
/// the exact inverse of [`BitGetter`]'s LSB-first read order. A trailing
/// group of fewer than eight pushes is not visible through [`Self::data`].
pub struct BitSetter {
    data: Vec<u8>,
    current_byte: u8,
    bit_ptr: u8,
    bits: Ghost<Seq<bool>>,
}

impl BitSetter {
    /// Every bit pushed so far, in push order.
    pub closed spec fn pushed(self) -> Seq<bool> {
        self.bits@
    }

    pub closed spec fn wf(self) -> bool {
        &&& self.bit_ptr < 8
        &&& self.bits@.len() == self.data@.len() * 8 + self.bit_ptr
        &&& (forall|i: int, k: int|
            0 <= i < self.data@.len() && 0 <= k < 8 ==> #[trigger] bit_of(self.data@[i], k)
                == self.bits@[i * 8 + k])
        &&& (forall|k: int|
            0 <= k < 8 ==> #[trigger] bit_of(self.current_byte, k) == if k >= 8 - self.bit_ptr {
                self.bits@[self.data@.len() * 8 + k - 8 + self.bit_ptr]
            } else {
                false
            })
    }

    pub fn new() -> (r: Self)
        ensures
            r.wf(),
            r.pushed() == Seq::<bool>::empty(),
    {
        proof {
            assert(forall|k: u8| k < 8 ==> #[trigger] ((0u8 >> k) & 1) == 0) by (bit_vector);
        }
        BitSetter { data: Vec::new(), current_byte: 0, bit_ptr: 0, bits: Ghost(Seq::empty()) }
    }

    /// Appends one bit; flushes the accumulator into the buffer on every
    /// eighth push.
    pub fn push_bit(&mut self, bit: bool)
        requires
            old(self).wf(),
        ensures
            final(self).wf(),
            final(self).pushed() == old(self).pushed().push(bit),
    {
        let b: u8 = if bit {
            1
        } else {
            0
        };
        let ghost c = self.current_byte;
        let ghost old_ptr = self.bit_ptr;
        let ghost len = self.data@.len();
        self.current_byte = (self.current_byte >> 1) | (b << 7);
        let ghost cb = self.current_byte;

        proof {
            self.bits@ = self.bits@.push(bit);
            assert forall|k: int| 0 <= k < 8 implies #[trigger] bit_of(cb, k) == if k >= 8 - (
            old_ptr + 1) {
                self.bits@[len * 8 + k - 8 + (old_ptr + 1)]
            } else {
                false
            } by {
                if k == 7 {
                    lemma_shift_top(c, b);
                    assert(bit_of(cb, 7) == bit);
                } else {
                    lemma_shift_chain(c, b, k as u8);
                    assert(bit_of(cb, k) == bit_of(c, k + 1));
                }
            }
        }

        self.bit_ptr += 1;

        if self.bit_ptr == 8 {
            self.data.push(self.current_byte);
            self.current_byte = 0;
            self.bit_ptr = 0;
            proof {
                assert forall|k: int| 0 <= k < 8 implies #[trigger] bit_of(0u8, k) == false by {
                    lemma_zero_bits(k as u8);
                }
                assert forall|i: int, k: int|
                    0 <= i < self.data@.len() && 0 <= k < 8 implies #[trigger] bit_of(
                    self.data@[i],
                    k,
                ) == self.bits@[i * 8 + k] by {
                    if i < len {
                        assert(bit_of(old(self).data@[i], k) == old(self).bits@[i * 8 + k]);
                        assert(self.data@[i] == old(self).data@[i]);
                    } else {
                        assert(self.data@[i] == cb);
                        assert(bit_of(cb, k) == self.bits@[len * 8 + k]);
                    }
                }
            }
        }
    }

    /// The whole bytes accumulated so far: byte `i` holds pushed bits
    /// `8 * i` (at bit 0) through `8 * i + 7` (at bit 7).
    pub fn data(&self) -> (r: &[u8])
        requires
            self.wf(),
        ensures
            r@.len() == self.pushed().len() / 8,
            forall|i: int, k: int|
                0 <= i < r@.len() && 0 <= k < 8 ==> #[trigger] bit_of(r@[i], k) == self.pushed()[i
                    * 8 + k],
    {
        proof {
            assert(self.data@.len() == self.bits@.len() / 8) by (nonlinear_arith)
                requires
                    self.bits@.len() == self.data@.len() * 8 + self.bit_ptr,
                    0 <= self.bit_ptr < 8,
            ;
        }
        self.data.as_slice()
    }
}

} // verus!
