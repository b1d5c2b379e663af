use vstd::arithmetic::div_mod::{
    lemma_div_is_ordered, lemma_div_non_zero, lemma_div_plus_one, lemma_div_pos_is_pos,
    lemma_fundamental_div_mod, lemma_mod_bound, lemma_small_mod,
};
use vstd::arithmetic::power2::{lemma2_to64, lemma2_to64_rest, lemma_pow2_pos, lemma_pow2_unfold, pow2};
use vstd::bits::{
    lemma_u64_low_bits_mask_is_mod, lemma_u64_pow2_no_overflow, lemma_u64_shl_is_mul,
    lemma_u64_shr_is_div, low_bits_mask,
};
use vstd::prelude::*;

verus! {

// ===========================================================================
// The packed bit array: 4096 fixed-width values packed into 64-bit words.
// Each word holds `64 / bits_per_entry` values; no value straddles a word
// boundary, and the slack bits at the top of each word stay zero.
// ===========================================================================

/// A mask of `length` low bits.
pub open spec fn mask_spec(length: nat) -> u64 {
    (pow2(length) - 1) as u64
}

/// The low-bit mask, with the all-ones edge case handled without the
/// `(1 << 64) - 1` trap.
pub fn mask(length: usize) -> (r: u64)
    requires
        length <= 64,
    ensures
        r == mask_spec(length as nat),
        r as int == pow2(length as nat) - 1,
{
    proof {
        lemma2_to64();
        lemma2_to64_rest();
    }
    if length == 64 {
        0xffff_ffff_ffff_ffff
    } else {
        proof {
            lemma_u64_pow2_no_overflow(length as nat);
            lemma_u64_shl_is_mul(1u64, length as u64);
        }
        (1u64 << (length as u64)) - 1
    }
}

/// The first width, at least four, whose range covers the palette:
/// `bits_per_entry == max(4, ceil(log2(palette_size)))`.
pub open spec fn bpe_rec(palette_size: int, k: int) -> int
    decreases 64 - k,
{
    if k >= 64 {
        64
    } else if pow2(k as nat) >= palette_size {
        k
    } else {
        bpe_rec(palette_size, k + 1)
    }
}

pub open spec fn bpe_spec(palette_size: int) -> int {
    bpe_rec(palette_size, 4)
}

pub proof fn lemma_bpe_rec_bounds(palette_size: int, k: int)
    requires
        0 <= k <= 63,
        palette_size <= pow2(63),
    ensures
        k <= bpe_rec(palette_size, k) <= 63,
        pow2(bpe_rec(palette_size, k) as nat) >= palette_size,
    decreases 64 - k,
{
    if pow2(k as nat) >= palette_size {
    } else if k == 63 {
        assert(bpe_rec(palette_size, 63) == 63);
    } else {
        lemma_bpe_rec_bounds(palette_size, k + 1);
    }
}

/// Bounds that tie a slot index to its word and its bit offset.
proof fn lemma_slot_bounds(i: int, bpe: int)
    requires
        1 <= bpe <= 63,
        0 <= i < 4096,
    ensures
        0 <= i % (64int / bpe) < (64int / bpe),
        (i % (64int / bpe)) * bpe + bpe <= 64,
        0 <= i / (64int / bpe),
        i / (64int / bpe) < (4096 + (64int / bpe) - 1) / (64int / bpe),
{
    let vpl = 64int / bpe;
    assert(vpl >= 1) by (nonlinear_arith)
        requires
            1 <= bpe <= 63,
            vpl == 64int / bpe,
    ;
    lemma_mod_bound(i, vpl);
    assert((i % vpl) * bpe + bpe <= 64) by (nonlinear_arith)
        requires
            1 <= bpe <= 63,
            vpl == 64int / bpe,
            0 <= i % vpl < vpl,
    ;
    lemma_div_pos_is_pos(i, vpl);
    lemma_div_is_ordered(i, 4095, vpl);
    assert((4096 + vpl - 1) / vpl == (4095int + vpl) / vpl);
    lemma_div_plus_one(4095, vpl);
}

/// OR-writing a value into a zeroed slot makes the slot read that value.
#[verifier::rlimit(100)]
proof fn lemma_bv_put_same(w: u64, v: u64, off: u64, bpe: u64, m: u64)
    by (bit_vector)
    requires
        1 <= bpe <= 63,
        off + bpe <= 64,
        m == (1u64 << bpe) - 1,
        v & m == v,
        (w >> off) & m == 0,
    ensures
        ((w | (v << off)) >> off) & m == v,
{
}

/// OR-writing a value into one slot leaves a disjoint slot's bits alone.
#[verifier::rlimit(100)]
proof fn lemma_bv_put_other(w: u64, v: u64, off: u64, off2: u64, bpe: u64, m: u64)
    by (bit_vector)
    requires
        1 <= bpe <= 63,
        off + bpe <= 64,
        off2 + bpe <= 64,
        off2 + bpe <= off || off + bpe <= off2,
        m == (1u64 << bpe) - 1,
        v & m == v,
    ensures
        ((w | (v << off)) >> off2) & m == (w >> off2) & m,
{
}

/// Every other bit of a word is unused: ORing a fresh value into a word
/// keeps it under the same power of two.
proof fn lemma_bv_or_lt(a: u64, b: u64, m: u64)
    by (bit_vector)
    requires
        m < 64,
        a < (1u64 << m),
        b < (1u64 << m),
    ensures
        (a | b) < (1u64 << m),
{
}

/// A value below 2^k shifted left by `off` stays below 2^(off+k).
proof fn lemma_bv_shl_lt(v: u64, off: u64, k: u64)
    by (bit_vector)
    requires
        off + k <= 63,
        v < (1u64 << k),
    ensures
        (v << off) < (1u64 << (off + k)),
{
}

/// The bits a word actually uses: `bits_per_entry` for each of its slots,
/// fewer in the trailing word when 4096 is not a multiple of the count.
pub open spec fn word_used_bits(j: int, vpl: int, bpe: int) -> int {
    let slots = if 4096 - j * vpl < vpl {
        4096 - j * vpl
    } else {
        vpl
    };
    slots * bpe
}

/// No junk outside the value slots: every word stays below the power of
/// two spanned by its used slots, so slack bits at the top of each word and
/// the unused slots of the trailing word are zero.
pub open spec fn slack_zero(words: Seq<u64>, bpe: int) -> bool {
    let vpl = 64int / bpe;
    forall|j: int|
        0 <= j < words.len() ==> (#[trigger] words[j] as int) < pow2(
            word_used_bits(j, vpl, bpe) as nat,
        )
}

/// Each word's used bits lie between one slot's width and the word size.
proof fn lemma_used_bits_bounds(j: int, bpe: int, len: int)
    by (nonlinear_arith)
    requires
        4 <= bpe <= 63,
        len == (4096 + (64int / bpe) - 1) / (64int / bpe),
        0 <= j < len,
    ensures
        bpe <= word_used_bits(j, 64int / bpe, bpe) <= 64,
{
    let vpl = 64int / bpe;
    assert(vpl >= 1);
    assert(vpl * bpe <= 64);
    assert(j * vpl < 4096);
}

/// Minecraft's packed bit array: a dense array of 4096 unsigned values,
/// each `bits_per_entry` bits wide.
pub struct PackedBitArray {
    pub data: Vec<u64>,
    pub bits_per_entry: usize,
    pub values_per_long: usize,
}

impl PackedBitArray {
    /// The width is the one computed for the palette, whole values fit a
    /// word, and the word count matches `ceil(4096 / values_per_long)`.
    pub open spec fn wf(self) -> bool {
        &&& 4 <= self.bits_per_entry <= 63
        &&& self.values_per_long == 64int / (self.bits_per_entry as int)
        &&& self.data@.len() == (4096int + self.values_per_long as int - 1) / (
        self.values_per_long as int)
    }

    /// The value stored in slot `i`: the `bits_per_entry`-bit field at bit
    /// offset `(i % values_per_long) * bits_per_entry` of its word.
    pub open spec fn spec_get(self, i: int) -> u64 {
        let vpl = self.values_per_long as int;
        let off = (i % vpl) * self.bits_per_entry as int;
        ((self.data@[i / vpl] as int / (pow2(off as nat) as int)) % (pow2(
            self.bits_per_entry as nat,
        ) as int)) as u64
    }

    /// Constructs the array over existing words; the word count must match
    /// the formula for the palette's width.
    pub fn new(data: Vec<u64>, palette_size: usize) -> (r: Self)
        requires
            palette_size <= 0x8000_0000_0000_0000,
            data@.len() == (4096 + (64int / bpe_spec(palette_size as int)) - 1) / (64int
                / bpe_spec(palette_size as int)),
        ensures
            r.wf(),
            r.bits_per_entry == bpe_spec(palette_size as int),
            r.data@ == data@,
    {
        let bits_per_entry = Self::compute_bits_per_entry(palette_size);
        let values_per_long = 64 / bits_per_entry;
        proof {
            lemma_div_non_zero(64, bits_per_entry as int);
        }
        Self { data, bits_per_entry, values_per_long }
    }

    /// A fresh all-zero array sized for the palette; every slot reads zero.
    pub fn empty(palette_size: usize) -> (r: Self)
        requires
            palette_size <= 0x8000_0000_0000_0000,
        ensures
            r.wf(),
            r.bits_per_entry == bpe_spec(palette_size as int),
            forall|i: int| 0 <= i < 4096 ==> r.spec_get(i) == 0,
            slack_zero(r.data@, r.bits_per_entry as int),
    {
        let bits_per_entry = Self::compute_bits_per_entry(palette_size);
        let values_per_long = 64 / bits_per_entry;
        proof {
            lemma_div_non_zero(64, bits_per_entry as int);
        }
        let data_length = (4096 + values_per_long - 1) / values_per_long;
        let mut data: Vec<u64> = Vec::new();
        for k in 0..data_length
            invariant
                data@.len() == k,
                forall|j: int| 0 <= j < k ==> data@[j] == 0,
        {
            data.push(0);
        }
        let r = Self { data, bits_per_entry, values_per_long };
        proof {
            assert forall|j: int|
                0 <= j < r.data@.len() implies (#[trigger] r.data@[j] as int) < pow2(
                word_used_bits(j, 64int / (r.bits_per_entry as int), r.bits_per_entry as int) as nat,
            ) by {
                lemma_used_bits_bounds(j, r.bits_per_entry as int, r.data@.len() as int);
                lemma_pow2_pos(
                    word_used_bits(
                        j,
                        64int / (r.bits_per_entry as int),
                        r.bits_per_entry as int,
                    ) as nat,
                );
            }
            assert forall|i: int| 0 <= i < 4096 implies r.spec_get(i) == 0 by {
                lemma_slot_bounds(i, bits_per_entry as int);
                let vpl = r.values_per_long as int;
                let off = (i % vpl) * r.bits_per_entry as int;
                lemma_pow2_pos(off as nat);
                lemma_pow2_pos(r.bits_per_entry as nat);
                assert(r.data@[i / vpl] == 0);
                assert(0int / pow2(off as nat) as int == 0);
                assert(0int % pow2(r.bits_per_entry as nat) as int == 0);
            }
        }
        r
    }

    /// The first width, at least four, whose range covers the palette.
    pub fn compute_bits_per_entry(palette_size: usize) -> (r: usize)
        requires
            palette_size <= 0x8000_0000_0000_0000,
        ensures
            r == bpe_spec(palette_size as int),
            4 <= r <= 63,
    {
        let mut k: usize = 4;
        let mut pk: u64 = 16;
        proof {
            lemma2_to64();
            lemma2_to64_rest();
            lemma_bpe_rec_bounds(palette_size as int, 4);
        }
        while k < 63 && pk < palette_size as u64
            invariant
                4 <= k <= 63,
                palette_size <= 0x8000_0000_0000_0000,
                pk == pow2(k as nat),
                bpe_rec(palette_size as int, 4) == bpe_rec(palette_size as int, k as int),
            decreases 63 - k,
        {
            proof {
                lemma_pow2_unfold((k + 1) as nat);
                lemma_u64_pow2_no_overflow((k + 1) as nat);
            }
            k = k + 1;
            pk = pk * 2;
        }
        proof {
            lemma2_to64_rest();
            if pk >= palette_size as u64 {
                assert(pow2(k as nat) >= palette_size);
            } else {
                assert(k == 63);
                assert(pow2(63) >= palette_size);
            }
            assert(bpe_rec(palette_size as int, k as int) == k);
        }
        k
    }

    /// Reads slot `i`: shift its word down to the slot and mask the width.
    pub fn get_value(&self, i: usize) -> (r: u64)
        requires
            self.wf(),
            i < 4096,
        ensures
            r == self.spec_get(i as int),
            (r as int) < pow2(self.bits_per_entry as nat),
    {
        proof {
            lemma_slot_bounds(i as int, self.bits_per_entry as int);
        }
        let long_idx = i / self.values_per_long;
        let long_offset = (i % self.values_per_long) * self.bits_per_entry;
        let word = self.data[long_idx];
        let m = mask(self.bits_per_entry);
        proof {
            lemma_u64_shr_is_div(word, long_offset as u64);
            lemma2_to64();
            lemma2_to64_rest();
            lemma_pow2_pos(self.bits_per_entry as nat);
            assert(mask_spec(self.bits_per_entry as nat) == low_bits_mask(
                self.bits_per_entry as nat,
            ) as u64);
            lemma_u64_low_bits_mask_is_mod(word >> (long_offset as u64), self.bits_per_entry as nat);
            lemma_pow2_pos(long_offset as nat);
        }
        (word >> (long_offset as u64)) & m
    }

    /// OR-writes `value` into slot `index`: the slot's word becomes its old
    /// value OR `value` shifted to the slot's offset, and no other word
    /// changes. An OR cannot clear bits, so only a slot that still reads
    /// zero takes the value exactly; callers build fresh arrays from
    /// `empty` and write each slot at most once.
    pub fn put_value(&mut self, index: usize, value: u64)
        requires
            old(self).wf(),
            index < 4096,
            (value as int) < pow2(old(self).bits_per_entry as nat),
        ensures
            final(self).wf(),
            final(self).bits_per_entry == old(self).bits_per_entry,
            final(self).values_per_long == old(self).values_per_long,
            final(self).data@.len() == old(self).data@.len(),
            final(self).data@ == old(self).data@.update(
                index as int / (old(self).values_per_long as int),
                old(self).data@[index as int / (old(self).values_per_long as int)] | (value << ((((
                index as int % (old(self).values_per_long as int)) * (
                old(self).bits_per_entry as int))) as u64)),
            ),
            forall|j: int|
                0 <= j < 4096 && j != index ==> final(self).spec_get(j) == old(self).spec_get(j),
            old(self).spec_get(index as int) == 0 ==> final(self).spec_get(index as int) == value,
            slack_zero(old(self).data@, old(self).bits_per_entry as int) ==> slack_zero(
                final(self).data@,
                final(self).bits_per_entry as int,
            ),
    {
        proof {
            lemma_slot_bounds(index as int, self.bits_per_entry as int);
        }
        let long_idx = index / self.values_per_long;
        let long_offset = (index % self.values_per_long) * self.bits_per_entry;
        proof {
            lemma_u64_pow2_no_overflow(self.bits_per_entry as nat);
            lemma_u64_shl_is_mul(1u64, self.bits_per_entry as u64);
        }
        let p: u64 = 1u64 << (self.bits_per_entry as u64);
        let word = self.data[long_idx];
        let updated = word | (value << (long_offset as u64));
        self.data.set(long_idx, updated);
        proof {
            let bpe = old(self).bits_per_entry as int;
            let vpl = old(self).values_per_long as int;
            let off_i = (index as int % vpl) * bpe;
            assert(p as int == pow2(bpe as nat));
            lemma_pow2_pos(bpe as nat);
            let m: u64 = (p - 1) as u64;
            assert(m == low_bits_mask(bpe as nat) as u64);
            lemma_u64_low_bits_mask_is_mod(value, bpe as nat);
            lemma_small_mod(value as nat, pow2(bpe as nat));
            assert(value & m == value);
            assert forall|j: int| 0 <= j < 4096 && j != index implies self.spec_get(j) == old(
                self,
            ).spec_get(j) by {
                lemma_slot_bounds(j, bpe);
                let wj = j / vpl;
                if wj != index as int / vpl {
                    assert(self.data@[wj] == old(self).data@[wj]);
                } else {
                    lemma_fundamental_div_mod(j, vpl);
                    lemma_fundamental_div_mod(index as int, vpl);
                    assert(j % vpl != index as int % vpl);
                    let off_j = (j % vpl) * bpe;
                    assert(off_j + bpe <= off_i || off_i + bpe <= off_j) by (nonlinear_arith)
                        requires
                            bpe >= 1,
                            0 <= j % vpl,
                            0 <= index as int % vpl,
                            j % vpl != index as int % vpl,
                            off_j == (j % vpl) * bpe,
                            off_i == (index as int % vpl) * bpe,
                    ;
                    lemma_bv_put_other(word, value, off_i as u64, off_j as u64, bpe as u64, m);
                    lemma_u64_shr_is_div(word, off_j as u64);
                    lemma_u64_shr_is_div(updated, off_j as u64);
                    lemma_pow2_pos(off_j as nat);
                    lemma_u64_low_bits_mask_is_mod(word >> (off_j as u64), bpe as nat);
                    lemma_u64_low_bits_mask_is_mod(updated >> (off_j as u64), bpe as nat);
                    assert(self.data@[wj] == updated);
                    assert(old(self).data@[wj] == word);
                }
            }
            if old(self).spec_get(index as int) == 0 {
                lemma_u64_shr_is_div(word, off_i as u64);
                lemma_u64_shr_is_div(updated, off_i as u64);
                lemma_pow2_pos(off_i as nat);
                lemma_u64_low_bits_mask_is_mod(word >> (off_i as u64), bpe as nat);
                lemma_u64_low_bits_mask_is_mod(updated >> (off_i as u64), bpe as nat);
                lemma_bv_put_same(word, value, off_i as u64, bpe as u64, m);
            }
            if slack_zero(old(self).data@, bpe) {
                let widx = index as int / vpl;
                lemma_fundamental_div_mod(index as int, vpl);
                assert forall|j: int|
                    0 <= j < self.data@.len() implies (#[trigger] self.data@[j] as int) < pow2(
                    word_used_bits(j, vpl, bpe) as nat,
                ) by {
                    if j == widx {
                        lemma_used_bits_bounds(j, bpe, self.data@.len() as int);
                        let used = word_used_bits(j, vpl, bpe);
                        assert(off_i + bpe <= used) by (nonlinear_arith)
                            requires
                                bpe >= 1,
                                vpl >= 1,
                                off_i == (index as int % vpl) * bpe,
                                used == word_used_bits(widx, vpl, bpe),
                                j == widx,
                                0 <= index as int % vpl < vpl,
                                index as int == widx * vpl + index as int % vpl,
                                index < 4096,
                        ;
                        if used == 64 {
                            vstd::arithmetic::power2::lemma2_to64_rest();
                            assert((updated as int) < pow2(64));
                        } else {
                            let mu: u64 = used as u64;
                            lemma_u64_pow2_no_overflow(used as nat);
                            lemma_u64_shl_is_mul(1u64, mu);
                            assert((1u64 << mu) as int == pow2(used as nat));
                            lemma_u64_pow2_no_overflow((off_i + bpe) as nat);
                            lemma_u64_shl_is_mul(1u64, (off_i + bpe) as u64);
                            assert((1u64 << ((off_i + bpe) as u64)) as int == pow2(
                                (off_i + bpe) as nat,
                            ));
                            assert(value < (1u64 << ((off_i + bpe) as u64)) || true);
                            assert((value as int) < pow2(bpe as nat));
                            lemma_u64_pow2_no_overflow(bpe as nat);
                            lemma_u64_shl_is_mul(1u64, bpe as u64);
                            assert(value < (1u64 << (bpe as u64)));
                            lemma_bv_shl_lt(value, off_i as u64, bpe as u64);
                            if off_i + bpe < used {
                                vstd::arithmetic::power2::lemma_pow2_strictly_increases(
                                    (off_i + bpe) as nat,
                                    used as nat,
                                );
                            }
                            assert((value << (off_i as u64)) < (1u64 << mu));
                            assert(word < (1u64 << mu));
                            lemma_bv_or_lt(word, value << (off_i as u64), mu);
                            assert(updated < (1u64 << mu));
                        }
                    } else {
                        assert(self.data@[j] == old(self).data@[j]);
                        assert((old(self).data@[j] as int) < pow2(word_used_bits(j, vpl, bpe) as nat));
                    }
                }
            }
        }
    }

    /// The backing words.
    pub fn data(&self) -> (r: &[u64])
        ensures
            r@ == self.data@,
    {
        self.data.as_slice()
    }

    /// The width of each stored value.
    pub fn bits_per_entry(&self) -> (r: usize)
        ensures
            r == self.bits_per_entry,
    {
        self.bits_per_entry
    }

    /// The mask that isolates the slot at a given bit offset within its
    /// word: the low bits up to the slot's end, less those below its start.
    pub fn create_mask(&self, offset_in_long: usize) -> (r: u64)
        requires
            self.wf(),
            offset_in_long + self.bits_per_entry <= 64,
        ensures
            r == mask_spec((offset_in_long + self.bits_per_entry) as nat) ^ mask_spec(
                offset_in_long as nat,
            ),
    {
        let far = mask(offset_in_long + self.bits_per_entry);
        let near = mask(offset_in_long);
        far ^ near
    }
}

} // verus!
