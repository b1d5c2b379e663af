use crate::blocks::{get_state_id, spec_state_id, BlockState, BlockTable};
use crate::packed::{bpe_spec, lemma_bpe_rec_bounds, slack_zero, PackedBitArray};
use crate::wire::{i64_bits, u16_be_bytes, u32_be_bytes, u64_be_bytes};
use crate::writer::{concat_bytes, i32_var_bytes, lemma_concat_bytes_snoc, write_bytes_to, write_u16_be, write_u64_be, write_var_i32};
use vstd::arithmetic::power2::pow2;
use vstd::prelude::*;

verus! {

// ===========================================================================
// Chunks and their wire encoding. A chunk is sixteen stacked sections; a
// section holds 4096 block states in XZY order. Encoding a section builds a
// palette of distinct state ids in order of first occurrence and packs each
// block's palette index at the computed bit width.
// ===========================================================================

/// A 16x16x16 cube of blocks at vertical index `y_pos`.
pub struct ChunkSection {
    pub y_pos: i32,
    pub block_count: u16,
    pub block_states: Vec<BlockState>,
}

/// A column of sixteen sections at chunk coordinates `(x, z)`.
pub struct Chunk {
    pub x: i32,
    pub z: i32,
    pub sections: Vec<ChunkSection>,
}

/// The heightmap compound sent with chunk data.
pub struct Heightmaps {
    pub motion_blocking: Vec<i64>,
}

/// The ghost values of a section's blocks.
pub open spec fn states_view(v: Seq<BlockState>) -> Seq<
    (Seq<char>, Option<Seq<(Seq<char>, Seq<char>)>>),
> {
    Seq::new(v.len(), |i: int| v[i].view_spec())
}

/// The numeric state id of every block, resolved through the table.
pub open spec fn resolved_ids(
    tv: Seq<((Seq<char>, Option<Seq<(Seq<char>, Seq<char>)>>), i32)>,
    sv: Seq<(Seq<char>, Option<Seq<(Seq<char>, Seq<char>)>>)>,
) -> Seq<i32> {
    Seq::new(sv.len(), |i: int| spec_state_id(tv, sv[i]).unwrap())
}

/// Every block of the sequence has an id in the table.
pub open spec fn all_resolvable(
    tv: Seq<((Seq<char>, Option<Seq<(Seq<char>, Seq<char>)>>), i32)>,
    sv: Seq<(Seq<char>, Option<Seq<(Seq<char>, Seq<char>)>>)>,
) -> bool {
    forall|i: int| 0 <= i < sv.len() ==> (#[trigger] spec_state_id(tv, sv[i])) is Some
}

/// The palette of a sequence of state ids: the distinct ids in order of
/// first occurrence.
pub open spec fn palette_acc(ids: Seq<i32>) -> Seq<i32>
    decreases ids.len(),
{
    if ids.len() == 0 {
        Seq::empty()
    } else {
        let p = palette_acc(ids.drop_last());
        if p.contains(ids.last()) {
            p
        } else {
            p.push(ids.last())
        }
    }
}

/// The index of the first occurrence of `id` in `p`, or `p.len()` if absent.
pub open spec fn pal_index(p: Seq<i32>, id: i32) -> int
    decreases p.len(),
{
    if p.len() == 0 {
        0
    } else if p[0] == id {
        0
    } else {
        1 + pal_index(p.skip(1), id)
    }
}

pub proof fn lemma_pal_index_bounds(p: Seq<i32>, id: i32)
    ensures
        0 <= pal_index(p, id) <= p.len(),
        p.contains(id) <==> pal_index(p, id) < p.len(),
        pal_index(p, id) < p.len() ==> p[pal_index(p, id)] == id,
        forall|j: int| 0 <= j < pal_index(p, id) ==> p[j] != id,
    decreases p.len(),
{
    if p.len() > 0 && p[0] != id {
        lemma_pal_index_bounds(p.skip(1), id);
        assert forall|j: int| 0 <= j < p.skip(1).len() implies p.skip(1)[j] == p[j + 1] by {}
        if p.contains(id) {
            let w = choose|w: int| 0 <= w < p.len() && p[w] == id;
            assert(p.skip(1)[w - 1] == id);
            assert(p.skip(1).contains(id));
        }
        if p.skip(1).contains(id) {
            let w = choose|w: int| 0 <= w < p.skip(1).len() && p.skip(1)[w] == id;
            assert(p[w + 1] == id);
        }
        assert forall|j: int| 0 <= j < pal_index(p, id) implies p[j] != id by {
            if j >= 1 {
                assert(p.skip(1)[j - 1] == p[j]);
                assert(p.skip(1)[j - 1] != id);
            }
        }
    }
}

/// Extending the palette does not move an id that is already in it.
pub proof fn lemma_pal_index_push(p: Seq<i32>, id: i32, x: i32)
    requires
        p.contains(id),
    ensures
        pal_index(p.push(x), id) == pal_index(p, id),
    decreases p.len(),
{
    lemma_pal_index_bounds(p, id);
    if p.len() > 0 && p[0] != id {
        let q = p.skip(1);
        assert(q.contains(id)) by {
            let w = choose|w: int| 0 <= w < p.len() && p[w] == id;
            assert(q[w - 1] == id);
        }
        lemma_pal_index_push(q, id, x);
        assert(p.push(x).skip(1) =~= q.push(x));
    }
}

/// The palette has no duplicates, and holds exactly the ids that occur.
pub proof fn lemma_palette_acc_distinct(ids: Seq<i32>)
    ensures
        forall|a: int, b: int|
            0 <= a < b < palette_acc(ids).len() ==> palette_acc(ids)[a] != palette_acc(ids)[b],
        forall|j: int| 0 <= j < ids.len() ==> palette_acc(ids).contains(#[trigger] ids[j]),
        forall|j: int|
            0 <= j < palette_acc(ids).len() ==> ids.contains(#[trigger] palette_acc(ids)[j]),
        palette_acc(ids).len() <= ids.len(),
    decreases ids.len(),
{
    if ids.len() > 0 {
        lemma_palette_acc_distinct(ids.drop_last());
        let p = palette_acc(ids.drop_last());
        let q = palette_acc(ids);
        assert forall|j: int| 0 <= j < ids.len() implies q.contains(#[trigger] ids[j]) by {
            if j < ids.len() - 1 {
                assert(p.contains(ids[j])) by {
                    assert(ids.drop_last()[j] == ids[j]);
                }
                let w = choose|w: int| 0 <= w < p.len() && p[w] == ids[j];
                assert(q[w] == ids[j]);
                assert(q.contains(ids[j]));
            } else {
                if p.contains(ids.last()) {
                    let w = choose|w: int| 0 <= w < p.len() && p[w] == ids.last();
                    assert(q[w] == ids[j]);
                } else {
                    assert(q[q.len() - 1] == ids[j]);
                }
            }
        }
        assert forall|j: int| 0 <= j < q.len() implies ids.contains(#[trigger] q[j]) by {
            if j < p.len() {
                assert(p[j] == q[j]);
                assert(ids.drop_last().contains(q[j]));
                let w = choose|w: int| 0 <= w < ids.drop_last().len() && ids.drop_last()[w] == q[j];
                assert(ids[w] == q[j]);
            } else {
                assert(q[j] == ids.last());
                assert(ids[ids.len() - 1] == ids.last());
            }
        }
    }
}

/// Builds the palette and the packed index array for a section's blocks.
///
/// The palette lists the distinct resolved state ids in order of first
/// occurrence; slot `i` of the packed array holds the palette index of
/// block `i`; the width is `max(4, ceil(log2(palette_size)))`.
#[verifier::loop_isolation(false)]
#[verifier::rlimit(60)]
pub fn build_palette_data(section: &ChunkSection, table: &BlockTable) -> (r: (
    Vec<i32>,
    PackedBitArray,
))
    requires
        section.block_states@.len() == 4096,
        all_resolvable(table.view_spec(), states_view(section.block_states@)),
    ensures
        r.0@ == palette_acc(resolved_ids(table.view_spec(), states_view(section.block_states@))),
        r.1.wf(),
        r.1.bits_per_entry == bpe_spec(r.0@.len() as int),
        slack_zero(r.1.data@, r.1.bits_per_entry as int),
        forall|i: int|
            0 <= i < 4096 ==> r.1.spec_get(i) == pal_index(
                r.0@,
                resolved_ids(table.view_spec(), states_view(section.block_states@))[i],
            ) as u64,
{
    let ghost tv = table.view_spec();
    let ghost sv = states_view(section.block_states@);
    let ghost rids = resolved_ids(tv, sv);
    let mut palette: Vec<i32> = Vec::new();
    let mut states: Vec<u64> = Vec::new();
    proof {
        assert(rids.take(0) =~= Seq::<i32>::empty());
    }
    for bi in 0..4096usize
        invariant
            palette@ == palette_acc(rids.take(bi as int)),
            states@.len() == bi,
            forall|j: int| 0 <= j < bi ==> states@[j] as int == pal_index(palette@, rids[j]),
            forall|j: int| 0 <= j < bi ==> states@[j] < palette@.len(),
            palette@.len() <= bi,
    {
        let block = &section.block_states[bi];
        proof {
            assert(sv[bi as int] == block.view_spec());
        }
        let state_id = match get_state_id(table, block) {
            Some(id) => id,
            None => {
                proof {
                    assert(spec_state_id(tv, sv[bi as int]) is Some);
                }
                proof {
                    assert(false);
                }
                0
            },
        };
        proof {
            assert(state_id == rids[bi as int]);
        }
        // First occurrence scan over the palette built so far.
        let mut found: bool = false;
        let mut idx: usize = 0;
        let plen = palette.len();
        for k in 0..plen
            invariant
                plen == palette@.len(),
                !found ==> forall|j: int| 0 <= j < k ==> palette@[j] != state_id,
                !found ==> idx == 0,
                found ==> idx < k && palette@[idx as int] == state_id && forall|j: int|
                    0 <= j < idx ==> palette@[j] != state_id,
        {
            if !found && palette[k] == state_id {
                found = true;
                idx = k;
            }
        }
        let index: usize = if found {
            proof {
                lemma_pal_index_bounds(palette@, state_id);
                assert(palette@.contains(state_id)) by {
                    assert(palette@[idx as int] == state_id);
                }
                assert(pal_index(palette@, state_id) == idx) by {
                    let pi = pal_index(palette@, state_id);
                    if pi < idx {
                        assert(palette@[pi] == state_id);
                    }
                    if idx < pi {
                        assert(palette@[idx as int] != state_id);
                    }
                }
                // the palette over one more block keeps its entries
                assert(rids.take(bi as int + 1).drop_last() =~= rids.take(bi as int));
                assert(rids.take(bi as int + 1).last() == rids[bi as int]);
                assert(palette_acc(rids.take(bi as int + 1)) == palette@);
            }
            idx
        } else {
            let ghost old_pal = palette@;
            proof {
                lemma_pal_index_bounds(old_pal, state_id);
                assert(!old_pal.contains(state_id)) by {
                    if old_pal.contains(state_id) {
                        let w = choose|w: int| 0 <= w < old_pal.len() && old_pal[w] == state_id;
                        assert(old_pal[w] != state_id);
                    }
                }
                assert(pal_index(old_pal, state_id) == old_pal.len());
                assert(rids.take(bi as int + 1).drop_last() =~= rids.take(bi as int));
                assert(rids.take(bi as int + 1).last() == rids[bi as int]);
                assert(palette_acc(rids.take(bi as int + 1)) == old_pal.push(state_id));
            }
            palette.push(state_id);
            proof {
                assert(palette@ == old_pal.push(state_id));
                assert(palette@[palette@.len() - 1] == state_id);
                assert(pal_index(palette@, state_id) == palette@.len() - 1) by {
                    let pi = pal_index(palette@, state_id);
                    lemma_pal_index_bounds(palette@, state_id);
                    assert(palette@.contains(state_id)) by {
                        assert(palette@[palette@.len() - 1] == state_id);
                    }
                    if pi < palette@.len() - 1 {
                        assert(palette@[pi] == state_id);
                        assert(old_pal[pi] == state_id);
                        assert(old_pal.contains(state_id));
                    }
                }
                // indices recorded earlier keep their meaning as the palette grows
                assert forall|j: int| 0 <= j < bi implies states@[j] as int == pal_index(
                    palette@,
                    rids[j],
                ) by {
                    assert(states@[j] as int == pal_index(old_pal, rids[j]));
                    assert(states@[j] < old_pal.len());
                    lemma_pal_index_bounds(old_pal, rids[j]);
                    assert(old_pal.contains(rids[j]));
                    lemma_pal_index_push(old_pal, rids[j], state_id);
                }
            }
            palette.len() - 1
        };
        states.push(index as u64);
    }
    proof {
        assert(rids.take(4096) =~= rids);
    }
    proof {
        vstd::arithmetic::power2::lemma2_to64();
        vstd::arithmetic::power2::lemma2_to64_rest();
    }
    let mut packed = PackedBitArray::empty(palette.len());
    proof {
        lemma_bpe_rec_bounds(palette@.len() as int, 4);
    }
    for i in 0..4096usize
        invariant
            packed.wf(),
            packed.bits_per_entry == bpe_spec(palette@.len() as int),
            pow2(packed.bits_per_entry as nat) >= palette@.len(),
            slack_zero(packed.data@, packed.bits_per_entry as int),
            forall|j: int|
                0 <= j < 4096 ==> packed.spec_get(j) == if j < i {
                    states@[j]
                } else {
                    0u64
                },
    {
        packed.put_value(i, states[i]);
    }
    (palette, packed)
}

// ===========================================================================
// Wire encoding of sections and chunks.
// ===========================================================================

/// The value held by slot `i` of packed words at the given width.
pub open spec fn slot_val(words: Seq<u64>, i: int, bpe: int) -> u64 {
    let vpl = 64int / bpe;
    ((words[i / vpl] as int / (pow2(((i % vpl) * bpe) as nat) as int)) % (pow2(bpe as nat)
        as int)) as u64
}

/// The words are sized for the section and hold each block's palette index.
pub open spec fn section_words_ok(words: Seq<u64>, ids: Seq<i32>) -> bool {
    let pal = palette_acc(ids);
    let bpe = bpe_spec(pal.len() as int);
    let vpl = 64int / bpe;
    &&& words.len() == (4096 + vpl - 1) / vpl
    &&& slack_zero(words, bpe)
    &&& forall|i: int| 0 <= i < 4096 ==> slot_val(words, i, bpe) == pal_index(pal, ids[i]) as u64
}

/// The byte layout of one encoded section around the given packed words:
/// block count, width, palette size and entries, word count and words, and
/// the single-valued biome palette.
pub open spec fn section_bytes_shape(
    b: Seq<u8>,
    ids: Seq<i32>,
    block_count: u16,
    words: Seq<u64>,
) -> bool {
    let pal = palette_acc(ids);
    let bpe = bpe_spec(pal.len() as int);
    b == u16_be_bytes(block_count) + seq![bpe as u8] + i32_var_bytes(pal.len() as i32)
        + concat_bytes(pal, |id: i32| i32_var_bytes(id)) + i32_var_bytes(words.len() as i32)
        + concat_bytes(words, |w: u64| u64_be_bytes(w)) + seq![0u8] + i32_var_bytes(0)
        + i32_var_bytes(0)
}

/// `b` is a correct encoding of a section with the given resolved ids.
pub open spec fn is_section_bytes(b: Seq<u8>, ids: Seq<i32>, block_count: u16) -> bool {
    exists|words: Seq<u64>|
        #[trigger] section_words_ok(words, ids) && section_bytes_shape(b, ids, block_count, words)
}

/// `b` is the concatenation of correct encodings of the listed sections.
pub open spec fn is_sections_bytes(b: Seq<u8>, secs: Seq<(Seq<i32>, u16)>) -> bool
    decreases secs.len(),
{
    if secs.len() == 0 {
        b.len() == 0
    } else {
        exists|k: int|
            0 <= k <= b.len() && #[trigger] is_section_bytes(b.take(k), secs[0].0, secs[0].1)
                && is_sections_bytes(b.skip(k), secs.skip(1))
    }
}

pub proof fn lemma_sections_bytes_snoc(
    b1: Seq<u8>,
    b2: Seq<u8>,
    secs: Seq<(Seq<i32>, u16)>,
    d: (Seq<i32>, u16),
)
    requires
        is_sections_bytes(b1, secs),
        is_section_bytes(b2, d.0, d.1),
    ensures
        is_sections_bytes(b1 + b2, secs.push(d)),
    decreases secs.len(),
{
    if secs.len() == 0 {
        assert(b1.len() == 0);
        assert((b1 + b2).take(b2.len() as int) =~= b2);
        assert((b1 + b2).skip(b2.len() as int) =~= Seq::<u8>::empty());
        assert(secs.push(d)[0] == d);
        assert(secs.push(d).skip(1) =~= Seq::<(Seq<i32>, u16)>::empty());
        assert(is_section_bytes((b1 + b2).take(b2.len() as int), secs.push(d)[0].0, secs.push(d)[0].1));
        assert(is_sections_bytes((b1 + b2).skip(b2.len() as int), secs.push(d).skip(1)));
    } else {
        let k = choose|k: int|
            0 <= k <= b1.len() && #[trigger] is_section_bytes(b1.take(k), secs[0].0, secs[0].1)
                && is_sections_bytes(b1.skip(k), secs.skip(1));
        lemma_sections_bytes_snoc(b1.skip(k), b2, secs.skip(1), d);
        assert((b1 + b2).take(k) =~= b1.take(k));
        assert((b1 + b2).skip(k) =~= b1.skip(k) + b2);
        assert(secs.push(d)[0] == secs[0]);
        assert(secs.push(d).skip(1) =~= secs.skip(1).push(d));
        assert(is_section_bytes((b1 + b2).take(k), secs.push(d)[0].0, secs.push(d)[0].1));
        assert(is_sections_bytes((b1 + b2).skip(k), secs.push(d).skip(1)));
    }
}

/// The resolved ids and block count of each section, the data the encoding
/// depends on.
pub open spec fn section_descs(
    tv: Seq<((Seq<char>, Option<Seq<(Seq<char>, Seq<char>)>>), i32)>,
    sections: Seq<ChunkSection>,
) -> Seq<(Seq<i32>, u16)> {
    Seq::new(
        sections.len(),
        |i: int| (resolved_ids(tv, states_view(sections[i].block_states@)), sections[i].block_count),
    )
}

/// A section, and every section of a chunk, can be encoded: 4096 blocks,
/// each with an id in the table.
pub open spec fn section_encodable(
    tv: Seq<((Seq<char>, Option<Seq<(Seq<char>, Seq<char>)>>), i32)>,
    s: ChunkSection,
) -> bool {
    &&& s.block_states@.len() == 4096
    &&& all_resolvable(tv, states_view(s.block_states@))
}

pub open spec fn chunk_encodable(
    tv: Seq<((Seq<char>, Option<Seq<(Seq<char>, Seq<char>)>>), i32)>,
    c: Chunk,
) -> bool {
    forall|i: int|
        0 <= i < c.sections@.len() ==> #[trigger] section_encodable(tv, c.sections@[i])
}

impl ChunkSection {
    /// Encodes this section onto `out`: block count, bit width, palette,
    /// packed data, and the single-valued biome palette.
    #[verifier::loop_isolation(false)]
    #[verifier::rlimit(100)]
    pub fn write(&self, table: &BlockTable, out: &mut Vec<u8>)
        requires
            section_encodable(table.view_spec(), *self),
        ensures
            old(out)@.len() <= final(out)@.len(),
            final(out)@.take(old(out)@.len() as int) == old(out)@,
            is_section_bytes(
                final(out)@.skip(old(out)@.len() as int),
                resolved_ids(table.view_spec(), states_view(self.block_states@)),
                self.block_count,
            ),
    {
        let ghost tv = table.view_spec();
        let ghost rids = resolved_ids(tv, states_view(self.block_states@));
        let ghost start = out@;
        let (palette, packed_states) = build_palette_data(self, table);
        let ghost pal = palette@;
        let ghost words = packed_states.data@;
        let ghost bpe = packed_states.bits_per_entry as int;
        write_u16_be(out, self.block_count);
        out.push(packed_states.bits_per_entry as u8);
        proof {
            lemma_palette_acc_distinct(rids);
            assert(pal.len() <= 4096);
        }
        write_var_i32(out, palette.len() as i32);
        let ghost base = out@;
        let ghost fpal = |id: i32| i32_var_bytes(id);
        proof {
            assert(concat_bytes(pal.take(0), fpal) =~= Seq::<u8>::empty());
            assert(base + concat_bytes(pal.take(0), fpal) =~= base);
        }
        for k in 0..palette.len()
            invariant
                out@ == base + concat_bytes(pal.take(k as int), fpal),
        {
            write_var_i32(out, palette[k]);
            proof {
                lemma_concat_bytes_snoc(pal, fpal, k as int);
            }
        }
        proof {
            assert(pal.take(pal.len() as int) =~= pal);
        }
        let word_count = packed_states.data.len();
        proof {
            assert(words.len() <= 4096) by (nonlinear_arith)
                requires
                    4 <= bpe <= 63,
                    words.len() == (4096 + (64int / bpe) - 1) / (64int / bpe),
            ;
        }
        write_var_i32(out, word_count as i32);
        let ghost base2 = out@;
        let ghost fword = |w: u64| u64_be_bytes(w);
        proof {
            assert(concat_bytes(words.take(0), fword) =~= Seq::<u8>::empty());
            assert(base2 + concat_bytes(words.take(0), fword) =~= base2);
        }
        for k in 0..word_count
            invariant
                word_count == words.len(),
                out@ == base2 + concat_bytes(words.take(k as int), fword),
        {
            write_u64_be(out, packed_states.data[k]);
            proof {
                lemma_concat_bytes_snoc(words, fword, k as int);
            }
        }
        proof {
            assert(words.take(words.len() as int) =~= words);
        }
        // Biomes: a single-valued palette of id zero.
        out.push(0);
        write_var_i32(out, 0);
        write_var_i32(out, 0);
        proof {
            assert forall|i: int| 0 <= i < 4096 implies slot_val(words, i, bpe) == pal_index(
                pal,
                rids[i],
            ) as u64 by {
                assert(packed_states.spec_get(i) == pal_index(pal, rids[i]) as u64);
                assert(slot_val(words, i, bpe) == packed_states.spec_get(i));
            }
            assert(section_words_ok(words, rids));
            let b = out@.skip(start.len() as int);
            assert(b =~= u16_be_bytes(self.block_count) + seq![bpe as u8] + i32_var_bytes(
                pal.len() as i32,
            ) + concat_bytes(pal, fpal) + i32_var_bytes(words.len() as i32) + concat_bytes(
                words,
                fword,
            ) + seq![0u8] + i32_var_bytes(0) + i32_var_bytes(0));
            assert(section_bytes_shape(b, rids, self.block_count, words));
            assert(out@.take(start.len() as int) =~= start);
        }
    }
}

impl Chunk {
    /// Encodes every section of the chunk in order.
    #[verifier::loop_isolation(false)]
    #[verifier::rlimit(100)]
    pub fn write(&self, table: &BlockTable, out: &mut Vec<u8>)
        requires
            chunk_encodable(table.view_spec(), *self),
        ensures
            old(out)@.len() <= final(out)@.len(),
            final(out)@.take(old(out)@.len() as int) == old(out)@,
            is_sections_bytes(
                final(out)@.skip(old(out)@.len() as int),
                section_descs(table.view_spec(), self.sections@),
            ),
    {
        let ghost tv = table.view_spec();
        let ghost descs = section_descs(tv, self.sections@);
        let ghost start = out@;
        proof {
            assert(out@.skip(start.len() as int) =~= Seq::<u8>::empty());
            assert(descs.take(0) =~= Seq::<(Seq<i32>, u16)>::empty());
        }
        for i in 0..self.sections.len()
            invariant
                start.len() <= out@.len(),
                out@.take(start.len() as int) == start,
                is_sections_bytes(out@.skip(start.len() as int), descs.take(i as int)),
        {
            let ghost before = out@;
            self.sections[i].write(table, out);
            proof {
                let b1 = before.skip(start.len() as int);
                let b2 = out@.skip(before.len() as int);
                assert(out@.skip(start.len() as int) =~= b1 + b2);
                assert(descs.take(i as int).push(descs[i as int]) =~= descs.take(i as int + 1));
                lemma_sections_bytes_snoc(b1, b2, descs.take(i as int), descs[i as int]);
                assert(out@.take(start.len() as int) =~= start);
            }
        }
        proof {
            assert(descs.take(self.sections@.len() as int) =~= descs);
        }
    }
}

/// The bytes of the heightmap compound as unnamed NBT: a compound holding
/// one long array named MOTION_BLOCKING, then the end tag.
pub open spec fn heightmaps_nbt_bytes(arr: Seq<i64>) -> Seq<u8> {
    seq![0x0au8, 0u8, 0u8, 0x0cu8] + u16_be_bytes(15) + seq![
        77u8, 79u8, 84u8, 73u8, 79u8, 78u8, 95u8, 66u8, 76u8, 79u8, 67u8, 75u8, 73u8, 78u8, 71u8,
    ] + u32_be_bytes(arr.len() as u32) + concat_bytes(arr, |v: i64| u64_be_bytes(i64_bits(v)))
        + seq![0u8]
}

impl Heightmaps {
    /// Serializes the compound, with no root name, in NBT wire form.
    #[verifier::loop_isolation(false)]
    pub fn write_nbt(&self, out: &mut Vec<u8>)
        requires
            self.motion_blocking@.len() <= 0x7fff_ffff,
        ensures
            final(out)@ == old(out)@ + heightmaps_nbt_bytes(self.motion_blocking@),
    {
        let ghost arr = self.motion_blocking@;
        out.push(0x0a);
        out.push(0);
        out.push(0);
        out.push(0x0c);
        write_u16_be(out, 15);
        let name: [u8; 15] = [77, 79, 84, 73, 79, 78, 95, 66, 76, 79, 67, 75, 73, 78, 71];
        write_bytes_to(out, name.as_slice());
        let n = self.motion_blocking.len();
        crate::writer::write_u32_be(out, n as u32);
        let ghost base = out@;
        let ghost f = |v: i64| u64_be_bytes(i64_bits(v));
        proof {
            assert(concat_bytes(arr.take(0), f) =~= Seq::<u8>::empty());
            assert(base + concat_bytes(arr.take(0), f) =~= base);
        }
        for k in 0..n
            invariant
                n == arr.len(),
                out@ == base + concat_bytes(arr.take(k as int), f),
        {
            let bits: u64 = #[verifier::truncate] (self.motion_blocking[k] as u64);
            proof {
                assert(bits == i64_bits(arr[k as int]));
            }
            write_u64_be(out, bits);
            proof {
                lemma_concat_bytes_snoc(arr, f, k as int);
            }
        }
        out.push(0);
        proof {
            assert(arr.take(arr.len() as int) =~= arr);
            assert(final(out)@ =~= old(out)@ + heightmaps_nbt_bytes(arr));
        }
    }
}

/// One encoded section takes at most 53272 bytes: the fixed fields, at
/// most five bytes per palette entry, and at most 4096 packed words.
pub proof fn lemma_section_bytes_len(b: Seq<u8>, ids: Seq<i32>, bc: u16)
    requires
        is_section_bytes(b, ids, bc),
        ids.len() == 4096,
    ensures
        b.len() <= 53272,
{
    let words = choose|words: Seq<u64>|
        #[trigger] section_words_ok(words, ids) && section_bytes_shape(b, ids, bc, words);
    let pal = palette_acc(ids);
    lemma_palette_acc_distinct(ids);
    vstd::arithmetic::power2::lemma2_to64();
    vstd::arithmetic::power2::lemma2_to64_rest();
    lemma_bpe_rec_bounds(pal.len() as int, 4);
    let bpe = bpe_spec(pal.len() as int);
    assert(words.len() <= 4096) by (nonlinear_arith)
        requires
            4 <= bpe <= 63,
            words.len() == (4096 + (64int / bpe) - 1) / (64int / bpe),
    ;
    let fpal = |id: i32| i32_var_bytes(id);
    let fword = |w: u64| u64_be_bytes(w);
    assert forall|i: int| 0 <= i < pal.len() implies (#[trigger] fpal(pal[i])).len() <= 5 by {
        crate::wire::lemma_var_u32_len(crate::wire::i32_bits(pal[i]));
    }
    assert forall|i: int| 0 <= i < words.len() implies (#[trigger] fword(words[i])).len() <= 8 by {}
    crate::writer::lemma_concat_bytes_len(pal, fpal, 5);
    crate::writer::lemma_concat_bytes_len(words, fword, 8);
    crate::wire::lemma_var_u32_len(crate::wire::i32_bits(pal.len() as i32));
    crate::wire::lemma_var_u32_len(crate::wire::i32_bits(words.len() as i32));
    crate::wire::lemma_var_u32_len(crate::wire::i32_bits(0));
    assert(pal.len() * 5 <= 20480) by (nonlinear_arith)
        requires
            pal.len() <= 4096,
    ;
    assert(words.len() * 8 <= 32768) by (nonlinear_arith)
        requires
            words.len() <= 4096,
    ;
}

/// A run of encoded sections takes at most 53272 bytes per section.
pub proof fn lemma_sections_bytes_len(b: Seq<u8>, secs: Seq<(Seq<i32>, u16)>)
    requires
        is_sections_bytes(b, secs),
        forall|i: int| 0 <= i < secs.len() ==> (#[trigger] secs[i]).0.len() == 4096,
    ensures
        b.len() <= secs.len() * 53272,
    decreases secs.len(),
{
    if secs.len() == 0 {
    } else {
        let k = choose|k: int|
            0 <= k <= b.len() && #[trigger] is_section_bytes(b.take(k), secs[0].0, secs[0].1)
                && is_sections_bytes(b.skip(k), secs.skip(1));
        lemma_section_bytes_len(b.take(k), secs[0].0, secs[0].1);
        assert(forall|i: int|
            0 <= i < secs.skip(1).len() ==> (#[trigger] secs.skip(1)[i]) == secs[i + 1]);
        lemma_sections_bytes_len(b.skip(k), secs.skip(1));
        assert(b.take(k).len() == k);
        assert(b.skip(k).len() == b.len() - k);
        assert(53272 + (secs.len() - 1) * 53272 <= secs.len() * 53272) by (nonlinear_arith)
            requires
                secs.len() >= 1,
        ;
    }
}

} // verus!
