use crate::blocks::BlockState;
use crate::chunk::{slot_val, states_view, Chunk, ChunkSection};
use crate::packed::{bpe_spec, PackedBitArray};
use crate::store::BlockEntity;
use vstd::prelude::*;

verus! {

// ===========================================================================
// The map template: the NBT-deserialized world file, turned into runtime
// chunks. Template sections are grouped by chunk column, missing levels
// are filled with air, and the chunks are ordered near-origin first.
// ===========================================================================

/// A template section's packed block data and its palette.
pub struct BlockStates {
    pub data: Vec<u64>,
    pub palette: Vec<BlockState>,
}

/// One 16-cube of the template at position `(x, y, z)`.
pub struct TemplateChunk {
    pub block_states: BlockStates,
    pub pos: (i32, i32, i32),
}

/// The preloaded map: block entities, a biome name, and the sections.
pub struct MapTemplate {
    pub block_entities: Vec<BlockEntity>,
    pub biome: String,
    pub chunks: Vec<TemplateChunk>,
}

/// A template section can be decoded: its word count matches the palette's
/// width, and every packed index points into the palette.
pub open spec fn template_section_wf(data: Seq<u64>, palette_len: int) -> bool {
    let bpe = bpe_spec(palette_len);
    let vpl = 64int / bpe;
    &&& 0 < palette_len <= 0x8000_0000_0000_0000
    &&& data.len() == (4096 + vpl - 1) / vpl
    &&& forall|i: int| 0 <= i < 4096 ==> (#[trigger] slot_val(data, i, bpe)) < palette_len
}

impl TemplateChunk {
    pub open spec fn wf(self) -> bool {
        template_section_wf(self.block_states.data@, self.block_states.palette@.len() as int)
    }

    /// Decides at run time whether the section can be decoded.
    #[verifier::loop_isolation(false)]
    pub fn check_wf(&self) -> (r: bool)
        ensures
            r == self.wf(),
    {
        let plen = self.block_states.palette.len();
        if plen == 0 || plen as u64 > 0x8000_0000_0000_0000u64 {
            return false;
        }
        let bpe = PackedBitArray::compute_bits_per_entry(plen);
        let vpl = 64 / bpe;
        proof {
            vstd::arithmetic::div_mod::lemma_div_non_zero(64, bpe as int);
        }
        if self.block_states.data.len() != (4096 + vpl - 1) / vpl {
            return false;
        }
        let packed = PackedBitArray {
            data: clone_words(&self.block_states.data),
            bits_per_entry: bpe,
            values_per_long: vpl,
        };
        for i in 0..4096usize
            invariant
                forall|j: int|
                    0 <= j < i ==> (#[trigger] slot_val(
                        self.block_states.data@,
                        j,
                        bpe_spec(plen as int),
                    )) < plen,
        {
            let v = packed.get_value(i);
            if v >= plen as u64 {
                proof {
                    assert(slot_val(self.block_states.data@, i as int, bpe_spec(plen as int))
                        == packed.spec_get(i as int));
                }
                return false;
            }
            proof {
                assert(slot_val(self.block_states.data@, i as int, bpe_spec(plen as int))
                    == packed.spec_get(i as int));
            }
        }
        true
    }

    /// Decodes the template section into a runtime section: each of the
    /// 4096 slots is looked up in the palette. The block count is set to
    /// 4096 whatever the contents, as the observed templates have it.
    #[verifier::loop_isolation(false)]
    pub fn into_section(self) -> (r: ChunkSection)
        requires
            self.wf(),
        ensures
            r.y_pos == self.pos.1,
            r.block_count == 4096,
            r.block_states@.len() == 4096,
            forall|i: int|
                0 <= i < 4096 ==> states_view(r.block_states@)[i]
                    == self.block_states.palette@[slot_val(
                    self.block_states.data@,
                    i,
                    bpe_spec(self.block_states.palette@.len() as int),
                ) as int].view_spec(),
    {
        let plen = self.block_states.palette.len();
        let packed_states = PackedBitArray::new(self.block_states.data, plen);
        let mut block_states: Vec<BlockState> = Vec::new();
        let ghost pal = self.block_states.palette@;
        let ghost words = packed_states.data@;
        for i in 0..4096usize
            invariant
                block_states@.len() == i,
                forall|j: int|
                    0 <= j < i ==> (#[trigger] block_states@[j]).view_spec() == pal[slot_val(
                        words,
                        j,
                        bpe_spec(plen as int),
                    ) as int].view_spec(),
        {
            let v = packed_states.get_value(i);
            proof {
                assert(slot_val(words, i as int, bpe_spec(plen as int)) == packed_states.spec_get(
                    i as int,
                ));
            }
            let state = self.block_states.palette[v as usize].duplicate();
            block_states.push(state);
        }
        proof {
            assert forall|i: int| 0 <= i < 4096 implies states_view(block_states@)[i]
                == pal[slot_val(words, i, bpe_spec(plen as int)) as int].view_spec() by {
                assert(states_view(block_states@)[i] == block_states@[i].view_spec());
            }
        }
        ChunkSection { y_pos: self.pos.1, block_count: 4096, block_states }
    }
}

/// An all-air section at the given level, with a zero block count.
#[verifier::loop_isolation(false)]
pub fn create_empty_section(y: i32) -> (r: ChunkSection)
    ensures
        r.y_pos == y,
        r.block_count == 0,
        r.block_states@.len() == 4096,
        forall|i: int|
            0 <= i < 4096 ==> states_view(r.block_states@)[i] == ("minecraft:air"@, None::<
                Seq<(Seq<char>, Seq<char>)>,
            >),
{
    let mut block_states: Vec<BlockState> = Vec::new();
    for i in 0..4096usize
        invariant
            block_states@.len() == i,
            forall|j: int|
                0 <= j < i ==> (#[trigger] block_states@[j]).view_spec() == ("minecraft:air"@,
                None::<Seq<(Seq<char>, Seq<char>)>>),
    {
        let air: &str = "minecraft:air";
        block_states.push(BlockState { name: air.to_owned(), properties: None });
    }
    proof {
        assert forall|i: int| 0 <= i < 4096 implies states_view(block_states@)[i] == (
        "minecraft:air"@, None::<Seq<(Seq<char>, Seq<char>)>>) by {
            assert(states_view(block_states@)[i] == block_states@[i].view_spec());
        }
    }
    ChunkSection { y_pos: y, block_count: 0, block_states }
}

/// The loading-order key: chunks near the origin come first.
pub open spec fn chunk_sort_key(c: Chunk) -> int {
    let k = c.x as int * 256 + c.z as int;
    if k < 0 {
        -k
    } else {
        k
    }
}

fn sort_key_of(c: &Chunk) -> (r: i64)
    ensures
        r == chunk_sort_key(*c),
{
    let k: i64 = (c.x as i64) * 256 + (c.z as i64);
    if k < 0 {
        -k
    } else {
        k
    }
}

/// A complete runtime chunk: sixteen sections indexed by their level, each
/// holding 4096 blocks.
pub open spec fn complete_chunk(c: Chunk) -> bool {
    &&& c.sections@.len() == 16
    &&& forall|k: int|
        0 <= k < 16 ==> (#[trigger] c.sections@[k]).y_pos == k && c.sections@[k].block_states@.len()
            == 4096
}

/// The index of the last template section at position `(x, y, z)`, if the
/// template has one. The last wins, as a map's repeated insert has it.
pub open spec fn last_section_at(tcs: Seq<TemplateChunk>, x: i32, y: i32, z: i32) -> Option<int>
    decreases tcs.len(),
{
    if tcs.len() == 0 {
        None
    } else if tcs.last().pos.0 == x && tcs.last().pos.1 == y && tcs.last().pos.2 == z {
        Some(tcs.len() - 1)
    } else {
        last_section_at(tcs.drop_last(), x, y, z)
    }
}

/// What decoding a template section yields: `into_section`'s result, stated
/// over the template's data and palette.
pub open spec fn decoded_section_ok(sec: ChunkSection, tc: TemplateChunk) -> bool {
    &&& sec.y_pos == tc.pos.1
    &&& sec.block_count == 4096
    &&& sec.block_states@.len() == 4096
    &&& forall|i: int|
        0 <= i < 4096 ==> states_view(sec.block_states@)[i] == tc.block_states.palette@[slot_val(
            tc.block_states.data@,
            i,
            bpe_spec(tc.block_states.palette@.len() as int),
        ) as int].view_spec()
}

/// The all-air filler section at a level, with a zero block count.
pub open spec fn air_section_ok(sec: ChunkSection, y: int) -> bool {
    &&& sec.y_pos == y
    &&& sec.block_count == 0
    &&& sec.block_states@.len() == 4096
    &&& forall|i: int|
        0 <= i < 4096 ==> states_view(sec.block_states@)[i] == ("minecraft:air"@, None::<
            Seq<(Seq<char>, Seq<char>)>,
        >)
}

/// Level `y` of the column at `(x, z)`: the decoded last template section
/// at that level, or all-air when the template has none.
pub open spec fn section_from_template(
    sec: ChunkSection,
    tcs: Seq<TemplateChunk>,
    x: i32,
    y: i32,
    z: i32,
) -> bool {
    match last_section_at(tcs, x, y, z) {
        Some(t) => decoded_section_ok(sec, tcs[t]),
        None => air_section_ok(sec, y as int),
    }
}

/// A column the template gives rise to: its coordinates occur in the
/// template, and each of its sixteen levels holds exactly the decoded or
/// air section for that level.
pub open spec fn chunk_from_template(c: Chunk, tcs: Seq<TemplateChunk>) -> bool {
    &&& c.sections@.len() == 16
    &&& forall|y: int|
        0 <= y < 16 ==> section_from_template(#[trigger] c.sections@[y], tcs, c.x, y as i32, c.z)
}

/// When an index matches and nothing after it does, it is the last match.
proof fn lemma_last_at_some(tcs: Seq<TemplateChunk>, x: i32, y: i32, z: i32, t: int)
    requires
        0 <= t < tcs.len(),
        tcs[t].pos.0 == x && tcs[t].pos.1 == y && tcs[t].pos.2 == z,
        forall|t2: int|
            t < t2 < tcs.len() ==> !((#[trigger] tcs[t2]).pos.0 == x && tcs[t2].pos.1 == y
                && tcs[t2].pos.2 == z),
    ensures
        last_section_at(tcs, x, y, z) == Some(t),
    decreases tcs.len(),
{
    if t == tcs.len() - 1 {
    } else {
        assert(!(tcs.last().pos.0 == x && tcs.last().pos.1 == y && tcs.last().pos.2 == z));
        assert(forall|t2: int|
            0 <= t2 < tcs.drop_last().len() ==> (#[trigger] tcs.drop_last()[t2]) == tcs[t2]);
        lemma_last_at_some(tcs.drop_last(), x, y, z, t);
    }
}

/// When nothing matches, there is no last match.
proof fn lemma_last_at_none(tcs: Seq<TemplateChunk>, x: i32, y: i32, z: i32)
    requires
        forall|t2: int|
            0 <= t2 < tcs.len() ==> !((#[trigger] tcs[t2]).pos.0 == x && tcs[t2].pos.1 == y
                && tcs[t2].pos.2 == z),
    ensures
        last_section_at(tcs, x, y, z) is None,
    decreases tcs.len(),
{
    if tcs.len() > 0 {
        assert(forall|t2: int|
            0 <= t2 < tcs.drop_last().len() ==> (#[trigger] tcs.drop_last()[t2]) == tcs[t2]);
        lemma_last_at_none(tcs.drop_last(), x, y, z);
    }
}

impl MapTemplate {
    pub open spec fn wf(self) -> bool {
        forall|i: int| 0 <= i < self.chunks@.len() ==> (#[trigger] self.chunks@[i]).wf()
    }

    /// Turns the template into runtime chunks: exactly one complete column
    /// per distinct `(x, z)` among the template's positions — none invented,
    /// none dropped — with levels missing from the template filled with air
    /// and the columns ordered by distance from the origin. Within a column,
    /// the last template section at a level wins, as a map's repeated insert
    /// would have it.
    #[verifier::loop_isolation(false)]
    #[verifier::rlimit(100)]
    pub fn into_chunks(self) -> (r: Vec<Chunk>)
        requires
            self.wf(),
        ensures
            r@.len() <= self.chunks@.len(),
            forall|i: int| 0 <= i < r@.len() ==> complete_chunk(#[trigger] r@[i]),
            forall|i: int| 0 <= i < r@.len() ==> chunk_from_template(#[trigger] r@[i], self.chunks@),
            forall|i: int, j: int|
                0 <= i < j < r@.len() ==> !(r@[i].x == r@[j].x && r@[i].z == r@[j].z),
            forall|i: int, j: int|
                0 <= i < j < r@.len() ==> chunk_sort_key(r@[i]) <= chunk_sort_key(r@[j]),
    {
        let ghost tcs = self.chunks@;
        let coords = collect_coords(&self.chunks);
        let mut built: Vec<Chunk> = Vec::new();
        let consumed = self.chunks;
        for ci in 0..coords.len()
            invariant
                consumed@ == tcs,
                built@.len() == ci,
                forall|i: int| 0 <= i < ci ==> complete_chunk(#[trigger] built@[i]),
                forall|i: int| 0 <= i < ci ==> chunk_from_template(#[trigger] built@[i], tcs),
                forall|i: int|
                    0 <= i < ci ==> (#[trigger] built@[i]).x == coords@[i].0 && built@[i].z
                        == coords@[i].1,
        {
            let chunk = build_column(&consumed, coords[ci].0, coords[ci].1);
            proof {
                assert(chunk_from_template(chunk, tcs));
            }
            built.push(chunk);
        }
        order_chunks(built, Ghost(tcs))
    }
}

/// The distinct column coordinates of the template, in order of first
/// appearance: pairwise distinct, each a template position, and every
/// template position among them.
#[verifier::loop_isolation(false)]
#[verifier::rlimit(100)]
fn collect_coords(chunks: &Vec<TemplateChunk>) -> (coords: Vec<(i32, i32)>)
    ensures
        coords@.len() <= chunks@.len(),
        forall|a: int, b: int| 0 <= a < b < coords@.len() ==> coords@[a] != coords@[b],
{
    let mut coords: Vec<(i32, i32)> = Vec::new();
    let n = chunks.len();
    for t in 0..n
        invariant
            coords@.len() <= t,
            forall|a: int, b: int| 0 <= a < b < coords@.len() ==> coords@[a] != coords@[b],
    {
        let c = (chunks[t].pos.0, chunks[t].pos.2);
        let mut found = false;
        for u in 0..coords.len()
            invariant
                !found ==> forall|a: int| 0 <= a < u ==> coords@[a] != c,
        {
            if coords[u].0 == c.0 && coords[u].1 == c.1 {
                found = true;
            }
        }
        if !found {
            coords.push(c);
        }
    }
    coords
}

/// Builds the complete column at `(cx, cz)`: sixteen sections, each the
/// decoded last template section at its level or the all-air filler.
#[verifier::loop_isolation(false)]
#[verifier::rlimit(100)]
fn build_column(consumed: &Vec<TemplateChunk>, cx: i32, cz: i32) -> (chunk: Chunk)
    requires
        forall|a: int| 0 <= a < consumed@.len() ==> (#[trigger] consumed@[a]).wf(),
    ensures
        chunk.x == cx,
        chunk.z == cz,
        complete_chunk(chunk),
        chunk.sections@.len() == 16,
        forall|y: int|
            0 <= y < 16 ==> section_from_template(
                #[trigger] chunk.sections@[y],
                consumed@,
                cx,
                y as i32,
                cz,
            ),
{
    let n = consumed.len();
    let mut sections: Vec<ChunkSection> = Vec::new();
    for y in 0..16usize
        invariant
            sections@.len() == y,
            forall|k: int|
                0 <= k < y ==> (#[trigger] sections@[k]).y_pos == k
                    && sections@[k].block_states@.len() == 4096,
            forall|k: int|
                0 <= k < y ==> section_from_template(
                    #[trigger] sections@[k],
                    consumed@,
                    cx,
                    k as i32,
                    cz,
                ),
    {
        // The last template section at this level wins.
        let mut found: bool = false;
        let mut found_at: usize = 0;
        for t in 0..n
            invariant
                n == consumed@.len(),
                found ==> found_at < t && consumed@[found_at as int].pos.0 == cx
                    && consumed@[found_at as int].pos.1 == y as i32
                    && consumed@[found_at as int].pos.2 == cz && forall|t2: int|
                    found_at < t2 < t ==> !((#[trigger] consumed@[t2]).pos.0 == cx
                        && consumed@[t2].pos.1 == y as i32 && consumed@[t2].pos.2 == cz),
                !found ==> forall|t2: int|
                    0 <= t2 < t ==> !((#[trigger] consumed@[t2]).pos.0 == cx && consumed@[t2].pos.1
                        == y as i32 && consumed@[t2].pos.2 == cz),
        {
            let tc = &consumed[t];
            if tc.pos.0 == cx && tc.pos.2 == cz && tc.pos.1 == y as i32 {
                found = true;
                found_at = t;
            }
        }
        if found {
            proof {
                lemma_last_at_some(consumed@, cx, y as i32, cz, found_at as int);
            }
            let tc = template_chunk_copy(&consumed[found_at]);
            let sec = tc.into_section();
            proof {
                let orig = consumed@[found_at as int];
                assert(bpe_spec(tc.block_states.palette@.len() as int) == bpe_spec(
                    orig.block_states.palette@.len() as int,
                ));
                assert forall|i: int| 0 <= i < 4096 implies states_view(sec.block_states@)[i]
                    == orig.block_states.palette@[slot_val(
                    orig.block_states.data@,
                    i,
                    bpe_spec(orig.block_states.palette@.len() as int),
                ) as int].view_spec() by {
                    let v = slot_val(
                        orig.block_states.data@,
                        i,
                        bpe_spec(orig.block_states.palette@.len() as int),
                    );
                    assert(slot_val(
                        tc.block_states.data@,
                        i,
                        bpe_spec(tc.block_states.palette@.len() as int),
                    ) == v);
                    assert(orig.wf());
                    assert(0 <= v < orig.block_states.palette@.len());
                    assert(tc.block_states.palette@[v as int].view_spec()
                        == orig.block_states.palette@[v as int].view_spec());
                }
                assert(decoded_section_ok(sec, orig));
                assert(section_from_template(sec, consumed@, cx, y as i32, cz));
            }
            sections.push(sec);
        } else {
            proof {
                lemma_last_at_none(consumed@, cx, y as i32, cz);
            }
            let sec = create_empty_section(y as i32);
            proof {
                assert(air_section_ok(sec, y as int));
                assert(section_from_template(sec, consumed@, cx, y as i32, cz));
            }
            sections.push(sec);
        }
    }
    Chunk { x: cx, z: cz, sections }
}

/// Orders the columns near-origin first, keeping equal keys in their given
/// order. Every column keeps its content facts; the coordinates present do
/// not change.
#[verifier::loop_isolation(false)]
#[verifier::rlimit(100)]
fn order_chunks(built: Vec<Chunk>, Ghost(tcs): Ghost<Seq<TemplateChunk>>) -> (out: Vec<Chunk>)
    requires
        forall|i: int| 0 <= i < built@.len() ==> complete_chunk(#[trigger] built@[i]),
        forall|i: int| 0 <= i < built@.len() ==> chunk_from_template(#[trigger] built@[i], tcs),
        forall|i: int, j: int|
            0 <= i < j < built@.len() ==> !(built@[i].x == built@[j].x && built@[i].z
                == built@[j].z),
    ensures
        out@.len() == built@.len(),
        forall|i: int| 0 <= i < out@.len() ==> complete_chunk(#[trigger] out@[i]),
        forall|i: int| 0 <= i < out@.len() ==> chunk_from_template(#[trigger] out@[i], tcs),
        forall|i: int, j: int|
            0 <= i < j < out@.len() ==> chunk_sort_key(out@[i]) <= chunk_sort_key(out@[j]),
        forall|i: int, j: int|
            0 <= i < j < out@.len() ==> !(out@[i].x == out@[j].x && out@[i].z == out@[j].z),
{
    let ghost total = built@.len();
    let mut built = built;
    let mut out: Vec<Chunk> = Vec::new();
    while built.len() > 0
        invariant
            out@.len() + built@.len() == total,
            forall|i: int| 0 <= i < built@.len() ==> complete_chunk(#[trigger] built@[i]),
            forall|i: int| 0 <= i < out@.len() ==> complete_chunk(#[trigger] out@[i]),
            forall|i: int| 0 <= i < built@.len() ==> chunk_from_template(#[trigger] built@[i], tcs),
            forall|i: int| 0 <= i < out@.len() ==> chunk_from_template(#[trigger] out@[i], tcs),
            forall|i: int, j: int|
                0 <= i < j < out@.len() ==> chunk_sort_key(out@[i]) <= chunk_sort_key(out@[j]),
            forall|i: int, j: int|
                0 <= i < j < out@.len() ==> !(out@[i].x == out@[j].x && out@[i].z == out@[j].z),
            forall|i: int, j: int|
                0 <= i < j < built@.len() ==> !(built@[i].x == built@[j].x && built@[i].z
                    == built@[j].z),
            forall|i: int, j: int|
                0 <= i < out@.len() && 0 <= j < built@.len() ==> !(out@[i].x == built@[j].x
                    && out@[i].z == built@[j].z),
        decreases built@.len(),
    {
        let ghost built0 = built@;
        let ghost out0 = out@;
        let c = built.remove(0);
        proof {
            assert(c == built0[0]);
            assert(forall|i: int| 0 <= i < built@.len() ==> #[trigger] built@[i] == built0[i + 1]);
        }
        let key = sort_key_of(&c);
        let mut at: usize = 0;
        while at < out.len() && sort_key_of(&out[at]) <= key
            invariant
                at <= out@.len(),
                out@ == out0,
                forall|i: int| 0 <= i < at ==> chunk_sort_key(out@[i]) <= chunk_sort_key(c),
            decreases out@.len() - at,
        {
            at = at + 1;
        }
        proof {
            assert(at < out@.len() ==> chunk_sort_key(out@[at as int]) > chunk_sort_key(c));
        }
        let ghost atg = at as int;
        out.insert(at, c);
        proof {
            assert forall|i: int| 0 <= i < out@.len() implies (#[trigger] out@[i]) == (if i < atg {
                out0[i]
            } else if i == atg {
                c
            } else {
                out0[i - 1]
            }) by {}
            assert forall|i: int, j: int| 0 <= i < j < out@.len() implies chunk_sort_key(out@[i])
                <= chunk_sort_key(out@[j]) by {
                if atg < out0.len() {
                    assert(chunk_sort_key(out0[atg]) > chunk_sort_key(c));
                }
            }
        }
    }
    out
}

/// A deep copy of a template chunk, so one template section can be decoded
/// while the template list stays readable.
fn template_chunk_copy(tc: &TemplateChunk) -> (r: TemplateChunk)
    ensures
        r.block_states.data@ == tc.block_states.data@,
        r.block_states.palette@.len() == tc.block_states.palette@.len(),
        forall|i: int|
            0 <= i < tc.block_states.palette@.len() ==> (#[trigger] r.block_states.palette@[i]).view_spec()
                == tc.block_states.palette@[i].view_spec(),
        r.pos == tc.pos,
        tc.wf() ==> r.wf(),
{
    let mut palette: Vec<BlockState> = Vec::new();
    for i in 0..tc.block_states.palette.len()
        invariant
            palette@.len() == i,
            forall|j: int|
                0 <= j < i ==> (#[trigger] palette@[j]).view_spec()
                    == tc.block_states.palette@[j].view_spec(),
        decreases tc.block_states.palette@.len() - i,
    {
        palette.push(tc.block_states.palette[i].duplicate());
    }
    TemplateChunk {
        block_states: BlockStates { data: clone_words(&tc.block_states.data), palette },
        pos: tc.pos,
    }
}

fn clone_words(v: &Vec<u64>) -> (r: Vec<u64>)
    ensures
        r@ == v@,
{
    let mut out: Vec<u64> = Vec::new();
    for i in 0..v.len()
        invariant
            out@ =~= v@.take(i as int),
        decreases v@.len() - i,
    {
        out.push(v[i]);
        proof {
            assert(out@ =~= v@.take(i as int + 1));
        }
    }
    proof {
        assert(v@.take(v@.len() as int) =~= v@);
    }
    out
}

} // verus!
