use crate::blocks::{BlockEntityTable, BlockTable};
use crate::chunk::Chunk;
use vstd::prelude::*;
use vstd::string::StringSliceAdditionalSpecFns;
use vstd::utf8::encode_utf8;

verus! {

// ===========================================================================
// The server store: the immutable world data every connection reads, and
// the one mutable piece, the UUID-to-entity-id map with its monotonically
// growing id counter.
// ===========================================================================

/// Extra data attached to a block position; the NBT compound is carried as
/// opaque bytes.
pub struct BlockEntity {
    pub id: String,
    pub x: i32,
    pub y: i32,
    pub z: i32,
    pub data_nbt: Vec<u8>,
}

/// Assigns each player UUID an entity id. Ids are handed out in arrival
/// order, starting at zero; a UUID that already has an id keeps it.
pub struct EntityIdAllocator {
    pub entries: Vec<(u128, i32)>,
}

/// First-match lookup of a UUID's assigned id.
pub open spec fn spec_assigned(entries: Seq<(u128, i32)>, uuid: u128) -> Option<i32>
    decreases entries.len(),
{
    if entries.len() == 0 {
        None
    } else if entries[0].0 == uuid {
        Some(entries[0].1)
    } else {
        spec_assigned(entries.skip(1), uuid)
    }
}

proof fn lemma_spec_assigned_step(entries: Seq<(u128, i32)>, uuid: u128, i: int)
    requires
        0 <= i <= entries.len(),
        forall|j: int| 0 <= j < i ==> (#[trigger] entries[j]).0 != uuid,
    ensures
        spec_assigned(entries, uuid) == spec_assigned(entries.skip(i), uuid),
    decreases i,
{
    if i > 0 {
        assert(forall|j: int|
            0 <= j < i - 1 ==> (#[trigger] entries.skip(1)[j]).0 == entries[j + 1].0);
        lemma_spec_assigned_step(entries.skip(1), uuid, i - 1);
        assert(entries.skip(1).skip(i - 1) =~= entries.skip(i));
    } else {
        assert(entries.skip(0) =~= entries);
    }
}

impl EntityIdAllocator {
    /// Ids are exactly the positions: the assigned ids form a prefix of the
    /// naturals, and each UUID appears once.
    pub open spec fn wf(self) -> bool {
        &&& forall|j: int| 0 <= j < self.entries@.len() ==> (#[trigger] self.entries@[j]).1 == j
        &&& forall|a: int, b: int|
            0 <= a < b < self.entries@.len() ==> self.entries@[a].0 != self.entries@[b].0
        &&& self.entries@.len() <= 0x7fff_ffff
    }

    pub fn new() -> (r: Self)
        ensures
            r.wf(),
            r.entries@.len() == 0,
    {
        Self { entries: Vec::new() }
    }

    /// Returns the id already assigned to the UUID, or assigns the next
    /// free one. Idempotent per UUID; distinct UUIDs get distinct ids.
    #[verifier::loop_isolation(false)]
    pub fn assign(&mut self, uuid: u128) -> (r: i32)
        requires
            old(self).wf(),
            old(self).entries@.len() < 0x7fff_ffff,
        ensures
            final(self).wf(),
            r == match spec_assigned(old(self).entries@, uuid) {
                Some(id) => id,
                None => old(self).entries@.len() as i32,
            },
            spec_assigned(final(self).entries@, uuid) == Some(r),
            forall|u: u128|
                u != uuid ==> spec_assigned(final(self).entries@, u) == spec_assigned(
                    old(self).entries@,
                    u,
                ),
            old(self).entries@.len() <= final(self).entries@.len() <= old(self).entries@.len() + 1,
    {
        let ghost e0 = self.entries@;
        let n = self.entries.len();
        for i in 0..n
            invariant
                n == e0.len(),
                self.entries@ == e0,
                forall|j: int| 0 <= j < i ==> (#[trigger] e0[j]).0 != uuid,
        {
            if self.entries[i].0 == uuid {
                proof {
                    lemma_spec_assigned_step(e0, uuid, i as int);
                    assert(e0.skip(i as int)[0] == e0[i as int]);
                }
                return self.entries[i].1;
            }
        }
        proof {
            lemma_spec_assigned_step(e0, uuid, n as int);
            assert(e0.skip(n as int).len() == 0);
        }
        let id = n as i32;
        self.entries.push((uuid, id));
        proof {
            assert(spec_assigned(self.entries@, uuid) == Some(id)) by {
                lemma_spec_assigned_step(self.entries@, uuid, n as int);
                assert(self.entries@.skip(n as int) =~= seq![(uuid, id)]);
                assert(self.entries@.skip(n as int)[0] == (uuid, id));
            }
            assert forall|u: u128| u != uuid implies spec_assigned(self.entries@, u)
                == spec_assigned(e0, u) by {
                lemma_spec_assigned_suffix(e0, (uuid, id), u);
            }
        }
        id
    }
}

/// Appending an entry with a different key does not change a lookup.
proof fn lemma_spec_assigned_suffix(entries: Seq<(u128, i32)>, e: (u128, i32), u: u128)
    requires
        e.0 != u,
    ensures
        spec_assigned(entries.push(e), u) == spec_assigned(entries, u),
    decreases entries.len(),
{
    if entries.len() == 0 {
        assert(entries.push(e)[0] == e);
        assert(entries.push(e).skip(1) =~= Seq::<(u128, i32)>::empty());
        assert(spec_assigned(Seq::<(u128, i32)>::empty(), u) == None::<i32>);
        assert(spec_assigned(entries.push(e), u) == None::<i32>);
        assert(spec_assigned(entries, u) == None::<i32>);
    } else {
        lemma_spec_assigned_suffix(entries.skip(1), e, u);
        assert(entries.push(e).skip(1) =~= entries.skip(1).push(e));
        assert(entries.push(e)[0] == entries[0]);
        if entries[0].0 == u {
            assert(spec_assigned(entries.push(e), u) == Some(entries[0].1));
            assert(spec_assigned(entries, u) == Some(entries[0].1));
        } else {
            assert(spec_assigned(entries.push(e), u) == spec_assigned(
                entries.skip(1).push(e),
                u,
            ));
            assert(spec_assigned(entries, u) == spec_assigned(entries.skip(1), u));
        }
    }
}

// ===========================================================================
// Laws of id assignment.
// ===========================================================================

/// Law: a lookup that already succeeds is what a repeated assignment hands
/// back, so assignment is idempotent per UUID.
pub proof fn lemma_assign_idempotent(entries: Seq<(u128, i32)>, uuid: u128, id: i32)
    requires
        spec_assigned(entries, uuid) == Some(id),
    ensures
        match spec_assigned(entries, uuid) {
            Some(v) => v,
            None => entries.len() as i32,
        } == id,
{
}

/// Law: under the allocator invariant, distinct UUIDs hold distinct ids,
/// and every assigned id is below the number of entries — the ids form a
/// prefix of the naturals.
pub proof fn lemma_assign_injective(a: EntityIdAllocator, u1: u128, u2: u128, id1: i32, id2: i32)
    requires
        a.wf(),
        u1 != u2,
        spec_assigned(a.entries@, u1) == Some(id1),
        spec_assigned(a.entries@, u2) == Some(id2),
    ensures
        id1 != id2,
        0 <= id1 < a.entries@.len(),
        0 <= id2 < a.entries@.len(),
{
    lemma_spec_assigned_found(a.entries@, u1, id1);
    lemma_spec_assigned_found(a.entries@, u2, id2);
    let k1 = choose|k: int|
        0 <= k < a.entries@.len() && (#[trigger] a.entries@[k]).0 == u1 && a.entries@[k].1 == id1;
    let k2 = choose|k: int|
        0 <= k < a.entries@.len() && (#[trigger] a.entries@[k]).0 == u2 && a.entries@[k].1 == id2;
    assert(a.entries@[k1].1 == k1);
    assert(a.entries@[k2].1 == k2);
    if k1 == k2 {
        assert(u1 == u2);
    }
}

/// A successful lookup finds its key at some position holding that id.
proof fn lemma_spec_assigned_found(entries: Seq<(u128, i32)>, u: u128, id: i32)
    requires
        spec_assigned(entries, u) == Some(id),
    ensures
        exists|k: int|
            0 <= k < entries.len() && (#[trigger] entries[k]).0 == u && entries[k].1 == id,
    decreases entries.len(),
{
    if entries.len() > 0 {
        if entries[0].0 == u {
            assert(entries[0].0 == u && entries[0].1 == id);
        } else {
            lemma_spec_assigned_found(entries.skip(1), u, id);
            let k = choose|k: int|
                0 <= k < entries.skip(1).len() && (#[trigger] entries.skip(1)[k]).0 == u
                    && entries.skip(1)[k].1 == id;
            assert(entries[k + 1].0 == u && entries[k + 1].1 == id);
        }
    }
}

/// The world a running server serves: the pieces of the configuration the
/// protocol logic reads, the preloaded chunks and block entities, and the
/// id tables.
pub struct ServerWorld {
    pub brand: String,
    pub status_json: String,
    pub forwarding_key: Option<Vec<u8>>,
    pub join_game: crate::play::JoinGameData,
    pub spawn_x_bits: u64,
    pub spawn_y_bits: u64,
    pub spawn_z_bits: u64,
    pub chunks: Vec<Chunk>,
    pub block_entities: Vec<BlockEntity>,
    pub block_table: BlockTable,
    pub block_entity_table: BlockEntityTable,
}

impl ServerWorld {
    /// Everything the protocol writes is within wire limits, every chunk
    /// can be encoded, and every block entity resolves in its table.
    pub open spec fn wf(self) -> bool {
        &&& encode_utf8(self.status_json@).len() <= 32767
        &&& encode_utf8(self.brand@).len() <= 32767
        &&& self.join_game.wf()
        &&& forall|i: int|
            0 <= i < self.chunks@.len() ==> crate::chunk::chunk_encodable(
                self.block_table.view_spec(),
                #[trigger] self.chunks@[i],
            ) && self.chunks@[i].sections@.len() == 16
        &&& forall|i: int|
            0 <= i < self.block_entities@.len() ==> crate::blocks::spec_block_entity_id(
                self.block_entity_table.view_spec(),
                (#[trigger] self.block_entities@[i]).id@,
            ) is Some
    }

    /// Decides `wf` at run time, so a caller can refuse a bad world before
    /// serving it.
    #[verifier::loop_isolation(false)]
    #[verifier::rlimit(100)]
    pub fn check_wf(&self) -> (r: bool)
        ensures
            r == self.wf(),
    {
        let sj: &str = self.status_json.as_str();
        proof {
            assert(sj.spec_bytes() == encode_utf8(sj@));
        }
        if sj.as_bytes().len() > 32767 {
            return false;
        }
        let br: &str = self.brand.as_str();
        proof {
            assert(br.spec_bytes() == encode_utf8(br@));
        }
        if br.as_bytes().len() > 32767 {
            return false;
        }
        if self.join_game.dimension_names.len() > 0x7fff_ffff {
            return false;
        }
        for i in 0..self.join_game.dimension_names.len()
            invariant
                forall|j: int|
                    0 <= j < i ==> #[trigger] encode_utf8(
                        self.join_game.dimension_names@[j]@,
                    ).len() <= 32767,
        {
            let nm: &str = self.join_game.dimension_names[i].as_str();
            let l: usize = nm.as_bytes().len();
            proof {
                assert(nm.spec_bytes() == encode_utf8(nm@));
            }
            if l > 32767 {
                return false;
            }
            proof {
                assert(encode_utf8(self.join_game.dimension_names@[i as int]@).len() <= 32767);
            }
        }
        let dn: &str = self.join_game.dimension_name.as_str();
        proof {
            assert(dn.spec_bytes() == encode_utf8(dn@));
        }
        if dn.as_bytes().len() > 32767 {
            return false;
        }
        for i in 0..self.chunks.len()
            invariant
                forall|j: int|
                    0 <= j < i ==> crate::chunk::chunk_encodable(
                        self.block_table.view_spec(),
                        #[trigger] self.chunks@[j],
                    ) && self.chunks@[j].sections@.len() == 16,
        {
            if self.chunks[i].sections.len() != 16 {
                proof {
                    assert(i < self.chunks@.len());
                    assert(self.chunks@[i as int].sections@.len() != 16);
                    assert(!(crate::chunk::chunk_encodable(self.block_table.view_spec(), self.chunks@[i as int])
                        && self.chunks@[i as int].sections@.len() == 16));
                    assert(!self.wf());
                }
                return false;
            }
            for k in 0..self.chunks[i].sections.len()
                invariant
                    forall|j: int|
                        0 <= j < k ==> #[trigger] crate::chunk::section_encodable(
                            self.block_table.view_spec(),
                            self.chunks@[i as int].sections@[j],
                        ),
            {
                if self.chunks[i].sections[k].block_states.len() != 4096 {
                    proof {
                        assert(!crate::chunk::section_encodable(
                            self.block_table.view_spec(),
                            self.chunks@[i as int].sections@[k as int],
                        ));
                        assert(!crate::chunk::chunk_encodable(self.block_table.view_spec(), self.chunks@[i as int]));
                    }
                    return false;
                }
                for b in 0..self.chunks[i].sections[k].block_states.len()
                    invariant
                        self.chunks@[i as int].sections@[k as int].block_states@.len() == 4096,
                        forall|j: int|
                            0 <= j < b ==> (#[trigger] crate::blocks::spec_state_id(
                                self.block_table.view_spec(),
                                crate::chunk::states_view(
                                    self.chunks@[i as int].sections@[k as int].block_states@,
                                )[j],
                            )) is Some,
                {
                    if crate::blocks::get_state_id(
                        &self.block_table,
                        &self.chunks[i].sections[k].block_states[b],
                    ).is_none() {
                        proof {
                            assert(crate::chunk::states_view(
                                self.chunks@[i as int].sections@[k as int].block_states@,
                            )[b as int]
                                == self.chunks@[i as int].sections@[k as int].block_states@[b as int].view_spec());
                            assert(!crate::chunk::section_encodable(
                                self.block_table.view_spec(),
                                self.chunks@[i as int].sections@[k as int],
                            ));
                            assert(!crate::chunk::chunk_encodable(self.block_table.view_spec(), self.chunks@[i as int]));
                        }
                        return false;
                    }
                    proof {
                        assert(crate::chunk::states_view(
                            self.chunks@[i as int].sections@[k as int].block_states@,
                        )[b as int]
                            == self.chunks@[i as int].sections@[k as int].block_states@[b as int].view_spec());
                    }
                }
                proof {
                    assert(crate::chunk::section_encodable(
                        self.block_table.view_spec(),
                        self.chunks@[i as int].sections@[k as int],
                    ));
                }
            }
            proof {
                assert(crate::chunk::chunk_encodable(self.block_table.view_spec(), self.chunks@[i as int]));
            }
        }
        for i in 0..self.block_entities.len()
            invariant
                forall|j: int|
                    0 <= j < i ==> crate::blocks::spec_block_entity_id(
                        self.block_entity_table.view_spec(),
                        (#[trigger] self.block_entities@[j]).id@,
                    ) is Some,
        {
            if crate::blocks::get_block_entity_id(
                &self.block_entity_table,
                self.block_entities[i].id.as_str(),
            ).is_none() {
                return false;
            }
        }
        true
    }
}

} // verus!
