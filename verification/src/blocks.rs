use crate::text::str_eq;
use vstd::prelude::*;

verus! {

// ===========================================================================
// Block states and the numeric-id tables. The tables come from static
// resources outside the library; here they are plain association lists,
// looked up by structural equality with first-match-wins.
// ===========================================================================

/// A concrete block variant: a name plus its property assignments. The
/// property list is kept in a canonical order (sorted by key at load time),
/// so structural equality of the lists is equality of the mappings.
pub struct BlockState {
    pub name: String,
    pub properties: Option<Vec<(String, String)>>,
}

/// The ghost value of a property list.
pub open spec fn props_seq_view(v: Seq<(String, String)>) -> Seq<(Seq<char>, Seq<char>)> {
    Seq::new(v.len(), |i: int| (v[i].0@, v[i].1@))
}

impl BlockState {
    /// The ghost value of a block state: its name and properties.
    pub open spec fn view_spec(self) -> (Seq<char>, Option<Seq<(Seq<char>, Seq<char>)>>) {
        (
            self.name@,
            match self.properties {
                None => None,
                Some(v) => Some(props_seq_view(v@)),
            },
        )
    }

    /// Structural equality of two block states.
    #[verifier::loop_isolation(false)]
    pub fn same_state(&self, other: &BlockState) -> (r: bool)
        ensures
            r == (self.view_spec() == other.view_spec()),
    {
        if !str_eq(self.name.as_str(), other.name.as_str()) {
            return false;
        }
        match (&self.properties, &other.properties) {
            (None, None) => true,
            (Some(a), Some(b)) => {
                let ghost av = props_seq_view(a@);
                let ghost bv = props_seq_view(b@);
                if a.len() != b.len() {
                    proof {
                        assert(av.len() != bv.len());
                    }
                    return false;
                }
                for i in 0..a.len()
                    invariant
                        a@.len() == b@.len(),
                        av == props_seq_view(a@),
                        bv == props_seq_view(b@),
                        forall|j: int| 0 <= j < i ==> av[j] == bv[j],
                {
                    let (ka, va) = (&a[i].0, &a[i].1);
                    let (kb, vb) = (&b[i].0, &b[i].1);
                    if !str_eq(ka.as_str(), kb.as_str()) || !str_eq(va.as_str(), vb.as_str()) {
                        proof {
                            assert(av[i as int] == (a@[i as int].0@, a@[i as int].1@));
                            assert(bv[i as int] == (b@[i as int].0@, b@[i as int].1@));
                            assert(av[i as int] != bv[i as int]);
                            assert(av != bv);
                            assert(self.view_spec().1 == Some(av));
                            assert(other.view_spec().1 == Some(bv));
                        }
                        return false;
                    }
                    proof {
                        assert(av[i as int] == bv[i as int]);
                    }
                }
                proof {
                    assert(av =~= bv);
                }
                true
            },
            _ => false,
        }
    }

    /// A deep copy.
    #[verifier::loop_isolation(false)]
    pub fn duplicate(&self) -> (r: BlockState)
        ensures
            r.view_spec() == self.view_spec(),
    {
        let properties = match &self.properties {
            None => None,
            Some(v) => {
                let ghost pv = props_seq_view(v@);
                let mut out: Vec<(String, String)> = Vec::new();
                proof {
                    assert(props_seq_view(out@) =~= pv.take(0));
                }
                for i in 0..v.len()
                    invariant
                        pv == props_seq_view(v@),
                        out@.len() == i,
                        props_seq_view(out@) == pv.take(i as int),
                {
                    out.push((v[i].0.clone(), v[i].1.clone()));
                    proof {
                        assert(props_seq_view(out@) =~= pv.take(i as int + 1));
                    }
                }
                proof {
                    assert(pv.take(v@.len() as int) =~= pv);
                    assert(props_seq_view(out@) == pv);
                }
                Some(out)
            },
        };
        BlockState { name: self.name.clone(), properties }
    }
}

/// The block table: each known block state paired with its numeric id, in
/// resource order.
pub struct BlockTable {
    pub entries: Vec<(BlockState, i32)>,
}

/// First-match lookup of a block state's id.
pub open spec fn spec_state_id(
    entries: Seq<((Seq<char>, Option<Seq<(Seq<char>, Seq<char>)>>), i32)>,
    key: (Seq<char>, Option<Seq<(Seq<char>, Seq<char>)>>),
) -> Option<i32>
    decreases entries.len(),
{
    if entries.len() == 0 {
        None
    } else if entries[0].0 == key {
        Some(entries[0].1)
    } else {
        spec_state_id(entries.skip(1), key)
    }
}

impl BlockTable {
    pub open spec fn view_spec(self) -> Seq<
        ((Seq<char>, Option<Seq<(Seq<char>, Seq<char>)>>), i32),
    > {
        Seq::new(self.entries@.len(), |i: int| (self.entries@[i].0.view_spec(), self.entries@[i].1))
    }

    /// The id the table assigns to a block state, if any.
    pub open spec fn spec_lookup(self, key: (Seq<char>, Option<Seq<(Seq<char>, Seq<char>)>>)) -> Option<i32> {
        spec_state_id(self.view_spec(), key)
    }
}

proof fn lemma_spec_state_id_step(
    entries: Seq<((Seq<char>, Option<Seq<(Seq<char>, Seq<char>)>>), i32)>,
    key: (Seq<char>, Option<Seq<(Seq<char>, Seq<char>)>>),
    i: int,
)
    requires
        0 <= i <= entries.len(),
        forall|j: int| 0 <= j < i ==> entries[j].0 != key,
    ensures
        spec_state_id(entries, key) == spec_state_id(entries.skip(i), key),
    decreases i,
{
    if i > 0 {
        assert(forall|j: int|
            0 <= j < i - 1 ==> (#[trigger] entries.skip(1)[j]).0 == entries[j + 1].0);
        lemma_spec_state_id_step(entries.skip(1), key, i - 1);
        assert(entries.skip(1).skip(i - 1) =~= entries.skip(i));
    } else {
        assert(entries.skip(0) =~= entries);
    }
}

/// Resolves a block state to its numeric id via the block table.
pub fn get_state_id(table: &BlockTable, blockstate: &BlockState) -> (r: Option<i32>)
    ensures
        r == table.spec_lookup(blockstate.view_spec()),
{
    let ghost tv = table.view_spec();
    let ghost key = blockstate.view_spec();
    let n = table.entries.len();
    for i in 0..n
        invariant
            n == table.entries@.len(),
            tv == table.view_spec(),
            key == blockstate.view_spec(),
            forall|j: int| 0 <= j < i ==> tv[j].0 != key,
    {
        if table.entries[i].0.same_state(blockstate) {
            proof {
                lemma_spec_state_id_step(tv, key, i as int);
                assert(tv.skip(i as int)[0] == tv[i as int]);
            }
            return Some(table.entries[i].1);
        }
    }
    proof {
        lemma_spec_state_id_step(tv, key, n as int);
        assert(tv.skip(n as int).len() == 0);
    }
    None
}

/// The block-entity table: each block-entity name with its numeric id.
pub struct BlockEntityTable {
    pub entries: Vec<(String, i32)>,
}

/// First-match lookup of a block-entity id by name.
pub open spec fn spec_block_entity_id(entries: Seq<(Seq<char>, i32)>, key: Seq<char>) -> Option<
    i32,
>
    decreases entries.len(),
{
    if entries.len() == 0 {
        None
    } else if entries[0].0 == key {
        Some(entries[0].1)
    } else {
        spec_block_entity_id(entries.skip(1), key)
    }
}

impl BlockEntityTable {
    pub open spec fn view_spec(self) -> Seq<(Seq<char>, i32)> {
        Seq::new(self.entries@.len(), |i: int| (self.entries@[i].0@, self.entries@[i].1))
    }
}

proof fn lemma_spec_be_id_step(entries: Seq<(Seq<char>, i32)>, key: Seq<char>, i: int)
    requires
        0 <= i <= entries.len(),
        forall|j: int| 0 <= j < i ==> entries[j].0 != key,
    ensures
        spec_block_entity_id(entries, key) == spec_block_entity_id(entries.skip(i), key),
    decreases i,
{
    if i > 0 {
        assert(forall|j: int|
            0 <= j < i - 1 ==> (#[trigger] entries.skip(1)[j]).0 == entries[j + 1].0);
        lemma_spec_be_id_step(entries.skip(1), key, i - 1);
        assert(entries.skip(1).skip(i - 1) =~= entries.skip(i));
    } else {
        assert(entries.skip(0) =~= entries);
    }
}

/// Resolves a block-entity name to its numeric id via the table.
pub fn get_block_entity_id(table: &BlockEntityTable, be: &str) -> (r: Option<i32>)
    ensures
        r == spec_block_entity_id(table.view_spec(), be@),
{
    let ghost tv = table.view_spec();
    let n = table.entries.len();
    for i in 0..n
        invariant
            n == table.entries@.len(),
            tv == table.view_spec(),
            forall|j: int| 0 <= j < i ==> tv[j].0 != be@,
    {
        if str_eq(table.entries[i].0.as_str(), be) {
            proof {
                lemma_spec_be_id_step(tv, be@, i as int);
                assert(tv.skip(i as int)[0] == tv[i as int]);
            }
            return Some(table.entries[i].1);
        }
    }
    proof {
        lemma_spec_be_id_step(tv, be@, n as int);
        assert(tv.skip(n as int).len() == 0);
    }
    None
}

} // verus!
