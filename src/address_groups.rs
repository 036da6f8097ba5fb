use vstd::prelude::*;
use crate::types::{Address, GroupId};

verus! {

/// The groups recorded for an address after its entry gains group `g`:
/// the recorded set (empty when there is no entry yet) with `g` added.
pub open spec fn entry_after(existing: Option<Set<Seq<u8>>>, g: Seq<u8>) -> Set<Seq<u8>> {
    match existing {
        Some(s) => s.insert(g),
        None => Set::empty().insert(g),
    }
}

/// The reverse index, address to groups, as a map.
pub open spec fn entry_of(idx: Map<Seq<u8>, Set<Seq<u8>>>, a: Seq<u8>) -> Option<Set<Seq<u8>>> {
    if idx.contains_key(a) {
        Some(idx[a])
    } else {
        None
    }
}

/// The reverse index after a sync of group `g` with these members: each
/// member's entry gains `g`; no entry loses anything.
pub open spec fn index_after(idx: Map<Seq<u8>, Set<Seq<u8>>>, g: Seq<u8>, members: Seq<Seq<u8>>) -> Map<
    Seq<u8>,
    Set<Seq<u8>>,
> {
    Map::new(
        |a: Seq<u8>| idx.contains_key(a) || members.contains(a),
        |a: Seq<u8>|
            if members.contains(a) {
                entry_after(entry_of(idx, a), g)
            } else {
                idx[a]
            },
    )
}

/// The reverse index after successive syncs of group `g` with these member listings.
pub open spec fn index_after_syncs(
    idx: Map<Seq<u8>, Set<Seq<u8>>>,
    g: Seq<u8>,
    syncs: Seq<Seq<Seq<u8>>>,
) -> Map<Seq<u8>, Set<Seq<u8>>>
    decreases syncs.len(),
{
    if syncs.len() == 0 {
        idx
    } else {
        index_after(index_after_syncs(idx, g, syncs.drop_last()), g, syncs.last())
    }
}

/// A sync never takes a group away from an address.
pub proof fn lemma_index_after_keeps(
    idx: Map<Seq<u8>, Set<Seq<u8>>>,
    g: Seq<u8>,
    members: Seq<Seq<u8>>,
    a: Seq<u8>,
    h: Seq<u8>,
)
    requires
        idx.contains_key(a),
        idx[a].contains(h),
    ensures
        index_after(idx, g, members).contains_key(a),
        index_after(idx, g, members)[a].contains(h),
{
}

/// Every address that appeared in any synced member listing of group `g` has
/// `g` in its entry afterwards, even if later listings dropped it; and no
/// group recorded before is lost.
pub proof fn lemma_index_is_additive(
    idx: Map<Seq<u8>, Set<Seq<u8>>>,
    g: Seq<u8>,
    syncs: Seq<Seq<Seq<u8>>>,
)
    ensures
        forall|i: int, a: Seq<u8>|
            0 <= i < syncs.len() && #[trigger] syncs[i].contains(a) ==> {
                &&& index_after_syncs(idx, g, syncs).contains_key(a)
                &&& index_after_syncs(idx, g, syncs)[a].contains(g)
            },
        forall|a: Seq<u8>, h: Seq<u8>|
            idx.contains_key(a) && #[trigger] idx[a].contains(h) ==> {
                &&& index_after_syncs(idx, g, syncs).contains_key(a)
                &&& index_after_syncs(idx, g, syncs)[a].contains(h)
            },
    decreases syncs.len(),
{
    if syncs.len() > 0 {
        let prev = syncs.drop_last();
        let before = index_after_syncs(idx, g, prev);
        lemma_index_is_additive(idx, g, prev);
        assert forall|i: int, a: Seq<u8>|
            0 <= i < syncs.len() && #[trigger] syncs[i].contains(a) implies {
            &&& index_after_syncs(idx, g, syncs).contains_key(a)
            &&& index_after_syncs(idx, g, syncs)[a].contains(g)
        } by {
            if i < syncs.len() - 1 {
                assert(prev[i] == syncs[i]);
                lemma_index_after_keeps(before, g, syncs.last(), a, g);
            }
        }
        assert forall|a: Seq<u8>, h: Seq<u8>|
            idx.contains_key(a) && #[trigger] idx[a].contains(h) implies {
            &&& index_after_syncs(idx, g, syncs).contains_key(a)
            &&& index_after_syncs(idx, g, syncs)[a].contains(h)
        } by {
            lemma_index_after_keeps(before, g, syncs.last(), a, h);
        }
    }
}

/// The reverse-index entry of one address: the groups it has been recorded in.
pub struct AddressGroups {
    address: Address,
    group_ids: Vec<GroupId>,
}

/// The byte strings of a sequence of group identifiers.
pub open spec fn ids_view(v: Seq<GroupId>) -> Seq<Seq<u8>> {
    v.map_values(|g: GroupId| g@)
}

impl AddressGroups {
    /// The address the entry belongs to.
    pub closed spec fn owner(&self) -> Address {
        self.address
    }

    /// The address the entry belongs to.
    pub fn address(&self) -> (r: Address)
        ensures
            r == self.owner(),
    {
        self.address
    }

    /// The recorded group identifiers.
    pub closed spec fn groups(&self) -> Set<Seq<u8>> {
        ids_view(self.group_ids@).to_set()
    }

    /// Each group is held once.
    pub closed spec fn wf(&self) -> bool {
        ids_view(self.group_ids@).no_duplicates()
    }

    /// A new entry recording one group.
    pub fn create(address: Address, g: GroupId) -> (r: AddressGroups)
        ensures
            r.wf(),
            r.owner() == address,
            r.groups() == Set::<Seq<u8>>::empty().insert(g@),
    {
        let r = AddressGroups { address, group_ids: vec![g] };
        assert(ids_view(r.group_ids@) =~= seq![g@]);
        assert(ids_view(r.group_ids@).to_set() =~= Set::<Seq<u8>>::empty().insert(g@)) by {
            assert(ids_view(r.group_ids@)[0] == g@);
        }
        r
    }

    /// Whether the entry records group `g`.
    pub fn contains(&self, g: &GroupId) -> (r: bool)
        ensures
            r == self.groups().contains(g@),
    {
        let ghost v = ids_view(self.group_ids@);
        let mut i: usize = 0;
        while i < self.group_ids.len()
            invariant
                0 <= i <= self.group_ids.len(),
                v == ids_view(self.group_ids@),
                forall|j: int| 0 <= j < i ==> v[j] != g@,
            decreases self.group_ids.len() - i,
        {
            if ids_equal(&self.group_ids[i], g) {
                assert(v[i as int] == g@);
                return true;
            }
            i += 1;
        }
        false
    }

    /// Records group `g`; a group already recorded is not added twice.
    pub fn add_group(&mut self, g: GroupId)
        requires
            old(self).wf(),
        ensures
            final(self).wf(),
            final(self).owner() == old(self).owner(),
            final(self).groups() == old(self).groups().insert(g@),
    {
        if self.contains(&g) {
            assert(self.groups().insert(g@) =~= self.groups());
            return;
        }
        let ghost before = ids_view(self.group_ids@);
        self.group_ids.push(g);
        let ghost after = ids_view(self.group_ids@);
        assert(after =~= before.push(g@));
        assert(after.to_set() =~= before.to_set().insert(g@)) by {
            assert forall|x: Seq<u8>| after.to_set().contains(x) implies before.to_set().insert(
                g@,
            ).contains(x) by {
                let k = choose|k: int| 0 <= k < after.len() && after[k] == x;
                if k < before.len() {
                    assert(before[k] == x);
                }
            }
            assert forall|x: Seq<u8>| before.to_set().insert(g@).contains(x) implies after.to_set().contains(
                x,
            ) by {
                if x == g@ {
                    assert(after[before.len() as int] == x);
                } else {
                    let k = choose|k: int| 0 <= k < before.len() && before[k] == x;
                    assert(after[k] == x);
                }
            }
        }
    }

    /// The recorded group identifiers, each once.
    pub fn group_ids(&self) -> (r: &Vec<GroupId>)
        ensures
            ids_view(r@).to_set() == self.groups(),
            ids_view(r@).no_duplicates() == self.wf(),
    {
        &self.group_ids
    }
}

/// The group identifiers that a stored entry holds: consecutive 32-byte chunks.
pub open spec fn chunks_of(b: Seq<u8>) -> Seq<Seq<u8>> {
    Seq::new(b.len() / 32, |i: int| b.subrange(32 * i, 32 * i + 32))
}

impl AddressGroups {
    /// The stored form of the entry: its group identifiers, back to back.
    pub fn to_bytes(&self) -> (r: Vec<u8>)
        requires
            self.wf(),
        ensures
            r@.len() % 32 == 0,
            chunks_of(r@).to_set() == self.groups(),
    {
        let ghost v = ids_view(self.group_ids@);
        let mut r: Vec<u8> = Vec::new();
        let mut i: usize = 0;
        while i < self.group_ids.len()
            invariant
                0 <= i <= self.group_ids.len(),
                v == ids_view(self.group_ids@),
                r@.len() == 32 * i,
                chunks_of(r@) == v.subrange(0, i as int),
            decreases self.group_ids.len() - i,
        {
            let g = self.group_ids[i];
            let ghost before = r@;
            let mut j: usize = 0;
            while j < 32
                invariant
                    0 <= j <= 32,
                    r@ == before + g@.subrange(0, j as int),
                decreases 32 - j,
            {
                r.push(g[j]);
                j += 1;
            }
            proof {
                assert(g@.subrange(0, 32) =~= g@);
                assert(chunks_of(r@) =~= v.subrange(0, i + 1)) by {
                    assert forall|k: int| 0 <= k < i + 1 implies chunks_of(r@)[k] == v[k] by {
                        if k < i {
                            assert(chunks_of(before)[k] == v.subrange(0, i as int)[k]);
                            assert(r@.subrange(32 * k, 32 * k + 32) =~= before.subrange(
                                32 * k,
                                32 * k + 32,
                            ));
                        } else {
                            assert(r@.subrange(32 * k, 32 * k + 32) =~= g@);
                        }
                    }
                }
            }
            i += 1;
        }
        assert(v.subrange(0, i as int) =~= v);
        r
    }

    /// Reads a stored entry. Bytes that are not whole 32-byte chunks are refused;
    /// a group stored twice is recorded once.
    pub fn from_bytes(address: Address, bytes: &Vec<u8>) -> (r: Option<AddressGroups>)
        ensures
            r is Some <==> bytes@.len() % 32 == 0,
            r matches Some(e) ==> e.wf() && e.owner() == address && e.groups() == chunks_of(
                bytes@,
            ).to_set(),
    {
        if bytes.len() % 32 != 0 {
            return None;
        }
        let ghost c = chunks_of(bytes@);
        let mut e = AddressGroups { address, group_ids: Vec::new() };
        assert(ids_view(e.group_ids@) =~= Seq::<Seq<u8>>::empty());
        assert(e.groups() =~= c.subrange(0, 0).to_set());
        let n: usize = bytes.len() / 32;
        let mut i: usize = 0;
        while i < n
            invariant
                n == bytes@.len() / 32,
                bytes@.len() % 32 == 0,
                c == chunks_of(bytes@),
                0 <= i <= n,
                e.wf(),
                e.owner() == address,
                e.groups() == c.subrange(0, i as int).to_set(),
            decreases n - i,
        {
            assert(32 * i + 32 <= bytes@.len()) by (nonlinear_arith)
                requires
                    i < n,
                    n == bytes@.len() / 32,
            ;
            assert(bytes@.len() == bytes.len());
            let base: usize = 32 * i;
            let mut g: GroupId = [0u8; 32];
            let mut j: usize = 0;
            while j < 32
                invariant
                    0 <= j <= 32,
                    i < n,
                    n == bytes@.len() / 32,
                    32 * i + 32 <= bytes@.len(),
                    base == 32 * i,
                    forall|k: int| 0 <= k < j ==> g@[k] == bytes@[32 * i + k],
                decreases 32 - j,
            {
                g[j] = bytes[base + j];
                j += 1;
            }
            assert(g@ =~= c[i as int]);
            let ghost pre = c.subrange(0, i as int);
            e.add_group(g);
            proof {
                let post = c.subrange(0, i + 1);
                assert(post =~= pre.push(g@));
                assert(post.to_set() =~= pre.to_set().insert(g@)) by {
                    assert forall|y: Seq<u8>| post.to_set().contains(y) implies pre.to_set().insert(
                        g@,
                    ).contains(y) by {
                        let k = choose|k: int| 0 <= k < post.len() && post[k] == y;
                        if k < i {
                            assert(pre[k] == y);
                        }
                    }
                    assert forall|y: Seq<u8>| pre.to_set().insert(g@).contains(y) implies post.to_set().contains(
                        y,
                    ) by {
                        if y == g@ {
                            assert(post[i as int] == y);
                        } else {
                            let k = choose|k: int| 0 <= k < pre.len() && pre[k] == y;
                            assert(post[k] == y);
                        }
                    }
                }
            }
            i += 1;
        }
        assert(c.subrange(0, i as int) =~= c);
        Some(e)
    }
}

fn ids_equal(a: &GroupId, b: &GroupId) -> (r: bool)
    ensures
        r == (a@ == b@),
{
    let mut i: usize = 0;
    while i < 32
        invariant
            0 <= i <= 32,
            forall|j: int| 0 <= j < i ==> a@[j] == b@[j],
        decreases 32 - i,
    {
        if a[i] != b[i] {
            return false;
        }
        i += 1;
    }
    assert(a@ =~= b@);
    true
}

/// The entry of `address` after a sync of group `g` that lists it: the
/// existing entry with `g` added, or a new entry holding `g` alone.
pub fn record_membership(existing: Option<AddressGroups>, address: Address, g: GroupId) -> (r:
    AddressGroups)
    requires
        existing matches Some(e) ==> e.wf() && e.owner() == address,
    ensures
        r.wf(),
        r.owner() == address,
        r.groups() == entry_after(
            match existing {
                Some(e) => Some(e.groups()),
                None => None,
            },
            g@,
        ),
{
    match existing {
        Some(mut e) => {
            e.add_group(g);
            e
        },
        None => AddressGroups::create(address, g),
    }
}

} // verus!
