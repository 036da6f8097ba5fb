use vstd::prelude::*;
use crate::types::{Address, GroupId, GroupType, addrs_view};
use crate::order::{all_len, canonical, lemma_sorted_unique, sorted_unique, strictly_sorted};

verus! {

/// The SHA-256 digest of a byte string.
pub uninterp spec fn sha256_of(data: Seq<u8>) -> Seq<u8>;

/// Relies on sha2::Sha256::digest: the 32-byte SHA-256 digest of the input.
#[verifier::external_body]
fn sha256(data: &Vec<u8>) -> (r: Vec<u8>)
    ensures
        r@ == sha256_of(data@),
        r@.len() == 32,
{
    <sha2::Sha256 as sha2::Digest>::digest(data.as_slice()).to_vec()
}

/// The bytes of the leaf for address `a` in a group of type `t` with identifier `gid`.
pub open spec fn leaf_bytes(gid: Seq<u8>, t: GroupType, a: Seq<u8>) -> Seq<u8> {
    match t {
        GroupType::Plain => a,
        GroupType::Tagged => gid + a,
    }
}

/// The leaf hashes of a listing of members.
pub open spec fn leaf_hashes(gid: Seq<u8>, t: GroupType, members: Seq<Seq<u8>>) -> Seq<Seq<u8>> {
    members.map_values(|a: Seq<u8>| sha256_of(leaf_bytes(gid, t, a)))
}

/// One level up: adjacent pairs are hashed together, an odd last node moves up unchanged.
pub open spec fn next_level(s: Seq<Seq<u8>>) -> Seq<Seq<u8>> {
    Seq::new(
        ((s.len() + 1) / 2) as nat,
        |i: int|
            if 2 * i + 1 < s.len() {
                sha256_of(s[2 * i] + s[2 * i + 1])
            } else {
                s[2 * i]
            },
    )
}

/// The root over a nonempty level of nodes.
pub open spec fn root_of_level(s: Seq<Seq<u8>>) -> Seq<u8>
    decreases s.len(),
{
    if s.len() <= 1 {
        if s.len() == 1 {
            s[0]
        } else {
            Seq::empty()
        }
    } else {
        root_of_level(next_level(s))
    }
}

/// The Merkle root of a group over a listing of its members.
pub open spec fn tree_root(gid: Seq<u8>, t: GroupType, members: Seq<Seq<u8>>) -> Seq<u8> {
    root_of_level(leaf_hashes(gid, t, members))
}

/// The Merkle root of a group over a set of members: the root over their
/// canonical (increasing) listing, so it depends on the set alone.
pub open spec fn set_root(gid: Seq<u8>, t: GroupType, members: Set<Seq<u8>>) -> Seq<u8> {
    tree_root(gid, t, canonical(members))
}

/// The byte strings held by a sequence of vectors.
pub open spec fn bytes_views(s: Seq<Vec<u8>>) -> Seq<Seq<u8>> {
    s.map_values(|v: Vec<u8>| v@)
}

/// A committed-to Merkle tree: the members in canonical order and the root.
pub struct MerkleTree {
    pub leaves: Vec<Address>,
    pub root: Vec<u8>,
}

fn concat(a: &Vec<u8>, b: &Vec<u8>) -> (r: Vec<u8>)
    ensures
        r@ == a@ + b@,
{
    let mut r: Vec<u8> = Vec::new();
    let mut i: usize = 0;
    while i < a.len()
        invariant
            0 <= i <= a.len(),
            r@ == a@.subrange(0, i as int),
        decreases a.len() - i,
    {
        r.push(a[i]);
        i += 1;
    }
    let mut j: usize = 0;
    while j < b.len()
        invariant
            0 <= j <= b.len(),
            r@ == a@ + b@.subrange(0, j as int),
        decreases b.len() - j,
    {
        r.push(b[j]);
        j += 1;
    }
    assert(b@.subrange(0, j as int) =~= b@);
    r
}

fn address_bytes(a: &Address) -> (r: Vec<u8>)
    ensures
        r@ == a@,
{
    let mut r: Vec<u8> = Vec::new();
    let mut i: usize = 0;
    while i < 20
        invariant
            0 <= i <= 20,
            r@ == a@.subrange(0, i as int),
        decreases 20 - i,
    {
        r.push(a[i]);
        i += 1;
    }
    r
}

fn group_id_bytes(g: &GroupId) -> (r: Vec<u8>)
    ensures
        r@ == g@,
{
    let mut r: Vec<u8> = Vec::new();
    let mut i: usize = 0;
    while i < 32
        invariant
            0 <= i <= 32,
            r@ == g@.subrange(0, i as int),
        decreases 32 - i,
    {
        r.push(g[i]);
        i += 1;
    }
    r
}

/// The leaf hash of one member.
fn leaf_hash(gid: &GroupId, t: GroupType, a: &Address) -> (r: Vec<u8>)
    ensures
        r@ == sha256_of(leaf_bytes(gid@, t, a@)),
{
    let ab = address_bytes(a);
    match t {
        GroupType::Plain => sha256(&ab),
        GroupType::Tagged => {
            let gb = group_id_bytes(gid);
            sha256(&concat(&gb, &ab))
        },
    }
}

/// Hashes one level into the next.
fn hash_level(level: &Vec<Vec<u8>>) -> (r: Vec<Vec<u8>>)
    ensures
        r.len() == (level.len() + 1) / 2,
        bytes_views(r@) == next_level(bytes_views(level@)),
{
    let ghost lv = bytes_views(level@);
    let n: usize = level.len() / 2 + level.len() % 2;
    let mut next: Vec<Vec<u8>> = Vec::new();
    let mut k: usize = 0;
    while k < n
        invariant
            n == (level.len() + 1) / 2,
            lv == bytes_views(level@),
            0 <= k <= n,
            next.len() == k,
            forall|m: int| 0 <= m < k ==> (#[trigger] next@[m])@ == next_level(lv)[m],
        decreases n - k,
    {
        if 2 * k + 1 < level.len() {
            let h = sha256(&concat(&level[2 * k], &level[2 * k + 1]));
            assert(lv[2 * k as int] == level@[2 * k as int]@);
            assert(lv[2 * k + 1] == level@[2 * k + 1]@);
            next.push(h);
        } else {
            let c = concat(&level[2 * k], &Vec::new());
            assert(c@ =~= level@[2 * k as int]@);
            assert(lv[2 * k as int] == level@[2 * k as int]@);
            next.push(c);
        }
        k += 1;
    }
    assert(bytes_views(next@) =~= next_level(lv));
    next
}

/// The root over a nonempty level of nodes.
fn root_of(leaves: Vec<Vec<u8>>) -> (r: Vec<u8>)
    requires
        leaves.len() >= 1,
    ensures
        r@ == root_of_level(bytes_views(leaves@)),
{
    let ghost target = root_of_level(bytes_views(leaves@));
    let mut level = leaves;
    while level.len() > 1
        invariant
            level.len() >= 1,
            root_of_level(bytes_views(level@)) == target,
        decreases level.len(),
    {
        level = hash_level(&level);
    }
    let ghost lv = bytes_views(level@);
    assert(lv[0] == level@[0]@);
    concat(&level[0], &Vec::new())
}

/// Builds the Merkle tree of a group over its members. The members are
/// listed in increasing order, each once, before hashing, so the tree depends
/// on the set of members alone. An empty set gives no tree.
pub fn build_tree(group_id: &GroupId, group_type: GroupType, members: &Vec<Address>) -> (r:
    Option<MerkleTree>)
    ensures
        r is None <==> members@.len() == 0,
        r matches Some(t) ==> {
            &&& strictly_sorted(addrs_view(t.leaves@))
            &&& addrs_view(t.leaves@).to_set() == addrs_view(members@).to_set()
            &&& addrs_view(t.leaves@) == canonical(addrs_view(members@).to_set())
            &&& t.root@ == set_root(group_id@, group_type, addrs_view(members@).to_set())
        },
{
    if members.len() == 0 {
        return None;
    }
    let leaves = sorted_unique(members);
    let ghost lv = addrs_view(leaves@);
    proof {
        assert(addrs_view(members@).to_set().contains(members@[0]@)) by {
            assert(addrs_view(members@)[0] == members@[0]@);
        }
        if leaves.len() == 0 {
            assert(lv.to_set() =~= Set::empty());
        }
    }
    let mut hashes: Vec<Vec<u8>> = Vec::new();
    let mut i: usize = 0;
    while i < leaves.len()
        invariant
            0 <= i <= leaves.len(),
            hashes.len() == i,
            lv == addrs_view(leaves@),
            forall|m: int|
                0 <= m < i ==> (#[trigger] hashes@[m])@ == leaf_hashes(group_id@, group_type, lv)[m],
        decreases leaves.len() - i,
    {
        let h = leaf_hash(group_id, group_type, &leaves[i]);
        hashes.push(h);
        i += 1;
    }
    assert(bytes_views(hashes@) =~= leaf_hashes(group_id@, group_type, lv));
    let root = root_of(hashes);
    Some(MerkleTree { leaves, root })
}

/// Two member listings with the same addresses, in any order and with any
/// repetitions, give trees with the same root.
pub proof fn lemma_root_ignores_listing_order(
    gid: Seq<u8>,
    t: GroupType,
    m1: Seq<Address>,
    m2: Seq<Address>,
)
    requires
        addrs_view(m1).to_set() == addrs_view(m2).to_set(),
    ensures
        set_root(gid, t, addrs_view(m1).to_set()) == set_root(gid, t, addrs_view(m2).to_set()),
{
}

/// The root of a member set is the root over its increasing listing of
/// 20-byte addresses, whichever way that listing was obtained.
pub proof fn lemma_root_over_sorted_listing(gid: Seq<u8>, t: GroupType, q: Seq<Seq<u8>>)
    requires
        strictly_sorted(q),
        all_len(q, 20),
    ensures
        set_root(gid, t, q.to_set()) == tree_root(gid, t, q),
{
    lemma_sorted_unique(q, canonical(q.to_set()), 20);
}

} // verus!
