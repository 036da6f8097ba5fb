use vstd::prelude::*;
use crate::types::{Address, BlockNum, addrs_view};
use crate::order::{strictly_sorted, lemma_lex_irreflexive};
use crate::hex_codec::{from_hex, to_hex, hex_of, is_hex, unhex};
use crate::merkle::MerkleTree;

verus! {

/// At most this many members are re-validated before a new root is committed.
pub const SANITY_SAMPLE_SIZE: usize = 5;

/// The latest committed tree of a group, as the tree history store reports it.
pub struct LatestTree {
    pub tree_id: i64,
    /// Hexadecimal text of the committed root.
    pub merkle_root: String,
}

/// A write to the tree history store.
pub enum TreeWrite {
    /// The committed tree is unchanged: move its block number forward.
    Advance { tree_id: i64, block_number: BlockNum },
    /// A new tree: insert a record with this root (hexadecimal text).
    Insert { merkle_root: String, block_number: BlockNum },
}

/// The writes that conclude a sync cycle: one to the tree history store, and
/// the addresses whose reverse-index entries gain the group.
pub struct SyncWrites {
    pub tree: TreeWrite,
    pub index_members: Vec<Address>,
}

/// How a freshly built tree compares with the latest committed one.
pub enum Comparison {
    /// Same root: these writes advance the committed record.
    Unchanged(SyncWrites),
    /// No committed tree, or another root: the new tree must pass a sanity check.
    Changed,
}

/// Whether committed root text denotes the root `root`.
pub open spec fn root_matches(committed: Seq<char>, root: Seq<u8>) -> bool {
    is_hex(committed) && unhex(committed) == root
}

fn bytes_equal(a: &Vec<u8>, b: &Vec<u8>) -> (r: bool)
    ensures
        r == (a@ == b@),
{
    if a.len() != b.len() {
        return false;
    }
    let mut i: usize = 0;
    while i < a.len()
        invariant
            0 <= i <= a.len(),
            a.len() == b.len(),
            forall|j: int| 0 <= j < i ==> a@[j] == b@[j],
        decreases a.len() - i,
    {
        if a[i] != b[i] {
            return false;
        }
        i += 1;
    }
    assert(a@ =~= b@);
    true
}

fn copy_addresses(v: &Vec<Address>) -> (r: Vec<Address>)
    ensures
        r@ == v@,
{
    let mut r: Vec<Address> = Vec::new();
    let mut i: usize = 0;
    while i < v.len()
        invariant
            0 <= i <= v.len(),
            r@ == v@.subrange(0, i as int),
        decreases v.len() - i,
    {
        r.push(v[i]);
        i += 1;
    }
    assert(v@.subrange(0, i as int) =~= v@);
    r
}

/// Compares a new tree with the group's latest committed tree. When the roots
/// are equal no new record is written: the committed record's block number
/// advances to `block_number`, and every current member is indexed.
pub fn compare_with_latest(tree: &MerkleTree, latest: &Option<LatestTree>, block_number: BlockNum) -> (r:
    Comparison)
    ensures
        r is Unchanged <==> (latest matches Some(l) && root_matches(l.merkle_root@, tree.root@)),
        r matches Comparison::Unchanged(w) ==> {
            &&& w.tree is Advance
            &&& w.tree->Advance_tree_id == latest.unwrap().tree_id
            &&& w.tree->Advance_block_number == block_number
            &&& w.index_members@ == tree.leaves@
        },
{
    match latest {
        None => Comparison::Changed,
        Some(l) => {
            match from_hex(l.merkle_root.as_str()) {
                Err(_) => Comparison::Changed,
                Ok(committed) => {
                    if bytes_equal(&committed, &tree.root) {
                        Comparison::Unchanged(
                            SyncWrites {
                                tree: TreeWrite::Advance { tree_id: l.tree_id, block_number },
                                index_members: copy_addresses(&tree.leaves),
                            },
                        )
                    } else {
                        Comparison::Changed
                    }
                },
            }
        },
    }
}

/// Relies on rand's SliceRandom::choose_multiple, drawn with OsRng: it yields
/// min(amount, len) elements of the slice at distinct positions.
#[verifier::external_body]
fn choose_sample(members: &Vec<Address>, amount: usize) -> (r: Vec<Address>)
    ensures
        r@.len() == if amount < members@.len() { amount as int } else { members@.len() as int },
        forall|i: int| 0 <= i < r@.len() ==> members@.contains(#[trigger] r@[i]),
        members@.no_duplicates() ==> r@.no_duplicates(),
{
    let mut rng = rand::rngs::OsRng;
    rand::seq::SliceRandom::choose_multiple(members.as_slice(), &mut rng, amount).cloned().collect()
}

/// A random sample of the tree's members to re-validate before committing:
/// five distinct members, or all of them when there are fewer.
pub fn sanity_sample(tree: &MerkleTree) -> (r: Vec<Address>)
    requires
        strictly_sorted(addrs_view(tree.leaves@)),
    ensures
        r@.len() == if tree.leaves@.len() < 5 { tree.leaves@.len() as int } else { 5 },
        forall|i: int| 0 <= i < r@.len() ==> tree.leaves@.contains(#[trigger] r@[i]),
        r@.no_duplicates(),
{
    proof {
        let v = addrs_view(tree.leaves@);
        assert forall|i: int, j: int|
            0 <= i < tree.leaves@.len() && 0 <= j < tree.leaves@.len() && i != j implies
            tree.leaves@[i] != tree.leaves@[j] by {
            lemma_lex_irreflexive(v[i], 0);
            if i < j {
                assert(crate::order::lex_lt(v[i], v[j]));
            } else {
                assert(crate::order::lex_lt(v[j], v[i]));
            }
        }
    }
    choose_sample(&tree.leaves, SANITY_SAMPLE_SIZE)
}

/// Concludes a cycle that found a new root: the tree is committed at
/// `block_number`, and its members indexed, exactly when the sanity check passed.
pub fn commit_after_sanity_check(tree: &MerkleTree, block_number: BlockNum, passed: bool) -> (r:
    Option<SyncWrites>)
    ensures
        r is Some <==> passed,
        r matches Some(w) ==> {
            &&& w.tree is Insert
            &&& w.tree->Insert_merkle_root@ == hex_of(tree.root@)
            &&& w.tree->Insert_block_number == block_number
            &&& w.index_members@ == tree.leaves@
        },
{
    if !passed {
        return None;
    }
    Some(
        SyncWrites {
            tree: TreeWrite::Insert { merkle_root: to_hex(&tree.root), block_number },
            index_members: copy_addresses(&tree.leaves),
        },
    )
}

} // verus!
