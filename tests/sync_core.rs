use indexer_sync::address_groups::{record_membership, AddressGroups};
use indexer_sync::engine::{start, step, LoopAction, LoopEvent, SyncErrorKind};
use indexer_sync::hex_codec::{parse_group_id, GroupIdError};
use indexer_sync::merkle::{build_tree, MerkleTree};
use indexer_sync::order::{compare_addresses, sorted_unique};
use indexer_sync::query::{lookup_answer, parse_lookup_params, MerkleTreeData, QueryError};
use indexer_sync::sync::{
    commit_after_sanity_check, compare_with_latest, sanity_sample, Comparison, LatestTree,
    TreeWrite,
};
use indexer_sync::types::{Address, GroupId, GroupState, GroupType};
use sha2::{Digest, Sha256};
use std::collections::{HashMap, HashSet};

fn addr(b: u8) -> Address {
    let mut a = [0u8; 20];
    a[19] = b;
    a
}

fn gid() -> GroupId {
    [7u8; 32]
}

fn sha(data: &[u8]) -> Vec<u8> {
    Sha256::digest(data).to_vec()
}

fn tree_of(members: &[Address]) -> MerkleTree {
    build_tree(&gid(), GroupType::Plain, &members.to_vec()).unwrap()
}

#[test]
fn group_id_parses_from_hex() {
    let text = "07".repeat(32);
    assert_eq!(parse_group_id(&text), Ok([7u8; 32]));
    assert_eq!(parse_group_id(&"AB".repeat(32)), Ok([0xabu8; 32]));
}

#[test]
fn group_id_rejects_bad_text() {
    assert_eq!(parse_group_id("zz"), Err(GroupIdError::InvalidHex));
    assert_eq!(parse_group_id("abc"), Err(GroupIdError::InvalidHex));
    assert_eq!(parse_group_id("abcd"), Err(GroupIdError::WrongLength));
    assert_eq!(parse_group_id(""), Err(GroupIdError::WrongLength));
}

#[test]
fn addresses_compare_lexicographically() {
    let mut hi = [0u8; 20];
    hi[0] = 1;
    assert!(compare_addresses(&addr(5), &hi) < 0);
    assert!(compare_addresses(&hi, &addr(5)) > 0);
    assert_eq!(compare_addresses(&addr(5), &addr(5)), 0);
}

#[test]
fn members_are_sorted_and_deduplicated() {
    let out = sorted_unique(&vec![addr(3), addr(1), addr(3), addr(2), addr(1)]);
    assert_eq!(out, vec![addr(1), addr(2), addr(3)]);
}

#[test]
fn empty_member_set_builds_no_tree() {
    assert!(build_tree(&gid(), GroupType::Plain, &Vec::new()).is_none());
}

#[test]
fn root_of_two_members_hashes_leaf_pair() {
    let t = tree_of(&[addr(2), addr(1)]);
    let mut pair = sha(&addr(1));
    pair.extend(sha(&addr(2)));
    assert_eq!(t.root, sha(&pair));
    assert_eq!(t.leaves, vec![addr(1), addr(2)]);
}

#[test]
fn single_member_root_is_its_leaf_hash() {
    let t = tree_of(&[addr(9)]);
    assert_eq!(t.root, sha(&addr(9)));
    let tagged = build_tree(&gid(), GroupType::Tagged, &vec![addr(9)]).unwrap();
    let mut leaf = gid().to_vec();
    leaf.extend_from_slice(&addr(9));
    assert_eq!(tagged.root, sha(&leaf));
}

#[test]
fn odd_node_moves_up_unchanged() {
    let t = tree_of(&[addr(1), addr(2), addr(3)]);
    let mut pair = sha(&addr(1));
    pair.extend(sha(&addr(2)));
    let mut top = sha(&pair);
    top.extend(sha(&addr(3)));
    assert_eq!(t.root, sha(&top));
}

#[test]
fn root_ignores_member_order() {
    let a = tree_of(&[addr(1), addr(2), addr(3), addr(4), addr(5)]);
    let b = tree_of(&[addr(5), addr(3), addr(1), addr(4), addr(2), addr(3)]);
    assert_eq!(a.root, b.root);
    let c = tree_of(&[addr(1), addr(2), addr(3), addr(4)]);
    assert_ne!(a.root, c.root);
}

#[test]
fn same_root_advances_committed_record() {
    let t = tree_of(&[addr(1), addr(2)]);
    let latest = Some(LatestTree { tree_id: 42, merkle_root: hex::encode(&t.root) });
    match compare_with_latest(&t, &latest, 200) {
        Comparison::Unchanged(w) => {
            assert!(matches!(w.tree, TreeWrite::Advance { tree_id: 42, block_number: 200 }));
            assert_eq!(w.index_members, vec![addr(1), addr(2)]);
        }
        Comparison::Changed => panic!("expected the unchanged path"),
    }
}

#[test]
fn other_or_missing_root_needs_sanity_check() {
    let t = tree_of(&[addr(1), addr(2)]);
    let other = Some(LatestTree { tree_id: 1, merkle_root: "00".repeat(32) });
    assert!(matches!(compare_with_latest(&t, &other, 5), Comparison::Changed));
    assert!(matches!(compare_with_latest(&t, &None, 5), Comparison::Changed));
    let garbage = Some(LatestTree { tree_id: 1, merkle_root: "not hex".to_string() });
    assert!(matches!(compare_with_latest(&t, &garbage, 5), Comparison::Changed));
}

#[test]
fn failed_sanity_check_commits_nothing() {
    let t = tree_of(&[addr(1)]);
    assert!(commit_after_sanity_check(&t, 10, false).is_none());
}

#[test]
fn passed_sanity_check_inserts_new_record() {
    let t = tree_of(&[addr(1), addr(2)]);
    let w = commit_after_sanity_check(&t, 10, true).unwrap();
    match w.tree {
        TreeWrite::Insert { merkle_root, block_number } => {
            assert_eq!(merkle_root, hex::encode(&t.root));
            assert_eq!(block_number, 10);
        }
        TreeWrite::Advance { .. } => panic!("expected an insert"),
    }
    assert_eq!(w.index_members, t.leaves);
}

#[test]
fn sanity_sample_is_capped_at_five_distinct_members() {
    let big: Vec<Address> = (1..=9).map(addr).collect();
    let t = tree_of(&big);
    let s = sanity_sample(&t);
    assert_eq!(s.len(), 5);
    let distinct: HashSet<Address> = s.iter().copied().collect();
    assert_eq!(distinct.len(), 5);
    assert!(s.iter().all(|a| big.contains(a)));
    let small = tree_of(&[addr(1), addr(2), addr(3)]);
    let mut s = sanity_sample(&small);
    s.sort();
    assert_eq!(s, vec![addr(1), addr(2), addr(3)]);
}

#[test]
fn engine_transitions() {
    let a = GroupState::Active;
    assert_eq!(start(a), LoopAction::AcquirePermit);
    assert_eq!(step(a, LoopEvent::PermitAcquired), (a, LoopAction::CheckReady));
    assert_eq!(step(a, LoopEvent::PermitFailed), (a, LoopAction::Sleep(5)));
    assert_eq!(step(a, LoopEvent::ReadyCheckFailed), (a, LoopAction::ReleaseAndSleep(5)));
    assert_eq!(step(a, LoopEvent::ReadyChecked(false)), (a, LoopAction::ReleaseAndSleep(300)));
    assert_eq!(step(a, LoopEvent::ReadyChecked(true)), (a, LoopAction::FetchLatestBlock));
    assert_eq!(step(a, LoopEvent::BlockFetchFailed), (a, LoopAction::ReleaseAndSleep(1)));
    assert_eq!(step(a, LoopEvent::BlockFetched(77)), (a, LoopAction::SyncToBlock(77)));
    assert_eq!(step(a, LoopEvent::SyncSucceeded), (a, LoopAction::ReleaseAndSleep(300)));
    for kind in [SyncErrorKind::TransientInfra, SyncErrorKind::NotReady, SyncErrorKind::SanityFailed] {
        assert_eq!(step(a, LoopEvent::SyncFailed(kind)), (a, LoopAction::ReleaseAndSleep(300)));
    }
}

#[test]
fn fatal_failure_stops_the_group() {
    let (s, act) = step(GroupState::Active, LoopEvent::SyncFailed(SyncErrorKind::InvalidState));
    assert_eq!(s, GroupState::Unrecordable);
    assert_eq!(act, LoopAction::ReleaseAndMarkUnrecordable);
    assert_eq!(start(s), LoopAction::Stop);
    assert_eq!(step(s, LoopEvent::BlockFetched(500)), (s, LoopAction::Stop));
    assert_eq!(step(s, LoopEvent::PermitAcquired), (s, LoopAction::Stop));
}

#[test]
fn address_groups_add_is_idempotent() {
    let mut e = AddressGroups::create(addr(1), [1u8; 32]);
    e.add_group([2u8; 32]);
    e.add_group([1u8; 32]);
    assert_eq!(e.group_ids(), &vec![[1u8; 32], [2u8; 32]]);
    assert!(e.contains(&[2u8; 32]));
    assert!(!e.contains(&[3u8; 32]));
    assert_eq!(e.address(), addr(1));
}

#[test]
fn address_groups_bytes_round_trip() {
    let mut e = AddressGroups::create(addr(1), [1u8; 32]);
    e.add_group([2u8; 32]);
    let bytes = e.to_bytes();
    assert_eq!(bytes.len(), 64);
    let back = AddressGroups::from_bytes(addr(1), &bytes).unwrap();
    assert_eq!(back.group_ids(), e.group_ids());
    assert!(AddressGroups::from_bytes(addr(1), &vec![0u8; 33]).is_none());
    let mut twice = bytes.clone();
    twice.extend_from_slice(&[1u8; 32]);
    assert_eq!(AddressGroups::from_bytes(addr(1), &twice).unwrap().group_ids().len(), 2);
}

#[test]
fn record_membership_creates_or_extends() {
    let fresh = record_membership(None, addr(4), [9u8; 32]);
    assert_eq!(fresh.group_ids(), &vec![[9u8; 32]]);
    let extended = record_membership(Some(fresh), addr(4), [8u8; 32]);
    assert_eq!(extended.group_ids(), &vec![[9u8; 32], [8u8; 32]]);
}

#[test]
fn lookup_params_need_two_entries() {
    assert_eq!(
        parse_lookup_params(vec!["r".to_string(), "g".to_string()]),
        Ok(("r".to_string(), "g".to_string()))
    );
    assert_eq!(parse_lookup_params(vec!["r".to_string()]), Err(QueryError::InvalidParams));
    assert_eq!(parse_lookup_params(vec![]), Err(QueryError::InvalidParams));
}

#[test]
fn lookup_answer_reports_block_or_error() {
    assert_eq!(lookup_answer(Some(vec![300, 100])), Ok(MerkleTreeData { block_number: 300 }));
    assert_eq!(lookup_answer(Some(vec![])), Err(QueryError::NotFound));
    assert_eq!(lookup_answer(None), Err(QueryError::StoreUnreachable));
}

/// An in-memory stand-in for the two stores, driven by the library's decisions.
struct Stores {
    history: Vec<(i64, String, u64)>,
    index: HashMap<Address, AddressGroups>,
}

impl Stores {
    fn sync(&mut self, members: &[Address], block: u64, sanity_passes: bool) {
        let Some(tree) = build_tree(&gid(), GroupType::Plain, &members.to_vec()) else {
            return;
        };
        let latest = self
            .history
            .last()
            .map(|(id, root, _)| LatestTree { tree_id: *id, merkle_root: root.clone() });
        let writes = match compare_with_latest(&tree, &latest, block) {
            Comparison::Unchanged(w) => w,
            Comparison::Changed => {
                let sample = sanity_sample(&tree);
                assert_eq!(sample.len(), tree.leaves.len().min(5));
                match commit_after_sanity_check(&tree, block, sanity_passes) {
                    Some(w) => w,
                    None => return,
                }
            }
        };
        match writes.tree {
            TreeWrite::Advance { tree_id, block_number } => {
                let row = self.history.iter_mut().find(|r| r.0 == tree_id).unwrap();
                row.2 = block_number;
            }
            TreeWrite::Insert { merkle_root, block_number } => {
                let id = self.history.len() as i64 + 1;
                self.history.push((id, merkle_root, block_number));
            }
        }
        for a in writes.index_members {
            let existing = self.index.remove(&a);
            self.index.insert(a, record_membership(existing, a, gid()));
        }
    }

    fn has_group(&self, a: Address) -> bool {
        self.index.get(&a).map_or(false, |e| e.contains(&gid()))
    }
}

#[test]
fn whales_scenario_commits_then_advances() {
    let (a, b, c) = (addr(0xa), addr(0xb), addr(0xc));
    let mut st = Stores { history: Vec::new(), index: HashMap::new() };
    st.sync(&[a, b, c], 100, true);
    assert_eq!(st.history.len(), 1);
    let x = st.history[0].1.clone();
    assert_eq!(st.history[0].2, 100);
    st.sync(&[c, a, b], 200, true);
    assert_eq!(st.history, vec![(1, x.clone(), 200)]);
    st.sync(&[a, b], 300, true);
    assert_eq!(st.history.len(), 2);
    assert_ne!(st.history[1].1, x);
    assert_eq!(st.history[1].2, 300);
    assert!(st.has_group(a) && st.has_group(b) && st.has_group(c));
}

#[test]
fn sanity_failure_leaves_stores_untouched() {
    let mut st = Stores { history: Vec::new(), index: HashMap::new() };
    st.sync(&[addr(1), addr(2)], 100, false);
    assert!(st.history.is_empty());
    assert!(st.index.is_empty());
    st.sync(&[], 150, true);
    assert!(st.history.is_empty());
    assert!(st.index.is_empty());
}
