use vstd::prelude::*;
use crate::types::{Address, addrs_view};

verus! {

broadcast use vstd::array::group_array_axioms;

/// Lexicographic comparison of two byte strings from position `i` on:
/// the first position at which they differ decides.
pub open spec fn lex_lt_from(a: Seq<u8>, b: Seq<u8>, i: int) -> bool
    decreases a.len() - i,
{
    if i < 0 || i >= a.len() || i >= b.len() {
        false
    } else if a[i] != b[i] {
        a[i] < b[i]
    } else {
        lex_lt_from(a, b, i + 1)
    }
}

/// Lexicographic order on byte strings of equal length.
pub open spec fn lex_lt(a: Seq<u8>, b: Seq<u8>) -> bool {
    lex_lt_from(a, b, 0)
}

/// Each byte string is strictly below the next one.
pub open spec fn strictly_sorted(s: Seq<Seq<u8>>) -> bool {
    forall|i: int, j: int| 0 <= i < j < s.len() ==> lex_lt(#[trigger] s[i], #[trigger] s[j])
}

/// Every element of `s` is `n` bytes long.
pub open spec fn all_len(s: Seq<Seq<u8>>, n: nat) -> bool {
    forall|i: int| 0 <= i < s.len() ==> (#[trigger] s[i]).len() == n
}

pub proof fn lemma_lex_irreflexive(a: Seq<u8>, i: int)
    ensures
        !lex_lt_from(a, a, i),
    decreases a.len() - i,
{
    if 0 <= i < a.len() {
        lemma_lex_irreflexive(a, i + 1);
    }
}

pub proof fn lemma_lex_transitive(a: Seq<u8>, b: Seq<u8>, c: Seq<u8>, i: int)
    requires
        lex_lt_from(a, b, i),
        lex_lt_from(b, c, i),
    ensures
        lex_lt_from(a, c, i),
    decreases a.len() - i,
{
    if a[i] == b[i] && b[i] == c[i] {
        lemma_lex_transitive(a, b, c, i + 1);
    }
}

pub proof fn lemma_lex_total(a: Seq<u8>, b: Seq<u8>, i: int)
    requires
        a.len() == b.len(),
        0 <= i <= a.len(),
    ensures
        lex_lt_from(a, b, i) || lex_lt_from(b, a, i) || a.subrange(i, a.len() as int)
            == b.subrange(i, b.len() as int),
    decreases a.len() - i,
{
    if i < a.len() {
        lemma_lex_total(a, b, i + 1);
        if a[i] == b[i] && !lex_lt_from(a, b, i) && !lex_lt_from(b, a, i) {
            assert(a.subrange(i, a.len() as int) =~= b.subrange(i, b.len() as int)) by {
                assert(a.subrange(i + 1, a.len() as int) == b.subrange(i + 1, b.len() as int));
                assert forall|k: int| i < k < a.len() implies a[k] == b[k] by {
                    assert(a[k] == a.subrange(i + 1, a.len() as int)[k - i - 1]);
                    assert(b[k] == b.subrange(i + 1, b.len() as int)[k - i - 1]);
                }
            }
        }
    } else {
        assert(a.subrange(i, a.len() as int) =~= b.subrange(i, b.len() as int));
    }
}

/// Two byte strings of equal length are equal or ordered one way or the other.
pub proof fn lemma_lex_trichotomy(a: Seq<u8>, b: Seq<u8>)
    requires
        a.len() == b.len(),
    ensures
        a == b || lex_lt(a, b) || lex_lt(b, a),
{
    lemma_lex_total(a, b, 0);
    assert(a.subrange(0, a.len() as int) =~= a);
    assert(b.subrange(0, b.len() as int) =~= b);
}

/// Compares two addresses byte by byte: negative, zero or positive as `a` is
/// below, equal to or above `b`.
pub fn compare_addresses(a: &Address, b: &Address) -> (r: i8)
    ensures
        (r < 0) == lex_lt(a@, b@),
        (r > 0) == lex_lt(b@, a@),
        (r == 0) == (a@ == b@),
{
    let mut i: usize = 0;
    while i < 20
        invariant
            0 <= i <= 20,
            forall|j: int| 0 <= j < i ==> a@[j] == b@[j],
            lex_lt(a@, b@) == lex_lt_from(a@, b@, i as int),
            lex_lt(b@, a@) == lex_lt_from(b@, a@, i as int),
        decreases 20 - i,
    {
        if a[i] < b[i] {
            return -1;
        }
        if a[i] > b[i] {
            return 1;
        }
        i += 1;
    }
    assert(a@ =~= b@);
    0
}

/// Two strictly sorted sequences of equal-length byte strings with the same
/// elements are the same sequence.
pub proof fn lemma_sorted_unique(s1: Seq<Seq<u8>>, s2: Seq<Seq<u8>>, n: nat)
    requires
        strictly_sorted(s1),
        strictly_sorted(s2),
        all_len(s1, n),
        all_len(s2, n),
        s1.to_set() == s2.to_set(),
    ensures
        s1 == s2,
    decreases s1.len(),
{
    if s1.len() == 0 {
        if s2.len() != 0 {
            assert(s2.to_set().contains(s2[0]));
        }
        assert(s2 =~= s1);
    } else {
        assert(s1.to_set().contains(s1[0]));
        assert(s2.len() != 0);
        assert(s2.to_set().contains(s2[0]));
        let k = choose|k: int| 0 <= k < s1.len() && s1[k] == s2[0];
        let m = choose|m: int| 0 <= m < s2.len() && s2[m] == s1[0];
        if k > 0 && m > 0 {
            lemma_lex_transitive(s1[0], s2[0], s1[0], 0);
            lemma_lex_irreflexive(s1[0], 0);
        }
        assert(s1[0] == s2[0]);
        let t1 = s1.drop_first();
        let t2 = s2.drop_first();
        assert forall|x: Seq<u8>| t1.to_set().contains(x) implies t2.to_set().contains(x) by {
            let i = choose|i: int| 0 <= i < t1.len() && t1[i] == x;
            assert(s1.to_set().contains(x) && x != s1[0]) by {
                assert(s1[i + 1] == x);
                lemma_lex_irreflexive(x, 0);
            }
            let j = choose|j: int| 0 <= j < s2.len() && s2[j] == x;
            assert(t2[j - 1] == x);
        }
        assert forall|x: Seq<u8>| t2.to_set().contains(x) implies t1.to_set().contains(x) by {
            let i = choose|i: int| 0 <= i < t2.len() && t2[i] == x;
            assert(s2.to_set().contains(x) && x != s2[0]) by {
                assert(s2[i + 1] == x);
                lemma_lex_irreflexive(x, 0);
            }
            let j = choose|j: int| 0 <= j < s1.len() && s1[j] == x;
            assert(t1[j - 1] == x);
        }
        assert(t1.to_set() =~= t2.to_set());
        lemma_sorted_unique(t1, t2, n);
        assert(t1.len() == t2.len());
        assert(s1 =~= s2) by {
            assert forall|i: int| 0 <= i < s1.len() implies s1[i] == s2[i] by {
                if i > 0 {
                    assert(s1[i] == t1[i - 1]);
                    assert(s2[i] == t2[i - 1]);
                }
            }
        }
    }
}

} // verus!

verus! {

/// The canonical listing of a set of byte strings: strictly increasing.
pub open spec fn canonical(s: Set<Seq<u8>>) -> Seq<Seq<u8>> {
    choose|q: Seq<Seq<u8>>| strictly_sorted(q) && q.to_set() == s && all_len(q, 20)
}

/// Inserts `x` into a strictly increasing vector unless it is already there.
fn insert_sorted(out: &mut Vec<Address>, x: Address)
    requires
        strictly_sorted(addrs_view(old(out)@)),
    ensures
        strictly_sorted(addrs_view(final(out)@)),
        addrs_view(final(out)@).to_set() == addrs_view(old(out)@).to_set().insert(x@),
{
    let ghost old_out = out@;
    let ghost ov = addrs_view(old_out);
    let mut p: usize = 0;
    while p < out.len() && compare_addresses(&out[p], &x) < 0
        invariant
            out@ == old_out,
            0 <= p <= out.len(),
            forall|k: int| 0 <= k < p ==> lex_lt((#[trigger] out@[k])@, x@),
        decreases out.len() - p,
    {
        p += 1;
    }
    if p < out.len() && compare_addresses(&out[p], &x) == 0 {
        assert(ov.to_set().insert(x@) =~= ov.to_set()) by {
            assert(ov[p as int] == x@);
        }
        return;
    }
    if p < out.len() {
        proof {
            lemma_lex_trichotomy(out@[p as int]@, x@);
        }
    }
    out.insert(p, x);
    assert(out@ == old_out.insert(p as int, x));
    let ghost nv = addrs_view(out@);
    assert forall|a: int, b: int| 0 <= a < b < nv.len() implies lex_lt(
        #[trigger] nv[a],
        #[trigger] nv[b],
    ) by {
        if b < p {
            assert(lex_lt(ov[a], ov[b]));
        } else if b == p {
            assert(nv[a] == ov[a]);
        } else if a == p {
            assert(nv[b] == ov[b - 1]);
            if b - 1 > p {
                assert(lex_lt(ov[p as int], ov[b - 1]));
                lemma_lex_transitive(x@, ov[p as int], ov[b - 1], 0);
            }
        } else if a < p {
            assert(nv[a] == ov[a] && nv[b] == ov[b - 1]);
            assert(lex_lt(ov[a], x@));
            if b - 1 > p {
                assert(lex_lt(ov[p as int], ov[b - 1]));
                lemma_lex_transitive(x@, ov[p as int], ov[b - 1], 0);
            }
            lemma_lex_transitive(ov[a], x@, ov[b - 1], 0);
        } else {
            assert(nv[a] == ov[a - 1] && nv[b] == ov[b - 1]);
            assert(lex_lt(ov[a - 1], ov[b - 1]));
        }
    }
    assert(nv =~= ov.insert(p as int, x@));
    assert(nv.to_set() =~= ov.to_set().insert(x@)) by {
        assert forall|y: Seq<u8>| nv.to_set().contains(y) implies ov.to_set().insert(x@).contains(
            y,
        ) by {
            let k = choose|k: int| 0 <= k < nv.len() && nv[k] == y;
            if k < p {
                assert(ov[k] == y);
            } else if k > p {
                assert(ov[k - 1] == y);
            }
        }
        assert forall|y: Seq<u8>| ov.to_set().insert(x@).contains(y) implies nv.to_set().contains(
            y,
        ) by {
            if y == x@ {
                assert(nv[p as int] == y);
            } else {
                let k = choose|k: int| 0 <= k < ov.len() && ov[k] == y;
                if k < p {
                    assert(nv[k] == y);
                } else {
                    assert(nv[k + 1] == y);
                }
            }
        }
    }
}

/// The members in increasing order, each once.
pub fn sorted_unique(members: &Vec<Address>) -> (r: Vec<Address>)
    ensures
        strictly_sorted(addrs_view(r@)),
        addrs_view(r@).to_set() == addrs_view(members@).to_set(),
        addrs_view(r@) == canonical(addrs_view(members@).to_set()),
{
    let mut out: Vec<Address> = Vec::new();
    let mut i: usize = 0;
    assert(addrs_view(out@).to_set() =~= addrs_view(members@.subrange(0, 0)).to_set());
    while i < members.len()
        invariant
            0 <= i <= members.len(),
            strictly_sorted(addrs_view(out@)),
            addrs_view(out@).to_set() == addrs_view(members@.subrange(0, i as int)).to_set(),
        decreases members.len() - i,
    {
        let x = members[i];
        insert_sorted(&mut out, x);
        proof {
            let pre = addrs_view(members@.subrange(0, i as int));
            let post = addrs_view(members@.subrange(0, i + 1));
            assert(post =~= pre.push(x@));
            assert(post.to_set() =~= pre.to_set().insert(x@)) by {
                assert forall|y: Seq<u8>| post.to_set().contains(y) implies pre.to_set().insert(
                    x@,
                ).contains(y) by {
                    let k = choose|k: int| 0 <= k < post.len() && post[k] == y;
                    if k < i {
                        assert(pre[k] == y);
                    }
                }
                assert forall|y: Seq<u8>| pre.to_set().insert(x@).contains(y) implies post.to_set().contains(
                    y,
                ) by {
                    if y == x@ {
                        assert(post[i as int] == y);
                    } else {
                        let k = choose|k: int| 0 <= k < pre.len() && pre[k] == y;
                        assert(post[k] == y);
                    }
                }
            }
        }
        i += 1;
    }
    let ghost rv = addrs_view(out@);
    let ghost mv = addrs_view(members@);
    assert(members@.subrange(0, i as int) =~= members@);
    assert(all_len(rv, 20));
    proof {
        lemma_sorted_unique(rv, canonical(mv.to_set()), 20);
    }
    out
}

} // verus!
