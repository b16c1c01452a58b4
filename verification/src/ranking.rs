//! The encapsulation chains in the order of a report: the most frequent first,
//! equally frequent ones by name.

use vstd::prelude::*;
#[allow(unused_imports)]
use vstd::relations::{antisymmetric, reflexive, sorted_by, strongly_connected, total_ordering, transitive};

#[allow(unused_imports)]
use crate::stats::chains_view;
use crate::words::chars_of;

verus! {

/// Lexicographic order by code point.
pub open spec fn name_le(a: Seq<char>, b: Seq<char>) -> bool
    decreases a.len(),
{
    if a.len() == 0 {
        true
    } else if b.len() == 0 {
        false
    } else {
        a[0] < b[0] || (a[0] == b[0] && name_le(a.skip(1), b.skip(1)))
    }
}

/// The order of chains: more frames first, then by name.
pub open spec fn chain_le(a: (Seq<char>, nat), b: (Seq<char>, nat)) -> bool {
    a.1 > b.1 || (a.1 == b.1 && name_le(a.0, b.0))
}

/// The chains in the order of a report.
pub open spec fn ranking(chains: Seq<(Seq<char>, nat)>) -> Seq<(Seq<char>, nat)> {
    chains.sort_by(|a: (Seq<char>, nat), b: (Seq<char>, nat)| chain_le(a, b))
}

/// The frames of all chains.
pub open spec fn chain_total(chains: Seq<(Seq<char>, nat)>) -> nat
    decreases chains.len(),
{
    if chains.len() == 0 {
        0
    } else {
        chain_total(chains.drop_last()) + chains.last().1
    }
}

proof fn lemma_name_le_reflexive(a: Seq<char>)
    ensures
        name_le(a, a),
    decreases a.len(),
{
    if a.len() > 0 {
        lemma_name_le_reflexive(a.skip(1));
    }
}

proof fn lemma_name_le_antisymmetric(a: Seq<char>, b: Seq<char>)
    requires
        name_le(a, b),
        name_le(b, a),
    ensures
        a == b,
    decreases a.len(),
{
    if a.len() > 0 && b.len() > 0 {
        lemma_name_le_antisymmetric(a.skip(1), b.skip(1));
        assert(a =~= seq![a[0]] + a.skip(1));
        assert(b =~= seq![b[0]] + b.skip(1));
    } else {
        assert(a =~= b);
    }
}

proof fn lemma_name_le_transitive(a: Seq<char>, b: Seq<char>, c: Seq<char>)
    requires
        name_le(a, b),
        name_le(b, c),
    ensures
        name_le(a, c),
    decreases a.len(),
{
    if a.len() > 0 && b.len() > 0 && c.len() > 0 && a[0] == b[0] && b[0] == c[0] {
        lemma_name_le_transitive(a.skip(1), b.skip(1), c.skip(1));
    }
}

proof fn lemma_name_le_total(a: Seq<char>, b: Seq<char>)
    ensures
        name_le(a, b) || name_le(b, a),
    decreases a.len(),
{
    if a.len() > 0 && b.len() > 0 && a[0] == b[0] {
        lemma_name_le_total(a.skip(1), b.skip(1));
    }
}

/// Any two chains have an order, and only one.
proof fn lemma_chain_order()
    ensures
        total_ordering(|a: (Seq<char>, nat), b: (Seq<char>, nat)| chain_le(a, b)),
{
    let leq = |a: (Seq<char>, nat), b: (Seq<char>, nat)| chain_le(a, b);
    assert forall|a: (Seq<char>, nat)| #[trigger] leq(a, a) by {
        lemma_name_le_reflexive(a.0);
    }
    assert forall|a: (Seq<char>, nat), b: (Seq<char>, nat)| #[trigger] leq(a, b) && #[trigger] leq(b, a) implies a
        == b by {
        lemma_name_le_antisymmetric(a.0, b.0);
    }
    assert forall|a: (Seq<char>, nat), b: (Seq<char>, nat), c: (Seq<char>, nat)| #[trigger]
        leq(a, b) && #[trigger] leq(b, c) implies leq(a, c) by {
        if a.1 == b.1 && b.1 == c.1 {
            lemma_name_le_transitive(a.0, b.0, c.0);
        }
    }
    assert forall|a: (Seq<char>, nat), b: (Seq<char>, nat)| #[trigger] leq(a, b) || #[trigger] leq(b, a) by {
        lemma_name_le_total(a.0, b.0);
    }
    assert(reflexive(leq));
    assert(antisymmetric(leq));
    assert(transitive(leq));
    assert(strongly_connected(leq));
}

fn is_name_le(a: &Vec<char>, b: &Vec<char>) -> (r: bool)
    ensures
        r == name_le(a@, b@),
{
    let n: usize = a.len();
    let m: usize = b.len();
    let mut i: usize = 0;
    assert(a@.skip(0) =~= a@);
    assert(b@.skip(0) =~= b@);
    while i < n && i < m && a[i] == b[i]
        invariant
            n == a@.len(),
            m == b@.len(),
            i <= n,
            i <= m,
            name_le(a@, b@) == name_le(a@.skip(i as int), b@.skip(i as int)),
        decreases n - i,
    {
        assert(a@.skip(i as int).skip(1) =~= a@.skip(i + 1));
        assert(b@.skip(i as int).skip(1) =~= b@.skip(i + 1));
        i = i + 1;
    }
    if i == n {
        true
    } else if i == m {
        false
    } else {
        a[i] < b[i]
    }
}

fn is_chain_le(a: &(String, u64), b: &(String, u64)) -> (r: bool)
    ensures
        r == chain_le((a.0@, a.1 as nat), (b.0@, b.1 as nat)),
{
    if a.1 > b.1 {
        true
    } else if a.1 < b.1 {
        false
    } else {
        is_name_le(&chars_of(a.0.as_str()), &chars_of(b.0.as_str()))
    }
}

/// Puts a chain in its place in a list that is in order.
fn place(list: &mut Vec<(String, u64)>, x: (String, u64))
    requires
        sorted_by(chains_view(old(list)@), |a: (Seq<char>, nat), b: (Seq<char>, nat)| chain_le(a, b)),
    ensures
        sorted_by(chains_view(final(list)@), |a: (Seq<char>, nat), b: (Seq<char>, nat)| chain_le(a, b)),
        chains_view(final(list)@).to_multiset() == chains_view(old(list)@).to_multiset().insert((x.0@, x.1 as nat)),
        final(list)@.len() == old(list)@.len() + 1,
{
    let ghost leq = |a: (Seq<char>, nat), b: (Seq<char>, nat)| chain_le(a, b);
    let ghost before = chains_view(list@);
    let ghost y = (x.0@, x.1 as nat);
    proof {
        lemma_chain_order();
    }
    let n: usize = list.len();
    let mut i: usize = 0;
    while i < n && is_chain_le(&list[i], &x)
        invariant
            n == list@.len(),
            i <= n,
            before == chains_view(list@),
            y == (x.0@, x.1 as nat),
            forall|j: int| 0 <= j < i ==> chain_le(#[trigger] before[j], y),
        decreases n - i,
    {
        assert(before[i as int] == (list@[i as int].0@, list@[i as int].1 as nat));
        i = i + 1;
    }
    proof {
        if i < n {
            assert(before[i as int] == (list@[i as int].0@, list@[i as int].1 as nat));
            assert(leq(before[i as int], y) || leq(y, before[i as int]));
            assert forall|j: int| i <= j < n implies chain_le(y, #[trigger] before[j]) by {
                if j > i {
                    assert(leq(before[i as int], before[j]));
                    assert(leq(y, before[i as int]));
                    assert(leq(y, before[j]));
                }
            }
        }
    }
    list.insert(i, x);
    let ghost after = chains_view(list@);
    proof {
        let k = i as int;
        let a = before.take(k);
        let b = before.skip(k);
        assert(before =~= a + b);
        assert(after =~= a + (seq![y] + b));
        vstd::seq_lib::lemma_multiset_commutative(a, b);
        vstd::seq_lib::lemma_multiset_commutative(a, seq![y] + b);
        vstd::seq_lib::lemma_multiset_commutative(seq![y], b);
        broadcast use vstd::seq_lib::group_to_multiset_ensures;

        assert(seq![y] =~= Seq::<(Seq<char>, nat)>::empty().push(y));
        assert(Seq::<(Seq<char>, nat)>::empty().to_multiset() =~= vstd::multiset::Multiset::empty());
        assert(after.to_multiset() =~= before.to_multiset().insert(y));
        assert forall|p: int, q: int| 0 <= p < q < after.len() implies #[trigger] leq(after[p], after[q]) by {
            if q < k {
                assert(after[p] == before[p] && after[q] == before[q]);
                assert(leq(before[p], before[q]));
            } else if q == k {
                assert(after[p] == before[p]);
            } else if p == k {
                assert(after[q] == before[q - 1]);
            } else if p < k {
                assert(after[p] == before[p] && after[q] == before[q - 1]);
                assert(leq(before[p], before[q - 1]));
            } else {
                assert(after[p] == before[p - 1] && after[q] == before[q - 1]);
                assert(leq(before[p - 1], before[q - 1]));
            }
        }
    }
}

/// The chains in the order of a report.
pub fn ranked(chains: &Vec<(String, u64)>) -> (r: Vec<(String, u64)>)
    ensures
        chains_view(r@) == ranking(chains_view(chains@)),
        r@.len() == chains@.len(),
{
    let ghost leq = |a: (Seq<char>, nat), b: (Seq<char>, nat)| chain_le(a, b);
    let ghost all = chains_view(chains@);
    let mut out: Vec<(String, u64)> = Vec::new();
    let n: usize = chains.len();
    let mut i: usize = 0;
    assert(chains_view(out@) =~= all.take(0));
    while i < n
        invariant
            i <= n,
            n == chains@.len(),
            all == chains_view(chains@),
            leq == (|a: (Seq<char>, nat), b: (Seq<char>, nat)| chain_le(a, b)),
            sorted_by(chains_view(out@), leq),
            chains_view(out@).to_multiset() == all.take(i as int).to_multiset(),
            out@.len() == i,
        decreases n - i,
    {
        let name: String = chains[i].0.clone();
        let count: u64 = chains[i].1;
        place(&mut out, (name, count));
        proof {
            broadcast use vstd::seq_lib::group_to_multiset_ensures;

            assert(all.take(i + 1) =~= all.take(i as int).push(all[i as int]));
        }
        i = i + 1;
    }
    proof {
        assert(all.take(n as int) =~= all);
        lemma_chain_order();
        all.lemma_sort_by_ensures(leq);
        vstd::seq_lib::lemma_sorted_unique(chains_view(out@), all.sort_by(leq), leq);
    }
    out
}

/// The frames of all chains.
pub fn total_of(chains: &Vec<(String, u64)>) -> (r: u128)
    ensures
        r == chain_total(chains_view(chains@)),
        r <= chains@.len() * u64::MAX,
{
    let mut sum: u128 = 0;
    let n: usize = chains.len();
    let mut i: usize = 0;
    let ghost all = chains_view(chains@);
    while i < n
        invariant
            i <= n,
            n == chains@.len(),
            all == chains_view(chains@),
            sum == chain_total(all.take(i as int)),
            sum <= i * u64::MAX,
        decreases n - i,
    {
        assert(all.take(i + 1).drop_last() =~= all.take(i as int));
        assert(i * u64::MAX + u64::MAX <= u128::MAX) by (nonlinear_arith)
            requires
                i < n,
                n <= u64::MAX,
        ;
        sum = sum + chains[i].1 as u128;
        i = i + 1;
    }
    assert(all.take(n as int) =~= all);
    sum
}

/// Names are ordered by the first character in which they differ, and a name comes
/// before those that it begins.
pub proof fn law_names_are_in_order(a: Seq<char>, b: Seq<char>, k: nat)
    requires
        k <= a.len(),
        k <= b.len(),
        forall|i: int| 0 <= i < k ==> #[trigger] a[i] == b[i],
        k == a.len() || k < b.len() && a[k as int] < b[k as int],
    ensures
        name_le(a, b),
        a != b ==> !name_le(b, a),
    decreases k,
{
    if k > 0 {
        let (x, y) = (a.skip(1), b.skip(1));
        assert forall|i: int| 0 <= i < k - 1 implies #[trigger] x[i] == y[i] by {
            assert(a[i + 1] == b[i + 1]);
        }
        assert(a[0] == b[0]);
        if k < b.len() && k < a.len() {
            assert(x[k - 1] == a[k as int] && y[k - 1] == b[k as int]);
        }
        law_names_are_in_order(x, y, (k - 1) as nat);
    }
    if a != b && name_le(b, a) {
        lemma_name_le_antisymmetric(a, b);
    }
}

/// The chains of a report are those that were counted, the more frequent ones first,
/// and equally frequent ones by name.
pub proof fn law_chains_are_ranked(chains: Seq<(Seq<char>, nat)>)
    ensures
        ranking(chains).to_multiset() == chains.to_multiset(),
        ranking(chains).len() == chains.len(),
        forall|i: int, j: int|
            0 <= i < j < chains.len() ==> (#[trigger] ranking(chains)[i]).1 >= (#[trigger] ranking(chains)[j]).1,
        forall|i: int, j: int|
            0 <= i < j < chains.len() && (#[trigger] ranking(chains)[i]).1 == (#[trigger] ranking(chains)[j]).1
                ==> name_le(ranking(chains)[i].0, ranking(chains)[j].0),
{
    let leq = |a: (Seq<char>, nat), b: (Seq<char>, nat)| chain_le(a, b);
    lemma_chain_order();
    chains.lemma_sort_by_ensures(leq);
    let r = ranking(chains);
    chains.to_multiset_ensures();
    r.to_multiset_ensures();
    assert(r.len() == chains.len());
    assert forall|i: int, j: int| 0 <= i < j < chains.len() implies (#[trigger] r[i]).1 >= (#[trigger] r[j]).1 && (
    r[i].1 == r[j].1 ==> name_le(r[i].0, r[j].0)) by {
        assert(leq(r[i], r[j]));
    }
}

/// The frames of all chains are the sum of their counts.
pub proof fn law_total_adds_up(chains: Seq<(Seq<char>, nat)>, more: Seq<(Seq<char>, nat)>, x: (Seq<char>, nat))
    ensures
        chain_total(Seq::empty()) == 0,
        chain_total(seq![x]) == x.1,
        chain_total(chains + more) == chain_total(chains) + chain_total(more),
    decreases more.len(),
{
    assert(seq![x].drop_last() =~= Seq::<(Seq<char>, nat)>::empty());
    reveal_with_fuel(chain_total, 2);
    if more.len() == 0 {
        assert(chains + more =~= chains);
    } else {
        law_total_adds_up(chains, more.drop_last(), x);
        assert((chains + more).drop_last() =~= chains + more.drop_last());
    }
}

} // verus!
