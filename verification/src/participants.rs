use vstd::prelude::*;
use vstd::relations::sorted_by;
use vstd::seq_lib::group_to_multiset_ensures;

use crate::model::{Domain, DomainKind};

verus! {

/// The largest value of a sequence, or zero for an empty one.
pub open spec fn seq_max(s: Seq<u64>) -> nat
    decreases s.len(),
{
    if s.len() == 0 {
        0
    } else {
        let m = seq_max(s.drop_last());
        if s.last() as nat > m {
            s.last() as nat
        } else {
            m
        }
    }
}

/// The ascending order on `u64`.
pub open spec fn u64_leq() -> spec_fn(u64, u64) -> bool {
    |a: u64, b: u64| a <= b
}

/// Each element is smaller than the next.
pub open spec fn strictly_ascending(s: Seq<u64>) -> bool {
    forall|i: int, j: int| 0 <= i < j < s.len() ==> s[i] < s[j]
}

/// The number of domains of a sequence that are not DMs (the named ones).
pub open spec fn named_domain_count(ds: Seq<Domain>) -> nat
    decreases ds.len(),
{
    if ds.len() == 0 {
        0
    } else {
        named_domain_count(ds.drop_last()) + if ds.last().kind != DomainKind::Dm {
            1nat
        } else {
            0nat
        }
    }
}

/// The sequence number that follows the given ones: one more than the largest, or one
/// when there is none.
pub fn next_domain_sequence_from_existing(existing_sequences: &[u64]) -> (r: u64)
    requires
        seq_max(existing_sequences@) < u64::MAX,
    ensures
        r == seq_max(existing_sequences@) + 1,
{
    let mut m: u64 = 0;
    let mut i: usize = 0;
    while i < existing_sequences.len()
        invariant
            i <= existing_sequences@.len(),
            m == seq_max(existing_sequences@.take(i as int)),
        decreases existing_sequences@.len() - i,
    {
        assert(existing_sequences@.take(i as int + 1).drop_last() =~= existing_sequences@.take(
            i as int,
        ));
        if existing_sequences[i] > m {
            m = existing_sequences[i];
        }
        i += 1;
    }
    assert(existing_sequences@.take(i as int) =~= existing_sequences@);
    m + 1
}

/// The number of named (non-DM) domains among the given ones.
pub fn count_recent_named_domain_claims(domains: &[Domain]) -> (r: usize)
    ensures
        r == named_domain_count(domains@),
{
    let mut count: usize = 0;
    let mut i: usize = 0;
    while i < domains.len()
        invariant
            i <= domains@.len(),
            count == named_domain_count(domains@.take(i as int)),
            count <= i,
        decreases domains@.len() - i,
    {
        assert(domains@.take(i as int + 1).drop_last() =~= domains@.take(i as int));
        if domains[i].kind != DomainKind::Dm {
            count += 1;
        }
        i += 1;
    }
    assert(domains@.take(i as int) =~= domains@);
    count
}

/// Whether a value occurs in a vector.
pub fn contains_u64(v: &Vec<u64>, x: u64) -> (b: bool)
    ensures
        b == v@.contains(x),
{
    let mut i: usize = 0;
    while i < v.len()
        invariant
            i <= v@.len(),
            forall|j: int| 0 <= j < i ==> v@[j] != x,
        decreases v@.len() - i,
    {
        if v[i] == x {
            return true;
        }
        i += 1;
    }
    false
}

/// Whether two vectors hold the same values in the same order.
pub fn same_u64s(a: &[u64], b: &[u64]) -> (r: bool)
    ensures
        r == (a@ == b@),
{
    if a.len() != b.len() {
        return false;
    }
    let mut i: usize = 0;
    while i < a.len()
        invariant
            a@.len() == b@.len(),
            i <= a@.len(),
            forall|j: int| 0 <= j < i ==> a@[j] == b@[j],
        decreases a@.len() - i,
    {
        if a[i] != b[i] {
            return false;
        }
        i += 1;
    }
    assert(a@ =~= b@);
    true
}

/// Inserting an element into a sequence adds it to the sequence's multiset.
pub proof fn lemma_insert_multiset(s: Seq<u64>, pos: int, x: u64)
    requires
        0 <= pos <= s.len(),
    ensures
        s.insert(pos, x).to_multiset() =~= s.to_multiset().insert(x),
{
    broadcast use group_to_multiset_ensures;
    broadcast use vstd::multiset::group_multiset_axioms;

    let t = s.insert(pos, x);
    assert(t.remove(pos) =~= s);
    assert(t[pos] == x);
    assert(t.to_multiset().count(x) > 0);
}

/// Inserting a value just before the first larger element keeps a sequence sorted.
pub proof fn lemma_insert_sorted(s: Seq<u64>, pos: int, x: u64)
    requires
        0 <= pos <= s.len(),
        sorted_by(s, u64_leq()),
        forall|j: int| 0 <= j < pos ==> s[j] <= x,
        pos < s.len() ==> s[pos] > x,
    ensures
        sorted_by(s.insert(pos, x), u64_leq()),
{
    s.insert_ensures(pos, x);
    let r = s.insert(pos, x);
    assert forall|a: int, b: int| 0 <= a < b < r.len() implies (u64_leq())(r[a], r[b]) by {
        if b < pos {
            assert((u64_leq())(s[a], s[b]));
        } else if b == pos {
        } else if a < pos {
            assert((u64_leq())(s[pos], s[b - 1]));
        } else if a == pos {
            if b - 1 > pos {
                assert((u64_leq())(s[pos], s[b - 1]));
            }
        } else {
            assert((u64_leq())(s[a - 1], s[b - 1]));
        }
    }
}

/// The values of a vector in ascending order (a sorted permutation of them).
pub fn sort_ascending(v: &Vec<u64>) -> (r: Vec<u64>)
    ensures
        sorted_by(r@, u64_leq()),
        r@.to_multiset() == v@.to_multiset(),
{
    broadcast use group_to_multiset_ensures;

    let mut r: Vec<u64> = Vec::new();
    let mut i: usize = 0;
    while i < v.len()
        invariant
            i <= v@.len(),
            sorted_by(r@, u64_leq()),
            r@.to_multiset() == v@.take(i as int).to_multiset(),
        decreases v@.len() - i,
    {
        let x = v[i];
        let mut pos: usize = 0;
        while pos < r.len() && r[pos] <= x
            invariant
                pos <= r@.len(),
                forall|j: int| 0 <= j < pos ==> r@[j] <= x,
            decreases r@.len() - pos,
        {
            pos += 1;
        }
        let ghost old_r = r@;
        r.insert(pos, x);
        proof {
            lemma_insert_multiset(old_r, pos as int, x);
            assert(v@.take(i as int + 1) =~= v@.take(i as int).push(x));
            v@.take(i as int).to_multiset_ensures();
            lemma_insert_sorted(old_r, pos as int, x);
        }
        i += 1;
    }
    assert(v@.take(i as int) =~= v@);
    r
}

/// A sorted sequence without repeated values is strictly ascending.
pub proof fn lemma_sorted_distinct_strict(s: Seq<u64>)
    requires
        sorted_by(s, u64_leq()),
        s.no_duplicates(),
    ensures
        strictly_ascending(s),
{
    assert forall|i: int, j: int| 0 <= i < j < s.len() implies s[i] < s[j] by {
        assert((u64_leq())(s[i], s[j]));
    }
}

/// A permutation of a sequence without repeated values has none either.
pub proof fn lemma_permutation_distinct(s: Seq<u64>, t: Seq<u64>)
    requires
        s.no_duplicates(),
        s.to_multiset() == t.to_multiset(),
    ensures
        t.no_duplicates(),
{
    s.lemma_multiset_has_no_duplicates();
    t.lemma_multiset_has_no_duplicates_conv();
}

/// The ascending order on `u64` is a total order.
pub proof fn lemma_u64_leq_total()
    ensures
        vstd::relations::total_ordering(u64_leq()),
{
}

/// A sorted permutation of a sequence is the sequence sorted.
pub proof fn lemma_sorted_permutation(v: Seq<u64>, s: Seq<u64>)
    requires
        sorted_by(v, u64_leq()),
        v.to_multiset() == s.to_multiset(),
    ensures
        v == s.sort_by(u64_leq()),
{
    lemma_u64_leq_total();
    s.lemma_sort_by_ensures(u64_leq());
    vstd::seq_lib::lemma_sorted_unique(v, s.sort_by(u64_leq()), u64_leq());
}

/// A strictly ascending sequence is sorted.
pub proof fn lemma_strict_sorted(s: Seq<u64>)
    requires
        strictly_ascending(s),
    ensures
        sorted_by(s, u64_leq()),
{
    assert forall|i: int, j: int| 0 <= i < j < s.len() implies #[trigger] (u64_leq())(s[i], s[j]) by {
        assert(s[i] < s[j]);
    }
}

/// Two strictly ascending sequences with the same elements are equal.
pub proof fn lemma_strictly_ascending_unique(x: Seq<u64>, y: Seq<u64>)
    requires
        strictly_ascending(x),
        strictly_ascending(y),
        forall|z: u64| x.contains(z) <==> y.contains(z),
    ensures
        x == y,
    decreases x.len(),
{
    if x.len() == 0 {
        if y.len() > 0 {
            assert(y.contains(y[0]));
        }
        assert(x =~= y);
    } else if y.len() == 0 {
        assert(x.contains(x[0]));
    } else {
        assert(x.contains(x[0]));
        assert(y.contains(y[0]));
        let i = choose|i: int| 0 <= i < y.len() && y[i] == x[0];
        let j = choose|j: int| 0 <= j < x.len() && x[j] == y[0];
        if i > 0 {
            assert(y[0] < y[i]);
        }
        if j > 0 {
            assert(x[0] < x[j]);
        }
        assert(x[0] == y[0]);
        let xs = x.drop_first();
        let ys = y.drop_first();
        assert forall|z: u64| xs.contains(z) <==> ys.contains(z) by {
            if xs.contains(z) {
                let a = choose|a: int| 0 <= a < xs.len() && xs[a] == z;
                assert(x[a + 1] == z);
                assert(x[0] < z);
                assert(y.contains(z));
                let b = choose|b: int| 0 <= b < y.len() && y[b] == z;
                assert(b != 0);
                assert(ys[b - 1] == z);
            }
            if ys.contains(z) {
                let a = choose|a: int| 0 <= a < ys.len() && ys[a] == z;
                assert(y[a + 1] == z);
                assert(y[0] < z);
                assert(x.contains(z));
                let b = choose|b: int| 0 <= b < x.len() && x[b] == z;
                assert(b != 0);
                assert(xs[b - 1] == z);
            }
        }
        lemma_strictly_ascending_unique(xs, ys);
        assert forall|k: int| 0 <= k < x.len() implies x[k] == y[k] by {
            if k > 0 {
                assert(x[k] == xs[k - 1]);
                assert(y[k] == ys[k - 1]);
            }
        }
        assert(x =~= y);
    }
}

/// A strictly ascending sequence holding exactly a value and the elements of another
/// sequence (its existence; the function that builds one is
/// `normalize_dm_participant_account_ids`).
pub proof fn strict_sorted_set_of(v: u64, s: Seq<u64>) -> (w: Seq<u64>)
    ensures
        strictly_ascending(w),
        forall|x: u64| #[trigger] w.contains(x) <==> (x == v || s.contains(x)),
    decreases s.len(),
{
    if s.len() == 0 {
        let w = seq![v];
        assert forall|x: u64| #[trigger] w.contains(x) <==> (x == v || s.contains(x)) by {
            if w.contains(x) {
                let k = choose|k: int| 0 <= k < w.len() && w[k] == x;
                assert(k == 0);
            }
            if x == v {
                assert(w[0] == v);
            }
        }
        w
    } else {
        let r = strict_sorted_set_of(v, s.drop_last());
        let a = s.last();
        assert(s.drop_last().push(a) =~= s);
        if r.contains(a) {
            assert forall|x: u64| #[trigger] r.contains(x) <==> (x == v || s.contains(x)) by {
                if s.contains(x) && x != a {
                    let k = choose|k: int| 0 <= k < s.len() && s[k] == x;
                    assert(s.drop_last()[k] == x);
                }
                if s.drop_last().contains(x) {
                    let k = choose|k: int| 0 <= k < s.len() - 1 && s.drop_last()[k] == x;
                    assert(s[k] == x);
                }
            }
            r
        } else {
            // insert a at the first position whose element is larger
            let pos = lemma_first_larger(r, a);
            let w = r.insert(pos, a);
            r.insert_ensures(pos, a);
            assert forall|i: int, j: int| 0 <= i < j < w.len() implies w[i] < w[j] by {
                if j < pos {
                } else if j == pos {
                    assert(r[i] < a);
                } else if i < pos {
                    if i < pos {
                        assert(r[i] < a || r[i] == a);
                        assert(r.contains(r[i]));
                    }
                    assert(a < r[pos]);
                    if j - 1 > pos {
                        assert(r[pos] < r[j - 1]);
                    }
                } else if i == pos {
                    if j - 1 > pos {
                        assert(r[pos] < r[j - 1]);
                    }
                } else {
                    assert(r[i - 1] < r[j - 1]);
                }
            }
            assert forall|x: u64| #[trigger] w.contains(x) <==> (x == v || s.contains(x)) by {
                if w.contains(x) {
                    let k = choose|k: int| 0 <= k < w.len() && w[k] == x;
                    if k < pos {
                        assert(r.contains(r[k]));
                    } else if k > pos {
                        assert(r.contains(r[k - 1]));
                    }
                }
                if x == a {
                    assert(w[pos] == a);
                } else if x == v || s.drop_last().contains(x) {
                    assert(r.contains(x));
                    let k = choose|k: int| 0 <= k < r.len() && r[k] == x;
                    if k < pos {
                        assert(w[k] == x);
                    } else {
                        assert(w[k + 1] == x);
                    }
                }
                if s.contains(x) && x != a {
                    let k = choose|k: int| 0 <= k < s.len() && s[k] == x;
                    assert(s.drop_last()[k] == x);
                }
                if s.drop_last().contains(x) {
                    let k = choose|k: int| 0 <= k < s.len() - 1 && s.drop_last()[k] == x;
                    assert(s[k] == x);
                }
            }
            w
        }
    }
}

/// The first position of a strictly ascending sequence whose element exceeds a value
/// absent from it.
pub proof fn lemma_first_larger(r: Seq<u64>, a: u64) -> (pos: int)
    requires
        strictly_ascending(r),
        !r.contains(a),
    ensures
        0 <= pos <= r.len(),
        forall|j: int| 0 <= j < pos ==> r[j] < a,
        pos < r.len() ==> a < r[pos],
    decreases r.len(),
{
    if r.len() == 0 {
        0
    } else if r.last() < a {
        r.len() as int
    } else {
        assert(r.last() != a) by {
            assert(r[r.len() - 1] == r.last());
        }
        let p = lemma_first_larger(r.drop_last(), a);
        assert forall|j: int| 0 <= j < p implies r[j] < a by {
            assert(r.drop_last()[j] == r[j]);
        }
        if p < r.len() - 1 {
            assert(r.drop_last()[p] == r[p]);
        }
        p
    }
}

/// The participants of a DM, in ascending order without repeats: the sender and every
/// recipient.
pub fn normalize_dm_participant_account_ids(
    sender_account_id: u64,
    recipient_account_ids: Vec<u64>,
) -> (r: Vec<u64>)
    ensures
        strictly_ascending(r@),
        forall|x: u64|
            r@.contains(x) <==> (x == sender_account_id || recipient_account_ids@.contains(x)),
        r@.len() <= recipient_account_ids@.len() + 1,
{
    broadcast use group_to_multiset_ensures;

    let mut participant_account_ids: Vec<u64> = Vec::new();
    participant_account_ids.push(sender_account_id);
    let mut i: usize = 0;
    proof {
        assert(participant_account_ids@[0] == sender_account_id);
        assert(recipient_account_ids@.take(0) =~= Seq::<u64>::empty());
        assert forall|x: u64| participant_account_ids@.contains(x) <==> (x == sender_account_id
            || recipient_account_ids@.take(0).contains(x)) by {
            if participant_account_ids@.contains(x) {
                let k = choose|k: int| 0 <= k < participant_account_ids@.len() && participant_account_ids@[k] == x;
                assert(k == 0);
            }
        }
    }
    while i < recipient_account_ids.len()
        invariant
            i <= recipient_account_ids@.len(),
            participant_account_ids@.no_duplicates(),
            participant_account_ids@.len() <= i + 1,
            forall|x: u64|
                participant_account_ids@.contains(x) <==> (x == sender_account_id
                    || recipient_account_ids@.take(i as int).contains(x)),
        decreases recipient_account_ids@.len() - i,
    {
        let account_id = recipient_account_ids[i];
        proof {
            assert(recipient_account_ids@.take(i as int + 1) =~= recipient_account_ids@.take(
                i as int,
            ).push(account_id));
        }
        let ghost before = participant_account_ids@;
        if account_id != sender_account_id {
            if !contains_u64(&participant_account_ids, account_id) {
                participant_account_ids.push(account_id);
            }
        }
        proof {
            let pre = recipient_account_ids@.take(i as int);
            assert(pre.push(account_id)[pre.len() as int] == account_id);
            assert forall|x: u64| participant_account_ids@.contains(x) <==> (x == sender_account_id
                || pre.push(account_id).contains(x)) by {
                if pre.contains(x) {
                    let k = choose|k: int| 0 <= k < pre.len() && pre[k] == x;
                    assert(pre.push(account_id)[k] == x);
                }
                if pre.push(account_id).contains(x) {
                    let k = choose|k: int| 0 <= k < pre.len() + 1 && pre.push(account_id)[k] == x;
                    if k < pre.len() {
                        assert(pre[k] == x);
                    }
                }
                if participant_account_ids@ != before {
                    assert(participant_account_ids@ == before.push(account_id));
                    assert(participant_account_ids@[before.len() as int] == account_id);
                    if participant_account_ids@.contains(x) {
                        let k = choose|k: int| 0 <= k < participant_account_ids@.len() && participant_account_ids@[k] == x;
                        if k < before.len() {
                            assert(before[k] == x);
                        }
                    }
                    if before.contains(x) {
                        let k = choose|k: int| 0 <= k < before.len() && before[k] == x;
                        assert(participant_account_ids@[k] == x);
                    }
                }
            }
        }
        i += 1;
    }
    assert(recipient_account_ids@.take(i as int) =~= recipient_account_ids@);
    let sorted = sort_ascending(&participant_account_ids);
    proof {
        participant_account_ids@.to_multiset_ensures();
        sorted@.to_multiset_ensures();
        lemma_permutation_distinct(participant_account_ids@, sorted@);
        lemma_sorted_distinct_strict(sorted@);
        assert forall|x: u64| sorted@.contains(x) <==> participant_account_ids@.contains(x) by {
            assert(sorted@.contains(x) <==> sorted@.to_multiset().count(x) > 0);
            assert(participant_account_ids@.contains(x)
                <==> participant_account_ids@.to_multiset().count(x) > 0);
        }
    }
    sorted
}

} // verus!
