//! Line counts keyed by language: an association list whose keys are
//! distinct, read as a map.

use vstd::prelude::*;

verus! {

pub open spec fn keys_distinct(s: Seq<(String, u64)>) -> bool {
    forall|i: int, j: int| 0 <= i < j < s.len() ==> s[i].0@ != s[j].0@
}

pub open spec fn has_key(s: Seq<(String, u64)>, k: Seq<char>) -> bool {
    exists|i: int| 0 <= i < s.len() && s[i].0@ == k
}

/// The map that an association list with distinct keys stands for.
pub open spec fn counts_map(s: Seq<(String, u64)>) -> Map<Seq<char>, int> {
    Map::new(
        |k: Seq<char>| has_key(s, k),
        |k: Seq<char>| s[choose|i: int| 0 <= i < s.len() && s[i].0@ == k].1 as int,
    )
}

/// Sum of all counts.
pub open spec fn counts_sum(s: Seq<(String, u64)>) -> int
    decreases s.len(),
{
    if s.len() == 0 {
        0
    } else {
        counts_sum(s.drop_last()) + s.last().1
    }
}

/// The count of `k` in `m`, or zero when it is absent.
pub open spec fn count_of(m: Map<Seq<char>, int>, k: Seq<char>) -> int {
    if m.dom().contains(k) {
        m[k]
    } else {
        0
    }
}

/// `m` with `x` more lines for `k`.
pub open spec fn add_count(m: Map<Seq<char>, int>, k: Seq<char>, x: int) -> Map<Seq<char>, int> {
    m.insert(k, count_of(m, k) + x)
}

/// Two count maps joined: every key of either, with the counts added.
pub open spec fn union_counts(a: Map<Seq<char>, int>, b: Map<Seq<char>, int>) -> Map<Seq<char>, int> {
    Map::new(
        |k: Seq<char>| a.dom().contains(k) || b.dom().contains(k),
        |k: Seq<char>| count_of(a, k) + count_of(b, k),
    )
}

pub proof fn lemma_counts_map_at(s: Seq<(String, u64)>, i: int)
    requires
        keys_distinct(s),
        0 <= i < s.len(),
    ensures
        counts_map(s).dom().contains(s[i].0@),
        counts_map(s)[s[i].0@] == s[i].1 as int,
{
    let k = s[i].0@;
    assert(has_key(s, k));
    let c = choose|c: int| 0 <= c < s.len() && s[c].0@ == k;
    if c != i {
        if c < i {
            assert(s[c].0@ != s[i].0@);
        } else {
            assert(s[i].0@ != s[c].0@);
        }
    }
}

pub proof fn lemma_counts_sum_nonneg(s: Seq<(String, u64)>)
    ensures
        counts_sum(s) >= 0,
    decreases s.len(),
{
    if s.len() > 0 {
        lemma_counts_sum_nonneg(s.drop_last());
    }
}

pub proof fn lemma_counts_sum_update(s: Seq<(String, u64)>, i: int, e: (String, u64))
    requires
        0 <= i < s.len(),
    ensures
        counts_sum(s.update(i, e)) == counts_sum(s) - s[i].1 + e.1,
    decreases s.len(),
{
    if i == s.len() - 1 {
        assert(s.update(i, e).drop_last() =~= s.drop_last());
    } else {
        lemma_counts_sum_update(s.drop_last(), i, e);
        assert(s.update(i, e).drop_last() =~= s.drop_last().update(i, e));
    }
}

pub proof fn lemma_counts_sum_push(s: Seq<(String, u64)>, e: (String, u64))
    ensures
        counts_sum(s.push(e)) == counts_sum(s) + e.1,
{
    assert(s.push(e).drop_last() =~= s);
}

pub proof fn lemma_count_le_sum(s: Seq<(String, u64)>, i: int)
    requires
        0 <= i < s.len(),
    ensures
        s[i].1 <= counts_sum(s),
    decreases s.len(),
{
    lemma_counts_sum_nonneg(s.drop_last());
    if i < s.len() - 1 {
        lemma_count_le_sum(s.drop_last(), i);
    }
}

/// Adds `amount` lines to the count of `key`, appending the key when absent.
pub fn add_count_exec(counts: &mut Vec<(String, u64)>, key: &String, amount: u64)
    requires
        keys_distinct(old(counts)@),
        counts_sum(old(counts)@) + amount <= u64::MAX,
    ensures
        keys_distinct(final(counts)@),
        counts_map(final(counts)@) == add_count(counts_map(old(counts)@), key@, amount as int),
        counts_sum(final(counts)@) == counts_sum(old(counts)@) + amount,
{
    let ghost old_s = counts@;
    let mut i: usize = 0;
    while i < counts.len()
        invariant
            counts@ == old_s,
            old_s == old(counts)@,
            keys_distinct(old_s),
            counts_sum(old_s) + amount <= u64::MAX,
            i <= counts@.len(),
            forall|j: int| 0 <= j < i ==> counts@[j].0@ != key@,
        decreases counts.len() - i,
    {
        if counts[i].0 == *key {
            proof {
                lemma_count_le_sum(old_s, i as int);
                lemma_counts_map_at(old_s, i as int);
                lemma_counts_sum_update(old_s, i as int, (counts@[i as int].0, (counts@[i as int].1 + amount) as u64));
            }
            let v = counts[i].1 + amount;
            let name = counts[i].0.clone();
            counts.set(i, (name, v));
            proof {
                let s = counts@;
                assert(s == old_s.update(i as int, (old_s[i as int].0, v)));
                assert forall|a: int, b: int| 0 <= a < b < s.len() implies s[a].0@ != s[b].0@ by {
                    assert(s[a].0@ == old_s[a].0@);
                    assert(s[b].0@ == old_s[b].0@);
                }
                assert forall|k: Seq<char>| #[trigger] has_key(s, k) == has_key(old_s, k) by {
                    if has_key(s, k) {
                        let c = choose|c: int| 0 <= c < s.len() && s[c].0@ == k;
                        assert(old_s[c].0@ == k);
                    }
                    if has_key(old_s, k) {
                        let c = choose|c: int| 0 <= c < old_s.len() && old_s[c].0@ == k;
                        assert(s[c].0@ == k);
                    }
                }
                assert forall|k: Seq<char>| has_key(s, k) implies #[trigger] counts_map(s)[k]
                    == add_count(counts_map(old_s), key@, amount as int)[k] by {
                    let c = choose|c: int| 0 <= c < s.len() && s[c].0@ == k;
                    lemma_counts_map_at(s, c);
                    lemma_counts_map_at(old_s, c);
                }
                assert(counts_map(s) =~= add_count(counts_map(old_s), key@, amount as int));
            }
            return;
        }
        i = i + 1;
    }
    let entry = (key.clone(), amount);
    counts.push(entry);
    proof {
        let s = counts@;
        lemma_counts_sum_push(old_s, entry);
        assert(!has_key(old_s, key@));
        assert forall|k: Seq<char>| #[trigger] has_key(s, k) == (has_key(old_s, k) || k == key@) by {
            if has_key(s, k) {
                let c = choose|c: int| 0 <= c < s.len() && s[c].0@ == k;
                if c < old_s.len() {
                    assert(old_s[c].0@ == k);
                }
            }
            if has_key(old_s, k) {
                let c = choose|c: int| 0 <= c < old_s.len() && old_s[c].0@ == k;
                assert(s[c].0@ == k);
            }
            if k == key@ {
                assert(s[old_s.len() as int].0@ == k);
            }
        }
        assert forall|k: Seq<char>| has_key(s, k) implies #[trigger] counts_map(s)[k]
            == add_count(counts_map(old_s), key@, amount as int)[k] by {
            let c = choose|c: int| 0 <= c < s.len() && s[c].0@ == k;
            lemma_counts_map_at(s, c);
            if c < old_s.len() {
                lemma_counts_map_at(old_s, c);
            }
        }
        assert(counts_map(s) =~= add_count(counts_map(old_s), key@, amount as int));
    }
}

pub proof fn lemma_counts_map_push(s: Seq<(String, u64)>, e: (String, u64))
    requires
        keys_distinct(s.push(e)),
    ensures
        !counts_map(s).dom().contains(e.0@),
        counts_map(s.push(e)) == counts_map(s).insert(e.0@, e.1 as int),
{
    let t = s.push(e);
    if has_key(s, e.0@) {
        let c = choose|c: int| 0 <= c < s.len() && s[c].0@ == e.0@;
        assert(t[c].0@ != t[s.len() as int].0@);
    }
    assert forall|k: Seq<char>| #[trigger] has_key(t, k) == (has_key(s, k) || k == e.0@) by {
        if has_key(t, k) {
            let c = choose|c: int| 0 <= c < t.len() && t[c].0@ == k;
            if c < s.len() {
                assert(s[c].0@ == k);
            }
        }
        if has_key(s, k) {
            let c = choose|c: int| 0 <= c < s.len() && s[c].0@ == k;
            assert(t[c].0@ == k);
        }
        if k == e.0@ {
            assert(t[s.len() as int].0@ == k);
        }
    }
    assert(keys_distinct(s)) by {
        assert forall|a: int, b: int| 0 <= a < b < s.len() implies s[a].0@ != s[b].0@ by {
            assert(t[a] == s[a] && t[b] == s[b]);
        }
    }
    assert forall|k: Seq<char>| has_key(t, k) implies #[trigger] counts_map(t)[k] == counts_map(s).insert(
        e.0@,
        e.1 as int,
    )[k] by {
        let c = choose|c: int| 0 <= c < t.len() && t[c].0@ == k;
        lemma_counts_map_at(t, c);
        if c < s.len() {
            assert(t[c] == s[c]);
            lemma_counts_map_at(s, c);
        }
    }
    assert(counts_map(t) =~= counts_map(s).insert(e.0@, e.1 as int));
}

pub proof fn lemma_counts_sum_prefix(s: Seq<(String, u64)>, j: int)
    requires
        0 <= j <= s.len(),
    ensures
        0 <= counts_sum(s.take(j)) <= counts_sum(s),
    decreases s.len() - j,
{
    lemma_counts_sum_nonneg(s.take(j));
    if j == s.len() {
        assert(s.take(j) =~= s);
    } else {
        assert(s.take(j + 1).drop_last() =~= s.take(j));
        lemma_counts_sum_prefix(s, j + 1);
    }
}

/// Adds every count of `other` into `counts`.
pub fn merge_counts_exec(counts: &mut Vec<(String, u64)>, other: &Vec<(String, u64)>)
    requires
        keys_distinct(old(counts)@),
        keys_distinct(other@),
        counts_sum(old(counts)@) + counts_sum(other@) <= u64::MAX,
    ensures
        keys_distinct(final(counts)@),
        counts_map(final(counts)@) == union_counts(counts_map(old(counts)@), counts_map(other@)),
        counts_sum(final(counts)@) == counts_sum(old(counts)@) + counts_sum(other@),
{
    let ghost m0 = counts_map(counts@);
    let ghost s0 = counts_sum(counts@);
    let mut j: usize = 0;
    assert(other@.take(0) =~= Seq::<(String, u64)>::empty());
    assert(counts_map(counts@) =~= union_counts(m0, counts_map(other@.take(0))));
    while j < other.len()
        invariant
            j <= other@.len(),
            keys_distinct(other@),
            keys_distinct(counts@),
            m0 == counts_map(old(counts)@),
            s0 == counts_sum(old(counts)@),
            s0 + counts_sum(other@) <= u64::MAX,
            counts_map(counts@) == union_counts(m0, counts_map(other@.take(j as int))),
            counts_sum(counts@) == s0 + counts_sum(other@.take(j as int)),
        decreases other.len() - j,
    {
        let ghost pre = other@.take(j as int);
        let e = &other[j];
        assert(other@.take(j + 1) =~= pre.push(*e));
        proof {
            assert(keys_distinct(pre.push(*e))) by {
                let t = pre.push(*e);
                assert forall|a: int, b: int| 0 <= a < b < t.len() implies t[a].0@ != t[b].0@ by {
                    assert(t[a] == other@[a] && t[b] == other@[b]);
                }
            }
            lemma_counts_map_push(pre, *e);
            lemma_counts_sum_push(pre, *e);
            lemma_counts_sum_prefix(other@, j + 1);
        }
        add_count_exec(counts, &e.0, e.1);
        proof {
            let a = union_counts(m0, counts_map(pre));
            let b = union_counts(m0, counts_map(other@.take(j + 1)));
            assert forall|k: Seq<char>| #[trigger] add_count(a, e.0@, e.1 as int).dom().contains(k)
                == b.dom().contains(k) by {}
            assert forall|k: Seq<char>| b.dom().contains(k) implies #[trigger] add_count(a, e.0@, e.1 as int)[k]
                == b[k] by {}
            assert(add_count(a, e.0@, e.1 as int) =~= b);
        }
        j = j + 1;
    }
    assert(other@.take(other@.len() as int) =~= other@);
}

} // verus!
