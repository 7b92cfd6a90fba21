//! The keys of an ordered map, in their order.
use std::collections::BTreeMap;
use std::collections::HashMap;
use vstd::prelude::*;
use vstd::std_specs::cmp::OrdSpec;
use vstd::std_specs::iter::IteratorSpec;

verus! {

/// Each id is below the ones behind it.
pub open spec fn ascending(ids: Seq<u128>) -> bool {
    forall|i: int, j: int| 0 <= i < j < ids.len() ==> ids[i] < ids[j]
}

/// Each price is below the ones behind it.
pub open spec fn ascending_prices(prices: Seq<i64>) -> bool {
    forall|i: int, j: int| 0 <= i < j < prices.len() ==> prices[i] < prices[j]
}

/// Whether `s` holds the ids of the set, the smallest first.
pub open spec fn lists_ids(s: Seq<u128>, ids: Set<u128>) -> bool {
    ascending(s) && forall|k: u128| ids.contains(k) <==> s.contains(k)
}

/// Whether `s` holds the prices of the set, the lowest first.
pub open spec fn lists_prices(s: Seq<i64>, prices: Set<i64>) -> bool {
    ascending_prices(s) && forall|p: i64| prices.contains(p) <==> s.contains(p)
}

/// The ids of a finite set, the smallest first.
pub open spec fn ascending_ids(ids: Set<u128>) -> Seq<u128> {
    choose|s: Seq<u128>| lists_ids(s, ids)
}

/// The prices of a finite set, the lowest first.
pub open spec fn ascending_price_list(prices: Set<i64>) -> Seq<i64> {
    choose|s: Seq<i64>| lists_prices(s, prices)
}

/// Two ascending sequences of the same ids are the same sequence.
pub proof fn lemma_ascending_unique(a: Seq<u128>, b: Seq<u128>)
    requires
        ascending(a),
        ascending(b),
        forall|k: u128| a.contains(k) <==> b.contains(k),
    ensures
        a == b,
    decreases a.len(),
{
    if a.len() == 0 {
        if b.len() > 0 {
            assert(b.contains(b[0]));
        }
        assert(a =~= b);
    } else {
        assert(a.contains(a[0]));
        let j = b.index_of(a[0]);
        assert(b.contains(b[0]));
        let i = a.index_of(b[0]);
        assert(a[0] == b[0]);
        let x = a.drop_first();
        let y = b.drop_first();
        assert forall|k: u128| x.contains(k) <==> y.contains(k) by {
            if x.contains(k) {
                let n = x.index_of(k);
                assert(a[n + 1] == k);
                assert(a.contains(k));
                let m = b.index_of(k);
                assert(m != 0);
                assert(y[m - 1] == k);
            }
            if y.contains(k) {
                let n = y.index_of(k);
                assert(b[n + 1] == k);
                assert(b.contains(k));
                let m = a.index_of(k);
                assert(m != 0);
                assert(x[m - 1] == k);
            }
        }
        assert(ascending(x)) by {
            assert forall|i: int, j: int| 0 <= i < j < x.len() implies x[i] < x[j] by {
                assert(x[i] == a[i + 1] && x[j] == a[j + 1]);
            }
        }
        assert(ascending(y)) by {
            assert forall|i: int, j: int| 0 <= i < j < y.len() implies y[i] < y[j] by {
                assert(y[i] == b[i + 1] && y[j] == b[j + 1]);
            }
        }
        lemma_ascending_unique(x, y);
        assert(a =~= seq![a[0]] + x);
        assert(b =~= seq![b[0]] + y);
    }
}

/// Two ascending sequences of the same prices are the same sequence.
pub proof fn lemma_ascending_prices_unique(a: Seq<i64>, b: Seq<i64>)
    requires
        ascending_prices(a),
        ascending_prices(b),
        forall|k: i64| a.contains(k) <==> b.contains(k),
    ensures
        a == b,
    decreases a.len(),
{
    if a.len() == 0 {
        if b.len() > 0 {
            assert(b.contains(b[0]));
        }
        assert(a =~= b);
    } else {
        assert(a.contains(a[0]));
        let j = b.index_of(a[0]);
        assert(b.contains(b[0]));
        let i = a.index_of(b[0]);
        assert(a[0] == b[0]);
        let x = a.drop_first();
        let y = b.drop_first();
        assert forall|k: i64| x.contains(k) <==> y.contains(k) by {
            if x.contains(k) {
                let n = x.index_of(k);
                assert(a[n + 1] == k);
                assert(a.contains(k));
                let m = b.index_of(k);
                assert(m != 0);
                assert(y[m - 1] == k);
            }
            if y.contains(k) {
                let n = y.index_of(k);
                assert(b[n + 1] == k);
                assert(b.contains(k));
                let m = a.index_of(k);
                assert(m != 0);
                assert(x[m - 1] == k);
            }
        }
        assert(ascending_prices(x)) by {
            assert forall|i: int, j: int| 0 <= i < j < x.len() implies x[i] < x[j] by {
                assert(x[i] == a[i + 1] && x[j] == a[j + 1]);
            }
        }
        assert(ascending_prices(y)) by {
            assert forall|i: int, j: int| 0 <= i < j < y.len() implies y[i] < y[j] by {
                assert(y[i] == b[i + 1] && y[j] == b[j + 1]);
            }
        }
        lemma_ascending_prices_unique(x, y);
        assert(a =~= seq![a[0]] + x);
        assert(b =~= seq![b[0]] + y);
    }
}

/// The keys of a map by id, the smallest first.
pub fn sorted_ids<V>(m: &BTreeMap<u128, V>) -> (ids: Vec<u128>)
    ensures
        ids@ == ascending_ids(m@.dom()),
        ascending(ids@),
        forall|k: u128| m@.contains_key(k) <==> ids@.contains(k),
{
    let mut ids: Vec<u128> = Vec::new();
    proof {
        vstd::std_specs::btree::axiom_spec_keys_iter(m);
    }
    for k in it: m.keys()
        invariant
            ids@.len() == it.index(),
            forall|j: int| 0 <= j < ids@.len() ==> ids@[j] == *it.seq()[j],
    {
        ids.push(*k);
    }
    proof {
        let all = m.keys().remaining();
        vstd::std_specs::btree::axiom_spec_keys_iter(m);
        broadcast use vstd::laws_cmp::lemma_ref_obeys_cmp_spec;

        assert(vstd::laws_cmp::obeys_cmp::<&u128>());
        vstd::std_specs::btree::axiom_increasing_seq_meaning::<&u128>(all);
        assert(ids@ =~= all.unref());
        assert forall|i: int, j: int| 0 <= i < j < ids@.len() implies ids@[i] < ids@[j] by {
            assert(OrdSpec::cmp_spec(&all[i], &all[j]) is Less);
        }
        assert forall|k: u128| m@.contains_key(k) <==> ids@.contains(k) by {
            assert(all.unref().to_set().contains(k) <==> all.unref().contains(k));
        }
        assert(lists_ids(ids@, m@.dom()));
        lemma_ascending_unique(ids@, ascending_ids(m@.dom()));
    }
    ids
}

/// The keys of a map by price, the lowest first.
pub fn sorted_prices<V>(m: &BTreeMap<i64, V>) -> (prices: Vec<i64>)
    ensures
        prices@ == ascending_price_list(m@.dom()),
        ascending_prices(prices@),
        forall|p: i64| m@.contains_key(p) <==> prices@.contains(p),
{
    let mut prices: Vec<i64> = Vec::new();
    proof {
        vstd::std_specs::btree::axiom_spec_keys_iter(m);
    }
    for k in it: m.keys()
        invariant
            prices@.len() == it.index(),
            forall|j: int| 0 <= j < prices@.len() ==> prices@[j] == *it.seq()[j],
    {
        prices.push(*k);
    }
    proof {
        let all = m.keys().remaining();
        vstd::std_specs::btree::axiom_spec_keys_iter(m);
        broadcast use vstd::laws_cmp::lemma_ref_obeys_cmp_spec;

        assert(vstd::laws_cmp::obeys_cmp::<&i64>());
        vstd::std_specs::btree::axiom_increasing_seq_meaning::<&i64>(all);
        assert(prices@ =~= all.unref());
        assert forall|i: int, j: int| 0 <= i < j < prices@.len() implies prices@[i]
            < prices@[j] by {
            assert(OrdSpec::cmp_spec(&all[i], &all[j]) is Less);
        }
        assert forall|p: i64| m@.contains_key(p) <==> prices@.contains(p) by {
            assert(all.unref().to_set().contains(p) <==> all.unref().contains(p));
        }
        assert(lists_prices(prices@, m@.dom()));
        lemma_ascending_prices_unique(prices@, ascending_price_list(m@.dom()));
    }
    prices
}

/// The keys of a map by id, in no particular order.
pub fn ids_of<V>(m: &HashMap<u128, V>) -> (ids: Vec<u128>)
    ensures
        forall|k: u128| m@.contains_key(k) <==> ids@.contains(k),
{
    let mut ids: Vec<u128> = Vec::new();
    proof {
        vstd::std_specs::hash::axiom_spec_keys_iter(m);
    }
    for k in it: m.keys()
        invariant
            ids@.len() == it.index(),
            forall|j: int| 0 <= j < ids@.len() ==> ids@[j] == *it.seq()[j],
    {
        ids.push(*k);
    }
    proof {
        let all = m.keys().remaining();
        vstd::std_specs::hash::axiom_spec_keys_iter(m);
        assert(ids@ =~= all.unref());
        assert forall|k: u128| m@.contains_key(k) <==> ids@.contains(k) by {
            assert(all.unref().to_set().contains(k) <==> all.unref().contains(k));
        }
    }
    ids
}

} // verus!
