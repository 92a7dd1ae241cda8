//! Ordered maps and sets of the standard library. A map travels as the
//! list of its entries and a set as the list of its items, in the order of
//! the keys.

use crate::collections::{enumerates, keys_of, lemma_take_all, lists, map_of, set_of};
use crate::error::{Failure, LBSError};
use crate::format::{len_outcome, len_written};
use crate::read::LBSRead;
use crate::stream::Reader;
use crate::write::{list_outcome, list_wire, outcome_each, wire_each, write_len, written, LBSWrite};
use std::collections::{BTreeMap, BTreeSet};
use vstd::laws_cmp::obeys_cmp;
use vstd::prelude::*;
use vstd::std_specs::btree::{increasing_seq, key_obeys_cmp_spec};
use vstd::std_specs::iter::IteratorSpec;

verus! {

/// Appends the encoding of an ordered map to `w`: the number of its entries,
/// then each key followed by its value, in the order of the keys.
pub fn write_btree_map<K: LBSWrite, V: LBSWrite>(
    m: &BTreeMap<K, V>,
    w: &mut Vec<u8>,
) -> (res: Result<
    (),
    LBSError,
>)
    requires
        key_obeys_cmp_spec::<K>(),
    ensures
        exists|order: Seq<(K, V)>|
            #[trigger] enumerates(order, m@) && increasing_seq(keys_of(order)) && final(w)@
                == old(w)@ + list_wire(order) && written(res) == list_outcome(order),
{
    broadcast use vstd::std_specs::btree::group_btree_axioms;

    let ghost before = w@;
    let entries = m.iter();
    let ghost order = entries.remaining().unref();
    assert(enumerates(order, m@));
    assert(increasing_seq(keys_of(order))) by {
        let keys = entries.remaining().map_values(|kv: (&K, &V)| *kv.0);
        assert(increasing_seq(keys));
        assert(keys_of(order) =~= keys);
    }
    write_len(w, m.len())?;
    let ghost target = w@ + wire_each(order);
    assert(order.skip(0) =~= order);
    for (k, v) in it: entries
        invariant
            it.seq().unref() == order,
            before == old(w)@,
            enumerates(order, m@),
            increasing_seq(keys_of(order)),
            len_outcome(order.len()) is Ok,
            target == before + (len_written(order.len()) + wire_each(order)),
            target == w@ + wire_each(order.skip(it.index())),
            outcome_each(order) == outcome_each(order.skip(it.index())),
    {
        let ghost left = order.skip(it.index());
        let ghost so_far = w@;
        assert(left.drop_first() =~= order.skip(it.index() + 1));
        assert(left[0] == (*k, *v));
        let key = k.lbs_write(w);
        if key.is_err() {
            assert(left[0].wire() == k.wire() && left[0].outcome() == k.outcome());
            return key;
        }
        let value = v.lbs_write(w);
        assert(w@ =~= so_far + left[0].wire());
        if value.is_err() {
            assert(left[0].outcome() == v.outcome());
            return value;
        }
        assert(so_far + wire_each(left) =~= w@ + wire_each(left.drop_first()));
    }
    assert(w@ + Seq::<u8>::empty() =~= w@);
    Ok(())
}

/// Appends the encoding of an ordered set to `w`: the number of its items,
/// then each item, in their order.
pub fn write_btree_set<K: LBSWrite>(s: &BTreeSet<K>, w: &mut Vec<u8>) -> (res: Result<(), LBSError>)
    requires
        key_obeys_cmp_spec::<K>(),
    ensures
        exists|order: Seq<&K>|
            lists(#[trigger] order.unref(), s@) && increasing_seq(order) && final(w)@ == old(w)@
                + list_wire(order.unref()) && written(res) == list_outcome(order.unref()),
{
    broadcast use vstd::std_specs::btree::group_btree_axioms;

    let ghost before = w@;
    let ghost order = s.iter().remaining().unref();
    let ghost borrowed = s.iter().remaining();
    assert(lists(order, s@));
    write_len(w, s.len())?;
    let ghost target = w@ + wire_each(order);
    assert(order.skip(0) =~= order);
    for k in it: s.iter()
        invariant
            it.seq().unref() == order,
            before == old(w)@,
            lists(order, s@),
            borrowed.unref() == order,
            increasing_seq(borrowed),
            len_outcome(order.len()) is Ok,
            target == before + (len_written(order.len()) + wire_each(order)),
            target == w@ + wire_each(order.skip(it.index())),
            outcome_each(order) == outcome_each(order.skip(it.index())),
    {
        let ghost left = order.skip(it.index());
        let ghost so_far = w@;
        assert(left.drop_first() =~= order.skip(it.index() + 1));
        assert(left[0] == *k);
        let item = k.lbs_write(w);
        if item.is_err() {
            return item;
        }
        assert(so_far + wire_each(left) =~= w@ + wire_each(left.drop_first()));
    }
    assert(w@ + Seq::<u8>::empty() =~= w@);
    Ok(())
}

/// The ordered map that holds the pairs, inserted in order.
pub fn btree_map_of<K: Ord, V>(pairs: Vec<(K, V)>) -> (m: BTreeMap<K, V>)
    ensures
        obeys_cmp::<K>() ==> m@ == map_of(pairs@),
{
    broadcast use vstd::std_specs::btree::group_btree_axioms;

    let mut m: BTreeMap<K, V> = BTreeMap::new();
    assert(pairs@.take(0) =~= Seq::<(K, V)>::empty());
    for pair in it: pairs
        invariant
            it.seq() == pairs@,
            obeys_cmp::<K>() ==> m@ == map_of(pairs@.take(it.index())),
    {
        assert(pairs@.take(it.index() + 1).drop_last() =~= pairs@.take(it.index()));
        assert(pairs@.take(it.index() + 1).last() == pair);
        let (k, v) = pair;
        m.insert(k, v);
    }
    proof {
        lemma_take_all(pairs@);
    }
    m
}

/// The ordered set that holds the items.
pub fn btree_set_of<K: Ord>(items: Vec<K>) -> (s: BTreeSet<K>)
    ensures
        obeys_cmp::<K>() ==> s@ == set_of(items@),
{
    broadcast use vstd::std_specs::btree::group_btree_axioms;

    let mut s: BTreeSet<K> = BTreeSet::new();
    assert(items@.take(0) =~= Seq::<K>::empty());
    for item in it: items
        invariant
            it.seq() == items@,
            obeys_cmp::<K>() ==> s@ == set_of(items@.take(it.index())),
    {
        assert(items@.take(it.index() + 1).drop_last() =~= items@.take(it.index()));
        assert(items@.take(it.index() + 1).last() == item);
        s.insert(item);
    }
    proof {
        lemma_take_all(items@);
    }
    s
}

/// Decodes a ordered map: a count, then that many pairs of key and value,
/// which are inserted in the order in which they arrive.
pub fn read_btree_map<K: LBSRead + Ord, V: LBSRead>(r: &mut Reader) -> (res: Result<
    BTreeMap<K, V>,
    LBSError,
>)
    ensures
        final(r)@ == Vec::<(K, V)>::parse(old(r)@).rest,
        match res {
            Ok(m) => exists|pairs: Vec<(K, V)>|
                Vec::<(K, V)>::parse(old(r)@).result == Ok::<Seq<(K::V, V::V)>, Failure>(
                    pairs.deep_view(),
                ) && (obeys_cmp::<K>() ==> m@ == map_of(#[trigger] pairs@)),
            Err(e) => Vec::<(K, V)>::parse(old(r)@).result == Err::<Seq<(K::V, V::V)>, Failure>(
                e@,
            ),
        },
{
    let pairs = Vec::<(K, V)>::lbs_read(r)?;
    let ghost read = pairs;
    let m = btree_map_of(pairs);
    assert(Vec::<(K, V)>::parse(old(r)@).result == Ok::<Seq<(K::V, V::V)>, Failure>(
        read.deep_view(),
    ) && (obeys_cmp::<K>() ==> m@ == map_of(read@)));
    Ok(m)
}

/// Decodes a ordered set: a count, then that many items.
pub fn read_btree_set<K: LBSRead + Ord>(r: &mut Reader) -> (res: Result<
    BTreeSet<K>,
    LBSError,
>)
    ensures
        final(r)@ == Vec::<K>::parse(old(r)@).rest,
        match res {
            Ok(s) => exists|items: Vec<K>|
                Vec::<K>::parse(old(r)@).result == Ok::<Seq<K::V>, Failure>(items.deep_view())
                    && (obeys_cmp::<K>() ==> s@ == set_of(#[trigger] items@)),
            Err(e) => Vec::<K>::parse(old(r)@).result == Err::<Seq<K::V>, Failure>(e@),
        },
{
    let items = Vec::<K>::lbs_read(r)?;
    let ghost read = items;
    let s = btree_set_of(items);
    assert(Vec::<K>::parse(old(r)@).result == Ok::<Seq<K::V>, Failure>(read.deep_view()) && (
    obeys_cmp::<K>() ==> s@ == set_of(read@)));
    Ok(s)
}

} // verus!
