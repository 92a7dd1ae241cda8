//! Maps and sets of the standard library. A map travels as the list of its
//! entries and a set as the list of its items, each in the order in which
//! the collection hands them out; for a hash-based collection that order is
//! not fixed, and two encodings of equal collections may differ.

use crate::error::{Failure, LBSError};
use crate::format::{len_outcome, len_written};
use crate::read::LBSRead;
use crate::stream::Reader;
use crate::write::{list_outcome, list_wire, outcome_each, wire_each, write_len, written, LBSWrite};
use std::collections::{HashMap, HashSet};
use std::hash::Hash;
use vstd::prelude::*;
use vstd::std_specs::hash::obeys_key_model;
use vstd::std_specs::iter::IteratorSpec;

verus! {

/// Whether `order` holds each entry of `map` exactly once.
pub open spec fn enumerates<K, V>(order: Seq<(K, V)>, map: Map<K, V>) -> bool {
    order.len() == map.len() && order.to_set() == map.kv_pairs()
}

/// Whether `order` holds each item of `set` exactly once.
pub open spec fn lists<K>(order: Seq<K>, set: Set<K>) -> bool {
    order.len() == set.len() && order.to_set() == set
}

/// The keys of the entries, in their order.
pub open spec fn keys_of<K, V>(order: Seq<(K, V)>) -> Seq<K> {
    order.map_values(|entry: (K, V)| entry.0)
}

/// The map that inserting the pairs in order builds: of two pairs with
/// the same key, the later one stays.
pub open spec fn map_of<K, V>(pairs: Seq<(K, V)>) -> Map<K, V>
    decreases pairs.len(),
{
    if pairs.len() == 0 {
        Map::empty()
    } else {
        map_of(pairs.drop_last()).insert(pairs.last().0, pairs.last().1)
    }
}

/// The set that inserting the items builds.
pub open spec fn set_of<K>(items: Seq<K>) -> Set<K>
    decreases items.len(),
{
    if items.len() == 0 {
        Set::empty()
    } else {
        set_of(items.drop_last()).insert(items.last())
    }
}

/// Taking as many items as there are takes them all.
pub proof fn lemma_take_all<T>(items: Seq<T>)
    ensures
        items.take(items.len() as int) == items,
{
    assert(items.take(items.len() as int) =~= items);
}

/// Appends the encoding of a hash map to `w`: the number of its entries,
/// then each key followed by its value, in the order of iteration.
pub fn write_hash_map<K: LBSWrite, V: LBSWrite>(m: &HashMap<K, V>, w: &mut Vec<u8>) -> (res: Result<
    (),
    LBSError,
>)
    requires
        obeys_key_model::<K>(),
    ensures
        exists|order: Seq<(K, V)>|
            #[trigger] enumerates(order, m@) && final(w)@ == old(w)@ + list_wire(order)
                && written(res) == list_outcome(order),
{
    broadcast use vstd::std_specs::hash::group_hash_axioms;

    let ghost before = w@;
    let ghost order = m.iter().remaining().unref();
    assert(enumerates(order, m@));
    write_len(w, m.len())?;
    let ghost target = w@ + wire_each(order);
    assert(order.skip(0) =~= order);
    for (k, v) in it: m.iter()
        invariant
            it.seq().unref() == order,
            before == old(w)@,
            enumerates(order, m@),
            len_outcome(order.len()) is Ok,
            target == before + (len_written(order.len()) + wire_each(order)),
            target == w@ + wire_each(order.skip(it.index())),
            outcome_each(order) == outcome_each(order.skip(it.index())),
    {
        let ghost left = order.skip(it.index());
        let ghost so_far = w@;
        assert(left.drop_first() =~= order.skip(it.index() + 1));
        assert(left[0] == (*k, *v));
        let key = k.lbs_write(w);
        if key.is_err() {
            assert(left[0].wire() == k.wire() && left[0].outcome() == k.outcome());
            return key;
        }
        let value = v.lbs_write(w);
        assert(w@ =~= so_far + left[0].wire());
        if value.is_err() {
            assert(left[0].outcome() == v.outcome());
            return value;
        }
        assert(so_far + wire_each(left) =~= w@ + wire_each(left.drop_first()));
    }
    assert(w@ + Seq::<u8>::empty() =~= w@);
    Ok(())
}

/// Appends the encoding of a hash set to `w`: the number of its items,
/// then each item, in the order of iteration.
pub fn write_hash_set<K: LBSWrite>(s: &HashSet<K>, w: &mut Vec<u8>) -> (res: Result<(), LBSError>)
    requires
        obeys_key_model::<K>(),
    ensures
        exists|order: Seq<K>|
            #[trigger] lists(order, s@) && final(w)@ == old(w)@ + list_wire(order) && written(res)
                == list_outcome(order),
{
    broadcast use vstd::std_specs::hash::group_hash_axioms;

    let ghost before = w@;
    let ghost order = s.iter().remaining().unref();
    assert(lists(order, s@));
    write_len(w, s.len())?;
    let ghost target = w@ + wire_each(order);
    assert(order.skip(0) =~= order);
    for k in it: s.iter()
        invariant
            it.seq().unref() == order,
            before == old(w)@,
            lists(order, s@),
            len_outcome(order.len()) is Ok,
            target == before + (len_written(order.len()) + wire_each(order)),
            target == w@ + wire_each(order.skip(it.index())),
            outcome_each(order) == outcome_each(order.skip(it.index())),
    {
        let ghost left = order.skip(it.index());
        let ghost so_far = w@;
        assert(left.drop_first() =~= order.skip(it.index() + 1));
        assert(left[0] == *k);
        let item = k.lbs_write(w);
        if item.is_err() {
            return item;
        }
        assert(so_far + wire_each(left) =~= w@ + wire_each(left.drop_first()));
    }
    assert(w@ + Seq::<u8>::empty() =~= w@);
    Ok(())
}

/// The hash map that holds the pairs, inserted in order.
pub fn hash_map_of<K: Eq + Hash, V>(pairs: Vec<(K, V)>) -> (m: HashMap<K, V>)
    ensures
        obeys_key_model::<K>() ==> m@ == map_of(pairs@),
{
    broadcast use vstd::std_specs::hash::group_hash_axioms;

    let mut m: HashMap<K, V> = HashMap::new();
    assert(pairs@.take(0) =~= Seq::<(K, V)>::empty());
    for pair in it: pairs
        invariant
            it.seq() == pairs@,
            obeys_key_model::<K>() ==> m@ == map_of(pairs@.take(it.index())),
    {
        assert(pairs@.take(it.index() + 1).drop_last() =~= pairs@.take(it.index()));
        assert(pairs@.take(it.index() + 1).last() == pair);
        let (k, v) = pair;
        m.insert(k, v);
    }
    assert(pairs@.take(pairs@.len() as int) =~= pairs@);
    m
}

/// The hash set that holds the items.
pub fn hash_set_of<K: Eq + Hash>(items: Vec<K>) -> (s: HashSet<K>)
    ensures
        obeys_key_model::<K>() ==> s@ == set_of(items@),
{
    broadcast use vstd::std_specs::hash::group_hash_axioms;

    let mut s: HashSet<K> = HashSet::new();
    assert(items@.take(0) =~= Seq::<K>::empty());
    for item in it: items
        invariant
            it.seq() == items@,
            obeys_key_model::<K>() ==> s@ == set_of(items@.take(it.index())),
    {
        assert(items@.take(it.index() + 1).drop_last() =~= items@.take(it.index()));
        assert(items@.take(it.index() + 1).last() == item);
        s.insert(item);
    }
    assert(items@.take(items@.len() as int) =~= items@);
    s
}

/// Decodes a hash map: a count, then that many pairs of key and value,
/// which are inserted in the order in which they arrive.
pub fn read_hash_map<K: LBSRead + Eq + Hash, V: LBSRead>(r: &mut Reader) -> (res: Result<
    HashMap<K, V>,
    LBSError,
>)
    ensures
        final(r)@ == Vec::<(K, V)>::parse(old(r)@).rest,
        match res {
            Ok(m) => exists|pairs: Vec<(K, V)>|
                Vec::<(K, V)>::parse(old(r)@).result == Ok::<Seq<(K::V, V::V)>, Failure>(
                    pairs.deep_view(),
                ) && (obeys_key_model::<K>() ==> m@ == map_of(#[trigger] pairs@)),
            Err(e) => Vec::<(K, V)>::parse(old(r)@).result == Err::<Seq<(K::V, V::V)>, Failure>(
                e@,
            ),
        },
{
    let pairs = Vec::<(K, V)>::lbs_read(r)?;
    let ghost read = pairs;
    let m = hash_map_of(pairs);
    assert(Vec::<(K, V)>::parse(old(r)@).result == Ok::<Seq<(K::V, V::V)>, Failure>(
        read.deep_view(),
    ) && (obeys_key_model::<K>() ==> m@ == map_of(read@)));
    Ok(m)
}

/// Decodes a hash set: a count, then that many items.
pub fn read_hash_set<K: LBSRead + Eq + Hash>(r: &mut Reader) -> (res: Result<
    HashSet<K>,
    LBSError,
>)
    ensures
        final(r)@ == Vec::<K>::parse(old(r)@).rest,
        match res {
            Ok(s) => exists|items: Vec<K>|
                Vec::<K>::parse(old(r)@).result == Ok::<Seq<K::V>, Failure>(items.deep_view())
                    && (obeys_key_model::<K>() ==> s@ == set_of(#[trigger] items@)),
            Err(e) => Vec::<K>::parse(old(r)@).result == Err::<Seq<K::V>, Failure>(e@),
        },
{
    let items = Vec::<K>::lbs_read(r)?;
    let ghost read = items;
    let s = hash_set_of(items);
    assert(Vec::<K>::parse(old(r)@).result == Ok::<Seq<K::V>, Failure>(read.deep_view()) && (
    obeys_key_model::<K>() ==> s@ == set_of(read@)));
    Ok(s)
}

} // verus!
