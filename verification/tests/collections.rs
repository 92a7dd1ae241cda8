use lbs::collections::{
    hash_map_of, hash_set_of, read_hash_map, read_hash_set, write_hash_map, write_hash_set,
};
use lbs::ordered::{
    btree_map_of, btree_set_of, read_btree_map, read_btree_set, write_btree_map, write_btree_set,
};
use lbs::stream::Reader;
use std::collections::{BTreeMap, BTreeSet, HashMap, HashSet};

#[test]
fn a_hash_map_survives_whatever_its_order() {
    let mut source: HashMap<u64, String> = HashMap::new();
    source.insert(1, String::from("key1"));
    source.insert(2, String::from("key2"));
    let mut buf = Vec::new();
    write_hash_map(&source, &mut buf).unwrap();
    assert_eq!(buf.len(), 4 + 2 * (8 + 4 + 4));
    assert_eq!(&buf[..4], &[2, 0, 0, 0]);
    let mut reader = Reader::new(&buf);
    let decoded: HashMap<u64, String> = read_hash_map(&mut reader).unwrap();
    assert_eq!(decoded, source);
    assert!(reader.is_empty());
}

#[test]
fn a_hash_set_survives_whatever_its_order() {
    let mut source: HashSet<u32> = HashSet::new();
    source.insert(10);
    source.insert(20);
    source.insert(30);
    let mut buf = Vec::new();
    write_hash_set(&source, &mut buf).unwrap();
    assert_eq!(buf.len(), 4 + 3 * 4);
    let decoded: HashSet<u32> = read_hash_set(&mut Reader::new(&buf)).unwrap();
    assert_eq!(decoded, source);
}

#[test]
fn an_ordered_map_is_written_in_the_order_of_its_keys() {
    let mut source: BTreeMap<u64, String> = BTreeMap::new();
    source.insert(2, String::from("key2"));
    source.insert(1, String::from("key1"));
    let mut buf = Vec::new();
    write_btree_map(&source, &mut buf).unwrap();
    let mut expected = vec![2, 0, 0, 0];
    expected.extend_from_slice(&[1, 0, 0, 0, 0, 0, 0, 0, 4, 0, 0, 0]);
    expected.extend_from_slice(b"key1");
    expected.extend_from_slice(&[2, 0, 0, 0, 0, 0, 0, 0, 4, 0, 0, 0]);
    expected.extend_from_slice(b"key2");
    assert_eq!(buf, expected);
    let decoded: BTreeMap<u64, String> = read_btree_map(&mut Reader::new(&buf)).unwrap();
    assert_eq!(decoded, source);
}

#[test]
fn an_ordered_set_is_written_in_order() {
    let mut source: BTreeSet<u64> = BTreeSet::new();
    source.insert(1);
    source.insert(1);
    source.insert(0);
    let mut buf = Vec::new();
    write_btree_set(&source, &mut buf).unwrap();
    assert_eq!(buf, vec![2, 0, 0, 0, 0, 0, 0, 0, 0, 0, 0, 0, 1, 0, 0, 0, 0, 0, 0, 0]);
    let decoded: BTreeSet<u64> = read_btree_set(&mut Reader::new(&buf)).unwrap();
    assert_eq!(decoded, source);
}

#[test]
fn empty_collections_are_a_count_of_zero() {
    let mut buf = Vec::new();
    write_hash_map(&HashMap::<u8, u8>::new(), &mut buf).unwrap();
    write_hash_set(&HashSet::<u8>::new(), &mut buf).unwrap();
    write_btree_map(&BTreeMap::<u8, u8>::new(), &mut buf).unwrap();
    write_btree_set(&BTreeSet::<u8>::new(), &mut buf).unwrap();
    assert_eq!(buf, vec![0; 16]);
    let mut reader = Reader::new(&buf);
    assert!(read_hash_map::<u8, u8>(&mut reader).unwrap().is_empty());
    assert!(read_hash_set::<u8>(&mut reader).unwrap().is_empty());
    assert!(read_btree_map::<u8, u8>(&mut reader).unwrap().is_empty());
    assert!(read_btree_set::<u8>(&mut reader).unwrap().is_empty());
    assert!(reader.is_empty());
}

#[test]
fn of_two_entries_with_one_key_the_later_stays() {
    let bytes = [2, 0, 0, 0, 7, 1, 7, 2];
    let map: HashMap<u8, u8> = read_hash_map(&mut Reader::new(&bytes)).unwrap();
    assert_eq!(map.len(), 1);
    assert_eq!(map[&7], 2);
    let map: BTreeMap<u8, u8> = read_btree_map(&mut Reader::new(&bytes)).unwrap();
    assert_eq!(map.len(), 1);
    assert_eq!(map[&7], 2);
    assert_eq!(hash_map_of(vec![(1u8, 1u8), (1, 2), (2, 3)]).len(), 2);
    assert_eq!(btree_map_of(vec![(1u8, 1u8), (1, 2), (2, 3)])[&1], 2);
    assert_eq!(hash_set_of(vec![1u8, 1, 2]).len(), 2);
    assert_eq!(btree_set_of(vec![3u8, 1, 3]).len(), 2);
}

#[test]
fn a_truncated_collection_is_an_unexpected_end() {
    let bytes = [2, 0, 0, 0, 7, 1, 7];
    assert!(read_hash_map::<u8, u8>(&mut Reader::new(&bytes)).unwrap_err().is_eof());
    assert!(read_btree_map::<u8, u8>(&mut Reader::new(&bytes)).unwrap_err().is_eof());
    assert!(read_hash_set::<u16>(&mut Reader::new(&bytes)).unwrap_err().is_eof());
    assert!(read_btree_set::<u16>(&mut Reader::new(&bytes)).unwrap_err().is_eof());
}
