use voting_service::crypto;
use voting_service::crypto::{hash, PublicKey};
use voting_service::keys::{key_bit, key_order, KeyOrder};
use voting_service::proof_map::{MapProof, MapProofError, ProofEnd, ProofMap, Record};
use voting_service::store::SortedStore;
use voting_service::schema::Elector;

fn key(first: u8, last: u8) -> PublicKey {
    let mut bytes = [0u8; 32];
    bytes[0] = first;
    bytes[31] = last;
    PublicKey::new(bytes)
}

fn elector(k: &PublicKey, name: &str) -> Elector {
    Elector::new(k, name, true)
}

fn leaf(k: &PublicKey, value: &Elector) -> crypto::Hash {
    let mut buf = vec![0u8];
    buf.extend_from_slice(&k.bytes);
    buf.extend_from_slice(&hash(&value.to_bytes()).bytes);
    hash(&buf)
}

fn branch(left: &crypto::Hash, right: &crypto::Hash) -> crypto::Hash {
    let mut buf = vec![1u8];
    buf.extend_from_slice(&left.bytes);
    buf.extend_from_slice(&right.bytes);
    hash(&buf)
}

fn map_of(keys: &[PublicKey]) -> ProofMap<Elector> {
    let mut map = ProofMap::new();
    for (i, k) in keys.iter().enumerate() {
        map.put(k, elector(k, &format!("name {}", i)));
    }
    map
}

#[test]
fn bits_are_read_from_the_high_end() {
    let k = key(0b1000_0001, 0b0000_0001);
    assert!(key_bit(&k, 0));
    assert!(!key_bit(&k, 1));
    assert!(key_bit(&k, 7));
    assert!(!key_bit(&k, 8));
    assert!(!key_bit(&k, 254));
    assert!(key_bit(&k, 255));
}

#[test]
fn keys_are_ordered_by_their_first_differing_bit() {
    assert_eq!(key_order(&key(0, 1), &key(0, 2)), KeyOrder::Before);
    assert_eq!(key_order(&key(0, 2), &key(0, 1)), KeyOrder::After);
    assert_eq!(key_order(&key(1, 0), &key(0, 255)), KeyOrder::After);
    assert_eq!(key_order(&key(127, 255), &key(128, 0)), KeyOrder::Before);
    assert_eq!(key_order(&key(5, 5), &key(5, 5)), KeyOrder::Same);
}

#[test]
fn empty_map_has_the_zero_root() {
    let map: ProofMap<Elector> = ProofMap::new();
    assert_eq!(map.len(), 0);
    assert_eq!(map.merkle_root(), crypto::Hash::zero());
}

#[test]
fn root_of_one_entry_is_the_hash_of_the_entry() {
    let k = key(3, 4);
    let mut map = ProofMap::new();
    map.put(&k, elector(&k, "Den"));
    assert_eq!(map.merkle_root(), leaf(&k, &elector(&k, "Den")));
}

#[test]
fn root_of_two_entries_splits_at_the_first_differing_bit() {
    let low = key(0b0100_0000, 0);
    let high = key(0b0110_0000, 0);
    let map = map_of(&[low, high]);
    let l = leaf(&low, &elector(&low, "name 0"));
    let h = leaf(&high, &elector(&high, "name 1"));
    // The keys agree on bits 0 and 1 and part at bit 2.
    let at2 = branch(&l, &h);
    let at1 = branch(&crypto::Hash::zero(), &at2);
    let at0 = branch(&at1, &crypto::Hash::zero());
    assert_eq!(map.merkle_root(), at0);
}

#[test]
fn root_does_not_depend_on_the_order_of_insertion() {
    let keys = [key(1, 0), key(200, 3), key(1, 9), key(77, 77), key(0, 0), key(255, 255)];
    let mut forward = ProofMap::new();
    for k in keys.iter() {
        forward.put(k, elector(k, "same"));
    }
    let mut backward = ProofMap::new();
    for k in keys.iter().rev() {
        backward.put(k, elector(k, "same"));
    }
    assert_eq!(forward.merkle_root(), backward.merkle_root());
    assert_eq!(forward.len(), 6);
    for i in 0..6 {
        assert_eq!(forward.entry(i), backward.entry(i));
    }
}

#[test]
fn root_depends_on_keys_and_values() {
    let a = key(1, 1);
    let b = key(2, 2);
    let mut one = ProofMap::new();
    one.put(&a, elector(&a, "Den"));
    let mut renamed = ProofMap::new();
    renamed.put(&a, elector(&a, "Dan"));
    let mut moved = ProofMap::new();
    moved.put(&b, elector(&a, "Den"));
    assert_ne!(one.merkle_root(), renamed.merkle_root());
    assert_ne!(one.merkle_root(), moved.merkle_root());
}

#[test]
fn put_replaces_the_value_under_a_key() {
    let a = key(1, 1);
    let mut map = ProofMap::new();
    map.put(&a, elector(&a, "Den"));
    map.put(&a, elector(&a, "Dan"));
    assert_eq!(map.len(), 1);
    assert_eq!(map.get(&a), Some(elector(&a, "Dan")));
    assert!(map.contains(&a));
    assert!(!map.contains(&key(1, 2)));
    assert_eq!(map.get(&key(1, 2)), None);
}

#[test]
fn entries_are_listed_in_key_order() {
    let map = map_of(&[key(9, 0), key(1, 0), key(5, 0), key(1, 1)]);
    let listed: Vec<PublicKey> = (0..map.len()).map(|i| map.entry(i).key).collect();
    assert_eq!(listed, vec![key(1, 0), key(1, 1), key(5, 0), key(9, 0)]);
}

#[test]
fn store_changes_a_value_in_place() {
    let a = key(1, 1);
    let mut store: SortedStore<u64> = SortedStore::new();
    *store.get_mut_or(&a, 5) += 1;
    *store.get_mut_or(&a, 100) += 1;
    assert_eq!(store.get(&a), Some(&7));
    store.put(&key(0, 0), 1);
    assert_eq!(store.len(), 2);
    assert_eq!(store.entry(0).key, key(0, 0));
    assert!(store.contains(&a));
}

#[test]
fn proof_of_presence_checks_out_and_gives_the_value() {
    let keys = [key(1, 0), key(200, 3), key(1, 9), key(77, 77), key(0, 0), key(255, 255)];
    let map = map_of(&keys);
    let root = map.merkle_root();
    for (i, k) in keys.iter().enumerate() {
        let proof = map.get_proof(k);
        assert_eq!(proof.check(root, k), Ok(Some(elector(k, &format!("name {}", i)))));
    }
}

#[test]
fn proof_of_absence_checks_out_and_gives_nothing() {
    let map = map_of(&[key(1, 0), key(200, 3), key(1, 9), key(77, 77)]);
    let root = map.merkle_root();
    for k in [key(1, 1), key(2, 0), key(201, 3), key(128, 0), key(64, 0), key(255, 255)] {
        let proof = map.get_proof(&k);
        assert_eq!(proof.check(root, &k), Ok(None));
    }
}

#[test]
fn proof_of_absence_ends_at_nothing_or_at_another_key() {
    let map = map_of(&[key(0b0100_0000, 0), key(0b0110_0000, 0)]);
    let beside = map.get_proof(&key(0b1000_0000, 0));
    assert_eq!(beside.end, ProofEnd::Empty);
    assert_eq!(beside.path.len(), 1);
    let along = map.get_proof(&key(0b0100_0000, 1));
    assert_eq!(along.path.len(), 3);
    match along.end {
        ProofEnd::Other { key: other, .. } => assert_eq!(other, key(0b0100_0000, 0)),
        _ => panic!("the path ends at the entry beside the key"),
    }
}

#[test]
fn proof_in_an_empty_map_is_empty() {
    let map: ProofMap<Elector> = ProofMap::new();
    let proof = map.get_proof(&key(1, 1));
    assert_eq!(proof.path.len(), 0);
    assert_eq!(proof.end, ProofEnd::Empty);
    assert_eq!(proof.check(map.merkle_root(), &key(1, 1)), Ok(None));
}

#[test]
fn map_proof_is_refused_against_another_root() {
    let map = map_of(&[key(1, 0), key(200, 3)]);
    let other = map_of(&[key(1, 0), key(200, 4)]).merkle_root();
    let proof = map.get_proof(&key(1, 0));
    assert_eq!(proof.check(other, &key(1, 0)), Err(MapProofError::UnmatchedRootHash));
}

#[test]
fn proof_is_refused_for_another_key() {
    let map = map_of(&[key(1, 0), key(200, 3)]);
    let proof = map.get_proof(&key(1, 0));
    assert_eq!(proof.check(map.merkle_root(), &key(200, 3)), Err(MapProofError::UnmatchedRootHash));
}

#[test]
fn map_proof_with_an_altered_value_is_refused() {
    let k = key(1, 0);
    let map = map_of(&[k, key(200, 3)]);
    let proof = map.get_proof(&k);
    let altered = MapProof { path: proof.path, end: ProofEnd::Found(Elector::new(&k, "name 0", false)) };
    assert_eq!(altered.check(map.merkle_root(), &k), Err(MapProofError::UnmatchedRootHash));
}

#[test]
fn proof_that_hides_a_present_key_is_refused() {
    let k = key(1, 0);
    let map = map_of(&[k, key(200, 3)]);
    let proof = map.get_proof(&k);
    let hidden: MapProof<Elector> = MapProof { path: proof.path, end: ProofEnd::Empty };
    assert_eq!(hidden.check(map.merkle_root(), &k), Err(MapProofError::UnmatchedRootHash));
}

#[test]
fn proof_that_ends_at_the_key_itself_as_another_is_malformed() {
    let k = key(1, 0);
    let map = map_of(&[k, key(200, 3)]);
    let proof = map.get_proof(&k);
    let value_hash = hash(&elector(&k, "name 0").to_bytes());
    let twisted: MapProof<Elector> = MapProof { path: proof.path, end: ProofEnd::Other { key: k, value_hash } };
    assert_eq!(twisted.check(map.merkle_root(), &k), Err(MapProofError::MalformedProof));
}

#[test]
fn proof_that_ends_off_the_path_is_malformed() {
    let present = key(0b1000_0000, 0);
    let map = map_of(&[present, key(0b0100_0000, 0)]);
    let proof = map.get_proof(&present);
    let value_hash = hash(&elector(&present, "name 0").to_bytes());
    // The entry really is in the map, but it does not lie on the way to the key asked for.
    let asked = key(0b0000_0000, 1);
    let off: MapProof<Elector> =
        MapProof { path: proof.path, end: ProofEnd::Other { key: present, value_hash } };
    assert_eq!(off.check(map.merkle_root(), &asked), Err(MapProofError::MalformedProof));
}

#[test]
fn proof_with_too_long_a_path_is_malformed() {
    let proof: MapProof<Elector> = MapProof { path: vec![crypto::Hash::zero(); 257], end: ProofEnd::Empty };
    assert_eq!(proof.check(crypto::Hash::zero(), &key(1, 1)), Err(MapProofError::MalformedProof));
    let longest: MapProof<Elector> = MapProof { path: vec![crypto::Hash::zero(); 256], end: ProofEnd::Empty };
    assert_eq!(longest.check(crypto::Hash::zero(), &key(1, 1)), Err(MapProofError::UnmatchedRootHash));
}

#[test]
fn keys_that_part_at_the_last_bit_are_kept_apart() {
    let a = key(0, 0);
    let b = key(0, 1);
    let map = map_of(&[a, b]);
    assert_eq!(map.get_proof(&a).path.len(), 256);
    assert_eq!(map.get_proof(&a).check(map.merkle_root(), &a), Ok(Some(elector(&a, "name 0"))));
    assert_eq!(map.get_proof(&b).check(map.merkle_root(), &b), Ok(Some(elector(&b, "name 1"))));
}
