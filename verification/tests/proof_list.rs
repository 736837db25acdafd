use voting_service::crypto;
use voting_service::crypto::hash;
use voting_service::proof_list::{ListProof, ListProofError, ProofList};

fn item(n: u8) -> crypto::Hash {
    hash(&[n])
}

fn list_of(n: u8) -> ProofList {
    let mut list = ProofList::new();
    for i in 0..n {
        list.push(item(i));
    }
    list
}

fn pair(left: &crypto::Hash, right: &crypto::Hash) -> crypto::Hash {
    let mut buf = left.bytes.to_vec();
    buf.extend_from_slice(&right.bytes);
    hash(&buf)
}

fn single(left: &crypto::Hash) -> crypto::Hash {
    hash(&left.bytes)
}

#[test]
fn empty_list_has_the_zero_root() {
    let list = ProofList::new();
    assert!(list.is_empty());
    assert_eq!(list.len(), 0);
    assert_eq!(list.merkle_root(), crypto::Hash::zero());
    assert_eq!(list.get(0), None);
}

#[test]
fn root_of_one_element_is_the_hash_of_the_element() {
    let list = list_of(1);
    assert_eq!(list.merkle_root(), single(&item(0)));
}

#[test]
fn root_of_two_elements_is_the_hash_of_both_leaves() {
    let list = list_of(2);
    assert_eq!(list.merkle_root(), pair(&single(&item(0)), &single(&item(1))));
}

#[test]
fn root_of_three_elements_hashes_the_lone_leaf_alone() {
    let list = list_of(3);
    let left = pair(&single(&item(0)), &single(&item(1)));
    let right = single(&single(&item(2)));
    assert_eq!(list.merkle_root(), pair(&left, &right));
}

#[test]
fn root_of_five_elements_has_three_levels() {
    let list = list_of(5);
    let l0 = pair(&single(&item(0)), &single(&item(1)));
    let l1 = pair(&single(&item(2)), &single(&item(3)));
    let left = pair(&l0, &l1);
    let right = single(&single(&single(&item(4))));
    assert_eq!(list.merkle_root(), pair(&left, &right));
}

#[test]
fn root_depends_on_the_order() {
    let mut ab = ProofList::new();
    ab.push(item(1));
    ab.push(item(2));
    let mut ba = ProofList::new();
    ba.push(item(2));
    ba.push(item(1));
    assert_ne!(ab.merkle_root(), ba.merkle_root());
}

#[test]
fn push_changes_the_root_and_the_length() {
    let mut list = list_of(4);
    let before = list.merkle_root();
    list.push(item(9));
    assert_eq!(list.len(), 5);
    assert_eq!(list.get(4), Some(item(9)));
    assert_eq!(list.get(5), None);
    assert_ne!(list.merkle_root(), before);
}

#[test]
fn replica_and_to_vec_keep_the_elements() {
    let list = list_of(6);
    let copy = list.replica();
    assert_eq!(copy.merkle_root(), list.merkle_root());
    assert_eq!(copy.to_vec(), (0..6).map(item).collect::<Vec<_>>());
}

#[test]
fn every_range_proof_validates_and_opens_its_range() {
    for n in 1..=9u8 {
        let list = list_of(n);
        let root = list.merkle_root();
        for from in 0..=n as u64 {
            for to in from..=n as u64 {
                let opened = list.get_range_proof(from, to).validate(root, n as u64).unwrap();
                let expected: Vec<(u64, crypto::Hash)> = (from..to).map(|i| (i, item(i as u8))).collect();
                assert_eq!(opened, expected);
            }
        }
    }
}

#[test]
fn proof_for_an_empty_range_opens_nothing() {
    let list = list_of(3);
    let proof = list.get_range_proof(2, 2);
    assert_eq!(proof, ListProof::Hashed(list.merkle_root()));
    assert_eq!(proof.validate(list.merkle_root(), 3), Ok(Vec::new()));
}

#[test]
fn proof_of_an_empty_list_validates() {
    let list = ProofList::new();
    let proof = list.get_range_proof(0, 0);
    assert_eq!(proof, ListProof::Hashed(crypto::Hash::zero()));
    assert_eq!(proof.validate(list.merkle_root(), 0), Ok(Vec::new()));
}

#[test]
fn range_past_the_end_is_cut_at_the_end() {
    let list = list_of(3);
    let opened = list.get_range_proof(1, 10).validate(list.merkle_root(), 3).unwrap();
    assert_eq!(opened, vec![(1, item(1)), (2, item(2))]);
}

#[test]
fn proof_has_the_shape_of_the_tree() {
    let list = list_of(3);
    let proof = list.get_range_proof(2, 3);
    let left = pair(&single(&item(0)), &single(&item(1)));
    let expected = ListProof::Branch(
        Box::new(ListProof::Hashed(left)),
        Box::new(ListProof::Single(Box::new(ListProof::Leaf(item(2))))),
    );
    assert_eq!(proof, expected);
}

#[test]
fn proof_is_refused_against_another_root() {
    let list = list_of(4);
    let other = list_of(5).merkle_root();
    let proof = list.get_range_proof(0, 4);
    assert_eq!(proof.validate(other, 4), Err(ListProofError::UnmatchedRootHash));
}

#[test]
fn proof_with_an_altered_element_is_refused() {
    let list = list_of(2);
    let proof = ListProof::Branch(
        Box::new(ListProof::Leaf(item(0))),
        Box::new(ListProof::Leaf(item(7))),
    );
    assert_eq!(proof.validate(list.merkle_root(), 2), Err(ListProofError::UnmatchedRootHash));
}

#[test]
fn proof_with_swapped_elements_is_refused() {
    let list = list_of(2);
    let proof = ListProof::Branch(
        Box::new(ListProof::Leaf(item(1))),
        Box::new(ListProof::Leaf(item(0))),
    );
    assert_eq!(proof.validate(list.merkle_root(), 2), Err(ListProofError::UnmatchedRootHash));
}

#[test]
fn leaf_where_a_branch_belongs_is_refused() {
    let list = list_of(2);
    let proof = ListProof::Leaf(item(0));
    assert_eq!(proof.validate(list.merkle_root(), 2), Err(ListProofError::UnexpectedLeaf));
}

#[test]
fn leaf_past_the_end_is_refused() {
    let proof = ListProof::Leaf(item(0));
    assert_eq!(proof.validate(crypto::Hash::zero(), 0), Err(ListProofError::UnexpectedLeaf));
}

#[test]
fn branch_where_a_leaf_belongs_is_refused() {
    let list = list_of(1);
    let proof = ListProof::Branch(
        Box::new(ListProof::Leaf(item(0))),
        Box::new(ListProof::Leaf(item(1))),
    );
    assert_eq!(proof.validate(list.merkle_root(), 1), Err(ListProofError::UnexpectedBranch));
}

#[test]
fn branch_with_a_child_past_the_end_is_refused() {
    let list = list_of(3);
    let left = pair(&single(&item(0)), &single(&item(1)));
    let proof = ListProof::Branch(
        Box::new(ListProof::Hashed(left)),
        Box::new(ListProof::Branch(
            Box::new(ListProof::Leaf(item(2))),
            Box::new(ListProof::Leaf(item(3))),
        )),
    );
    assert_eq!(proof.validate(list.merkle_root(), 3), Err(ListProofError::UnexpectedBranch));
}

#[test]
fn single_where_both_children_exist_is_refused() {
    let list = list_of(2);
    let proof = ListProof::Single(Box::new(ListProof::Leaf(item(0))));
    assert_eq!(proof.validate(list.merkle_root(), 2), Err(ListProofError::UnexpectedBranch));
}
