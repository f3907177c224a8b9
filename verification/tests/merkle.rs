use merkle::MerkleProof;
use merkle::MerkleTree;
use sha2::Digest;

fn records(names: &[&str]) -> Vec<Vec<u8>> {
    names.iter().map(|n| n.as_bytes().to_vec()).collect()
}

fn sha256(data: &[u8]) -> Vec<u8> {
    let mut hasher = sha2::Sha256::new();
    hasher.update(data);
    hasher.finalize().to_vec()
}

#[test]
fn determinism_same_records_same_root() {
    let data = records(&["alpha", "beta", "gamma", "delta", "epsilon"]);
    let t1 = MerkleTree::new(data.clone());
    let t2 = MerkleTree::new(data);
    let r1 = t1.root_hash().unwrap();
    let r2 = t2.root_hash().unwrap();
    assert_eq!(r1, r2);
    assert_eq!(t1.root_hash_hex().unwrap(), t2.root_hash_hex().unwrap());
}

#[test]
fn inclusion_every_record_proves() {
    let names = ["T1", "T2", "T3", "T4"];
    let tree = MerkleTree::new(records(&names));
    let root = tree.root_hash().unwrap();
    for name in names.iter() {
        let proof = tree.generate_proof(name.as_bytes()).expect("record must be provable");
        assert!(tree.verify_proof(&proof));
        assert!(proof.verify(&root));
        assert_eq!(proof.leaf_hash, sha256(name.as_bytes()));
        assert_eq!(proof.root_hash, root);
    }
}

#[test]
fn inclusion_with_odd_and_internal_odd_levels() {
    for n in 1..=9usize {
        let names: Vec<String> = (0..n).map(|i| format!("record-{}", i)).collect();
        let data: Vec<Vec<u8>> = names.iter().map(|s| s.as_bytes().to_vec()).collect();
        let tree = MerkleTree::new(data);
        for name in names.iter() {
            let proof = tree.generate_proof(name.as_bytes()).expect("record must be provable");
            assert!(tree.verify_proof(&proof));
        }
    }
}

#[test]
fn exclusion_absent_record_gives_none() {
    let tree = MerkleTree::new(records(&["T1", "T2", "T3", "T4"]));
    assert!(tree.generate_proof(b"T0").is_none());
    assert!(tree.generate_proof(b"").is_none());
    assert!(tree.generate_proof(b"T11").is_none());
}

#[test]
fn empty_input_gives_no_root_and_no_proofs() {
    let tree = MerkleTree::new(Vec::new());
    assert!(tree.root_hash().is_none());
    assert!(tree.root_hash_hex().is_none());
    assert!(tree.generate_proof(b"anything").is_none());
    let stray = MerkleProof {
        proof_hashes: Vec::new(),
        leaf_hash: sha256(b"anything"),
        root_hash: sha256(b"anything"),
    };
    assert!(!tree.verify_proof(&stray));
}

#[test]
fn single_record_root_hashes_duplicated_leaf() {
    let tree = MerkleTree::new(records(&["A"]));
    let leaf = sha256(b"A");
    let mut both = leaf.clone();
    both.extend_from_slice(&leaf);
    assert_eq!(tree.root_hash().unwrap(), sha256(&both));
    let doubled = MerkleTree::new(records(&["A", "A"]));
    assert_eq!(tree.root_hash().unwrap(), doubled.root_hash().unwrap());
    assert_eq!(
        tree.root_hash_hex().unwrap(),
        "e2d7d313d2e64f38e362097ddc2751bd68731aee8a851fa94e7b6a4b327ff5ab"
    );
}

#[test]
fn tamper_leaf_digest_fails_verification() {
    let tree = MerkleTree::new(records(&["T1", "T2", "T3", "T4"]));
    let root = tree.root_hash().unwrap();
    let proof = tree.generate_proof(b"T2").unwrap();
    for byte in 0..proof.leaf_hash.len() {
        for bit in 0..8 {
            let mut tampered = MerkleProof {
                proof_hashes: proof.proof_hashes.clone(),
                leaf_hash: proof.leaf_hash.clone(),
                root_hash: proof.root_hash.clone(),
            };
            tampered.leaf_hash[byte] ^= 1 << bit;
            assert!(!tampered.verify(&root));
        }
    }
}

#[test]
fn tamper_sibling_digest_fails_verification() {
    let tree = MerkleTree::new(records(&["T1", "T2", "T3", "T4"]));
    let root = tree.root_hash().unwrap();
    let proof = tree.generate_proof(b"T3").unwrap();
    for level in 0..proof.proof_hashes.len() {
        for byte in 0..proof.proof_hashes[level].0.len() {
            for bit in 0..8 {
                let mut tampered = MerkleProof {
                    proof_hashes: proof.proof_hashes.clone(),
                    leaf_hash: proof.leaf_hash.clone(),
                    root_hash: proof.root_hash.clone(),
                };
                tampered.proof_hashes[level].0[byte] ^= 1 << bit;
                assert!(!tampered.verify(&root));
            }
        }
    }
}

#[test]
fn tamper_side_flag_fails_verification() {
    let tree = MerkleTree::new(records(&["T1", "T2", "T3", "T4"]));
    let root = tree.root_hash().unwrap();
    let proof = tree.generate_proof(b"T1").unwrap();
    for level in 0..proof.proof_hashes.len() {
        let mut tampered = MerkleProof {
            proof_hashes: proof.proof_hashes.clone(),
            leaf_hash: proof.leaf_hash.clone(),
            root_hash: proof.root_hash.clone(),
        };
        tampered.proof_hashes[level].1 = !tampered.proof_hashes[level].1;
        assert!(!tampered.verify(&root));
    }
}

#[test]
fn wrong_root_fails_verification() {
    let tree = MerkleTree::new(records(&["T1", "T2", "T3", "T4"]));
    let proof = tree.generate_proof(b"T4").unwrap();
    let other = MerkleTree::new(records(&["T1", "T2", "T3"]));
    assert!(!proof.verify(&other.root_hash().unwrap()));
    assert!(!other.verify_proof(&proof));
}

#[test]
fn golden_root_for_four_records() {
    let tree = MerkleTree::new(records(&["T1", "T2", "T3", "T4"]));
    let expected_hex = "edf86ea3d9f827b9653b5d2d3e99d8661145c676e7903a6ba2fc7ef482a1e504";
    assert_eq!(tree.root_hash_hex().unwrap(), expected_hex);
    assert_eq!(tree.root_hash().unwrap(), hex::decode(expected_hex).unwrap());
}

#[test]
fn golden_root_for_three_records() {
    let tree = MerkleTree::new(records(&["T1", "T2", "T3"]));
    assert_eq!(
        tree.root_hash_hex().unwrap(),
        "bbef1338c1b603932104d8368f5495ed9fab6e970acd5dfb1cfbdb133dfe6337"
    );
}

#[test]
fn hex_display_matches_root_bytes() {
    let tree = MerkleTree::new(records(&["alpha", "beta"]));
    let root = tree.root_hash().unwrap();
    assert_eq!(tree.root_hash_hex().unwrap(), hex::encode(&root));
}

#[test]
fn proof_length_is_padded_depth() {
    let expected: [usize; 9] = [1, 1, 2, 2, 3, 3, 3, 3, 4];
    for n in 1..=9usize {
        let data: Vec<Vec<u8>> = (0..n).map(|i| format!("record-{}", i).into_bytes()).collect();
        let tree = MerkleTree::new(data);
        let proof = tree.generate_proof(b"record-0").unwrap();
        assert_eq!(proof.proof_hashes.len(), expected[n - 1], "record count {}", n);
    }
}

#[test]
fn duplicate_records_still_prove() {
    let tree = MerkleTree::new(records(&["same", "same", "other"]));
    let proof = tree.generate_proof(b"same").unwrap();
    assert!(tree.verify_proof(&proof));
    let other = tree.generate_proof(b"other").unwrap();
    assert!(tree.verify_proof(&other));
}
