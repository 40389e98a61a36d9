use mnemo_core::models::agent::{
    identity_allowlist, identity_forbidden_substrings, verify_identity_update_proof, AllowlistMerkleTree,
    IdentityUpdateProof, JsonValue, SiblingPosition,
};

fn obj(members: Vec<(&str, JsonValue)>) -> JsonValue {
    JsonValue::Object(members.into_iter().map(|(k, v)| (k.to_string(), v)).collect())
}

fn s(x: &str) -> JsonValue {
    JsonValue::Str(x.to_string())
}

#[test]
fn test_merkle_tree_from_allowlist_deterministic() {
    let tree1 = AllowlistMerkleTree::from_allowlist();
    let tree2 = AllowlistMerkleTree::from_allowlist();
    assert_eq!(tree1.root, tree2.root);
    assert_eq!(tree1.leaves.len(), identity_allowlist().len());
}

#[test]
fn test_merkle_tree_root_is_64_hex_chars() {
    let tree = AllowlistMerkleTree::from_allowlist();
    assert_eq!(tree.root.len(), 64);
    assert!(tree.root.chars().all(|c| c.is_ascii_hexdigit()));
}

#[test]
fn test_merkle_proof_for_each_allowlist_key() {
    let tree = AllowlistMerkleTree::from_allowlist();
    for key in identity_allowlist() {
        let proof = tree.prove(key).unwrap_or_else(|| panic!("proof for '{}' should exist", key));
        assert_eq!(proof.key, key);
        assert_eq!(proof.root, tree.root);
        assert!(tree.verify(&proof), "Proof for '{}' must verify", key);
    }
}

#[test]
fn test_merkle_proof_nonexistent_key_returns_none() {
    let tree = AllowlistMerkleTree::from_allowlist();
    assert!(tree.prove("nonexistent_key").is_none());
    assert!(tree.prove("").is_none());
}

#[test]
fn test_merkle_static_verification() {
    let tree = AllowlistMerkleTree::from_allowlist();
    let proof = tree.prove("mission").unwrap();
    assert!(AllowlistMerkleTree::verify_against_root(&tree.root, &proof));
}

#[test]
fn test_merkle_proof_wrong_root_fails() {
    let tree = AllowlistMerkleTree::from_allowlist();
    let proof = tree.prove("mission").unwrap();
    let bad_root = "0".repeat(64);
    assert!(!AllowlistMerkleTree::verify_against_root(&bad_root, &proof));
}

#[test]
fn test_merkle_proof_tampered_key_fails() {
    let tree = AllowlistMerkleTree::from_allowlist();
    let mut proof = tree.prove("mission").unwrap();
    proof.key = "hacked".into();
    assert!(!tree.verify(&proof));
}

#[test]
fn test_verify_identity_update_proof_valid() {
    let tree = AllowlistMerkleTree::from_allowlist();
    let core = obj(vec![("mission", s("help users")), ("style", s("friendly"))]);
    let proof = IdentityUpdateProof {
        merkle_root: tree.root.clone(),
        key_proofs: vec![tree.prove("mission").unwrap(), tree.prove("style").unwrap()],
    };
    let result = verify_identity_update_proof(&core, &proof);
    assert!(result.verified, "Valid proof should pass: {:?}", result.key_results);
}

#[test]
fn test_verify_identity_update_proof_missing_key_proof() {
    let tree = AllowlistMerkleTree::from_allowlist();
    let core = obj(vec![("mission", s("help users")), ("style", s("friendly"))]);
    let proof = IdentityUpdateProof { merkle_root: tree.root.clone(), key_proofs: vec![tree.prove("mission").unwrap()] };
    let result = verify_identity_update_proof(&core, &proof);
    assert!(!result.verified);
    assert!(result.key_results.iter().any(|r| r.key == "style" && !r.valid));
}

#[test]
fn test_verify_identity_update_proof_wrong_root() {
    let core = obj(vec![("mission", s("test"))]);
    let tree = AllowlistMerkleTree::from_allowlist();
    let proof = IdentityUpdateProof { merkle_root: "bad".repeat(16), key_proofs: vec![tree.prove("mission").unwrap()] };
    let result = verify_identity_update_proof(&core, &proof);
    assert!(!result.verified);
}

#[test]
fn test_verify_identity_update_proof_forbidden_nested_key() {
    let tree = AllowlistMerkleTree::from_allowlist();
    let core = obj(vec![("mission", obj(vec![("user_data", s("should fail"))]))]);
    let proof = IdentityUpdateProof { merkle_root: tree.root.clone(), key_proofs: vec![tree.prove("mission").unwrap()] };
    let result = verify_identity_update_proof(&core, &proof);
    assert!(!result.verified);
}

#[test]
fn test_verify_identity_update_proof_extra_proof_rejected() {
    let tree = AllowlistMerkleTree::from_allowlist();
    let core = obj(vec![("mission", s("test"))]);
    let proof = IdentityUpdateProof {
        merkle_root: tree.root.clone(),
        key_proofs: vec![tree.prove("mission").unwrap(), tree.prove("style").unwrap()],
    };
    let result = verify_identity_update_proof(&core, &proof);
    assert!(!result.verified);
}

#[test]
fn test_verify_identity_update_proof_non_object_core() {
    let tree = AllowlistMerkleTree::from_allowlist();
    let core = s("not an object");
    let proof = IdentityUpdateProof { merkle_root: tree.root.clone(), key_proofs: vec![] };
    let result = verify_identity_update_proof(&core, &proof);
    assert!(!result.verified);
}

#[test]
fn test_verify_identity_update_proof_empty_core() {
    let tree = AllowlistMerkleTree::from_allowlist();
    let core = obj(vec![]);
    let proof = IdentityUpdateProof { merkle_root: tree.root.clone(), key_proofs: vec![] };
    let result = verify_identity_update_proof(&core, &proof);
    assert!(result.verified);
}

#[test]
fn test_forbidden_substrings_constant_matches_server() {
    let f = identity_forbidden_substrings();
    for w in ["user", "session", "episode", "email", "phone", "address", "external_id"] {
        assert!(f.contains(&w));
    }
}

#[test]
fn test_allowlist_constant_matches_server() {
    let a = identity_allowlist();
    for w in ["mission", "style", "boundaries", "capabilities", "values", "persona"] {
        assert!(a.contains(&w));
    }
    assert_eq!(a.len(), 6);
}

#[test]
fn test_merkle_tree_from_custom_keys() {
    let tree = AllowlistMerkleTree::from_keys(vec!["alpha".into(), "beta".into()]);
    assert_eq!(tree.leaves, vec!["alpha", "beta"]);
    let proof_a = tree.prove("alpha").unwrap();
    let proof_b = tree.prove("beta").unwrap();
    assert!(tree.verify(&proof_a));
    assert!(tree.verify(&proof_b));
}

#[test]
fn test_merkle_tree_single_leaf() {
    let tree = AllowlistMerkleTree::from_keys(vec!["only".into()]);
    assert_eq!(tree.leaves.len(), 1);
    let proof = tree.prove("only").unwrap();
    assert!(tree.verify(&proof));
}

#[test]
fn test_falsify_proof_tampered_sibling_hash() {
    let tree = AllowlistMerkleTree::from_allowlist();
    let mut proof = tree.prove("mission").unwrap();
    if let Some(sibling) = proof.siblings.first_mut() {
        let mut bytes: Vec<u8> = hex::decode(&sibling.hash).unwrap();
        bytes[0] ^= 0x01;
        sibling.hash = hex::encode(bytes);
    }
    assert!(!tree.verify(&proof));
}

#[test]
fn test_falsify_proof_swapped_sibling_positions() {
    let tree = AllowlistMerkleTree::from_allowlist();
    let mut proof = tree.prove("mission").unwrap();
    for sibling in &mut proof.siblings {
        sibling.position = match sibling.position {
            SiblingPosition::Left => SiblingPosition::Right,
            SiblingPosition::Right => SiblingPosition::Left,
        };
    }
    assert!(!tree.verify(&proof));
}

#[test]
fn test_falsify_proof_truncated_siblings() {
    let tree = AllowlistMerkleTree::from_allowlist();
    let mut proof = tree.prove("mission").unwrap();
    if !proof.siblings.is_empty() {
        proof.siblings.pop();
    }
    assert!(!tree.verify(&proof));
}

#[test]
fn test_falsify_proof_key_substitution() {
    let tree = AllowlistMerkleTree::from_allowlist();
    let mut proof = tree.prove("mission").unwrap();
    proof.key = "boundaries".into();
    assert!(!tree.verify(&proof));
}

#[test]
fn test_falsify_proof_for_unlisted_key() {
    let tree = AllowlistMerkleTree::from_allowlist();
    let core = obj(vec![("hacked_key", s("evil"))]);
    let proof = IdentityUpdateProof { merkle_root: tree.root.clone(), key_proofs: vec![] };
    let result = verify_identity_update_proof(&core, &proof);
    assert!(!result.verified);
    assert!(result.key_results.iter().any(|r| r.key == "hacked_key" && !r.valid));
}

#[test]
fn test_falsify_cross_tree_root_attack() {
    let custom_tree = AllowlistMerkleTree::from_keys(vec!["hacked_key".into(), "mission".into()]);
    let canonical_tree = AllowlistMerkleTree::from_allowlist();
    assert_ne!(custom_tree.root, canonical_tree.root);
    let core = obj(vec![("mission", s("test"))]);
    let custom_proof = custom_tree.prove("mission").unwrap();
    let proof = IdentityUpdateProof { merkle_root: custom_tree.root.clone(), key_proofs: vec![custom_proof] };
    let result = verify_identity_update_proof(&core, &proof);
    assert!(!result.verified);
}

#[test]
fn test_falsify_deeply_nested_forbidden_substring() {
    let tree = AllowlistMerkleTree::from_allowlist();
    let core = obj(vec![(
        "mission",
        obj(vec![(
            "level1",
            obj(vec![(
                "level2",
                obj(vec![("level3", obj(vec![("level4", obj(vec![("user_secret", s("should be caught"))]))]))]),
            )]),
        )]),
    )]);
    let proof = IdentityUpdateProof { merkle_root: tree.root.clone(), key_proofs: vec![tree.prove("mission").unwrap()] };
    let result = verify_identity_update_proof(&core, &proof);
    assert!(!result.verified);
}

#[test]
fn test_falsify_forbidden_substring_in_array_element() {
    let tree = AllowlistMerkleTree::from_allowlist();
    let core = obj(vec![("values", JsonValue::Array(vec![obj(vec![("email_contact", s("bad@example.com"))])]))]);
    let proof = IdentityUpdateProof { merkle_root: tree.root.clone(), key_proofs: vec![tree.prove("values").unwrap()] };
    let result = verify_identity_update_proof(&core, &proof);
    assert!(!result.verified);
}

#[test]
fn test_falsify_case_sensitivity_attack() {
    let tree = AllowlistMerkleTree::from_allowlist();
    let core = obj(vec![("Mission", s("sneaky"))]);
    let proof = IdentityUpdateProof { merkle_root: tree.root.clone(), key_proofs: vec![] };
    let result = verify_identity_update_proof(&core, &proof);
    assert!(!result.verified);
}

#[test]
fn test_falsify_duplicate_proofs_for_same_key() {
    let tree = AllowlistMerkleTree::from_allowlist();
    let core = obj(vec![("mission", s("test"))]);
    let mission_proof = tree.prove("mission").unwrap();
    let proof = IdentityUpdateProof { merkle_root: tree.root.clone(), key_proofs: vec![mission_proof.clone(), mission_proof] };
    let result = verify_identity_update_proof(&core, &proof);
    assert!(result.verified);
}

#[test]
fn test_falsify_proof_with_invalid_hex_sibling() {
    let tree = AllowlistMerkleTree::from_allowlist();
    let mut proof = tree.prove("mission").unwrap();
    if let Some(sibling) = proof.siblings.first_mut() {
        sibling.hash = "not_valid_hex_zzzz".into();
    }
    assert!(!tree.verify(&proof));
}

#[test]
fn test_falsify_proof_with_short_hex_sibling() {
    let tree = AllowlistMerkleTree::from_allowlist();
    let mut proof = tree.prove("mission").unwrap();
    if let Some(sibling) = proof.siblings.first_mut() {
        sibling.hash = "abcd".into();
    }
    assert!(!tree.verify(&proof));
}

#[test]
fn tree_root_does_not_depend_on_key_order() {
    let canonical = AllowlistMerkleTree::from_allowlist();
    let mut keys: Vec<String> = identity_allowlist().iter().map(|k| k.to_string()).collect();
    keys.reverse();
    let reversed = AllowlistMerkleTree::from_keys(keys.clone());
    keys.rotate_left(2);
    let rotated = AllowlistMerkleTree::from_keys(keys);
    assert_eq!(reversed.root, canonical.root);
    assert_eq!(rotated.root, canonical.root);
    assert_eq!(rotated.leaves, canonical.leaves);
}
