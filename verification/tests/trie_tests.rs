use nexus_chain::state::trie::{MerkleTrie, TrieNode};

#[test]
fn test_trie_insert_get() {
    let mut trie = MerkleTrie::new();
    trie.insert(b"hello", b"world".to_vec()).unwrap();
    trie.insert(b"help", b"me".to_vec()).unwrap();
    assert_eq!(trie.get(b"hello"), Some(b"world".to_vec()));
    assert_eq!(trie.get(b"help"), Some(b"me".to_vec()));
    assert_eq!(trie.get(b"other"), None);
}

#[test]
fn test_trie_proof() {
    let mut trie = MerkleTrie::new();
    trie.insert(b"key", b"value".to_vec()).unwrap();
    let proof = trie.prove(b"key").unwrap();
    assert!(MerkleTrie::verify_proof(&proof));
}

#[test]
fn test_trie_update_and_delete() {
    let mut trie = MerkleTrie::new();
    trie.insert(b"a", b"1".to_vec()).unwrap();
    let r1 = *trie.root();
    trie.insert(b"a", b"2".to_vec()).unwrap();
    assert_eq!(trie.get(b"a"), Some(b"2".to_vec()));
    assert_ne!(trie.root().0, r1.0);
    trie.delete(b"a").unwrap();
    assert_eq!(trie.get(b"a"), None);
    assert_eq!(trie.root().0, [0u8; 32]);
    trie.insert(b"a", b"1".to_vec()).unwrap();
    trie.insert(b"b", b"3".to_vec()).unwrap();
    trie.delete(b"b").unwrap();
    assert_eq!(trie.get(b"b"), None);
    assert_eq!(trie.get(b"a"), Some(b"1".to_vec()));
}

#[test]
fn test_trie_empty_root_and_proof() {
    let trie = MerkleTrie::new();
    assert_eq!(trie.root().0, [0u8; 32]);
    assert_eq!(trie.get(b"x"), None);
    let proof = trie.prove(b"x").unwrap();
    assert_eq!(proof.nodes.len(), 1);
    assert!(proof.value.is_none());
    assert!(MerkleTrie::verify_proof(&proof));
}

#[test]
fn test_trie_node_encoding() {
    assert_eq!(TrieNode::Empty.rlp_encode(), b"\"Empty\"".to_vec());
    let leaf = TrieNode::Leaf { key_end: vec![1, 2], value: vec![255] };
    assert_eq!(leaf.rlp_encode(), b"{\"Leaf\":{\"key_end\":[1,2],\"value\":[255]}}".to_vec());
    let mut children: [Option<nexus_chain::primitives::types::Hash>; 16] = [None; 16];
    children[0] = Some(nexus_chain::primitives::types::Hash::new([0u8; 32]));
    let branch = TrieNode::Branch { children, value: None };
    let enc = String::from_utf8(branch.rlp_encode()).unwrap();
    assert!(enc.starts_with("{\"Branch\":{\"children\":[[0,0,"));
    assert!(enc.ends_with(",null,null],\"value\":null}}"));
}

#[test]
fn trie_delete_below_extension() {
    let mut t = MerkleTrie::new();
    t.insert(b"hello", b"world".to_vec()).unwrap();
    t.insert(b"help", b"me".to_vec()).unwrap();
    t.delete(b"hello").unwrap();
    assert_eq!(t.get(b"hello"), None);
    assert_eq!(t.get(b"help"), Some(b"me".to_vec()));
}

#[test]
fn trie_forged_proof_value_is_refused() {
    let mut t = MerkleTrie::new();
    t.insert(b"key", b"value".to_vec()).unwrap();
    t.insert(b"kez", b"other".to_vec()).unwrap();
    let p = t.prove(b"key").unwrap();
    assert_eq!(p.value, Some(b"value".to_vec()));
    assert_eq!(p.root, *t.root());
    assert_eq!(p.key, b"key".to_vec());
    assert!(MerkleTrie::verify_proof(&p));
    let mut forged = t.prove(b"key").unwrap();
    forged.value = Some(b"forged".to_vec());
    assert!(!MerkleTrie::verify_proof(&forged));
    let mut wrong_key = t.prove(b"key").unwrap();
    wrong_key.key = b"kez".to_vec();
    assert!(!MerkleTrie::verify_proof(&wrong_key));
    let absent = t.prove(b"nope").unwrap();
    assert!(absent.value.is_none());
    assert!(MerkleTrie::verify_proof(&absent));
}

#[test]
fn trie_insert_then_delete_keeps_the_other_keys() {
    let mut trie = MerkleTrie::new();
    trie.insert(b"alpha", b"1".to_vec()).unwrap();
    trie.insert(b"alpine", b"2".to_vec()).unwrap();
    trie.insert(b"beta", b"3".to_vec()).unwrap();
    trie.insert(b"alpha", b"4".to_vec()).unwrap();
    assert_eq!(trie.get(b"alpha"), Some(b"4".to_vec()));
    assert_eq!(trie.get(b"alpine"), Some(b"2".to_vec()));
    assert!(trie.delete(b"alpine").is_ok());
    assert_eq!(trie.get(b"alpine"), None);
    assert_eq!(trie.get(b"alpha"), Some(b"4".to_vec()));
    assert_eq!(trie.get(b"beta"), Some(b"3".to_vec()));
    assert_eq!(trie.get(b"alp"), None);
}
