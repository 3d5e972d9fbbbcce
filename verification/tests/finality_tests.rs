use nexus_chain::dag::finality::{FinalityConfig, FinalityGadget, FinalityProof, FinalityVote, ValidatorInfo, ValidatorSet};
use nexus_chain::primitives::crypto::{PublicKey, SecretKey};
use nexus_chain::primitives::types::ValidatorId;

fn create_test_validators(count: usize) -> Vec<(ValidatorInfo, SecretKey)> {
    (0..count)
        .map(|i| {
            let secret = SecretKey::generate();
            let public = PublicKey::from_secret(&secret).unwrap();
            let id = ValidatorId([i as u8; 32]);
            let info = ValidatorInfo { id, public_key: public.0, stake: 100, address: public.to_address() };
            (info, secret)
        })
        .collect()
}

fn hash(b: u8) -> nexus_chain::primitives::types::Hash {
    nexus_chain::primitives::types::Hash::new([b; 32])
}

#[test]
fn test_supermajority_calculation() {
    let validators: Vec<ValidatorInfo> = create_test_validators(4).into_iter().map(|(v, _)| v).collect();
    let set = ValidatorSet::new(validators, 0);
    assert!(!set.has_supermajority(200));
    assert!(!set.has_supermajority(266));
    assert!(set.has_supermajority(267));
    assert!(set.has_supermajority(300));
}

#[test]
fn test_vote_creation_and_verification() {
    let (validator, secret) = &create_test_validators(1)[0];
    let vote = FinalityVote::new(1, hash(0xAB), 100, validator.id, secret).unwrap();
    let public_key = PublicKey(validator.public_key);
    assert!(vote.verify(&public_key).unwrap());
}

#[test]
fn test_finality_gadget_basic() {
    let validators_with_keys = create_test_validators(4);
    let validators: Vec<ValidatorInfo> = validators_with_keys.iter().map(|(v, _)| *v).collect();
    let config = FinalityConfig::default();
    let mut gadget = FinalityGadget::new(config, validators);
    let target_hash = hash(0xAB);
    let target_height = 100;
    for (validator, secret) in validators_with_keys.iter().take(3) {
        let vote = FinalityVote::new(0, target_hash, target_height, validator.id, secret).unwrap();
        let result = gadget.add_vote(vote);
        if let Ok(Some(proof)) = result {
            assert_eq!(proof.target_height, target_height);
            assert_eq!(proof.target_hash.0, target_hash.0);
            return;
        }
    }
    let (height, _) = gadget.finalized_state();
    assert_eq!(height, target_height);
}

#[test]
fn test_finality_proof_verifies_and_rejects_tampering() {
    let keys = create_test_validators(4);
    let validators: Vec<ValidatorInfo> = keys.iter().map(|(v, _)| *v).collect();
    let set = ValidatorSet::new(validators.clone(), 0);
    let mut gadget = FinalityGadget::new(FinalityConfig::default(), validators);
    let mut produced: Option<FinalityProof> = None;
    for (v, sk) in keys.iter().take(3) {
        let vote = FinalityVote::new(0, hash(7), 5, v.id, sk).unwrap();
        if let Ok(Some(p)) = gadget.add_vote(vote) {
            produced = Some(p);
        }
    }
    let proof = produced.expect("a proof after three of four votes");
    assert_eq!(proof.votes.len(), 3);
    assert_eq!(proof.total_weight, 300);
    assert!(proof.verify(&set).unwrap());
    let mut short = proof.clone();
    short.votes.truncate(2);
    assert!(short.verify(&set).is_err());
    let mut dup = proof.clone();
    dup.votes[1] = dup.votes[0];
    assert!(dup.verify(&set).is_err());
    let mut wrong_epoch = proof.clone();
    wrong_epoch.epoch = 9;
    assert!(wrong_epoch.verify(&set).is_err());
    let (h, _) = gadget.finalized_state();
    assert_eq!(h, 5);
}

#[test]
fn test_finality_rejects_unknown_and_past_votes() {
    let keys = create_test_validators(2);
    let validators: Vec<ValidatorInfo> = keys.iter().map(|(v, _)| *v).collect();
    let mut gadget = FinalityGadget::new(FinalityConfig::default(), validators);
    let stranger = SecretKey::generate();
    let vote = FinalityVote::new(0, hash(1), 1, ValidatorId([99; 32]), &stranger).unwrap();
    assert!(gadget.add_vote(vote).is_err());
    let forged = FinalityVote::new(0, hash(1), 1, keys[0].0.id, &stranger).unwrap();
    assert!(gadget.add_vote(forged).is_err());
    let good = FinalityVote::new(0, hash(1), 1, keys[0].0.id, &keys[0].1).unwrap();
    assert!(matches!(gadget.add_vote(good), Ok(None)));
}
