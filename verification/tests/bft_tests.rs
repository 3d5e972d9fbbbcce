use nexus_chain::consensus::bft::{BftConsensus, BftPhase, BftRoundState, CommitVote, PrepareVote, Proposal, ViewChangeRequest};
use nexus_chain::consensus::validator::{Validator, ValidatorKeys, ValidatorSet};
use nexus_chain::consensus::ConsensusError;
use nexus_chain::primitives::address::Address;

fn setup_bft() -> BftConsensus {
    let keys = ValidatorKeys::generate();
    let mut validator_set = ValidatorSet::new(0);
    let validator = Validator::new(*keys.address(), keys.public_key(), 100_000_000_000);
    validator_set.add_validator(validator).unwrap();
    BftConsensus::new(keys, validator_set)
}

fn h(b: u8) -> nexus_chain::primitives::types::Hash {
    nexus_chain::primitives::types::Hash::new([b; 32])
}

#[test]
fn test_single_validator_consensus() {
    let mut bft = setup_bft();
    assert!(bft.is_leader());
    let hash = h(1);
    let proposal = bft.propose(hash, vec![]).unwrap();
    assert_eq!(proposal.vertex_hash, hash);
    assert!(bft.is_finalized(&hash));
}

#[test]
fn finality_advances_the_view() {
    let mut bft = setup_bft();
    assert_eq!(bft.current_view(), 0);
    bft.propose(h(3), vec![h(1), h(2)]).unwrap();
    assert_eq!(bft.current_view(), 1);
    assert_eq!(bft.current_phase(), BftPhase::NewRound);
    assert!(!bft.is_finalized(&h(4)));
}

#[test]
fn keys_sign_and_derive_a_compressed_key() {
    let keys = ValidatorKeys::generate();
    let pk = keys.public_key();
    assert_eq!(pk.len(), 33);
    assert!(pk[0] == 2 || pk[0] == 3);
    assert_eq!(keys.sign(b"msg").len(), 64);
    assert_eq!(keys.sign_hash(&h(9)).len(), 64);
    let again = ValidatorKeys::from_bytes(&[7u8; 32]).unwrap();
    let same = ValidatorKeys::from_bytes(&[7u8; 32]).unwrap();
    assert_eq!(again.address().0, same.address().0);
    assert!(matches!(ValidatorKeys::from_bytes(&[0u8; 32]), Err(ConsensusError::InvalidSignature)));
}

fn three_validator_engine(me: &ValidatorKeys) -> BftConsensus {
    let mut vs = ValidatorSet::new(0);
    vs.add_validator(Validator::new(*me.address(), me.public_key(), 100_000_000_000)).unwrap();
    vs.add_validator(Validator::new(Address::new([2u8; 20]), vec![], 100_000_000_000)).unwrap();
    vs.add_validator(Validator::new(Address::new([3u8; 20]), vec![], 100_000_000_000)).unwrap();
    BftConsensus::new(ValidatorKeys::from_bytes(&[5u8; 32]).unwrap(), vs)
}

#[test]
fn votes_are_counted_once_and_need_two_thirds() {
    let me = ValidatorKeys::from_bytes(&[5u8; 32]).unwrap();
    let mut bft = three_validator_engine(&me);
    let mut state = BftRoundState::default();
    state.phase = BftPhase::Prepare;
    bft.set_state(state);
    let vote = |b: u8| PrepareVote { voter: Address::new([b; 20]), view: 0, vertex_hash: h(8), signature: vec![] };
    bft.on_prepare(vote(2)).unwrap();
    assert!(matches!(bft.on_prepare(vote(2)), Err(ConsensusError::DuplicateVote)));
    assert!(matches!(bft.on_prepare(vote(9)), Err(ConsensusError::UnknownValidator(_))));
    assert_eq!(bft.current_phase(), BftPhase::Prepare);
    // Two of three equal stakes is not more than two thirds.
    bft.on_prepare(vote(3)).unwrap();
    assert_eq!(bft.current_phase(), BftPhase::Prepare);
    // The third prepare locks the round and this validator votes commit.
    bft.on_prepare(PrepareVote { voter: *me.address(), view: 0, vertex_hash: h(8), signature: vec![] }).unwrap();
    assert_eq!(bft.current_phase(), BftPhase::Commit);
    let commit = |b: u8| CommitVote { voter: Address::new([b; 20]), view: 0, vertex_hash: h(8), signature: vec![] };
    assert_eq!(bft.on_commit(commit(2)).unwrap(), None);
    assert!(bft.get_finality_certificate(&h(8)).is_none());
    let done = bft.on_commit(commit(3)).unwrap();
    assert_eq!(done, Some(h(8)));
    assert!(bft.is_finalized(&h(8)));
    assert_eq!(bft.current_view(), 1);
}

#[test]
fn proposals_are_checked_against_view_and_lock() {
    let me = ValidatorKeys::from_bytes(&[5u8; 32]).unwrap();
    let mut bft = three_validator_engine(&me);
    let p = |view: u64, b: u8| Proposal { proposer: Address::new([2u8; 20]), view, epoch: 0, vertex_hash: h(b), parents: vec![], signature: vec![] };
    match bft.on_proposal(p(4, 1)) {
        Err(ConsensusError::InvalidProposal(m)) => assert_eq!(m, "View mismatch: expected 0, got 4"),
        _ => panic!("expected a view mismatch"),
    }
    let mut state = BftRoundState::default();
    state.locked_vertex = Some(h(1));
    state.locked_view = 0;
    bft.set_state(state);
    assert!(matches!(bft.on_proposal(p(0, 2)), Err(ConsensusError::InvalidProposal(_))));
    bft.on_proposal(p(0, 1)).unwrap();
    assert_eq!(bft.current_phase(), BftPhase::Prepare);
}

#[test]
fn view_changes_need_two_thirds_of_requests() {
    let me = ValidatorKeys::from_bytes(&[5u8; 32]).unwrap();
    let mut bft = three_validator_engine(&me);
    let req = |b: u8| ViewChangeRequest { requester: Address::new([b; 20]), new_view: 5, last_prepared: None, signature: vec![] };
    bft.on_view_change(req(2)).unwrap();
    bft.on_view_change(req(3)).unwrap();
    assert_eq!(bft.current_view(), 0);
    bft.request_view_change(5).unwrap();
    assert_eq!(bft.current_view(), 5);
    assert!(matches!(bft.on_view_change(req(9)), Err(ConsensusError::UnknownValidator(_))));
}

#[test]
fn non_leader_cannot_propose() {
    let keys = ValidatorKeys::generate();
    let mut vs = ValidatorSet::new(0);
    vs.add_validator(Validator::new(Address::new([2u8; 20]), vec![], 100_000_000_000)).unwrap();
    let mut bft = BftConsensus::new(keys, vs);
    assert!(!bft.is_leader());
    assert!(matches!(bft.propose(h(1), vec![]), Err(ConsensusError::NotLeader)));
}

#[test]
fn weighted_leader_is_a_validator() {
    let mut vs = ValidatorSet::new(0);
    for b in 1..4u8 {
        vs.add_validator(Validator::new(Address::new([b; 20]), vec![], 10_000_000_000 * b as u64)).unwrap();
    }
    let mut bft = BftConsensus::new(ValidatorKeys::generate(), vs);
    let mut state = BftRoundState::default();
    state.view = 7;
    state.epoch = 2;
    bft.set_state(state);
    let leader = bft.weighted_leader().expect("a leader");
    assert!([1u8, 2, 3].iter().any(|b| leader.0 == [*b; 20]));
    assert!(bft.is_weighted_leader(&leader));
}

#[test]
fn signing_hashes_bind_their_fields() {
    let a = PrepareVote { voter: Address::new([1u8; 20]), view: 1, vertex_hash: h(1), signature: vec![] };
    let b = CommitVote { voter: Address::new([1u8; 20]), view: 1, vertex_hash: h(1), signature: vec![] };
    assert_ne!(a.signing_hash(), b.signing_hash());
    let p = Proposal { proposer: Address::new([1u8; 20]), view: 1, epoch: 0, vertex_hash: h(1), parents: vec![h(2)], signature: vec![] };
    let q = Proposal { parents: vec![], ..p.duplicate() };
    assert_ne!(p.signing_hash(), q.signing_hash());
}

#[test]
fn prepares_split_between_vertices_do_not_lock() {
    let me = ValidatorKeys::from_bytes(&[5u8; 32]).unwrap();
    let mut vs = ValidatorSet::new(0);
    vs.add_validator(Validator::new(*me.address(), me.public_key(), 100_000_000_000)).unwrap();
    for b in 2..=4u8 {
        vs.add_validator(Validator::new(Address::new([b; 20]), vec![], 100_000_000_000)).unwrap();
    }
    let mut bft = BftConsensus::new(ValidatorKeys::from_bytes(&[5u8; 32]).unwrap(), vs);
    let mut state = BftRoundState::default();
    state.phase = BftPhase::Prepare;
    bft.set_state(state);
    let vote = |b: u8, v: u8| PrepareVote { voter: Address::new([b; 20]), view: 0, vertex_hash: h(v), signature: vec![] };
    bft.on_prepare(vote(2, 0xA)).unwrap();
    bft.on_prepare(vote(3, 0xA)).unwrap();
    bft.on_prepare(vote(4, 0xB)).unwrap();
    assert_eq!(bft.current_phase(), BftPhase::Prepare);
}
