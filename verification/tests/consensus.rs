use zkbft::consensus::config::{AuthorityInfo, Committee, Parameters};
use zkbft::consensus::messages::{
    Block, ConsensusError, QC, Round, Source, Statement, Timeout, Vote, TC,
};
use zkbft::crypto::{Digest, Error, ProofWithPublicInputs, PublicKey, Signature};

fn key(i: u8) -> PublicKey {
    PublicKey([i; 32])
}

fn sig() -> Signature {
    Signature::new(ProofWithPublicInputs { proof: vec![], public_inputs: vec![] })
}

fn info(i: u8, stake: u32) -> AuthorityInfo {
    (key(i), stake, [i as u64; 68], vec![i], Digest([i; 32]), format!("127.0.0.1:{}", i))
}

fn committee(stakes: &[u32]) -> Committee {
    Committee::new(stakes.iter().enumerate().map(|(i, s)| info(i as u8 + 1, *s)).collect(), 100)
}

#[test]
fn committee_lookups() {
    let c = committee(&[1, 1, 1, 1]);
    assert_eq!(c.size(), 4);
    assert_eq!(c.epoch(), 100);
    assert_eq!(c.stake(&key(1)), 1);
    assert_eq!(c.stake(&key(9)), 0);
    assert_eq!(c.address(&key(2)), Some("127.0.0.1:2".to_string()));
    assert_eq!(c.address(&key(9)), None);
    assert_eq!(c.vk(&key(3)), Some([3u64; 68]));
    assert_eq!(c.common(&key(4)), Some(vec![4u8]));
    assert!(c.secret_hash(&key(4)).unwrap() == Digest([4; 32]));
    assert!(c.secret_hash(&key(9)).is_none());
}

#[test]
fn committee_later_entry_wins() {
    let c = Committee::new(vec![info(1, 1), info(2, 2), info(1, 5)], 0);
    assert_eq!(c.size(), 2);
    assert_eq!(c.stake(&key(1)), 5);
    assert_eq!(c.stake(&key(2)), 2);
}

#[test]
fn quorum_threshold_is_n_minus_f() {
    for n in 1u32..40 {
        let c = committee(&vec![1; n as usize]);
        let f = (n - 1) / 3;
        assert_eq!(c.quorum_threshold(), n - f);
    }
    assert_eq!(committee(&[1, 1, 1, 1]).quorum_threshold(), 3);
    assert_eq!(committee(&[10, 20, 30]).quorum_threshold(), 41);
}

#[test]
fn broadcast_addresses_skip_myself() {
    let c = committee(&[1, 1, 1]);
    let others = c.broadcast_addresses(&key(2));
    assert_eq!(others.len(), 2);
    assert!(others[0].0 == key(1));
    assert_eq!(others[0].1, "127.0.0.1:1");
    assert!(others[1].0 == key(3));
    assert_eq!(c.broadcast_addresses(&key(9)).len(), 3);
}

#[test]
fn parameters_defaults_and_log() {
    let p = Parameters::default();
    assert_eq!(p.timeout_delay, 5_000);
    assert_eq!(p.sync_retry_delay, 10_000);
    assert_eq!(
        p.log(),
        vec!["Timeout delay set to 5000 rounds".to_string(), "Sync retry delay set to 10000 ms".to_string()]
    );
}

fn qc(votes: &[u8], round: Round) -> QC {
    QC { hash: Digest([7; 32]), round, votes: votes.iter().map(|i| (key(*i), sig())).collect() }
}

#[test]
fn qc_with_quorum_calls_for_each_vote() {
    let c = committee(&[1, 1, 1, 1]);
    let q = qc(&[1, 2, 3], 5);
    let v = q.verify(&c);
    assert!(v.outcome.is_ok());
    assert_eq!(v.checks.len(), 3);
    for (i, check) in v.checks.iter().enumerate() {
        assert!(check.author == key(i as u8 + 1));
        assert!(matches!(check.source, Source::QcVote(j) if j == i));
        assert!(matches!(&check.statement, Statement::Vote { hash, round } if *hash == Digest([7; 32]) && *round == 5));
    }
}

#[test]
fn qc_rejections() {
    let c = committee(&[1, 1, 1, 1]);
    let v = qc(&[1, 2, 1, 3], 5).verify(&c);
    assert!(matches!(v.outcome, Err(ConsensusError::AuthorityReuse(k)) if k == key(1)));
    assert!(v.checks.is_empty());
    let v = qc(&[1, 9, 2, 3], 5).verify(&c);
    assert!(matches!(v.outcome, Err(ConsensusError::UnknownAuthority(k)) if k == key(9)));
    let v = qc(&[1, 2], 5).verify(&c);
    assert!(matches!(v.outcome, Err(ConsensusError::QCRequiresQuorum)));
    assert!(v.checks.is_empty());
}

#[test]
fn qc_rejection_order_follows_votes() {
    // The repeated vote comes before the unknown one, so it is reported.
    let c = committee(&[1, 1, 1, 1]);
    let v = qc(&[2, 2, 9], 1).verify(&c);
    assert!(matches!(v.outcome, Err(ConsensusError::AuthorityReuse(k)) if k == key(2)));
}

#[test]
fn qc_genesis_and_timeout() {
    let g = QC::genesis();
    assert!(g == QC::default());
    assert!(!g.timeout());
    assert!(QC { hash: Digest::default(), round: 3, votes: vec![] }.timeout());
    assert!(!qc(&[], 3).timeout());
    assert!(qc(&[1], 3) == qc(&[2, 3], 3));
    assert!(!(qc(&[1], 3) == qc(&[1], 4)));
}

fn tc(votes: &[(u8, Round)], round: Round) -> TC {
    TC { round, votes: votes.iter().map(|(i, r)| (key(*i), sig(), *r)).collect() }
}

#[test]
fn tc_verification() {
    let c = committee(&[1, 1, 1, 1]);
    let t = tc(&[(1, 4), (2, 3), (4, 2)], 6);
    assert_eq!(t.high_qc_rounds(), vec![4, 3, 2]);
    let v = t.verify(&c);
    assert!(v.outcome.is_ok());
    assert_eq!(v.checks.len(), 3);
    assert!(matches!(&v.checks[1].statement, Statement::Timeout { round: 6, high_qc_round: 3 }));
    assert!(matches!(v.checks[2].source, Source::TcVote(2)));
    let v = tc(&[(1, 4)], 6).verify(&c);
    assert!(matches!(v.outcome, Err(ConsensusError::TCRequiresQuorum)));
    assert!(TC::default().round == 0 && TC::default().votes.is_empty());
}

#[test]
fn vote_verification() {
    let c = committee(&[1, 1, 1, 1]);
    let vote = Vote { hash: Digest([3; 32]), round: 8, author: key(2), signature: sig() };
    let v = vote.verify(&c);
    assert!(v.outcome.is_ok());
    assert_eq!(v.checks.len(), 1);
    assert!(matches!(v.checks[0].source, Source::Own));
    let stranger = Vote { hash: Digest([3; 32]), round: 8, author: key(9), signature: sig() };
    let v = stranger.verify(&c);
    assert!(matches!(v.outcome, Err(ConsensusError::UnknownAuthority(k)) if k == key(9)));
    assert!(v.checks.is_empty());
}

#[test]
fn timeout_verification() {
    let c = committee(&[1, 1, 1, 1]);
    let t = Timeout { high_qc: QC::genesis(), round: 4, author: key(1), signature: sig() };
    let v = t.verify(&c);
    assert!(v.outcome.is_ok());
    assert_eq!(v.checks.len(), 1);
    assert!(matches!(&v.checks[0].statement, Statement::Timeout { round: 4, high_qc_round: 0 }));
    let t = Timeout { high_qc: qc(&[1, 2, 3], 2), round: 4, author: key(1), signature: sig() };
    let v = t.verify(&c);
    assert!(v.outcome.is_ok());
    assert_eq!(v.checks.len(), 4);
    let t = Timeout { high_qc: qc(&[1], 2), round: 4, author: key(1), signature: sig() };
    let v = t.verify(&c);
    assert!(matches!(v.outcome, Err(ConsensusError::QCRequiresQuorum)));
    assert_eq!(v.checks.len(), 1);
}

fn block(author: u8, q: QC, t: Option<TC>) -> Block {
    Block { qc: q, tc: t, author: key(author), round: 9, prev: Digest([5; 32]), payload: vec![], signature: sig() }
}

#[test]
fn block_verification_order() {
    let c = committee(&[1, 1, 1, 1]);
    let b = block(1, qc(&[1, 2, 3], 8), Some(tc(&[(1, 7), (2, 7), (3, 6)], 8)));
    let v = b.verify(&c);
    assert!(v.outcome.is_ok());
    assert_eq!(v.checks.len(), 7);
    assert!(matches!(v.checks[0].statement, Statement::Block));
    assert!(matches!(v.checks[1].source, Source::QcVote(0)));
    assert!(matches!(v.checks[6].source, Source::TcVote(2)));
    // A failing certificate stops before the timeout certificate.
    let b = block(1, qc(&[1], 8), Some(tc(&[(1, 7), (2, 7), (3, 6)], 8)));
    let v = b.verify(&c);
    assert!(matches!(v.outcome, Err(ConsensusError::QCRequiresQuorum)));
    assert_eq!(v.checks.len(), 1);
    // The genesis certificate is not checked.
    let b = block(2, QC::genesis(), None);
    let v = b.verify(&c);
    assert!(v.outcome.is_ok());
    assert_eq!(v.checks.len(), 1);
    let b = block(9, QC::genesis(), None);
    assert!(matches!(b.verify(&c).outcome, Err(ConsensusError::UnknownAuthority(_))));
    let b = block(2, QC::genesis(), Some(tc(&[(1, 1)], 2)));
    assert!(matches!(b.verify(&c).outcome, Err(ConsensusError::TCRequiresQuorum)));
}

#[test]
fn genesis_block() {
    let g = Block::genesis(sig());
    assert_eq!(g.round, 0);
    assert!(g.qc == QC::genesis());
    assert!(g.author == PublicKey::default());
    assert!(g.prev() == Digest::default());
    assert!(*g.parent() == Digest::default());
    assert!(g.payload.is_empty());
    assert!(g.tc.as_ref().unwrap().votes.is_empty());
    assert_eq!(g.display_string(), "B0");
}

#[test]
fn message_texts() {
    let q = QC { hash: Digest::default(), round: 12, votes: vec![] };
    assert_eq!(q.debug_string(), "QC(AAAAAAAAAAAAAAAA, 12)");
    let v = Vote { hash: Digest::default(), round: 3, author: PublicKey::default(), signature: sig() };
    assert_eq!(v.debug_string(), "V(AAAAAAAAAAAAAAAA, 3, AAAAAAAAAAAAAAAA)");
    let t = Timeout { high_qc: q, round: 13, author: PublicKey::default(), signature: sig() };
    assert_eq!(t.debug_string(), "TV(AAAAAAAAAAAAAAAA, 13, QC(AAAAAAAAAAAAAAAA, 12))");
    assert_eq!(tc(&[(1, 4), (2, 10)], 11).debug_string(), "TC(11, [4, 10])");
    assert_eq!(tc(&[], 11).debug_string(), "TC(11, [])");
    assert_eq!(block(1, QC::genesis(), None).display_string(), "B9");
}

#[test]
fn two_verified_qcs_share_an_honest_voter() {
    // With seven equal votes at most two may be faulty; two certificates of
    // five voters each share at least three voters.
    let c = committee(&[1; 7]);
    let a = qc(&[1, 2, 3, 4, 5], 2);
    let b = qc(&[3, 4, 5, 6, 7], 2);
    assert!(a.verify(&c).outcome.is_ok());
    assert!(b.verify(&c).outcome.is_ok());
    let common: Vec<u8> = (1u8..=7)
        .filter(|i| a.votes.iter().any(|(k, _)| *k == key(*i)) && b.votes.iter().any(|(k, _)| *k == key(*i)))
        .collect();
    assert!(common.len() as u32 > (7 - 1) / 3);
    // Four voters are not a quorum of seven.
    assert!(matches!(qc(&[1, 2, 3, 4], 2).verify(&c).outcome, Err(ConsensusError::QCRequiresQuorum)));
}

#[test]
fn settling_needs_every_signature() {
    let c = committee(&[1, 1, 1, 1]);
    let v = qc(&[1, 2, 3], 5).verify(&c);
    assert!(v.settle(vec![Ok(()), Ok(()), Ok(())]).is_ok());
    let v = qc(&[1, 2, 3], 5).verify(&c);
    let r = v.settle(vec![Ok(()), Err(Error::SecretHashMismatch), Err(Error::BlockHashMismatch)]);
    assert!(matches!(r, Err(ConsensusError::InvalidSignature(Error::SecretHashMismatch))));
    // A rejected certificate calls for no signature and keeps its error.
    let v = qc(&[1, 2], 5).verify(&c);
    assert!(matches!(v.settle(vec![]), Err(ConsensusError::QCRequiresQuorum)));
    // The timeout's own signature is checked before its certificate's quorum.
    let t = Timeout { high_qc: qc(&[1], 2), round: 4, author: key(1), signature: sig() };
    let r = t.verify(&c).settle(vec![Err(Error::ProofVerificationFailed("bad".to_string()))]);
    assert!(matches!(r, Err(ConsensusError::InvalidSignature(Error::ProofVerificationFailed(m))) if m == "bad"));
    let t = Timeout { high_qc: qc(&[1], 2), round: 4, author: key(1), signature: sig() };
    assert!(matches!(t.verify(&c).settle(vec![Ok(())]), Err(ConsensusError::QCRequiresQuorum)));
}
