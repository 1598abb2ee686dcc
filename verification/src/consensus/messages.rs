//! Consensus messages (blocks, votes, certificates, timeouts) and their
//! verification against a committee.
//!
//! Verifying a message checks who may have produced it and whether its
//! certificates reach a quorum; each signature is a zero-knowledge proof that
//! is checked by the proof system. A verification therefore returns, besides
//! its outcome, the signature checks it calls for, in the order in which they
//! are made, each stating who signed and what was signed. A node carries
//! them out in that order and hands their verdicts to
//! `Verification::settle`, which rejects the message at the first signature
//! that fails and otherwise gives the outcome.
use vstd::prelude::*;
use crate::crypto::{Digest, Error, PublicKey, Signature, Transaction, zero_bytes32, prefix};
use crate::codec::base64_encoded;
use crate::text::{decimal, decimal_string};
use crate::consensus::config::{
    Committee, keys_distinct, stake_of, total_stake, quorum_of, has_key, Authority, keys_equal,
    lemma_lookup, Stake,
};

verus! {

pub type Round = u64;

/// Why a message is rejected.
pub enum ConsensusError {
    UnknownAuthority(PublicKey),
    AuthorityReuse(PublicKey),
    QCRequiresQuorum,
    TCRequiresQuorum,
    /// A signature the message carries does not verify.
    InvalidSignature(Error),
}

pub type ConsensusResult<T> = Result<T, ConsensusError>;

/// What a signature signs.
pub enum Statement {
    /// The digest of the block being verified.
    Block,
    /// The digest of a vote for the block with digest `hash` at `round` (a
    /// quorum certificate for that block has the same digest).
    Vote { hash: Digest, round: Round },
    /// The digest of a timeout at `round` whose highest certificate is from
    /// `high_qc_round`.
    Timeout { round: Round, high_qc_round: Round },
}

/// Where a signature is found in the message being verified.
pub enum Source {
    /// The message's own signature.
    Own,
    /// The signature of vote `i` of the message's quorum certificate (the
    /// certificate itself, its block's, or its timeout's highest one).
    QcVote(usize),
    /// The signature of vote `i` of the message's timeout certificate.
    TcVote(usize),
}

/// A signature that a verification calls for: the signature at `source`
/// must be a valid proof by `author` over the digest of `statement`.
pub struct SignatureCheck {
    pub author: PublicKey,
    pub statement: Statement,
    pub source: Source,
}

/// What a verification gives: the signature checks it calls for, in order,
/// and its outcome once they pass.
pub struct Verification {
    pub checks: Vec<SignatureCheck>,
    pub outcome: ConsensusResult<()>,
}

/// The result of a verification once its signature checks have given
/// `verdicts`, in order: the first failing signature rejects the message;
/// when all pass, the verification's outcome stands.
pub open spec fn settled(verdicts: Seq<Result<(), Error>>, outcome: ConsensusResult<()>) -> ConsensusResult<()>
    decreases verdicts.len(),
{
    if verdicts.len() == 0 {
        outcome
    } else {
        match verdicts[0] {
            Err(e) => Err(ConsensusError::InvalidSignature(e)),
            Ok(()) => settled(verdicts.drop_first(), outcome),
        }
    }
}

/// A message is accepted exactly when its outcome is `Ok` and every one of
/// its signatures verifies.
pub proof fn law_settled_ok_iff_all_pass(verdicts: Seq<Result<(), Error>>, outcome: ConsensusResult<()>)
    ensures
        settled(verdicts, outcome) is Ok <==> (outcome is Ok && forall|i: int|
            0 <= i < verdicts.len() ==> #[trigger] verdicts[i] is Ok),
    decreases verdicts.len(),
{
    if verdicts.len() > 0 {
        law_settled_ok_iff_all_pass(verdicts.drop_first(), outcome);
        if verdicts[0] is Ok {
            assert forall|i: int| 0 <= i < verdicts.len() && (forall|j: int|
                0 <= j < verdicts.drop_first().len() ==> #[trigger] verdicts.drop_first()[j] is Ok)
                implies #[trigger] verdicts[i] is Ok by {
                if i > 0 {
                    assert(verdicts[i] == verdicts.drop_first()[i - 1]);
                }
            }
        }
    }
}

/// The first `k` verdicts pass: what remains to settle is what settling
/// them all gives.
proof fn lemma_settled_skip(verdicts: Seq<Result<(), Error>>, outcome: ConsensusResult<()>, k: int)
    requires
        0 <= k <= verdicts.len(),
        forall|i: int| 0 <= i < k ==> #[trigger] verdicts[i] is Ok,
    ensures
        settled(verdicts, outcome) == settled(verdicts.subrange(k, verdicts.len() as int), outcome),
    decreases k,
{
    if k > 0 {
        assert(verdicts[0] is Ok);
        let rest = verdicts.drop_first();
        assert forall|i: int| 0 <= i < k - 1 implies #[trigger] rest[i] is Ok by {
            assert(rest[i] == verdicts[i + 1]);
        }
        lemma_settled_skip(rest, outcome, k - 1);
        assert(rest.subrange(k - 1, rest.len() as int) =~= verdicts.subrange(k, verdicts.len() as int));
    } else {
        assert(verdicts.subrange(0, verdicts.len() as int) =~= verdicts);
    }
}

impl Verification {
    /// Settles the verification with the verdicts of its signature checks,
    /// given in the order of `checks`: the first failing signature rejects
    /// the message with `InvalidSignature`; when all pass, the outcome.
    #[verifier::loop_isolation(false)]
    pub fn settle(self, verdicts: Vec<Result<(), Error>>) -> (r: ConsensusResult<()>)
        requires
            verdicts@.len() == self.checks@.len(),
        ensures
            r == settled(verdicts@, self.outcome),
            r is Ok <==> (self.outcome is Ok && forall|i: int|
                0 <= i < verdicts@.len() ==> #[trigger] verdicts@[i] is Ok),
    {
        proof {
            law_settled_ok_iff_all_pass(verdicts@, self.outcome);
        }
        let ghost all = verdicts@;
        let mut vs = verdicts;
        let mut i: usize = 0;
        while i < vs.len()
            invariant
                0 <= i <= vs@.len(),
                vs@ == all,
                forall|j: int| 0 <= j < i ==> #[trigger] all[j] is Ok,
            decreases vs@.len() - i,
        {
            if vs[i].is_err() {
                proof {
                    lemma_settled_skip(all, self.outcome, i as int);
                    let rest = all.subrange(i as int, all.len() as int);
                    assert(rest[0] == all[i as int]);
                }
                let failed = vs.remove(i);
                assert(failed == all[i as int]);
                let r = match failed {
                    Err(e) => Err(ConsensusError::InvalidSignature(e)),
                    Ok(()) => self.outcome,
                };
                proof {
                    let rest = all.subrange(i as int, all.len() as int);
                    assert(r == settled(rest, self.outcome));
                }
                return r;
            }
            i = i + 1;
        }
        proof {
            lemma_settled_skip(all, self.outcome, all.len() as int);
            assert(all.subrange(all.len() as int, all.len() as int).len() == 0);
        }
        self.outcome
    }
}

/// A quorum certificate: votes for the block with digest `hash` at `round`.
pub struct QC {
    pub hash: Digest,
    pub round: Round,
    pub votes: Vec<(PublicKey, Signature)>,
}

/// The authors of a list of votes, in order.
pub open spec fn qc_authors(votes: Seq<(PublicKey, Signature)>) -> Seq<PublicKey> {
    votes.map_values(|v: (PublicKey, Signature)| v.0)
}

/// The authors of a list of timeout votes, in order.
pub open spec fn tc_authors(votes: Seq<(PublicKey, Signature, Round)>) -> Seq<PublicKey> {
    votes.map_values(|v: (PublicKey, Signature, Round)| v.0)
}

/// The result of scanning the authors of a certificate in order: the first
/// author that repeats an earlier one, or the first that holds no stake,
/// is rejected; otherwise the stake they hold together.
pub open spec fn scan(s: Seq<(PublicKey, Authority)>, authors: Seq<PublicKey>) -> Result<nat, ConsensusError>
    decreases authors.len(),
{
    if authors.len() == 0 {
        Ok(0)
    } else {
        match scan(s, authors.drop_last()) {
            Err(e) => Err(e),
            Ok(w) => {
                let a = authors.last();
                if authors.drop_last().contains(a) {
                    Err(ConsensusError::AuthorityReuse(a))
                } else if stake_of(s, a) == 0 {
                    Err(ConsensusError::UnknownAuthority(a))
                } else {
                    Ok(w + stake_of(s, a) as nat)
                }
            },
        }
    }
}

/// The outcome of checking that distinct, known authors with a quorum of
/// stake signed a certificate; `short` is the error for too little stake.
pub open spec fn quorum_outcome(
    s: Seq<(PublicKey, Authority)>,
    authors: Seq<PublicKey>,
    short: ConsensusError,
) -> ConsensusResult<()> {
    match scan(s, authors) {
        Err(e) => Err(e),
        Ok(w) => if w >= quorum_of(total_stake(s)) {
            Ok(())
        } else {
            Err(short)
        },
    }
}

/// The stake held together by a list of authors.
pub open spec fn weight(s: Seq<(PublicKey, Authority)>, authors: Seq<PublicKey>) -> nat
    decreases authors.len(),
{
    if authors.len() == 0 {
        0
    } else {
        weight(s, authors.drop_last()) + stake_of(s, authors.last()) as nat
    }
}

/// Whether no author occurs twice.
pub open spec fn distinct(authors: Seq<PublicKey>) -> bool {
    forall|i: int, j: int| 0 <= i < j < authors.len() ==> authors[i] != authors[j]
}

/// Whether every author holds stake in the committee.
pub open spec fn all_known(s: Seq<(PublicKey, Authority)>, authors: Seq<PublicKey>) -> bool {
    forall|i: int| 0 <= i < authors.len() ==> stake_of(s, #[trigger] authors[i]) > 0
}

/// A successful scan means distinct, known authors, and gives their stake.
pub proof fn lemma_scan_ok(s: Seq<(PublicKey, Authority)>, authors: Seq<PublicKey>)
    ensures
        scan(s, authors) is Ok <==> distinct(authors) && all_known(s, authors),
        scan(s, authors) matches Ok(w) ==> w == weight(s, authors),
    decreases authors.len(),
{
    if authors.len() > 0 {
        let p = authors.drop_last();
        let a = authors.last();
        lemma_scan_ok(s, p);
        if distinct(authors) && all_known(s, authors) {
            assert(distinct(p));
            assert(all_known(s, p)) by {
                assert forall|i: int| 0 <= i < p.len() implies stake_of(s, #[trigger] p[i]) > 0 by {
                    assert(p[i] == authors[i]);
                }
            }
            assert(!p.contains(a)) by {
                if p.contains(a) {
                    let i = choose|i: int| 0 <= i < p.len() && p[i] == a;
                    assert(authors[i] == authors[authors.len() - 1]);
                }
            }
            assert(stake_of(s, authors[authors.len() - 1]) > 0);
        }
        if scan(s, authors) is Ok {
            assert(distinct(authors)) by {
                assert forall|i: int, j: int| 0 <= i < j < authors.len() implies authors[i]
                    != authors[j] by {
                    if j == authors.len() - 1 {
                        assert(p[i] == authors[i]);
                    } else {
                        assert(p[i] == authors[i] && p[j] == authors[j]);
                    }
                }
            }
            assert(all_known(s, authors)) by {
                assert forall|i: int| 0 <= i < authors.len() implies stake_of(s, #[trigger] authors[i])
                    > 0 by {
                    if i < authors.len() - 1 {
                        assert(p[i] == authors[i]);
                    }
                }
            }
        }
    }
}

/// The stake of distinct authors never exceeds the committee's total stake.
pub proof fn lemma_weight_bound(s: Seq<(PublicKey, Authority)>, authors: Seq<PublicKey>)
    requires
        keys_distinct(s),
        distinct(authors),
    ensures
        weight(s, authors) <= total_stake(s),
    decreases s.len(),
{
    if s.len() == 0 {
        lemma_weight_empty(s, authors);
    } else {
        let t = s.drop_last();
        let e = s.last();
        assert(keys_distinct(t));
        lemma_weight_bound(t, authors);
        assert(!has_key(t, e.0)) by {
            if has_key(t, e.0) {
                let j = choose|j: int| 0 <= j < t.len() && t[j].0 == e.0;
                assert(s[j].0 == s[s.len() - 1].0);
            }
        }
        lemma_lookup(t, e.0);
        lemma_weight_split(s, authors);
    }
}

proof fn lemma_weight_empty(s: Seq<(PublicKey, Authority)>, authors: Seq<PublicKey>)
    requires
        s.len() == 0,
    ensures
        weight(s, authors) == 0,
    decreases authors.len(),
{
    if authors.len() > 0 {
        lemma_weight_empty(s, authors.drop_last());
    }
}

/// Splitting off the committee's last entry `e`: the stake of distinct
/// authors is their stake without `e`, plus `e`'s stake if `e` is among them.
proof fn lemma_weight_split(s: Seq<(PublicKey, Authority)>, authors: Seq<PublicKey>)
    requires
        s.len() > 0,
        distinct(authors),
        stake_of(s.drop_last(), s.last().0) == 0,
    ensures
        weight(s, authors) <= weight(s.drop_last(), authors) + s.last().1.stake,
        !authors.contains(s.last().0) ==> weight(s, authors) == weight(s.drop_last(), authors),
    decreases authors.len(),
{
    let t = s.drop_last();
    let e = s.last();
    if authors.len() > 0 {
        let p = authors.drop_last();
        assert(distinct(p));
        lemma_weight_split(s, p);
        let a = authors.last();
        if a == e.0 {
            assert(!p.contains(e.0)) by {
                if p.contains(e.0) {
                    let i = choose|i: int| 0 <= i < p.len() && p[i] == e.0;
                    assert(authors[i] == authors[authors.len() - 1]);
                }
            }
        } else {
            if !authors.contains(e.0) {
                assert(!p.contains(e.0)) by {
                    if p.contains(e.0) {
                        let i = choose|i: int| 0 <= i < p.len() && p[i] == e.0;
                        assert(authors[i] == e.0);
                    }
                }
            }
        }
    }
}

/// The checks for the votes of a certificate, from `start` on.
pub open spec fn vote_checks(
    authors: Seq<PublicKey>,
    statement: spec_fn(int) -> Statement,
    source: spec_fn(int) -> Source,
) -> Seq<SignatureCheck> {
    Seq::new(
        authors.len(),
        |i: int| SignatureCheck { author: authors[i], statement: statement(i), source: source(i) },
    )
}

/// Whether `checks` are, in order, the checks of `expected`.
pub open spec fn checks_match(checks: Seq<SignatureCheck>, expected: Seq<SignatureCheck>) -> bool {
    checks == expected
}

/// Once a scan rejects a prefix of the authors, it rejects all of them the
/// same way.
proof fn lemma_scan_prefix_err(s: Seq<(PublicKey, Authority)>, authors: Seq<PublicKey>, k: int)
    requires
        0 <= k <= authors.len(),
        scan(s, authors.subrange(0, k)) is Err,
    ensures
        scan(s, authors) == scan(s, authors.subrange(0, k)),
    decreases authors.len(),
{
    if k == authors.len() {
        assert(authors.subrange(0, k) =~= authors);
    } else {
        assert(authors.drop_last().subrange(0, k) =~= authors.subrange(0, k));
        lemma_scan_prefix_err(s, authors.drop_last(), k);
    }
}

/// Scans the authors of a certificate, as `scan` does, adding up their stake.
fn scan_authors(committee: &Committee, authors: &Vec<PublicKey>) -> (r: Result<Stake, ConsensusError>)
    requires
        2 * total_stake(committee.entries()) <= Stake::MAX,
    ensures
        match scan(committee.entries(), authors@) {
            Ok(w) => r == Ok::<Stake, ConsensusError>(w as Stake),
            Err(e) => r == Err::<Stake, ConsensusError>(e),
        },
        scan(committee.entries(), authors@) matches Ok(w) ==> w <= total_stake(committee.entries()),
{
    proof {
        use_type_invariant(committee);
        committee.lemma_distinct();
    }
    let ghost s = committee.entries();
    let mut weight: Stake = 0;
    let mut used: Vec<PublicKey> = Vec::new();
    let mut i: usize = 0;
    while i < authors.len()
        invariant
            0 <= i <= authors@.len(),
            s == committee.entries(),
            keys_distinct(s),
            2 * total_stake(s) <= Stake::MAX,
            used@ == authors@.subrange(0, i as int),
            scan(s, used@) == Ok::<nat, ConsensusError>(weight as nat),
        decreases authors@.len() - i,
    {
        let name = authors[i];
        let ghost prefix = used@;
        proof {
            assert(authors@.subrange(0, i + 1) =~= prefix.push(name));
            assert(prefix.push(name).drop_last() =~= prefix);
        }
        if contains_key(&used, &name) {
            proof {
                lemma_scan_prefix_err(s, authors@, i + 1);
            }
            return Err(ConsensusError::AuthorityReuse(name));
        }
        let voting_rights = committee.stake(&name);
        if voting_rights == 0 {
            proof {
                lemma_scan_prefix_err(s, authors@, i + 1);
            }
            return Err(ConsensusError::UnknownAuthority(name));
        }
        proof {
            lemma_scan_ok(s, prefix.push(name));
            lemma_weight_bound(s, prefix.push(name));
        }
        used.push(name);
        weight = weight + voting_rights;
        i = i + 1;
    }
    proof {
        assert(authors@.subrange(0, i as int) =~= authors@);
        lemma_scan_ok(s, authors@);
        lemma_weight_bound(s, authors@);
    }
    Ok(weight)
}

/// Whether `name` occurs in `v`.
fn contains_key(v: &Vec<PublicKey>, name: &PublicKey) -> (r: bool)
    ensures
        r == v@.contains(*name),
{
    let mut i: usize = 0;
    while i < v.len()
        invariant
            0 <= i <= v@.len(),
            forall|j: int| 0 <= j < i ==> v@[j] != *name,
        decreases v@.len() - i,
    {
        if keys_equal(&v[i], name) {
            return true;
        }
        i = i + 1;
    }
    false
}


/// The authors of a list of votes, as a vector.
fn authors_of_votes(votes: &Vec<(PublicKey, Signature)>) -> (a: Vec<PublicKey>)
    ensures
        a@ == qc_authors(votes@),
{
    let mut a: Vec<PublicKey> = Vec::new();
    let mut i: usize = 0;
    while i < votes.len()
        invariant
            0 <= i <= votes@.len(),
            a@ == qc_authors(votes@.subrange(0, i as int)),
        decreases votes@.len() - i,
    {
        a.push(votes[i].0);
        i = i + 1;
        assert(a@ =~= qc_authors(votes@.subrange(0, i as int)));
    }
    assert(votes@.subrange(0, i as int) =~= votes@);
    a
}

/// The authors of a list of timeout votes, as a vector.
fn authors_of_timeout_votes(votes: &Vec<(PublicKey, Signature, Round)>) -> (a: Vec<PublicKey>)
    ensures
        a@ == tc_authors(votes@),
{
    let mut a: Vec<PublicKey> = Vec::new();
    let mut i: usize = 0;
    while i < votes.len()
        invariant
            0 <= i <= votes@.len(),
            a@ == tc_authors(votes@.subrange(0, i as int)),
        decreases votes@.len() - i,
    {
        a.push(votes[i].0);
        i = i + 1;
        assert(a@ =~= tc_authors(votes@.subrange(0, i as int)));
    }
    assert(votes@.subrange(0, i as int) =~= votes@);
    a
}

/// Checks that distinct, known authors with a quorum of stake signed.
fn check_quorum(committee: &Committee, authors: &Vec<PublicKey>, short: ConsensusError) -> (r:
    ConsensusResult<()>)
    requires
        2 * total_stake(committee.entries()) <= Stake::MAX,
    ensures
        r == quorum_outcome(committee.entries(), authors@, short),
{
    match scan_authors(committee, authors) {
        Err(e) => Err(e),
        Ok(weight) => {
            if weight >= committee.quorum_threshold() {
                Ok(())
            } else {
                Err(short)
            }
        },
    }
}

/// The checks a quorum certificate calls for: each vote's signature over
/// the certificate's digest.
pub open spec fn qc_checks(hash: Digest, round: Round, votes: Seq<(PublicKey, Signature)>) -> Seq<
    SignatureCheck,
> {
    Seq::new(
        votes.len(),
        |i: int|
            SignatureCheck {
                author: votes[i].0,
                statement: Statement::Vote { hash: hash, round: round },
                source: Source::QcVote(i as usize),
            },
    )
}

/// The checks a timeout certificate at `round` calls for: each vote's
/// signature over the timeout digest of its highest certificate's round.
pub open spec fn tc_checks(round: Round, votes: Seq<(PublicKey, Signature, Round)>) -> Seq<
    SignatureCheck,
> {
    Seq::new(
        votes.len(),
        |i: int|
            SignatureCheck {
                author: votes[i].0,
                statement: Statement::Timeout { round: round, high_qc_round: votes[i].2 },
                source: Source::TcVote(i as usize),
            },
    )
}

/// What verifying a quorum certificate gives: no check and the error where
/// its votes are not a quorum; otherwise a check per vote, in order.
pub open spec fn qc_verification(
    s: Seq<(PublicKey, Authority)>,
    hash: Digest,
    round: Round,
    votes: Seq<(PublicKey, Signature)>,
) -> (Seq<SignatureCheck>, ConsensusResult<()>) {
    let outcome = quorum_outcome(s, qc_authors(votes), ConsensusError::QCRequiresQuorum);
    if outcome is Ok {
        (qc_checks(hash, round, votes), outcome)
    } else {
        (Seq::empty(), outcome)
    }
}

/// What verifying a timeout certificate gives.
pub open spec fn tc_verification(
    s: Seq<(PublicKey, Authority)>,
    round: Round,
    votes: Seq<(PublicKey, Signature, Round)>,
) -> (Seq<SignatureCheck>, ConsensusResult<()>) {
    let outcome = quorum_outcome(s, tc_authors(votes), ConsensusError::TCRequiresQuorum);
    if outcome is Ok {
        (tc_checks(round, votes), outcome)
    } else {
        (Seq::empty(), outcome)
    }
}

/// Whether a certificate is the genesis one: the zero digest at round 0.
pub open spec fn is_genesis(hash: Digest, round: Round) -> bool {
    hash.0@ == zero_bytes32() && round == 0
}

impl Default for QC {
    fn default() -> (qc: Self)
        ensures
            qc.hash.0@ == zero_bytes32(),
            qc.round == 0,
            qc.votes@.len() == 0,
    {
        QC { hash: Digest::default(), round: 0, votes: Vec::new() }
    }
}

impl PartialEq for QC {
    fn eq(&self, other: &Self) -> (r: bool) {
        self.hash == other.hash && self.round == other.round
    }
}

impl vstd::std_specs::cmp::PartialEqSpecImpl for QC {
    open spec fn obeys_eq_spec() -> bool {
        true
    }

    open spec fn eq_spec(&self, other: &QC) -> bool {
        self.hash.0@ == other.hash.0@ && self.round == other.round
    }
}

impl QC {
    /// The certificate every chain starts from.
    pub fn genesis() -> (qc: QC)
        ensures
            is_genesis(qc.hash, qc.round),
            qc.votes@.len() == 0,
    {
        QC::default()
    }

    /// Whether the certificate marks a timeout: zero digest at a later round.
    pub fn timeout(&self) -> (r: bool)
        ensures
            r == (self.hash.0@ == zero_bytes32() && self.round != 0),
    {
        self.hash == Digest::default() && self.round != 0
    }

    /// Whether this is the genesis certificate.
    fn is_genesis(&self) -> (r: bool)
        ensures
            r == is_genesis(self.hash, self.round),
    {
        let g = QC::genesis();
        *self == g
    }

    /// Checks that distinct known authorities holding a quorum of stake
    /// voted, and calls for each vote's signature over the certificate's
    /// digest.
    pub fn verify(&self, committee: &Committee) -> (v: Verification)
        requires
            2 * total_stake(committee.entries()) <= Stake::MAX,
        ensures
            (v.checks@, v.outcome) == qc_verification(committee.entries(), self.hash, self.round, self.votes@),
            v.outcome is Ok ==> v.checks@.len() == self.votes@.len(),
            v.outcome is Ok ==> forall|i: int|
                0 <= i < self.votes@.len() ==> (#[trigger] v.checks@[i]).author == self.votes@[i].0,
    {
        let authors = authors_of_votes(&self.votes);
        let outcome = check_quorum(committee, &authors, ConsensusError::QCRequiresQuorum);
        match outcome {
            Err(e) => Verification { checks: Vec::new(), outcome: Err(e) },
            Ok(()) => {
                let mut checks: Vec<SignatureCheck> = Vec::new();
                let mut i: usize = 0;
                while i < self.votes.len()
                    invariant
                        0 <= i <= self.votes@.len(),
                        checks@ == qc_checks(self.hash, self.round, self.votes@).subrange(0, i as int),
                    decreases self.votes@.len() - i,
                {
                    checks.push(SignatureCheck {
                        author: self.votes[i].0,
                        statement: Statement::Vote { hash: self.hash, round: self.round },
                        source: Source::QcVote(i),
                    });
                    i = i + 1;
                    assert(checks@ =~= qc_checks(self.hash, self.round, self.votes@).subrange(0, i as int));
                }
                assert(qc_checks(self.hash, self.round, self.votes@).subrange(0, i as int) =~= qc_checks(
                    self.hash,
                    self.round,
                    self.votes@,
                ));
                Verification { checks, outcome: Ok(()) }
            },
        }
    }
}

/// A timeout certificate: timeout votes for `round`, each with the round of
/// its author's highest certificate.
pub struct TC {
    pub round: Round,
    pub votes: Vec<(PublicKey, Signature, Round)>,
}

impl Default for TC {
    fn default() -> (tc: Self)
        ensures
            tc.round == 0,
            tc.votes@.len() == 0,
    {
        TC { round: 0, votes: Vec::new() }
    }
}

impl TC {
    /// Checks that distinct known authorities holding a quorum of stake
    /// timed out, and calls for each vote's signature over its timeout
    /// digest.
    pub fn verify(&self, committee: &Committee) -> (v: Verification)
        requires
            2 * total_stake(committee.entries()) <= Stake::MAX,
        ensures
            (v.checks@, v.outcome) == tc_verification(committee.entries(), self.round, self.votes@),
            v.outcome is Ok ==> v.checks@.len() == self.votes@.len(),
            v.outcome is Ok ==> forall|i: int|
                0 <= i < self.votes@.len() ==> (#[trigger] v.checks@[i]).author == self.votes@[i].0
                    && v.checks@[i].statement == (Statement::Timeout { round: self.round, high_qc_round: self.votes@[i].2 }),
    {
        let authors = authors_of_timeout_votes(&self.votes);
        let outcome = check_quorum(committee, &authors, ConsensusError::TCRequiresQuorum);
        match outcome {
            Err(e) => Verification { checks: Vec::new(), outcome: Err(e) },
            Ok(()) => {
                let mut checks: Vec<SignatureCheck> = Vec::new();
                let mut i: usize = 0;
                while i < self.votes.len()
                    invariant
                        0 <= i <= self.votes@.len(),
                        checks@ == tc_checks(self.round, self.votes@).subrange(0, i as int),
                    decreases self.votes@.len() - i,
                {
                    checks.push(SignatureCheck {
                        author: self.votes[i].0,
                        statement: Statement::Timeout { round: self.round, high_qc_round: self.votes[i].2 },
                        source: Source::TcVote(i),
                    });
                    i = i + 1;
                    assert(checks@ =~= tc_checks(self.round, self.votes@).subrange(0, i as int));
                }
                assert(tc_checks(self.round, self.votes@).subrange(0, i as int) =~= tc_checks(
                    self.round,
                    self.votes@,
                ));
                Verification { checks, outcome: Ok(()) }
            },
        }
    }

    /// The round of each vote's highest certificate, in vote order.
    pub fn high_qc_rounds(&self) -> (r: Vec<Round>)
        ensures
            r@ == self.votes@.map_values(|v: (PublicKey, Signature, Round)| v.2),
    {
        let mut r: Vec<Round> = Vec::new();
        let mut i: usize = 0;
        while i < self.votes.len()
            invariant
                0 <= i <= self.votes@.len(),
                r@ == self.votes@.subrange(0, i as int).map_values(|v: (PublicKey, Signature, Round)| v.2),
            decreases self.votes@.len() - i,
        {
            r.push(self.votes[i].2);
            i = i + 1;
            assert(r@ =~= self.votes@.subrange(0, i as int).map_values(
                |v: (PublicKey, Signature, Round)| v.2,
            ));
        }
        assert(self.votes@.subrange(0, i as int) =~= self.votes@);
        r
    }
}

/// The single check for a message's own signature.
pub open spec fn own_check(author: PublicKey, statement: Statement) -> Seq<SignatureCheck> {
    seq![SignatureCheck { author: author, statement: statement, source: Source::Own }]
}

/// A vote for the block with digest `hash` at `round`.
pub struct Vote {
    pub hash: Digest,
    pub round: Round,
    pub author: PublicKey,
    pub signature: Signature,
}

impl Vote {
    /// Checks that the author holds stake, and calls for the vote's
    /// signature over the vote digest.
    pub fn verify(&self, committee: &Committee) -> (v: Verification)
        ensures
            stake_of(committee.entries(), self.author) == 0 ==> v.checks@.len() == 0 && v.outcome
                == Err::<(), ConsensusError>(ConsensusError::UnknownAuthority(self.author)),
            stake_of(committee.entries(), self.author) != 0 ==> v.checks@ == own_check(
                self.author,
                Statement::Vote { hash: self.hash, round: self.round },
            ) && v.outcome is Ok,
    {
        if committee.stake(&self.author) == 0 {
            return Verification { checks: Vec::new(), outcome: Err(ConsensusError::UnknownAuthority(self.author)) };
        }
        let mut checks: Vec<SignatureCheck> = Vec::new();
        checks.push(SignatureCheck {
            author: self.author,
            statement: Statement::Vote { hash: self.hash, round: self.round },
            source: Source::Own,
        });
        assert(checks@ =~= own_check(self.author, Statement::Vote { hash: self.hash, round: self.round }));
        Verification { checks, outcome: Ok(()) }
    }
}

/// What verifying a timeout gives: the author must hold stake; then its own
/// signature over the timeout digest, and, unless its highest certificate
/// is the genesis one, that certificate's verification.
pub open spec fn timeout_verification(s: Seq<(PublicKey, Authority)>, t: Timeout) -> (
    Seq<SignatureCheck>,
    ConsensusResult<()>,
) {
    if stake_of(s, t.author) == 0 {
        (Seq::empty(), Err(ConsensusError::UnknownAuthority(t.author)))
    } else {
        let own = own_check(t.author, Statement::Timeout { round: t.round, high_qc_round: t.high_qc.round });
        if is_genesis(t.high_qc.hash, t.high_qc.round) {
            (own, Ok(()))
        } else {
            let q = qc_verification(s, t.high_qc.hash, t.high_qc.round, t.high_qc.votes@);
            (own + q.0, q.1)
        }
    }
}

/// A timeout of `author` at `round`, carrying its highest certificate.
pub struct Timeout {
    pub high_qc: QC,
    pub round: Round,
    pub author: PublicKey,
    pub signature: Signature,
}

impl Timeout {
    /// Checks the author and the highest certificate, calling for the
    /// signatures involved.
    pub fn verify(&self, committee: &Committee) -> (v: Verification)
        requires
            2 * total_stake(committee.entries()) <= Stake::MAX,
        ensures
            (v.checks@, v.outcome) == timeout_verification(committee.entries(), *self),
    {
        if committee.stake(&self.author) == 0 {
            return Verification { checks: Vec::new(), outcome: Err(ConsensusError::UnknownAuthority(self.author)) };
        }
        let mut checks: Vec<SignatureCheck> = Vec::new();
        checks.push(SignatureCheck {
            author: self.author,
            statement: Statement::Timeout { round: self.round, high_qc_round: self.high_qc.round },
            source: Source::Own,
        });
        let ghost own = checks@;
        assert(own =~= own_check(
            self.author,
            Statement::Timeout { round: self.round, high_qc_round: self.high_qc.round },
        ));
        if !self.high_qc.is_genesis() {
            let mut q = self.high_qc.verify(committee);
            checks.append(&mut q.checks);
            return Verification { checks, outcome: q.outcome };
        }
        Verification { checks, outcome: Ok(()) }
    }
}

/// What verifying a block gives: the author must hold stake; then its own
/// signature over the block digest; unless its certificate is the genesis
/// one, that certificate's verification; and, once that passes, the
/// verification of its timeout certificate, if it has one.
pub open spec fn block_verification(s: Seq<(PublicKey, Authority)>, b: Block) -> (
    Seq<SignatureCheck>,
    ConsensusResult<()>,
) {
    if stake_of(s, b.author) == 0 {
        (Seq::empty(), Err(ConsensusError::UnknownAuthority(b.author)))
    } else {
        let own = own_check(b.author, Statement::Block);
        let q = if is_genesis(b.qc.hash, b.qc.round) {
            (Seq::<SignatureCheck>::empty(), Ok::<(), ConsensusError>(()))
        } else {
            qc_verification(s, b.qc.hash, b.qc.round, b.qc.votes@)
        };
        if q.1 is Err {
            (own + q.0, q.1)
        } else {
            match b.tc {
                None => (own + q.0, Ok(())),
                Some(tc) => {
                    let t = tc_verification(s, tc.round, tc.votes@);
                    (own + q.0 + t.0, t.1)
                },
            }
        }
    }
}

/// A block proposed by `author` at `round`, extending the block its
/// certificate `qc` certifies.
pub struct Block {
    pub qc: QC,
    pub tc: Option<TC>,
    pub author: PublicKey,
    pub round: Round,
    pub prev: Digest,
    pub payload: Vec<Digest>,
    pub signature: Signature,
}

impl Block {
    /// The first block: genesis certificate, an empty timeout certificate,
    /// zero author and previous digest, round 0, no payload. Its signature is
    /// `signature` (the proof of an empty circuit, built by the proof
    /// system).
    pub fn genesis(signature: Signature) -> (b: Block)
        ensures
            is_genesis(b.qc.hash, b.qc.round),
            b.qc.votes@.len() == 0,
            b.tc matches Some(tc) && tc.round == 0 && tc.votes@.len() == 0,
            b.author.0@ == zero_bytes32(),
            b.round == 0,
            b.prev.0@ == zero_bytes32(),
            b.payload@.len() == 0,
            b.signature == signature,
    {
        Block {
            qc: QC::genesis(),
            tc: Some(TC::default()),
            author: PublicKey::default(),
            round: 0,
            prev: Digest::default(),
            payload: Vec::new(),
            signature,
        }
    }

    /// The digest of the parent block (the one the certificate certifies).
    pub fn parent(&self) -> (d: &Digest)
        ensures
            *d == self.qc.hash,
    {
        &self.qc.hash
    }

    /// The digest of the previous block.
    pub fn prev(&self) -> (d: Digest)
        ensures
            d == self.prev,
    {
        self.prev
    }

    /// Checks the author and the certificates, calling for the signatures
    /// involved.
    pub fn verify(&self, committee: &Committee) -> (v: Verification)
        requires
            2 * total_stake(committee.entries()) <= Stake::MAX,
        ensures
            (v.checks@, v.outcome) == block_verification(committee.entries(), *self),
            (self.tc matches Some(tc) && tc_verification(committee.entries(), tc.round, tc.votes@).1 is Err)
                ==> v.outcome is Err,
    {
        if committee.stake(&self.author) == 0 {
            return Verification { checks: Vec::new(), outcome: Err(ConsensusError::UnknownAuthority(self.author)) };
        }
        let mut checks: Vec<SignatureCheck> = Vec::new();
        checks.push(SignatureCheck { author: self.author, statement: Statement::Block, source: Source::Own });
        let ghost own = checks@;
        assert(own =~= own_check(self.author, Statement::Block));
        if !self.qc.is_genesis() {
            let mut q = self.qc.verify(committee);
            checks.append(&mut q.checks);
            if q.outcome.is_err() {
                return Verification { checks, outcome: q.outcome };
            }
        } else {
            assert(own + Seq::<SignatureCheck>::empty() =~= own);
        }
        match &self.tc {
            None => Verification { checks, outcome: Ok(()) },
            Some(tc) => {
                let mut t = tc.verify(committee);
                checks.append(&mut t.checks);
                Verification { checks, outcome: t.outcome }
            },
        }
    }
}

/// A block as served to clients that synchronise: its proof, last and
/// meta digests, consensus data and transactions, in raw field elements.
pub struct SyncBlock {
    pub proof: Vec<u64>,
    pub last: [u64; 4],
    pub consensus: Vec<u64>,
    pub meta: [u64; 4],
    pub transactions: Vec<Transaction>,
}

impl Default for SyncBlock {
    fn default() -> (b: Self)
        ensures
            b.proof@.len() == 0,
            b.last@ == seq![0u64, 0u64, 0u64, 0u64],
            b.consensus@.len() == 0,
            b.meta@ == seq![0u64, 0u64, 0u64, 0u64],
            b.transactions@.len() == 0,
    {
        let b = SyncBlock { proof: Vec::new(), last: [0, 0, 0, 0], consensus: Vec::new(), meta: [0, 0, 0, 0], transactions: Vec::new() };
        assert(b.last@ =~= seq![0u64, 0u64, 0u64, 0u64]);
        assert(b.meta@ =~= seq![0u64, 0u64, 0u64, 0u64]);
        b
    }
}

/// The stake of the entries whose keys are in `keys`.
pub open spec fn stake_in(s: Seq<(PublicKey, Authority)>, keys: Set<PublicKey>) -> nat
    decreases s.len(),
{
    if s.len() == 0 {
        0
    } else {
        stake_in(s.drop_last(), keys) + if keys.contains(s.last().0) {
            s.last().1.stake as nat
        } else {
            0
        }
    }
}

proof fn lemma_stake_in_bounds(s: Seq<(PublicKey, Authority)>, a: Set<PublicKey>, b: Set<PublicKey>)
    ensures
        stake_in(s, a) <= total_stake(s),
        stake_in(s, a) + stake_in(s, b) == stake_in(s, a.union(b)) + stake_in(s, a.intersect(b)),
    decreases s.len(),
{
    if s.len() > 0 {
        lemma_stake_in_bounds(s.drop_last(), a, b);
    }
}

/// For distinct authors, their stake is the stake of the entries whose keys
/// are among them.
proof fn lemma_weight_is_stake_in(s: Seq<(PublicKey, Authority)>, authors: Seq<PublicKey>)
    requires
        keys_distinct(s),
        distinct(authors),
    ensures
        weight(s, authors) == stake_in(s, authors.to_set()),
    decreases s.len(),
{
    if s.len() == 0 {
        lemma_weight_empty(s, authors);
    } else {
        let t = s.drop_last();
        let e = s.last();
        assert(keys_distinct(t));
        lemma_weight_is_stake_in(t, authors);
        assert(!has_key(t, e.0)) by {
            if has_key(t, e.0) {
                let j = choose|j: int| 0 <= j < t.len() && t[j].0 == e.0;
                assert(s[j].0 == s[s.len() - 1].0);
            }
        }
        lemma_lookup(t, e.0);
        lemma_weight_exact(s, authors);
        if authors.contains(e.0) {
            assert(authors.to_set().contains(e.0));
        } else {
            assert(!authors.to_set().contains(e.0));
        }
    }
}

/// Splitting off the committee's last entry `e` (held by no earlier entry):
/// the stake of distinct authors is their stake without `e`, plus `e`'s
/// stake exactly when `e` is among them.
proof fn lemma_weight_exact(s: Seq<(PublicKey, Authority)>, authors: Seq<PublicKey>)
    requires
        s.len() > 0,
        distinct(authors),
        stake_of(s.drop_last(), s.last().0) == 0,
    ensures
        weight(s, authors) == weight(s.drop_last(), authors) + if authors.contains(s.last().0) {
            s.last().1.stake as nat
        } else {
            0
        },
    decreases authors.len(),
{
    let e = s.last();
    if authors.len() > 0 {
        let p = authors.drop_last();
        assert(distinct(p));
        lemma_weight_exact(s, p);
        let a = authors.last();
        if a == e.0 {
            assert(!p.contains(e.0)) by {
                if p.contains(e.0) {
                    let i = choose|i: int| 0 <= i < p.len() && p[i] == e.0;
                    assert(authors[i] == authors[authors.len() - 1]);
                }
            }
            assert(authors.contains(e.0)) by {
                assert(authors[authors.len() - 1] == e.0);
            }
        } else {
            if authors.contains(e.0) {
                let i = choose|i: int| 0 <= i < authors.len() && authors[i] == e.0;
                assert(p[i] == e.0);
            } else {
                assert(!p.contains(e.0)) by {
                    if p.contains(e.0) {
                        let i = choose|i: int| 0 <= i < p.len() && p[i] == e.0;
                        assert(authors[i] == e.0);
                    }
                }
            }
        }
    }
}

/// A quorum certificate that passes verification was signed by distinct
/// authorities of the committee, each holding stake, whose stake together
/// reaches the quorum threshold (and, being distinct, stays within the
/// committee's total).
pub proof fn law_verified_qc_has_quorum(committee: &Committee, qc: &QC)
    requires
        keys_distinct(committee.entries()),
        quorum_outcome(committee.entries(), qc_authors(qc.votes@), ConsensusError::QCRequiresQuorum) is Ok,
    ensures
        distinct(qc_authors(qc.votes@)),
        all_known(committee.entries(), qc_authors(qc.votes@)),
        quorum_of(total_stake(committee.entries())) <= weight(committee.entries(), qc_authors(qc.votes@)),
        weight(committee.entries(), qc_authors(qc.votes@)) <= total_stake(committee.entries()),
{
    lemma_scan_ok(committee.entries(), qc_authors(qc.votes@));
    lemma_weight_bound(committee.entries(), qc_authors(qc.votes@));
}

/// Any two certificates (quorum or timeout) that pass verification against
/// the same committee share signers whose stake exceeds what a committee of
/// total stake `N = 3f + 1 + k` (`0 <= k < 3`) tolerates as faulty: more
/// than `f`. So at least one honest authority signed both.
pub proof fn law_quorums_intersect(
    committee: &Committee,
    a: Seq<PublicKey>,
    b: Seq<PublicKey>,
    short_a: ConsensusError,
    short_b: ConsensusError,
)
    requires
        keys_distinct(committee.entries()),
        quorum_outcome(committee.entries(), a, short_a) is Ok,
        quorum_outcome(committee.entries(), b, short_b) is Ok,
    ensures
        stake_in(committee.entries(), a.to_set().intersect(b.to_set())) > (total_stake(
            committee.entries(),
        ) - 1) / 3,
{
    let s = committee.entries();
    let n = total_stake(s);
    lemma_scan_ok(s, a);
    lemma_scan_ok(s, b);
    lemma_weight_is_stake_in(s, a);
    lemma_weight_is_stake_in(s, b);
    lemma_stake_in_bounds(s, a.to_set(), b.to_set());
    lemma_stake_in_bounds(s, a.to_set().union(b.to_set()), b.to_set());
    let q = quorum_of(n);
    assert(stake_in(s, a.to_set().intersect(b.to_set())) >= 2 * q - n);
    assert(2 * q - n > (n - 1) / 3) by {
        let f = (n - 1) / 3;
        if n == 0 {
        } else {
            let k = (n - 1) % 3;
            assert(n == 3 * f + 1 + k);
            if k == 0 {
                assert(2 * n == 3 * (2 * f) + 2);
            } else if k == 1 {
                assert(2 * n == 3 * (2 * f + 1) + 1);
            } else {
                assert(2 * n == 3 * (2 * f + 2));
            }
        }
    }
}

/// A vote and a quorum certificate for the same block and round call for
/// their signatures over the same statement: the signature a vote carries
/// checks out inside the certificate exactly as it does alone.
pub proof fn law_vote_and_qc_sign_the_same(vote: Vote, qc: QC, i: int)
    requires
        qc.hash == vote.hash,
        qc.round == vote.round,
        0 <= i < qc.votes@.len(),
    ensures
        qc_checks(qc.hash, qc.round, qc.votes@)[i].statement == own_check(
            vote.author,
            Statement::Vote { hash: vote.hash, round: vote.round },
        )[0].statement,
{
}

/// A timeout and a timeout certificate for its round call for their
/// signatures over the same statement, for the vote that records the
/// timeout's highest certificate round.
pub proof fn law_timeout_and_tc_sign_the_same(timeout: Timeout, tc: TC, i: int)
    requires
        tc.round == timeout.round,
        0 <= i < tc.votes@.len(),
        tc.votes@[i].2 == timeout.high_qc.round,
    ensures
        tc_checks(tc.round, tc.votes@)[i].statement == own_check(
            timeout.author,
            Statement::Timeout { round: timeout.round, high_qc_round: timeout.high_qc.round },
        )[0].statement,
{
}

/// A quorum certificate that passes its quorum check calls for one
/// signature check per vote, in vote order: vote `i`'s signature, by vote
/// `i`'s author, over the certificate's vote digest. One that fails calls
/// for none.
pub proof fn law_qc_checks_each_vote(
    s: Seq<(PublicKey, Authority)>,
    hash: Digest,
    round: Round,
    votes: Seq<(PublicKey, Signature)>,
)
    ensures
        ({
            let (checks, outcome) = qc_verification(s, hash, round, votes);
            &&& outcome is Ok ==> checks.len() == votes.len()
            &&& outcome is Ok ==> forall|i: int|
                0 <= i < votes.len() ==> (#[trigger] checks[i]).author == votes[i].0 && checks[i].statement
                    == Statement::Vote { hash: hash, round: round } && checks[i].source == Source::QcVote(
                    i as usize,
                )
            &&& outcome is Err ==> checks.len() == 0
        }),
{
}

/// A timeout certificate that passes its quorum check calls for one
/// signature check per vote, in vote order: vote `i`'s signature, by vote
/// `i`'s author, over the timeout digest of the certificate's round and
/// that vote's highest certificate round. One that fails calls for none.
pub proof fn law_tc_checks_each_vote(s: Seq<(PublicKey, Authority)>, round: Round, votes: Seq<(PublicKey, Signature, Round)>)
    ensures
        ({
            let (checks, outcome) = tc_verification(s, round, votes);
            &&& outcome is Ok ==> checks.len() == votes.len()
            &&& outcome is Ok ==> forall|i: int|
                0 <= i < votes.len() ==> (#[trigger] checks[i]).author == votes[i].0 && checks[i].statement
                    == Statement::Timeout { round: round, high_qc_round: votes[i].2 } && checks[i].source
                    == Source::TcVote(i as usize)
            &&& outcome is Err ==> checks.len() == 0
        }),
{
}

/// A block is accepted exactly when its author holds stake, its quorum
/// certificate is the genesis one or passes, and the timeout certificate it
/// may carry passes. Its errors come in that order: an unknown author, then
/// the certificate's error, then the timeout certificate's.
pub proof fn law_block_outcome(s: Seq<(PublicKey, Authority)>, b: Block)
    ensures
        ({
            let outcome = block_verification(s, b).1;
            let qc_ok = is_genesis(b.qc.hash, b.qc.round) || qc_verification(
                s,
                b.qc.hash,
                b.qc.round,
                b.qc.votes@,
            ).1 is Ok;
            &&& outcome is Ok <==> (stake_of(s, b.author) != 0 && qc_ok && match b.tc {
                None => true,
                Some(tc) => tc_verification(s, tc.round, tc.votes@).1 is Ok,
            })
            &&& stake_of(s, b.author) == 0 ==> outcome == Err::<(), ConsensusError>(
                ConsensusError::UnknownAuthority(b.author),
            )
            &&& (stake_of(s, b.author) != 0 && !is_genesis(b.qc.hash, b.qc.round)
                && qc_verification(s, b.qc.hash, b.qc.round, b.qc.votes@).1 is Err) ==> outcome
                == qc_verification(s, b.qc.hash, b.qc.round, b.qc.votes@).1
            &&& (stake_of(s, b.author) != 0 && qc_ok && b.tc is Some) ==> outcome == tc_verification(
                s,
                b.tc->0.round,
                b.tc->0.votes@,
            ).1
        }),
{
}

/// A timeout is accepted exactly when its author holds stake and its
/// highest certificate is the genesis one or passes; otherwise the error is
/// the unknown author, else the certificate's.
pub proof fn law_timeout_outcome(s: Seq<(PublicKey, Authority)>, t: Timeout)
    ensures
        ({
            let outcome = timeout_verification(s, t).1;
            let q = qc_verification(s, t.high_qc.hash, t.high_qc.round, t.high_qc.votes@).1;
            &&& outcome is Ok <==> (stake_of(s, t.author) != 0 && (is_genesis(t.high_qc.hash, t.high_qc.round)
                || q is Ok))
            &&& stake_of(s, t.author) == 0 ==> outcome == Err::<(), ConsensusError>(
                ConsensusError::UnknownAuthority(t.author),
            )
            &&& (stake_of(s, t.author) != 0 && !is_genesis(t.high_qc.hash, t.high_qc.round)) ==> outcome == q
        }),
{
}

/// How a digest or key is printed: the first 16 characters of its base64
/// text.
pub open spec fn short(bytes: Seq<u8>) -> Seq<char> {
    prefix(base64_encoded(bytes), 16)
}

/// How a list of rounds is printed: `[r1, r2, ...]`.
pub open spec fn rounds_text(rounds: Seq<Round>) -> Seq<char> {
    "["@ + rounds_items(rounds) + "]"@
}

/// The rounds separated by `", "`.
pub open spec fn rounds_items(rounds: Seq<Round>) -> Seq<char>
    decreases rounds.len(),
{
    if rounds.len() == 0 {
        Seq::empty()
    } else if rounds.len() == 1 {
        decimal(rounds[0] as nat)
    } else {
        rounds_items(rounds.drop_last()) + ", "@ + decimal(rounds.last() as nat)
    }
}

/// How a certificate is printed: `QC(<hash>, <round>)`.
pub open spec fn qc_text(hash: Digest, round: Round) -> Seq<char> {
    "QC("@ + short(hash.0@) + ", "@ + decimal(round as nat) + ")"@
}

impl QC {
    /// What the certificate's `Debug` prints.
    pub fn debug_string(&self) -> (s: String)
        ensures
            s@ == qc_text(self.hash, self.round),
    {
        let mut s = "QC(".to_owned();
        let h = self.hash.display_string();
        s.append(h.as_str());
        s.append(", ");
        let r = decimal_string(self.round);
        s.append(r.as_str());
        s.append(")");
        s
    }
}

impl Vote {
    /// What the vote's `Debug` prints: `V(<author>, <round>, <hash>)`.
    pub fn debug_string(&self) -> (s: String)
        ensures
            s@ == "V("@ + short(self.author.0@) + ", "@ + decimal(self.round as nat) + ", "@ + short(
                self.hash.0@,
            ) + ")"@,
    {
        let mut s = "V(".to_owned();
        let a = self.author.display_string();
        s.append(a.as_str());
        s.append(", ");
        let r = decimal_string(self.round);
        s.append(r.as_str());
        s.append(", ");
        let h = self.hash.display_string();
        s.append(h.as_str());
        s.append(")");
        s
    }
}

impl Timeout {
    /// What the timeout's `Debug` prints: `TV(<author>, <round>, <high qc>)`.
    pub fn debug_string(&self) -> (s: String)
        ensures
            s@ == "TV("@ + short(self.author.0@) + ", "@ + decimal(self.round as nat) + ", "@ + qc_text(
                self.high_qc.hash,
                self.high_qc.round,
            ) + ")"@,
    {
        let mut s = "TV(".to_owned();
        let a = self.author.display_string();
        s.append(a.as_str());
        s.append(", ");
        let r = decimal_string(self.round);
        s.append(r.as_str());
        s.append(", ");
        let q = self.high_qc.debug_string();
        s.append(q.as_str());
        s.append(")");
        s
    }
}

impl TC {
    /// What the certificate's `Debug` prints: `TC(<round>, [<rounds>])`.
    pub fn debug_string(&self) -> (s: String)
        ensures
            s@ == "TC("@ + decimal(self.round as nat) + ", "@ + rounds_text(
                self.votes@.map_values(|v: (PublicKey, Signature, Round)| v.2),
            ) + ")"@,
    {
        let rounds = self.high_qc_rounds();
        let mut items = String::new();
        let mut i: usize = 0;
        while i < rounds.len()
            invariant
                0 <= i <= rounds@.len(),
                items@ == rounds_items(rounds@.subrange(0, i as int)),
            decreases rounds@.len() - i,
        {
            let d = decimal_string(rounds[i]);
            proof {
                assert(rounds@.subrange(0, i + 1).drop_last() =~= rounds@.subrange(0, i as int));
            }
            if i > 0 {
                items.append(", ");
            } else {
                assert(items@ =~= Seq::<char>::empty());
            }
            items.append(d.as_str());
            i = i + 1;
            proof {
                if i == 1 {
                    assert(items@ =~= decimal(rounds@[0] as nat));
                }
            }
        }
        assert(rounds@.subrange(0, i as int) =~= rounds@);
        let mut s = "TC(".to_owned();
        let r = decimal_string(self.round);
        s.append(r.as_str());
        s.append(", [");
        s.append(items.as_str());
        s.append("])");
        proof {
            assert(s@ =~= "TC("@ + decimal(self.round as nat) + ", "@ + ("["@ + items@ + "]"@) + ")"@) by {
                reveal_strlit(", [");
                reveal_strlit("])");
                reveal_strlit(", ");
                reveal_strlit("[");
                reveal_strlit("]");
                reveal_strlit(")");
            }
        }
        s
    }
}

impl Block {
    /// What the block's `Display` prints: `B<round>`.
    pub fn display_string(&self) -> (s: String)
        ensures
            s@ == "B"@ + decimal(self.round as nat),
    {
        let mut s = "B".to_owned();
        let r = decimal_string(self.round);
        s.append(r.as_str());
        s
    }
}

} // verus!
