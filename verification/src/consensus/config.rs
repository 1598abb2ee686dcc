//! Consensus parameters and the committee of authorities with their stake.
use vstd::prelude::*;
use crate::crypto::{Digest, PublicKey, lemma_public_key_ext};
use crate::text::{concat3, decimal, decimal_string};

verus! {

pub type Stake = u32;

pub type EpochNumber = u128;

/// The verifier data of an authority's signing circuit, as raw field elements.
pub type VerifierKey = [u64; 68];

pub struct Parameters {
    pub timeout_delay: u64,
    pub sync_retry_delay: u64,
}

impl Default for Parameters {
    fn default() -> (p: Self)
        ensures
            p.timeout_delay == 5_000,
            p.sync_retry_delay == 10_000,
    {
        Parameters { timeout_delay: 5_000, sync_retry_delay: 10_000 }
    }
}

impl Parameters {
    /// The lines to log on start-up (they are used to compute performance).
    pub fn log(&self) -> (lines: Vec<String>)
        ensures
            lines@.len() == 2,
            lines@[0]@ == "Timeout delay set to "@ + decimal(self.timeout_delay as nat) + " rounds"@,
            lines@[1]@ == "Sync retry delay set to "@ + decimal(self.sync_retry_delay as nat) + " ms"@,
    {
        let timeout = decimal_string(self.timeout_delay);
        let retry = decimal_string(self.sync_retry_delay);
        let mut lines: Vec<String> = Vec::new();
        lines.push(concat3("Timeout delay set to ", timeout.as_str(), " rounds"));
        lines.push(concat3("Sync retry delay set to ", retry.as_str(), " ms"));
        lines
    }
}

/// What the committee knows of an authority.
pub struct Authority {
    pub stake: Stake,
    /// The network address, in its `ip:port` text form.
    pub address: String,
    pub vk: VerifierKey,
    /// The common data of the authority's signing circuit, serialized.
    pub common: Vec<u8>,
    pub secret_hash: Digest,
}

impl Clone for Authority {
    fn clone(&self) -> (a: Self)
        ensures
            a.stake == self.stake,
            a.address@ == self.address@,
            a.vk == self.vk,
            a.common@ == self.common@,
            a.secret_hash == self.secret_hash,
    {
        Authority {
            stake: self.stake,
            address: self.address.clone(),
            vk: self.vk,
            common: self.common.clone(),
            secret_hash: self.secret_hash,
        }
    }
}

/// Whether no key occurs twice among the entries.
pub open spec fn keys_distinct(s: Seq<(PublicKey, Authority)>) -> bool {
    forall|i: int, j: int| 0 <= i < j < s.len() ==> s[i].0 != s[j].0
}

/// Whether `name` has an entry.
pub open spec fn has_key(s: Seq<(PublicKey, Authority)>, name: PublicKey) -> bool {
    exists|i: int| 0 <= i < s.len() && s[i].0 == name
}

/// The stake of `name`: that of its entry, or 0 where it has none.
pub open spec fn stake_of(s: Seq<(PublicKey, Authority)>, name: PublicKey) -> Stake
    decreases s.len(),
{
    if s.len() == 0 {
        0
    } else if s.last().0 == name {
        s.last().1.stake
    } else {
        stake_of(s.drop_last(), name)
    }
}

/// The entry of `name`, if it has one (the last, where keys repeat).
pub open spec fn entry_of(s: Seq<(PublicKey, Authority)>, name: PublicKey) -> Option<Authority>
    decreases s.len(),
{
    if s.len() == 0 {
        None
    } else if s.last().0 == name {
        Some(s.last().1)
    } else {
        entry_of(s.drop_last(), name)
    }
}

/// The total stake of the entries.
pub open spec fn total_stake(s: Seq<(PublicKey, Authority)>) -> nat
    decreases s.len(),
{
    if s.len() == 0 {
        0
    } else {
        total_stake(s.drop_last()) + s.last().1.stake as nat
    }
}

/// The stake a quorum needs: `2 * total / 3 + 1`.
pub open spec fn quorum_of(total: nat) -> nat {
    2 * total / 3 + 1
}

/// One authority as listed in the committee's configuration.
pub type AuthorityInfo = (PublicKey, Stake, VerifierKey, Vec<u8>, Digest, String);

/// The entries after recording `name`: its entry is replaced in place where
/// it has one, and appended where it has none.
pub open spec fn upsert(s: Seq<(PublicKey, Authority)>, name: PublicKey, a: Authority) -> Seq<
    (PublicKey, Authority),
> {
    if has_key(s, name) {
        s.update(choose|i: int| 0 <= i < s.len() && s[i].0 == name, (name, a))
    } else {
        s.push((name, a))
    }
}

/// The entries recorded from a configuration list, in order, each key's
/// later entry replacing its earlier one.
pub open spec fn entries_from(info: Seq<AuthorityInfo>) -> Seq<(PublicKey, Authority)>
    decreases info.len(),
{
    if info.len() == 0 {
        Seq::empty()
    } else {
        let x = info.last();
        upsert(
            entries_from(info.drop_last()),
            x.0,
            Authority { stake: x.1, address: x.5, vk: x.2, common: x.3, secret_hash: x.4 },
        )
    }
}

/// The authority that the last configuration entry for `name` describes.
pub open spec fn last_info(info: Seq<AuthorityInfo>, name: PublicKey) -> Option<Authority>
    decreases info.len(),
{
    if info.len() == 0 {
        None
    } else if info.last().0 == name {
        let x = info.last();
        Some(Authority { stake: x.1, address: x.5, vk: x.2, common: x.3, secret_hash: x.4 })
    } else {
        last_info(info.drop_last(), name)
    }
}

/// Whether two keys are the same.
pub fn keys_equal(a: &PublicKey, b: &PublicKey) -> (r: bool)
    ensures
        r == (*a == *b),
{
    let r = *a == *b;
    proof {
        if r {
            lemma_public_key_ext(*a, *b);
        }
    }
    r
}

/// The committee of authorities for an epoch.
pub struct Committee {
    authorities: Vec<(PublicKey, Authority)>,
    epoch: EpochNumber,
}

impl Committee {
    #[verifier::type_invariant]
    pub closed spec fn inv(&self) -> bool {
        keys_distinct(self.authorities@)
    }

    /// The authorities, each key once.
    pub closed spec fn entries(&self) -> Seq<(PublicKey, Authority)> {
        self.authorities@
    }

    /// The epoch the committee serves.
    pub closed spec fn epoch_view(&self) -> EpochNumber {
        self.epoch
    }

    /// The epoch the committee serves.
    pub fn epoch(&self) -> (e: EpochNumber)
        ensures
            e == self.epoch_view(),
    {
        self.epoch
    }

    /// No key occurs twice in the committee.
    pub proof fn lemma_distinct(&self)
        requires
            self.inv(),
        ensures
            keys_distinct(self.entries()),
    {
    }

    /// The committee made of a configuration list; where a key is listed
    /// more than once its last entry counts.
    pub fn new(info: Vec<AuthorityInfo>, epoch: EpochNumber) -> (c: Committee)
        ensures
            c.entries() == entries_from(info@),
            c.epoch_view() == epoch,
    {
        let mut authorities: Vec<(PublicKey, Authority)> = Vec::new();
        let mut info = info;
        let ghost all = info@;
        let ghost mut k: int = 0;
        assert(all.subrange(0, 0) =~= Seq::<AuthorityInfo>::empty());
        assert(all.subrange(0, all.len() as int) =~= all);
        while info.len() > 0
            invariant
                0 <= k <= all.len(),
                info@ == all.subrange(k, all.len() as int),
                authorities@ == entries_from(all.subrange(0, k)),
                keys_distinct(authorities@),
            decreases info.len(),
        {
            let x = info.remove(0);
            proof {
                assert(all.subrange(0, k + 1).drop_last() =~= all.subrange(0, k));
                assert(all.subrange(0, k + 1).last() == x);
                k = k + 1;
                assert(info@ =~= all.subrange(k, all.len() as int));
            }
            let (name, stake, vk, common, secret_hash, address) = x;
            let a = Authority { stake, address, vk, common, secret_hash };
            upsert_exec(&mut authorities, name, a);
        }
        assert(all.subrange(0, k) =~= all);
        Committee { authorities, epoch }
    }

    /// The index of the entry of `name`, if it has one.
    fn find(&self, name: &PublicKey) -> (r: Option<usize>)
        ensures
            match r {
                Some(i) => i < self.entries().len() && self.entries()[i as int].0 == *name,
                None => !has_key(self.entries(), *name),
            },
    {
        find_in(&self.authorities, name)
    }

    /// The number of authorities.
    pub fn size(&self) -> (n: usize)
        ensures
            n == self.entries().len(),
    {
        self.authorities.len()
    }

    /// The stake of `name` (0 for a key outside the committee).
    pub fn stake(&self, name: &PublicKey) -> (s: Stake)
        ensures
            s == stake_of(self.entries(), *name),
    {
        proof {
            use_type_invariant(self);
            lemma_lookup(self.entries(), *name);
        }
        match self.find(name) {
            Some(i) => self.authorities[i].1.stake,
            None => 0,
        }
    }

    /// The stake a quorum needs: `2 * total / 3 + 1`, where the total stake
    /// fits in half the range of a stake.
    pub fn quorum_threshold(&self) -> (q: Stake)
        requires
            2 * total_stake(self.entries()) <= Stake::MAX,
        ensures
            q == quorum_of(total_stake(self.entries())),
    {
        let mut total: Stake = 0;
        let mut i: usize = 0;
        let ghost s = self.entries();
        while i < self.authorities.len()
            invariant
                0 <= i <= s.len(),
                s == self.authorities@,
                2 * total_stake(s) <= Stake::MAX,
                total == total_stake(s.subrange(0, i as int)),
            decreases s.len() - i,
        {
            proof {
                assert(s.subrange(0, i + 1).drop_last() =~= s.subrange(0, i as int));
                lemma_total_stake_prefix(s, i + 1);
            }
            total = total + self.authorities[i].1.stake;
            i = i + 1;
        }
        assert(s.subrange(0, i as int) =~= s);
        2 * total / 3 + 1
    }

    /// The address of `name`, if it has an entry.
    pub fn address(&self, name: &PublicKey) -> (r: Option<String>)
        ensures
            match entry_of(self.entries(), *name) {
                Some(a) => r matches Some(x) && x@ == a.address@,
                None => r is None,
            },
    {
        proof {
            use_type_invariant(self);
            lemma_lookup(self.entries(), *name);
        }
        match self.find(name) {
            Some(i) => Some(self.authorities[i].1.address.clone()),
            None => None,
        }
    }

    /// The verifier data of `name`, if it has an entry.
    pub fn vk(&self, name: &PublicKey) -> (r: Option<VerifierKey>)
        ensures
            match entry_of(self.entries(), *name) {
                Some(a) => r == Some(a.vk),
                None => r is None,
            },
    {
        proof {
            use_type_invariant(self);
            lemma_lookup(self.entries(), *name);
        }
        match self.find(name) {
            Some(i) => Some(self.authorities[i].1.vk),
            None => None,
        }
    }

    /// The serialized common circuit data of `name`, if it has an entry.
    pub fn common(&self, name: &PublicKey) -> (r: Option<Vec<u8>>)
        ensures
            match entry_of(self.entries(), *name) {
                Some(a) => r matches Some(x) && x@ == a.common@,
                None => r is None,
            },
    {
        proof {
            use_type_invariant(self);
            lemma_lookup(self.entries(), *name);
        }
        match self.find(name) {
            Some(i) => Some(self.authorities[i].1.common.clone()),
            None => None,
        }
    }

    /// The hash of the secret of `name`, if it has an entry.
    pub fn secret_hash(&self, name: &PublicKey) -> (r: Option<Digest>)
        ensures
            match entry_of(self.entries(), *name) {
                Some(a) => r == Some(a.secret_hash),
                None => r is None,
            },
    {
        proof {
            use_type_invariant(self);
            lemma_lookup(self.entries(), *name);
        }
        match self.find(name) {
            Some(i) => Some(self.authorities[i].1.secret_hash),
            None => None,
        }
    }

    /// The keys and addresses of every authority but `myself`, in committee
    /// order.
    pub fn broadcast_addresses(&self, myself: &PublicKey) -> (r: Vec<(PublicKey, String)>)
        ensures
            r@.len() == others(self.entries(), *myself).len(),
            forall|i: int|
                0 <= i < r@.len() ==> r@[i].0 == #[trigger] others(self.entries(), *myself)[i].0
                    && r@[i].1@ == others(self.entries(), *myself)[i].1.address@,
    {
        let ghost s = self.entries();
        let mut r: Vec<(PublicKey, String)> = Vec::new();
        let mut i: usize = 0;
        while i < self.authorities.len()
            invariant
                0 <= i <= s.len(),
                s == self.authorities@,
                r@.len() == others(s.subrange(0, i as int), *myself).len(),
                forall|j: int|
                    0 <= j < r@.len() ==> r@[j].0 == #[trigger] others(s.subrange(0, i as int), *myself)[j].0
                        && r@[j].1@ == others(s.subrange(0, i as int), *myself)[j].1.address@,
            decreases s.len() - i,
        {
            proof {
                assert(s.subrange(0, i + 1).drop_last() =~= s.subrange(0, i as int));
            }
            let entry = &self.authorities[i];
            let ghost before = r@;
            proof {
                let p = s.subrange(0, i + 1);
                assert(p.last() == s[i as int]);
            }
            if !keys_equal(&entry.0, myself) {
                r.push((entry.0, entry.1.address.clone()));
                assert(r@[r@.len() - 1].0 == entry.0);
            }
            i = i + 1;
            proof {
                let o = others(s.subrange(0, i as int), *myself);
                let o0 = others(s.subrange(0, i - 1), *myself);
                assert forall|j: int| 0 <= j < r@.len() implies r@[j].0 == #[trigger] o[j].0 && r@[j].1@
                    == o[j].1.address@ by {
                    if j < before.len() {
                        assert(r@[j] == before[j]);
                        assert(o[j] == o0[j]);
                    }
                }
            }
        }
        assert(s.subrange(0, i as int) =~= s);
        r
    }
}

/// The entries of every key but `myself`, in order.
pub open spec fn others(s: Seq<(PublicKey, Authority)>, myself: PublicKey) -> Seq<(PublicKey, Authority)>
    decreases s.len(),
{
    if s.len() == 0 {
        Seq::empty()
    } else if s.last().0 == myself {
        others(s.drop_last(), myself)
    } else {
        others(s.drop_last(), myself).push(s.last())
    }
}

/// The index of the entry of `name` in `v`, if it has one.
fn find_in(v: &Vec<(PublicKey, Authority)>, name: &PublicKey) -> (r: Option<usize>)
    ensures
        match r {
            Some(i) => i < v@.len() && v@[i as int].0 == *name,
            None => !has_key(v@, *name),
        },
{
    let mut i: usize = 0;
    while i < v.len()
        invariant
            0 <= i <= v@.len(),
            forall|j: int| 0 <= j < i ==> v@[j].0 != *name,
        decreases v@.len() - i,
    {
        if keys_equal(&v[i].0, name) {
            return Some(i);
        }
        i = i + 1;
    }
    None
}

/// Records `name` in `v` as `upsert` does.
fn upsert_exec(v: &mut Vec<(PublicKey, Authority)>, name: PublicKey, a: Authority)
    requires
        keys_distinct(old(v)@),
    ensures
        final(v)@ == upsert(old(v)@, name, a),
        keys_distinct(final(v)@),
{
    match find_in(v, &name) {
        Some(i) => {
            proof {
                let c = choose|j: int| 0 <= j < old(v)@.len() && old(v)@[j].0 == name;
                assert(c == i);
            }
            v[i] = (name, a);
        },
        None => {
            v.push((name, a));
        },
    }
}

/// The stake total of a prefix grows by the next entry's stake, and never
/// exceeds the whole total.
proof fn lemma_total_stake_prefix(s: Seq<(PublicKey, Authority)>, k: int)
    requires
        0 <= k <= s.len(),
    ensures
        total_stake(s.subrange(0, k)) <= total_stake(s),
    decreases s.len(),
{
    if k < s.len() {
        assert(s.drop_last().subrange(0, k) =~= s.subrange(0, k));
        lemma_total_stake_prefix(s.drop_last(), k);
    } else {
        assert(s.subrange(0, k) =~= s);
    }
}

/// With distinct keys, the stake and entry of a key are those at its index.
pub proof fn lemma_lookup(s: Seq<(PublicKey, Authority)>, name: PublicKey)
    requires
        keys_distinct(s),
    ensures
        forall|i: int|
            0 <= i < s.len() && s[i].0 == name ==> stake_of(s, name) == s[i].1.stake && entry_of(
                s,
                name,
            ) == Some(s[i].1),
        !has_key(s, name) ==> stake_of(s, name) == 0 && entry_of(s, name) is None,
        entry_of(s, name) matches Some(a) ==> stake_of(s, name) == a.stake,
    decreases s.len(),
{
    if s.len() > 0 {
        lemma_lookup(s.drop_last(), name);
        if !has_key(s, name) {
            assert(!has_key(s.drop_last(), name)) by {
                if has_key(s.drop_last(), name) {
                    let j = choose|j: int| 0 <= j < s.drop_last().len() && s.drop_last()[j].0 == name;
                    assert(s[j].0 == name);
                }
            }
        }
        assert forall|i: int| 0 <= i < s.len() && s[i].0 == name implies stake_of(s, name)
            == s[i].1.stake && entry_of(s, name) == Some(s[i].1) by {
            if i < s.len() - 1 {
                assert(s.drop_last()[i] == s[i]);
            }
        }
    }
}


/// The quorum threshold is `N - f` where the total stake is written
/// `N = 3f + 1 + k` with `0 <= k < 3`: it tolerates `f` faulty stake.
pub proof fn law_quorum_threshold_is_n_minus_f(total: nat)
    requires
        total >= 1,
    ensures
        quorum_of(total) == total - (total - 1) / 3,
{
    let f = (total - 1) / 3;
    let k = (total - 1) % 3;
    assert(total == 3 * f + 1 + k);
    assert(quorum_of(total) == total - f) by {
        if k == 0 {
            assert(2 * total == 3 * (2 * f) + 2);
        } else if k == 1 {
            assert(2 * total == 3 * (2 * f + 1) + 1);
        } else {
            assert(2 * total == 3 * (2 * f + 2));
        }
    }
}

/// Recording a key keeps the keys distinct, and changes the entry of that
/// key only.
pub proof fn lemma_upsert(s: Seq<(PublicKey, Authority)>, name: PublicKey, a: Authority, k: PublicKey)
    requires
        keys_distinct(s),
    ensures
        keys_distinct(upsert(s, name, a)),
        entry_of(upsert(s, name, a), k) == if k == name {
            Some(a)
        } else {
            entry_of(s, k)
        },
{
    let t = upsert(s, name, a);
    if has_key(s, name) {
        let c = choose|i: int| 0 <= i < s.len() && s[i].0 == name;
        assert(keys_distinct(t)) by {
            assert forall|i: int, j: int| 0 <= i < j < t.len() implies t[i].0 != t[j].0 by {
                if i != c && j != c {
                    assert(t[i] == s[i] && t[j] == s[j]);
                }
            }
        }
        lemma_lookup(t, k);
        lemma_lookup(s, k);
        if k == name {
            assert(t[c].0 == k);
        } else if has_key(s, k) {
            let j = choose|j: int| 0 <= j < s.len() && s[j].0 == k;
            assert(t[j] == s[j]);
        } else {
            assert(!has_key(t, k)) by {
                if has_key(t, k) {
                    let j = choose|j: int| 0 <= j < t.len() && t[j].0 == k;
                    assert(t[j] == s[j]);
                }
            }
        }
    } else {
        assert(keys_distinct(t)) by {
            assert forall|i: int, j: int| 0 <= i < j < t.len() implies t[i].0 != t[j].0 by {
                if j == s.len() {
                    assert(t[i] == s[i]);
                }
            }
        }
        assert(t.drop_last() =~= s);
    }
}

/// The entries made from a configuration list have distinct keys, and the
/// entry of each key is the one its last listing describes (as when the
/// list is collected into a map).
pub proof fn law_committee_entries(info: Seq<AuthorityInfo>, k: PublicKey)
    ensures
        keys_distinct(entries_from(info)),
        entry_of(entries_from(info), k) == last_info(info, k),
    decreases info.len(),
{
    if info.len() > 0 {
        law_committee_entries(info.drop_last(), k);
        let x = info.last();
        lemma_upsert(
            entries_from(info.drop_last()),
            x.0,
            Authority { stake: x.1, address: x.5, vk: x.2, common: x.3, secret_hash: x.4 },
            k,
        );
    }
}

} // verus!
