//! Digests, keys and proof-based signatures.
use vstd::prelude::*;
use crate::codec::{base64_encode, base64_decode, base64_encoded, base64_decoded, lemma_base64_len};
use crate::field::{ORDER, bytes_to_elements, elements_to_bytes, elements_from_bytes, bytes_from_elements, canonical, canonical_chunks, lemma_bytes_elements_bytes, lemma_elements_bytes_elements};

verus! {

broadcast use vstd::array::group_array_axioms;

#[verifier::external_type_specification]
#[verifier::external_body]
pub struct ExTryFromSliceError(core::array::TryFromSliceError);

#[verifier::external_type_specification]
#[verifier::external_body]
pub struct ExStdRng(rand::rngs::StdRng);

/// Whether two 32-byte arrays hold the same bytes.
pub fn bytes32_equal(a: &[u8; 32], b: &[u8; 32]) -> (r: bool)
    ensures
        r == (a@ == b@),
{
    let mut i: usize = 0;
    while i < 32
        invariant
            0 <= i <= 32,
            forall|j: int| 0 <= j < i ==> a@[j] == b@[j],
        decreases 32 - i,
    {
        if a[i] != b[i] {
            return false;
        }
        i = i + 1;
    }
    assert(a@ =~= b@);
    true
}

/// Thirty-two zero bytes.
pub open spec fn zero_bytes32() -> Seq<u8> {
    Seq::new(32, |i: int| 0u8)
}

/// The first `n` characters of `text` (all of it where it is shorter).
pub open spec fn prefix(text: Seq<char>, n: nat) -> Seq<char> {
    if text.len() <= n {
        text
    } else {
        text.subrange(0, n as int)
    }
}

/// The first 16 characters of a base64 text of 32 bytes (44 characters long).
fn short_form(text: &String) -> (r: String)
    requires
        text@.len() >= 16,
    ensures
        r@ == text@.subrange(0, 16),
{
    let s: &str = text.as_str();
    let part: &str = s.substring_char(0, 16);
    part.to_owned()
}

/// A hash digest (32 bytes).
#[derive(Clone, Copy, Eq, PartialOrd, Ord, Hash)]
pub struct Digest(pub [u8; 32]);

impl PartialEq for Digest {
    fn eq(&self, other: &Self) -> (r: bool) {
        bytes32_equal(&self.0, &other.0)
    }
}

impl vstd::std_specs::cmp::PartialEqSpecImpl for Digest {
    open spec fn obeys_eq_spec() -> bool {
        true
    }

    open spec fn eq_spec(&self, other: &Digest) -> bool {
        self.0@ == other.0@
    }
}

impl Default for Digest {
    fn default() -> (d: Self)
        ensures
            d.0@ == zero_bytes32(),
    {
        let d = Digest([0u8; 32]);
        assert(d.0@ =~= zero_bytes32());
        d
    }
}

impl Digest {
    /// The 32 bytes as a vector.
    pub fn to_vec(&self) -> (v: Vec<u8>)
        ensures
            v@ == self.0@,
    {
        let mut v: Vec<u8> = Vec::new();
        let mut i: usize = 0;
        while i < 32
            invariant
                0 <= i <= 32,
                v@ == self.0@.subrange(0, i as int),
            decreases 32 - i,
        {
            v.push(self.0[i]);
            i = i + 1;
            assert(v@ =~= self.0@.subrange(0, i as int));
        }
        assert(self.0@.subrange(0, 32) =~= self.0@);
        v
    }

    /// The number of bytes in a digest.
    pub fn size(&self) -> (n: usize)
        ensures
            n == 32,
    {
        32
    }

    /// The four field elements that the digest packs, eight little-endian
    /// bytes each; each must be canonical (the field's constructor asserts
    /// it).
    pub fn to_field(&self) -> (e: [u64; 4])
        requires
            canonical_chunks(self.0@),
        ensures
            e@ == bytes_to_elements(self.0@),
    {
        elements_from_bytes(&self.0)
    }

    /// The four field elements of the digest where all four are canonical;
    /// `None` otherwise.
    pub fn try_to_field(&self) -> (r: Option<[u64; 4]>)
        ensures
            r is None <==> !canonical_chunks(self.0@),
            r matches Some(e) ==> e@ == bytes_to_elements(self.0@),
    {
        let e = elements_from_bytes(&self.0);
        if e[0] < ORDER && e[1] < ORDER && e[2] < ORDER && e[3] < ORDER {
            Some(e)
        } else {
            None
        }
    }

    /// The digest that packs the canonical forms of four field elements.
    pub fn from_field(elements: [u64; 4]) -> (d: Digest)
        ensures
            d.0@ == elements_to_bytes(elements@),
    {
        Digest(bytes_from_elements(&elements))
    }

    /// The bytes of the digest.
    pub fn as_ref(&self) -> (r: &[u8])
        ensures
            r@ == self.0@,
    {
        self.0.as_slice()
    }

    /// The digest held by a slice of exactly 32 bytes.
    pub fn try_from(item: &[u8]) -> (r: Result<Digest, core::array::TryFromSliceError>)
        ensures
            item@.len() == 32 <==> r is Ok,
            r matches Ok(d) ==> d.0@ == item@,
    {
        match array32_from_slice(item) {
            Ok(a) => Ok(Digest(a)),
            Err(e) => Err(e),
        }
    }

    /// The full base64 text of the digest (what its `Debug` prints).
    pub fn debug_string(&self) -> (s: String)
        ensures
            s@ == base64_encoded(self.0@),
    {
        base64_encode(self.0.as_slice())
    }

    /// The first 16 characters of the base64 text (what its `Display` prints).
    pub fn display_string(&self) -> (s: String)
        ensures
            s@ == prefix(base64_encoded(self.0@), 16),
    {
        proof {
            lemma_base64_len(self.0@);
        }
        let full = base64_encode(self.0.as_slice());
        short_form(&full)
    }
}

/// The array held by a slice of exactly 32 bytes, by `<[u8; 32]>::try_from`.
/// Claims: `Ok` exactly when the slice has 32 bytes, holding those bytes.
#[verifier::external_body]
fn array32_from_slice(item: &[u8]) -> (r: Result<[u8; 32], core::array::TryFromSliceError>)
    ensures
        item@.len() == 32 <==> r is Ok,
        r matches Ok(a) ==> a@ == item@,
{
    <[u8; 32]>::try_from(item)
}

/// A public key (in bytes).
#[derive(Clone, Copy, Eq, PartialOrd, Ord, Hash)]
pub struct PublicKey(pub [u8; 32]);

impl PartialEq for PublicKey {
    fn eq(&self, other: &Self) -> (r: bool) {
        bytes32_equal(&self.0, &other.0)
    }
}

impl vstd::std_specs::cmp::PartialEqSpecImpl for PublicKey {
    open spec fn obeys_eq_spec() -> bool {
        true
    }

    open spec fn eq_spec(&self, other: &PublicKey) -> bool {
        self.0@ == other.0@
    }
}

impl Default for PublicKey {
    fn default() -> (k: Self)
        ensures
            k.0@ == zero_bytes32(),
    {
        let k = PublicKey([0u8; 32]);
        assert(k.0@ =~= zero_bytes32());
        k
    }
}

/// Two keys with the same bytes are the same key.
pub proof fn lemma_public_key_ext(a: PublicKey, b: PublicKey)
    requires
        a.0@ == b.0@,
    ensures
        a == b,
{
    assert(a.0 =~= b.0);
}

/// The first 32 bytes of the base64 decoding of `s`, where it decodes.
pub open spec fn key_bytes_decoded(s: Seq<char>) -> Option<Seq<u8>> {
    match base64_decoded(s) {
        Some(bytes) => Some(bytes.subrange(0, 32)),
        None => None,
    }
}

/// Whether the base64 text `s` either fails to decode or decodes to at
/// least 32 bytes (the inputs on which key decoding does not panic).
pub open spec fn decodes_to_key_length(s: Seq<char>) -> bool {
    base64_decoded(s) matches Some(bytes) ==> bytes.len() >= 32
}

/// Decodes the first 32 bytes of a base64 text; callers have checked that
/// the text does not decode to fewer bytes.
fn decode_key_bytes(s: &str) -> (r: Result<[u8; 32], base64::DecodeError>)
    requires
        decodes_to_key_length(s@),
    ensures
        match r {
            Ok(a) => key_bytes_decoded(s@) == Some(a@),
            Err(_) => key_bytes_decoded(s@) is None,
        },
{
    match base64_decode(s) {
        Err(e) => Err(e),
        Ok(bytes) => {
            let mut a = [0u8; 32];
            let mut i: usize = 0;
            while i < 32
                invariant
                    0 <= i <= 32,
                    bytes@.len() >= 32,
                    forall|j: int| 0 <= j < i ==> a@[j] == bytes@[j],
                decreases 32 - i,
            {
                a[i] = bytes[i];
                i = i + 1;
            }
            assert(a@ =~= bytes@.subrange(0, 32));
            Ok(a)
        },
    }
}

/// Whether the base64 text of `s` decodes to at least 32 bytes, or fails.
fn check_key_length(s: &str) -> (ok: bool)
    ensures
        ok == decodes_to_key_length(s@),
{
    match base64_decode(s) {
        Ok(bytes) => bytes.len() >= 32,
        Err(_) => true,
    }
}

impl PublicKey {
    /// The base64 text of the key.
    pub fn encode_base32(&self) -> (s: String)
        ensures
            s@ == base64_encoded(self.0@),
            s@.len() == 44,
            decodes_to_key_length(s@),
            key_bytes_decoded(s@) == Some(self.0@),
    {
        proof {
            lemma_base64_len(self.0@);
        }
        let s = base64_encode(self.0.as_slice());
        assert(self.0@.subrange(0, 32) =~= self.0@);
        s
    }

    /// The key held by the first 32 bytes of a base64 text. A text that
    /// decodes to fewer than 32 bytes is outside what this accepts (see
    /// `try_decode_base32`).
    pub fn decode_base32(s: &str) -> (r: Result<PublicKey, base64::DecodeError>)
        requires
            decodes_to_key_length(s@),
        ensures
            match r {
                Ok(k) => key_bytes_decoded(s@) == Some(k.0@),
                Err(_) => key_bytes_decoded(s@) is None,
            },
    {
        match decode_key_bytes(s) {
            Ok(a) => Ok(PublicKey(a)),
            Err(e) => Err(e),
        }
    }

    /// Like `decode_base32`, but `None` where the text decodes to fewer than
    /// 32 bytes.
    pub fn try_decode_base32(s: &str) -> (r: Option<Result<PublicKey, base64::DecodeError>>)
        ensures
            r is None <==> !decodes_to_key_length(s@),
            r matches Some(Ok(k)) ==> key_bytes_decoded(s@) == Some(k.0@),
            r matches Some(Err(_)) ==> key_bytes_decoded(s@) is None,
    {
        if check_key_length(s) {
            Some(PublicKey::decode_base32(s))
        } else {
            None
        }
    }

    /// The four field elements that the key packs.
    pub fn to_field(&self) -> (e: [u64; 4])
        requires
            canonical_chunks(self.0@),
        ensures
            e@ == bytes_to_elements(self.0@),
    {
        elements_from_bytes(&self.0)
    }

    /// The key that packs the canonical forms of four field elements.
    pub fn from_field(elements: [u64; 4]) -> (k: PublicKey)
        ensures
            k.0@ == elements_to_bytes(elements@),
    {
        PublicKey(bytes_from_elements(&elements))
    }

    /// The bytes of the key.
    pub fn as_ref(&self) -> (r: &[u8])
        ensures
            r@ == self.0@,
    {
        self.0.as_slice()
    }

    /// The full base64 text of the key (what its `Debug` prints).
    pub fn debug_string(&self) -> (s: String)
        ensures
            s@ == base64_encoded(self.0@),
    {
        self.encode_base32()
    }

    /// The first 16 characters of the base64 text (what its `Display` prints).
    pub fn display_string(&self) -> (s: String)
        ensures
            s@ == prefix(base64_encoded(self.0@), 16),
    {
        let full = self.encode_base32();
        short_form(&full)
    }
}


/// Packing the field elements of a digest, key or secret back into bytes
/// gives the same 32 bytes whenever the four elements are canonical: then
/// `Digest::from_field(d.to_field()) == d` (likewise for keys).
pub proof fn law_field_elements_round_trip(bytes: Seq<u8>)
    requires
        bytes.len() == 32,
        canonical_chunks(bytes),
    ensures
        elements_to_bytes(bytes_to_elements(bytes)) == bytes,
{
    lemma_bytes_elements_bytes(bytes);
}

/// Reading back the elements of a digest (or key) made with `from_field`
/// gives the canonical forms of the elements it was made from.
pub proof fn law_from_field_to_field(elements: [u64; 4])
    ensures
        bytes_to_elements(elements_to_bytes(elements@)) == elements@.map_values(|x: u64| canonical(x)),
{
    lemma_elements_bytes_elements(elements@);
}

/// A secret key (in bytes).
pub struct SecretKey([u8; 32]);

impl SecretKey {
    /// The bytes of the key.
    pub closed spec fn bytes(&self) -> Seq<u8> {
        self.0@
    }

    /// The key with the given bytes.
    pub fn from_bytes(bytes: [u8; 32]) -> (k: SecretKey)
        ensures
            k.bytes() == bytes@,
    {
        SecretKey(bytes)
    }

    /// The base64 text of the key.
    pub fn encode_base32(&self) -> (s: String)
        ensures
            s@ == base64_encoded(self.bytes()),
            decodes_to_key_length(s@),
            key_bytes_decoded(s@) == Some(self.bytes()),
    {
        proof {
            lemma_base64_len(self.0@);
        }
        let s = base64_encode(self.0.as_slice());
        assert(self.0@.subrange(0, 32) =~= self.0@);
        s
    }

    /// The key held by the first 32 bytes of a base64 text. A text that
    /// decodes to fewer than 32 bytes is outside what this accepts (see
    /// `try_decode_base32`).
    pub fn decode_base32(s: &str) -> (r: Result<SecretKey, base64::DecodeError>)
        requires
            decodes_to_key_length(s@),
        ensures
            match r {
                Ok(k) => key_bytes_decoded(s@) == Some(k.bytes()),
                Err(_) => key_bytes_decoded(s@) is None,
            },
    {
        match decode_key_bytes(s) {
            Ok(a) => Ok(SecretKey(a)),
            Err(e) => Err(e),
        }
    }

    /// Like `decode_base32`, but `None` where the text decodes to fewer than
    /// 32 bytes.
    pub fn try_decode_base32(s: &str) -> (r: Option<Result<SecretKey, base64::DecodeError>>)
        ensures
            r is None <==> !decodes_to_key_length(s@),
            r matches Some(Ok(k)) ==> key_bytes_decoded(s@) == Some(k.bytes()),
            r matches Some(Err(_)) ==> key_bytes_decoded(s@) is None,
    {
        if check_key_length(s) {
            Some(SecretKey::decode_base32(s))
        } else {
            None
        }
    }

    /// The four field elements that the key packs.
    pub fn to_field(&self) -> (e: [u64; 4])
        requires
            canonical_chunks(self.bytes()),
        ensures
            e@ == bytes_to_elements(self.bytes()),
    {
        elements_from_bytes(&self.0)
    }

    /// The key that packs the canonical forms of four field elements.
    pub fn from_field(elements: [u64; 4]) -> (k: SecretKey)
        ensures
            k.bytes() == elements_to_bytes(elements@),
    {
        SecretKey(bytes_from_elements(&elements))
    }
}

impl Drop for SecretKey {
    /// Wipes the key's bytes.
    fn drop(&mut self)
        opens_invariants none
        no_unwind
    {
        let mut i: usize = 0;
        while i < 32
            invariant
                0 <= i <= 32,
            decreases 32 - i,
        {
            self.0[i] = 0;
            i = i + 1;
        }
    }
}

impl Clone for SecretKey {
    fn clone(&self) -> (k: Self)
        ensures
            k.bytes() == self.bytes(),
    {
        SecretKey(self.0)
    }
}

/// Thirty-two random bytes from the thread-local generator, by
/// `rand::thread_rng().fill_bytes`. Nothing is claimed of the bytes.
#[verifier::external_body]
fn random_bytes32() -> (bytes: [u8; 32]) {
    let mut bytes = [0u8; 32];
    rand::RngCore::fill_bytes(&mut rand::thread_rng(), &mut bytes);
    bytes
}

/// Thirty-two bytes drawn from `rng`, by `rand::Rng::fill`. Nothing is
/// claimed of the bytes.
#[verifier::external_body]
fn rng_bytes32(rng: &mut rand::rngs::StdRng) -> (bytes: [u8; 32]) {
    let mut bytes = [0u8; 32];
    rand::Rng::fill(rng, &mut bytes);
    bytes
}

/// A key pair: a fresh random secret key, and the public key that packs the
/// four field elements `circuit_key` derives from it (the digest of the
/// verifier data of the circuit that proves knowledge of the secret).
pub fn generate_production_keypair<F: Fn(&SecretKey) -> [u64; 4]>(circuit_key: F) -> (r: (
    PublicKey,
    SecretKey,
))
    requires
        forall|k: &SecretKey| circuit_key.requires((k,)),
    ensures
        exists|e: [u64; 4]|
            circuit_key.ensures((&r.1,), e) && r.0.0@ == elements_to_bytes(e@),
{
    let secret_key = SecretKey(random_bytes32());
    let name = circuit_key(&secret_key);
    (PublicKey::from_field(name), secret_key)
}

/// Like `generate_production_keypair`, with the secret drawn from `rng`.
pub fn generate_keypair<F: Fn(&SecretKey) -> [u64; 4]>(rng: rand::rngs::StdRng, circuit_key: F) -> (r: (
    PublicKey,
    SecretKey,
))
    requires
        forall|k: &SecretKey| circuit_key.requires((k,)),
    ensures
        exists|e: [u64; 4]|
            circuit_key.ensures((&r.1,), e) && r.0.0@ == elements_to_bytes(e@),
{
    let mut rng = rng;
    let secret_key = SecretKey(rng_bytes32(&mut rng));
    let name = circuit_key(&secret_key);
    (PublicKey::from_field(name), secret_key)
}

/// Why a signature is rejected.
pub enum Error {
    InvalidPublicInputsLength { expected: usize, found: usize },
    SecretHashMismatch,
    BlockHashMismatch,
    ProofVerificationFailed(String),
    TryFromSliceError(core::array::TryFromSliceError),
}

/// A proof together with its public inputs (raw field elements); the proof
/// itself is carried in its serialized form.
pub struct ProofWithPublicInputs {
    pub proof: Vec<u8>,
    pub public_inputs: Vec<u64>,
}

impl Clone for ProofWithPublicInputs {
    fn clone(&self) -> (r: Self)
        ensures
            r.proof@ == self.proof@,
            r.public_inputs@ == self.public_inputs@,
    {
        ProofWithPublicInputs { proof: self.proof.clone(), public_inputs: self.public_inputs.clone() }
    }
}

/// A signature: a proof of knowledge of the signer's secret whose public
/// inputs are the four elements of the signed digest.
pub struct Signature {
    proof: ProofWithPublicInputs,
}

impl Clone for Signature {
    fn clone(&self) -> (r: Self)
        ensures
            r.proof_view() == self.proof_view(),
    {
        Signature { proof: self.proof.clone() }
    }
}

/// What verifying a signature gives, where the proof verifier's verdict on
/// the signature's proof is `proof_check`.
pub open spec fn signature_verdict(
    public_inputs: Seq<u64>,
    proof_check: Result<(), String>,
    digest: Seq<u8>,
) -> Result<(), Error> {
    if public_inputs.len() != 4 {
        Err(Error::InvalidPublicInputsLength { expected: 4, found: public_inputs.len() as usize })
    } else if digest != elements_to_bytes(public_inputs) {
        Err(Error::SecretHashMismatch)
    } else {
        match proof_check {
            Ok(()) => Ok(()),
            Err(message) => Err(Error::ProofVerificationFailed(message)),
        }
    }
}

impl Signature {
    /// The serialized proof and the public inputs.
    pub closed spec fn proof_view(&self) -> (Seq<u8>, Seq<u64>) {
        (self.proof.proof@, self.proof.public_inputs@)
    }

    /// The public inputs of the signature's proof.
    pub open spec fn public_inputs(&self) -> Seq<u64> {
        self.proof_view().1
    }

    /// The signature made of a proof.
    pub fn new(proof: ProofWithPublicInputs) -> (s: Signature)
        ensures
            s.proof_view() == (proof.proof@, proof.public_inputs@),
    {
        Signature { proof }
    }

    /// The proof.
    pub fn get_proof(&self) -> (p: &ProofWithPublicInputs)
        ensures
            (p.proof@, p.public_inputs@) == self.proof_view(),
    {
        &self.proof
    }

    /// Checks that the proof's public inputs are exactly the four elements of
    /// `digest`, then reports the proof verifier's verdict `proof_check`
    /// (obtained from the signer's verifier data).
    pub fn verify(&self, proof_check: Result<(), String>, digest: &Digest) -> (r: Result<(), Error>)
        ensures
            r == signature_verdict(self.public_inputs(), proof_check, digest.0@),
            r is Ok ==> self.public_inputs().len() == 4,
            self.public_inputs().len() != 4 ==> r == Err::<(), Error>(
                Error::InvalidPublicInputsLength { expected: 4, found: self.public_inputs().len() as usize },
            ),
    {
        let public_inputs = self.proof.public_inputs.clone();
        if public_inputs.len() != 4 {
            return Err(Error::InvalidPublicInputsLength { expected: 4, found: public_inputs.len() });
        }
        let elements: [u64; 4] = [public_inputs[0], public_inputs[1], public_inputs[2], public_inputs[3]];
        let computed_block_hash = Digest::from_field(elements);
        assert(elements@ =~= public_inputs@);
        if !(*digest == computed_block_hash) {
            return Err(Error::SecretHashMismatch);
        }
        match proof_check {
            Ok(()) => Ok(()),
            Err(message) => Err(Error::ProofVerificationFailed(message)),
        }
    }
}

/// A signature is accepted exactly when its proof has four public inputs,
/// they pack into the signed digest, and the proof verifies. A proof with
/// any other number of public inputs is rejected for its length, naming it.
pub proof fn law_signature_accepts_exactly(public_inputs: Seq<u64>, proof_check: Result<(), String>, digest: Seq<u8>)
    ensures
        signature_verdict(public_inputs, proof_check, digest) is Ok <==> (public_inputs.len() == 4
            && digest == elements_to_bytes(public_inputs) && proof_check is Ok),
        public_inputs.len() != 4 ==> signature_verdict(public_inputs, proof_check, digest) == Err::<(), Error>(
            Error::InvalidPublicInputsLength { expected: 4, found: public_inputs.len() as usize },
        ),
        (public_inputs.len() == 4 && digest != elements_to_bytes(public_inputs)) ==> signature_verdict(
            public_inputs,
            proof_check,
            digest,
        ) == Err::<(), Error>(Error::SecretHashMismatch),
{
}

/// A random 64-bit number from the thread-local generator, by
/// `rand::Rng::gen`. Nothing is claimed of the number.
#[verifier::external_body]
fn random_u64() -> (n: u64) {
    rand::Rng::gen(&mut rand::thread_rng())
}

/// `n` zero field elements.
pub fn zeros(n: usize) -> (v: Vec<u64>)
    ensures
        v@ == Seq::new(n as nat, |i: int| 0u64),
{
    let mut v: Vec<u64> = Vec::new();
    let mut i: usize = 0;
    while i < n
        invariant
            0 <= i <= n,
            v@ == Seq::new(i as nat, |j: int| 0u64),
        decreases n - i,
    {
        v.push(0);
        i = i + 1;
        assert(v@ =~= Seq::new(i as nat, |j: int| 0u64));
    }
    v
}

/// Number of field elements in a sender's verifier data.
pub const VERIFIER_DATA_LEN: usize = 68;

/// Number of field elements in a transaction proof.
pub const TRANSACTION_PROOF_LEN: usize = 16581;

/// A transfer, with its proof, in raw field elements.
#[derive(Debug)]
pub struct Transaction {
    pub snap: [u64; 4],
    pub from: Vec<u64>,
    pub to: [u64; 4],
    pub amount: u64,
    pub nonce: u64,
    pub gas: u64,
    pub payload: Vec<u64>,
    pub proof: Vec<u64>,
}

impl Transaction {
    /// A placeholder transaction: all zero, except a random nonce, with a
    /// zero sender of 68 elements, a one-element zero payload and a zero
    /// proof of 16581 elements.
    pub fn default() -> (t: Transaction)
        ensures
            t.snap@ == Seq::new(4, |i: int| 0u64),
            t.from@ == Seq::new(VERIFIER_DATA_LEN as nat, |i: int| 0u64),
            t.to@ == Seq::new(4, |i: int| 0u64),
            t.amount == 0,
            t.gas == 0,
            t.payload@ == seq![0u64],
            t.proof@ == Seq::new(TRANSACTION_PROOF_LEN as nat, |i: int| 0u64),
    {
        let r = random_u64();
        let t = Transaction {
            snap: [0u64; 4],
            from: zeros(VERIFIER_DATA_LEN),
            to: [0u64; 4],
            amount: 0,
            nonce: r,
            gas: 0,
            payload: zeros(1),
            proof: zeros(TRANSACTION_PROOF_LEN),
        };
        assert(t.snap@ =~= Seq::new(4, |i: int| 0u64));
        assert(t.payload@ =~= seq![0u64]);
        t
    }

    /// The sender's verifier data, which must be exactly 68 elements long.
    pub fn get_from(&self) -> (f: [u64; 68])
        requires
            self.from@.len() == VERIFIER_DATA_LEN,
        ensures
            f@ == self.from@,
    {
        let mut f = [0u64; 68];
        let mut i: usize = 0;
        while i < VERIFIER_DATA_LEN
            invariant
                0 <= i <= VERIFIER_DATA_LEN,
                self.from@.len() == VERIFIER_DATA_LEN,
                f@.len() == VERIFIER_DATA_LEN,
                forall|j: int| 0 <= j < i ==> #[trigger] f@[j] == self.from@[j],
            decreases VERIFIER_DATA_LEN - i,
        {
            f[i] = self.from[i];
            i = i + 1;
        }
        assert(f@ =~= self.from@);
        f
    }

    /// The transaction's proof, which must be exactly 16581 elements long.
    pub fn get_proof(&self) -> (p: Box<[u64; 16581]>)
        requires
            self.proof@.len() == TRANSACTION_PROOF_LEN,
        ensures
            p@ == self.proof@,
    {
        let mut p = Box::new([0u64; 16581]);
        let mut i: usize = 0;
        while i < TRANSACTION_PROOF_LEN
            invariant
                0 <= i <= TRANSACTION_PROOF_LEN,
                self.proof@.len() == TRANSACTION_PROOF_LEN,
                p@.len() == TRANSACTION_PROOF_LEN,
                forall|j: int| 0 <= j < i ==> #[trigger] p@[j] == self.proof@[j],
            decreases TRANSACTION_PROOF_LEN - i,
        {
            p[i] = self.proof[i];
            i = i + 1;
        }
        assert(p@ =~= self.proof@);
        p
    }
}

} // verus!
