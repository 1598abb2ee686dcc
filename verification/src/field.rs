//! Goldilocks field elements, held by their raw `u64` representation, and the
//! little-endian byte layout that digests and keys use to pack four of them.
use vstd::prelude::*;

verus! {

/// The order of the Goldilocks field: 2^64 - 2^32 + 1.
pub const ORDER: u64 = 0xFFFF_FFFF_0000_0001u64;

/// The canonical representative of a raw field element (the raw value is
/// below 2^64 < 2 * ORDER, so one subtraction suffices).
pub open spec fn canonical(x: u64) -> u64 {
    if x >= ORDER {
        (x - ORDER) as u64
    } else {
        x
    }
}

/// Reduces a raw field element to its canonical representative.
pub fn to_canonical(x: u64) -> (r: u64)
    ensures
        r == canonical(x),
        r < ORDER,
{
    if x >= ORDER {
        x - ORDER
    } else {
        x
    }
}

/// The number whose little-endian base-256 digits are `bytes`.
pub open spec fn le_value(bytes: Seq<u8>) -> nat
    decreases bytes.len(),
{
    if bytes.len() == 0 {
        0
    } else {
        bytes[0] as nat + 256 * le_value(bytes.drop_first())
    }
}

/// The `n` little-endian base-256 digits of `v` (the lowest `n` bytes).
pub open spec fn le_bytes(v: nat, n: nat) -> Seq<u8>
    decreases n,
{
    if n == 0 {
        Seq::empty()
    } else {
        seq![(v % 256) as u8].add(le_bytes(v / 256, (n - 1) as nat))
    }
}

/// The four raw field elements read from a 32-byte array, eight
/// little-endian bytes each.
pub open spec fn bytes_to_elements(b: Seq<u8>) -> Seq<u64> {
    Seq::new(4, |i: int| le_value(b.subrange(8 * i, 8 * i + 8)) as u64)
}

/// The 32 bytes holding the canonical forms of four field elements, eight
/// little-endian bytes each.
pub open spec fn elements_to_bytes(e: Seq<u64>) -> Seq<u8> {
    Seq::new(32, |j: int| le_bytes(canonical(e[j / 8]) as nat, 8)[j % 8])
}

pub proof fn lemma_le_value_bound(bytes: Seq<u8>)
    ensures
        le_value(bytes) < vstd::arithmetic::power::pow(256, bytes.len()),
    decreases bytes.len(),
{
    vstd::arithmetic::power::lemma_pow0(256);
    if bytes.len() > 0 {
        lemma_le_value_bound(bytes.drop_first());
        vstd::arithmetic::power::lemma_pow_adds(256, 1, (bytes.len() - 1) as nat);
        vstd::arithmetic::power::lemma_pow1(256);
        let p = vstd::arithmetic::power::pow(256, (bytes.len() - 1) as nat);
        assert(le_value(bytes) <= 255 + 256 * (p - 1)) by (nonlinear_arith)
            requires
                le_value(bytes) == bytes[0] as nat + 256 * le_value(bytes.drop_first()),
                le_value(bytes.drop_first()) < p,
                bytes[0] <= 255,
        ;
    }
}

proof fn lemma_pow_256_8()
    ensures
        vstd::arithmetic::power::pow(256, 8) == 0x1_0000_0000_0000_0000,
{
    vstd::arithmetic::power::lemma_pow0(256);
    reveal_with_fuel(vstd::arithmetic::power::pow, 9);
}

/// Reading back the little-endian digits of a value gives the value.
pub proof fn lemma_le_value_of_bytes(v: nat, n: nat)
    requires
        v < vstd::arithmetic::power::pow(256, n),
    ensures
        le_bytes(v, n).len() == n,
        le_value(le_bytes(v, n)) == v,
    decreases n,
{
    vstd::arithmetic::power::lemma_pow0(256);
    if n > 0 {
        vstd::arithmetic::power::lemma_pow_adds(256, 1, (n - 1) as nat);
        vstd::arithmetic::power::lemma_pow1(256);
        let p = vstd::arithmetic::power::pow(256, (n - 1) as nat);
        assert(v / 256 < p) by (nonlinear_arith)
            requires
                v < 256 * p,
        ;
        lemma_le_value_of_bytes(v / 256, (n - 1) as nat);
        let s = le_bytes(v, n);
        assert(s.drop_first() =~= le_bytes(v / 256, (n - 1) as nat));
        assert(v == v % 256 + 256 * (v / 256)) by (nonlinear_arith);
    }
}

/// Writing the digits of a byte string of length `n` gives the byte string back.
pub proof fn lemma_le_bytes_of_value(b: Seq<u8>)
    ensures
        le_bytes(le_value(b), b.len()) =~= b,
    decreases b.len(),
{
    if b.len() > 0 {
        lemma_le_bytes_of_value(b.drop_first());
        let v = le_value(b);
        let r = le_value(b.drop_first());
        assert(v % 256 == b[0] as nat && v / 256 == r) by (nonlinear_arith)
            requires
                v == b[0] as nat + 256 * r,
                b[0] < 256,
        ;
        assert(le_bytes(v, b.len()) =~= seq![b[0]].add(b.drop_first()));
    }
}

/// Reads eight little-endian bytes starting at `start`.
pub fn read_le_u64(b: &[u8; 32], start: usize) -> (v: u64)
    requires
        start + 8 <= 32,
    ensures
        v as nat == le_value(b@.subrange(start as int, start + 8)),
{
    let ghost s = b@.subrange(start as int, start + 8);
    let mut v: u64 = 0;
    let mut k: usize = 8;
    proof {
        assert(s.subrange(8, 8) =~= Seq::<u8>::empty());
    }
    while k > 0
        invariant
            0 <= k <= 8,
            start + 8 <= 32,
            s == b@.subrange(start as int, start + 8),
            v as nat == le_value(s.subrange(k as int, 8)),
        decreases k,
    {
        k = k - 1;
        let byte = b[start + k];
        proof {
            let tail = s.subrange(k as int, 8);
            assert(tail.drop_first() =~= s.subrange(k + 1, 8));
            assert(tail[0] == byte);
            lemma_le_value_bound(s.subrange(k + 1, 8));
            vstd::arithmetic::power::lemma_pow_increases(256, (8 - (k + 1)) as nat, 7);
            lemma_pow_256_7();
            assert((v as nat) * 256 + (byte as nat) < 0x1_0000_0000_0000_0000) by (nonlinear_arith)
                requires
                    v < 0x100_0000_0000_0000,
                    byte < 256,
            ;
        }
        v = v * 256 + byte as u64;
    }
    proof {
        assert(s.subrange(0, 8) =~= s);
    }
    v
}

proof fn lemma_pow_256_7()
    ensures
        vstd::arithmetic::power::pow(256, 7) == 0x100_0000_0000_0000,
{
    vstd::arithmetic::power::lemma_pow0(256);
    reveal_with_fuel(vstd::arithmetic::power::pow, 8);
}

/// The four raw field elements packed in 32 bytes, eight little-endian bytes each.
pub fn elements_from_bytes(b: &[u8; 32]) -> (e: [u64; 4])
    ensures
        e@ =~= bytes_to_elements(b@),
{
    let e0 = read_le_u64(b, 0);
    let e1 = read_le_u64(b, 8);
    let e2 = read_le_u64(b, 16);
    let e3 = read_le_u64(b, 24);
    [e0, e1, e2, e3]
}

/// Packs the canonical forms of four field elements into 32 bytes, eight
/// little-endian bytes each.
pub fn bytes_from_elements(e: &[u64; 4]) -> (b: [u8; 32])
    ensures
        b@ =~= elements_to_bytes(e@),
{
    let mut b = [0u8; 32];
    let mut i: usize = 0;
    while i < 4
        invariant
            0 <= i <= 4,
            forall|j: int| 0 <= j < 8 * i ==> #[trigger] b@[j] == elements_to_bytes(e@)[j],
        decreases 4 - i,
    {
        let mut v = to_canonical(e[i]);
        let ghost c = v;
        let mut k: usize = 0;
        proof {
            vstd::arithmetic::power::lemma_pow0(256);
        }
        while k < 8
            invariant
                0 <= i < 4,
                0 <= k <= 8,
                c == canonical(e@[i as int]),
                v as int == c as int / vstd::arithmetic::power::pow(256, k as nat),
                forall|j: int| 0 <= j < 8 * i ==> #[trigger] b@[j] == elements_to_bytes(e@)[j],
                forall|j: int| 8 * i <= j < 8 * i + k ==> #[trigger] b@[j] == elements_to_bytes(e@)[j],
            decreases 8 - k,
        {
            let byte = (v % 256) as u8;
            proof {
                lemma_le_bytes_index(c as nat, 8, k as nat);
            }
            b[8 * i + k] = byte;
            proof {
                vstd::arithmetic::power::lemma_pow_adds(256, k as nat, 1);
                vstd::arithmetic::power::lemma_pow1(256);
                vstd::arithmetic::power::lemma_pow_positive(256, k as nat);
                vstd::arithmetic::div_mod::lemma_div_denominator(
                    c as int,
                    vstd::arithmetic::power::pow(256, k as nat) as int,
                    256,
                );
                vstd::arithmetic::mul::lemma_mul_is_commutative(
                    vstd::arithmetic::power::pow(256, k as nat) as int,
                    256,
                );
            }
            v = v / 256;
            k = k + 1;
        }
        i = i + 1;
    }
    b
}

/// Digit `k` of the little-endian expansion of `v` is `v / 256^k % 256`.
pub proof fn lemma_le_bytes_index(v: nat, n: nat, k: nat)
    requires
        k < n,
    ensures
        le_bytes(v, n).len() == n,
        le_bytes(v, n)[k as int] == (v as int / vstd::arithmetic::power::pow(256, k) % 256) as u8,
    decreases n,
{
    lemma_le_bytes_len(v, n);
    vstd::arithmetic::power::lemma_pow0(256);
    if k > 0 {
        lemma_le_bytes_index(v / 256, (n - 1) as nat, (k - 1) as nat);
        vstd::arithmetic::power::lemma_pow_adds(256, 1, (k - 1) as nat);
        vstd::arithmetic::power::lemma_pow1(256);
        vstd::arithmetic::power::lemma_pow_positive(256, (k - 1) as nat);
        vstd::arithmetic::div_mod::lemma_div_denominator(
            v as int,
            256,
            vstd::arithmetic::power::pow(256, (k - 1) as nat) as int,
        );
    }
}

pub proof fn lemma_le_bytes_len(v: nat, n: nat)
    ensures
        le_bytes(v, n).len() == n,
    decreases n,
{
    if n > 0 {
        lemma_le_bytes_len(v / 256, (n - 1) as nat);
    }
}


/// Whether the four field elements packed in 32 bytes are all canonical.
pub open spec fn canonical_chunks(b: Seq<u8>) -> bool {
    forall|i: int| 0 <= i < 4 ==> #[trigger] bytes_to_elements(b)[i] < ORDER
}

/// Packing the elements read from 32 bytes gives the bytes back, when the
/// elements are canonical.
pub proof fn lemma_bytes_elements_bytes(b: Seq<u8>)
    requires
        b.len() == 32,
        canonical_chunks(b),
    ensures
        elements_to_bytes(bytes_to_elements(b)) =~= b,
{
    assert forall|j: int| 0 <= j < 32 implies #[trigger] elements_to_bytes(bytes_to_elements(b))[j]
        == b[j] by {
        let i = j / 8;
        let chunk = b.subrange(8 * i, 8 * i + 8);
        assert(bytes_to_elements(b)[i] < ORDER);
        lemma_le_value_bound(chunk);
        lemma_pow_256_8();
        lemma_le_bytes_of_value(chunk);
        assert(canonical(bytes_to_elements(b)[i]) as nat == le_value(chunk));
        assert(chunk[j % 8] == b[j]);
    }
}

/// Reading the elements packed from four field elements gives their
/// canonical forms.
pub proof fn lemma_elements_bytes_elements(e: Seq<u64>)
    requires
        e.len() == 4,
    ensures
        bytes_to_elements(elements_to_bytes(e)) =~= e.map_values(|x: u64| canonical(x)),
{
    let b = elements_to_bytes(e);
    assert forall|i: int| 0 <= i < 4 implies #[trigger] bytes_to_elements(b)[i] == canonical(e[i]) by {
        let c = canonical(e[i]) as nat;
        lemma_pow_256_8();
        lemma_le_value_of_bytes(c, 8);
        let chunk = b.subrange(8 * i, 8 * i + 8);
        assert forall|k: int| 0 <= k < 8 implies chunk[k] == #[trigger] le_bytes(c, 8)[k] by {
            assert((8 * i + k) / 8 == i);
            assert((8 * i + k) % 8 == k);
        }
        assert(chunk =~= le_bytes(c, 8));
    }
}

} // verus!
