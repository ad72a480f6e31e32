use ark_bn254::Fr;
use ark_ff::BigInteger;
use ark_ff::Field;
use ark_ff::PrimeField;
use ark_std::UniformRand;
use vstd::prelude::*;

verus! {

/// The order of the scalar field of BN254, in which every element lives.
pub open spec fn modulus() -> nat {
    21888242871839275222246405745257275088548364400416034343698204186575808495617nat
}

/// 256 to the power `n`.
pub open spec fn pow256(n: nat) -> nat
    decreases n,
{
    if n == 0 {
        1
    } else {
        256 * pow256((n - 1) as nat)
    }
}

/// The number that a sequence of bytes spells, least significant byte first.
pub open spec fn le_value(bytes: Seq<u8>) -> nat
    decreases bytes.len(),
{
    if bytes.len() == 0 {
        0
    } else {
        bytes[0] as nat + 256 * le_value(bytes.drop_first())
    }
}

/// A number spelled in little-endian bytes is the number of its first `k`
/// bytes plus `256^k` times the number of the rest.
pub proof fn lemma_le_value_split(bytes: Seq<u8>, k: int)
    requires
        0 <= k <= bytes.len(),
    ensures
        le_value(bytes) == le_value(bytes.take(k)) + pow256(k as nat) * le_value(bytes.skip(k)),
    decreases k,
{
    if k == 0 {
        assert(bytes.take(0) =~= Seq::<u8>::empty());
        assert(bytes.skip(0) =~= bytes);
        let one = pow256(k as nat);
        let all = le_value(bytes.skip(k));
        assert(one * all == all) by (nonlinear_arith)
            requires
                one == 1,
        ;
    } else {
        let rest = bytes.drop_first();
        lemma_le_value_split(rest, k - 1);
        assert(bytes.take(k).drop_first() =~= rest.take(k - 1));
        assert(bytes.skip(k) =~= rest.skip(k - 1));
        let lo = le_value(rest.take(k - 1));
        let hi = le_value(bytes.skip(k));
        let p = pow256((k - 1) as nat);
        let q = pow256(k as nat);
        assert(256 * (lo + p * hi) == 256 * lo + q * hi) by (nonlinear_arith)
            requires
                q == 256 * p,
        ;
    }
}

/// A number spelled in `n` bytes is below `256^n`.
pub proof fn lemma_le_value_bound(bytes: Seq<u8>)
    ensures
        le_value(bytes) < pow256(bytes.len()),
    decreases bytes.len(),
{
    if bytes.len() > 0 {
        lemma_le_value_bound(bytes.drop_first());
    }
}

/// Two byte sequences of one length that spell the same number are equal.
pub proof fn lemma_le_value_injective(a: Seq<u8>, b: Seq<u8>)
    requires
        a.len() == b.len(),
        le_value(a) == le_value(b),
    ensures
        a == b,
    decreases a.len(),
{
    if a.len() > 0 {
        lemma_le_value_injective(a.drop_first(), b.drop_first());
        assert(a =~= seq![a[0]] + a.drop_first());
        assert(b =~= seq![b[0]] + b.drop_first());
    } else {
        assert(a =~= b);
    }
}

/// Where two byte sequences agree above position `i` and differ at `i`, the
/// byte at `i` decides which spells the smaller number.
pub proof fn lemma_le_value_order(a: Seq<u8>, b: Seq<u8>, i: int)
    requires
        a.len() == b.len(),
        0 <= i < a.len(),
        a[i] < b[i],
        forall|j: int| i < j < a.len() ==> a[j] == b[j],
    ensures
        le_value(a) < le_value(b),
    decreases a.len(),
{
    let ra = a.drop_first();
    let rb = b.drop_first();
    if i == 0 {
        assert(ra =~= rb);
    } else {
        lemma_le_value_order(ra, rb, i - 1);
    }
}

/// Bytes that are zero from position `k` on add nothing to the number.
pub proof fn lemma_le_value_zero_tail(bytes: Seq<u8>, k: int)
    requires
        0 <= k <= bytes.len(),
        forall|j: int| k <= j < bytes.len() ==> bytes[j] == 0,
    ensures
        le_value(bytes) == le_value(bytes.take(k)),
{
    lemma_le_value_split(bytes, k);
    lemma_zero_bytes(bytes.skip(k));
    assert(pow256(k as nat) * 0 == 0);
}

/// Bytes that are all zero spell zero.
pub proof fn lemma_zero_bytes(bytes: Seq<u8>)
    requires
        forall|j: int| 0 <= j < bytes.len() ==> bytes[j] == 0,
    ensures
        le_value(bytes) == 0,
    decreases bytes.len(),
{
    if bytes.len() > 0 {
        lemma_zero_bytes(bytes.drop_first());
    }
}


/// What eight bytes spell, written out.
pub proof fn lemma_le_value_eight(bytes: Seq<u8>)
    requires
        bytes.len() == 8,
    ensures
        le_value(bytes) == bytes[0] + bytes[1] * 0x100 + bytes[2] * 0x1_0000 + bytes[3]
            * 0x100_0000 + bytes[4] * 0x1_0000_0000 + bytes[5] * 0x100_0000_0000 + bytes[6]
            * 0x1_0000_0000_0000 + bytes[7] * 0x100_0000_0000_0000,
{
    let s1 = bytes.drop_first();
    let s2 = s1.drop_first();
    let s3 = s2.drop_first();
    let s4 = s3.drop_first();
    let s5 = s4.drop_first();
    let s6 = s5.drop_first();
    let s7 = s6.drop_first();
    let s8 = s7.drop_first();
    assert(le_value(s8) == 0);
    assert(le_value(s7) == bytes[7] as nat + 256 * le_value(s8));
    assert(le_value(s6) == bytes[6] as nat + 256 * le_value(s7));
    assert(le_value(s5) == bytes[5] as nat + 256 * le_value(s6));
    assert(le_value(s4) == bytes[4] as nat + 256 * le_value(s5));
    assert(le_value(s3) == bytes[3] as nat + 256 * le_value(s4));
    assert(le_value(s2) == bytes[2] as nat + 256 * le_value(s3));
    assert(le_value(s1) == bytes[1] as nat + 256 * le_value(s2));
    assert(le_value(bytes) == bytes[0] as nat + 256 * le_value(s1));
}

/// 256 to the power 8 is 2 to the power 64.
pub proof fn lemma_pow256_eight()
    ensures
        pow256(8) == 0x1_0000_0000_0000_0000,
{
    assert(pow256(0) == 1);
    assert(pow256(1) == 256 * pow256(0));
    assert(pow256(2) == 256 * pow256(1));
    assert(pow256(3) == 256 * pow256(2));
    assert(pow256(4) == 256 * pow256(3));
    assert(pow256(5) == 256 * pow256(4));
    assert(pow256(6) == 256 * pow256(5));
    assert(pow256(7) == 256 * pow256(6));
    assert(pow256(8) == 256 * pow256(7));
}

/// 256 to the power 16 is 2 to the power 128.
pub proof fn lemma_pow256_sixteen()
    ensures
        pow256(16) == 0x1_0000_0000_0000_0000_0000_0000_0000_0000,
{
    lemma_pow256_eight();
    assert(pow256(9) == 256 * pow256(8));
    assert(pow256(10) == 256 * pow256(9));
    assert(pow256(11) == 256 * pow256(10));
    assert(pow256(12) == 256 * pow256(11));
    assert(pow256(13) == 256 * pow256(12));
    assert(pow256(14) == 256 * pow256(13));
    assert(pow256(15) == 256 * pow256(14));
    assert(pow256(16) == 256 * pow256(15));
}

/// 256 to the power 31 is 2 to the power 248, which lies below the field
/// order.
pub proof fn lemma_pow256_thirty_one()
    ensures
        pow256(31) == 0x100_0000_0000_0000_0000_0000_0000_0000_0000_0000_0000_0000_0000_0000_0000_0000,
        pow256(31) < modulus(),
{
    lemma_pow256_sixteen();
    assert(pow256(17) == 256 * pow256(16));
    assert(pow256(18) == 256 * pow256(17));
    assert(pow256(19) == 256 * pow256(18));
    assert(pow256(20) == 256 * pow256(19));
    assert(pow256(21) == 256 * pow256(20));
    assert(pow256(22) == 256 * pow256(21));
    assert(pow256(23) == 256 * pow256(22));
    assert(pow256(24) == 256 * pow256(23));
    assert(pow256(25) == 256 * pow256(24));
    assert(pow256(26) == 256 * pow256(25));
    assert(pow256(27) == 256 * pow256(26));
    assert(pow256(28) == 256 * pow256(27));
    assert(pow256(29) == 256 * pow256(28));
    assert(pow256(30) == 256 * pow256(29));
    assert(pow256(31) == 256 * pow256(30));
}

/// The unsigned 64-bit number with the bits of the sign-extended `value`.
pub open spec fn sign_extended(value: i32) -> nat {
    if value >= 0 {
        value as nat
    } else {
        (0x1_0000_0000_0000_0000 + value) as nat
    }
}

/// The least significant 64 bits of a non-negative integer.
pub open spec fn low64(value: nat) -> u64 {
    (value % 0x1_0000_0000_0000_0000) as u64
}

/// An element of the scalar field, kept as the 32 little-endian bytes of its
/// least non-negative representative.
#[derive(Clone, Copy, Debug, PartialEq, Eq, Hash)]
pub struct FieldElement {
    bytes: [u8; 32],
}

impl View for FieldElement {
    type V = nat;

    /// The integer below the field order that the element stands for.
    open spec fn view(&self) -> nat {
        le_value(self.le_bytes())
    }
}

impl FieldElement {
    /// The 32 bytes of the element, least significant first.
    pub closed spec fn le_bytes(self) -> Seq<u8> {
        self.bytes@
    }

    /// Every element is reduced: it has 32 bytes and lies below the field order.
    #[verifier::type_invariant]
    pub open spec fn is_canonical(self) -> bool {
        self.le_bytes().len() == 32 && self@ < modulus()
    }

    /// Two elements that stand for the same integer are the same element.
    pub proof fn lemma_view_injective(a: FieldElement, b: FieldElement)
        requires
            a@ == b@,
        ensures
            a == b,
    {
        lemma_le_value_injective(a.bytes@, b.bytes@);
        assert(a.bytes =~= b.bytes);
    }

    /// The element that stands for the integer `value`, where there is one.
    pub closed spec fn of(value: nat) -> FieldElement {
        choose|e: FieldElement| e@ == value
    }

    /// `of` gives back every element from the integer it stands for.
    pub proof fn lemma_of_view(e: FieldElement)
        ensures
            Self::of(e@) == e,
    {
        let chosen = Self::of(e@);
        assert(chosen@ == e@);
        Self::lemma_view_injective(chosen, e);
    }

    /// The element with the given bytes, which must spell a reduced integer.
    fn from_canonical_bytes(bytes: [u8; 32]) -> (r: Self)
        requires
            le_value(bytes@) < modulus(),
        ensures
            r.le_bytes() == bytes@,
            r.is_canonical(),
    {
        FieldElement { bytes }
    }

    /// The element that stands for `x`.
    pub fn from_u128(x: u128) -> (r: Self)
        ensures
            r@ == x,
            r.is_canonical(),
    {
        let mut bytes = [0u8; 32];
        let mut rest = x;
        let mut i: usize = 0;
        proof {
            assert(bytes@.take(0) =~= Seq::<u8>::empty());
            assert(pow256(0) * (rest as nat) == rest as nat) by (nonlinear_arith)
                requires
                    pow256(0) == 1,
            ;
        }
        while i < 16
            invariant
                i <= 16,
                le_value(bytes@.take(i as int)) + pow256(i as nat) * rest == x,
                forall|j: int| i <= j < 32 ==> bytes@[j] == 0,
            decreases 16 - i,
        {
            let ghost before = bytes@;
            let b = (rest % 256) as u8;
            bytes[i] = b;
            proof {
                let after = bytes@.take(i + 1);
                lemma_le_value_split(after, i as int);
                assert(after.take(i as int) =~= before.take(i as int));
                assert(after.skip(i as int) =~= seq![b]);
                assert(seq![b].drop_first() =~= Seq::<u8>::empty());
                assert(le_value(Seq::<u8>::empty()) == 0);
                assert(le_value(seq![b]) == seq![b][0] as nat + 256 * le_value(seq![b].drop_first()));
                assert(le_value(seq![b]) == b as nat);
                let p = pow256(i as nat);
                let q = (rest / 256) as nat;
                assert(p * (rest as nat) == p * (b as nat) + (256 * p) * q) by (nonlinear_arith)
                    requires
                        rest as nat == b as nat + 256 * q,
                ;
            }
            rest = rest / 256;
            i += 1;
        }
        proof {
            lemma_pow256_sixteen();
            let p = pow256(16);
            assert(rest == 0) by (nonlinear_arith)
                requires
                    p * (rest as nat) <= x as nat,
                    (x as nat) < p,
                    p > 0,
            ;
            assert(p * 0 == 0);
            lemma_le_value_zero_tail(bytes@, 16);
        }
        Self::from_canonical_bytes(bytes)
    }

    /// The element that stands for `x`.
    pub fn from_u64(x: u64) -> (r: Self)
        ensures
            r@ == x,
            r.is_canonical(),
    {
        Self::from_u128(x as u128)
    }

    /// The element that a signed 32-bit value widens to: the value itself
    /// where it is not negative, and 2^64 plus the value where it is, as the
    /// sign-extending conversion to 64 unsigned bits gives.
    pub fn from_i32(value: i32) -> (r: Self)
        ensures
            r@ == sign_extended(value),
            r.is_canonical(),
    {
        if value >= 0 {
            Self::from_u64(value as u64)
        } else {
            let below: u64 = (-(value as i64) - 1) as u64;
            Self::from_u64(u64::MAX - below)
        }
    }

    /// The 32 little-endian bytes of the element.
    pub fn to_bytes_le(&self) -> (bytes: [u8; 32])
        ensures
            bytes@ == self.le_bytes(),
            le_value(bytes@) == self@,
    {
        self.bytes
    }

    /// Whether two elements are the same element of the field.
    pub fn is_eq(&self, other: &FieldElement) -> (same: bool)
        ensures
            same == (self@ == other@),
            same == (*self == *other),
    {
        let mut i: usize = 0;
        while i < 32
            invariant
                i <= 32,
                forall|j: int| 0 <= j < i ==> self.bytes@[j] == other.bytes@[j],
            decreases 32 - i,
        {
            if self.bytes[i] != other.bytes[i] {
                proof {
                    if self@ == other@ {
                        Self::lemma_view_injective(*self, *other);
                    }
                }
                return false;
            }
            i += 1;
        }
        proof {
            assert(self.bytes@ =~= other.bytes@);
            assert(self.bytes =~= other.bytes);
        }
        true
    }

    /// Whether this element stands for a smaller integer than the other.
    pub fn is_less_than(&self, other: &FieldElement) -> (less: bool)
        ensures
            less == (self@ < other@),
    {
        let mut i: usize = 32;
        while i > 0
            invariant
                i <= 32,
                forall|j: int| i <= j < 32 ==> self.bytes@[j] == other.bytes@[j],
            decreases i,
        {
            i -= 1;
            if self.bytes[i] < other.bytes[i] {
                proof {
                    lemma_le_value_order(self.bytes@, other.bytes@, i as int);
                }
                return true;
            }
            if self.bytes[i] > other.bytes[i] {
                proof {
                    lemma_le_value_order(other.bytes@, self.bytes@, i as int);
                }
                return false;
            }
        }
        proof {
            assert(self.bytes@ =~= other.bytes@);
        }
        false
    }

    /// The least significant 64 bits of the element.
    pub fn low_u64(&self) -> (low: u64)
        ensures
            low == low64(self@),
    {
        let b = &self.bytes;
        let low: u64 = b[0] as u64 + b[1] as u64 * 0x100 + b[2] as u64 * 0x1_0000 + b[3] as u64
            * 0x100_0000 + b[4] as u64 * 0x1_0000_0000 + b[5] as u64 * 0x100_0000_0000 + b[6] as u64
            * 0x1_0000_0000_0000 + b[7] as u64 * 0x100_0000_0000_0000;
        proof {
            let head = self.bytes@.take(8);
            lemma_le_value_eight(head);
            assert(le_value(head) == low as nat);
            lemma_le_value_split(self.bytes@, 8);
            lemma_pow256_eight();
            let p = pow256(8);
            let hi = le_value(self.bytes@.skip(8));
            assert(p * hi == 0x1_0000_0000_0000_0000 * hi) by (nonlinear_arith)
                requires
                    p == 0x1_0000_0000_0000_0000,
            ;
        }
        low
    }

    /// The element that the little-endian integer `bytes` reduces to.
    pub fn from_le_bytes_mod_order(bytes: &[u8]) -> (r: Self)
        ensures
            r@ == le_value(bytes@) % modulus(),
            r.is_canonical(),
    {
        let reduced = reduce_le_bytes(bytes);
        Self::from_canonical_bytes(reduced)
    }

    /// An element drawn at random.
    pub fn random() -> (r: Self)
        ensures
            r.is_canonical(),
    {
        Self::from_canonical_bytes(random_reduced_bytes())
    }

    /// The product of two elements in the field.
    pub fn times(&self, other: &FieldElement) -> (r: Self)
        ensures
            r@ == (self@ * other@) % modulus(),
            r.is_canonical(),
    {
        Self::from_canonical_bytes(product_mod_order(&self.bytes, &other.bytes))
    }

    /// The multiplicative inverse of the element, which zero alone lacks.
    pub fn inverse(&self) -> (r: Option<Self>)
        ensures
            r is None <==> self@ == 0,
            r matches Some(inv) ==> (self@ * inv@) % modulus() == 1 && inv.is_canonical(),
    {
        proof {
            use_type_invariant(self);
        }
        match inverse_mod_order(&self.bytes) {
            Some(bytes) => Some(Self::from_canonical_bytes(bytes)),
            None => None,
        }
    }
}

/// Calls `PrimeField::from_le_bytes_mod_order` of ark-ff on the scalar field of
/// BN254 and reads the element back with `into_bigint` and `to_bytes_le`. The
/// bytes returned spell the input, read as a little-endian integer, reduced
/// modulo the field order.
#[verifier::external_body]
fn reduce_le_bytes(bytes: &[u8]) -> (reduced: [u8; 32])
    ensures
        le_value(reduced@) == le_value(bytes@) % modulus(),
{
    let repr = Fr::from_le_bytes_mod_order(bytes).into_bigint().to_bytes_le();
    let mut reduced = [0u8; 32];
    reduced.copy_from_slice(&repr);
    reduced
}

/// Calls `UniformRand::rand` of ark-std for the scalar field of BN254 with the
/// thread's generator of rand. Whatever is drawn is a field element, so its
/// bytes spell an integer below the field order.
#[verifier::external_body]
fn random_reduced_bytes() -> (drawn: [u8; 32])
    ensures
        le_value(drawn@) < modulus(),
{
    let repr = Fr::rand(&mut rand::thread_rng()).into_bigint().to_bytes_le();
    let mut drawn = [0u8; 32];
    drawn.copy_from_slice(&repr);
    drawn
}

/// Multiplies two elements of the scalar field of BN254 with the `Mul` of
/// ark-ff's `Fp`. The bytes returned spell the product of the two inputs
/// modulo the field order.
#[verifier::external_body]
fn product_mod_order(a: &[u8; 32], b: &[u8; 32]) -> (product: [u8; 32])
    ensures
        le_value(product@) == (le_value(a@) * le_value(b@)) % modulus(),
{
    let value = Fr::from_le_bytes_mod_order(a) * Fr::from_le_bytes_mod_order(b);
    let repr = value.into_bigint().to_bytes_le();
    let mut product = [0u8; 32];
    product.copy_from_slice(&repr);
    product
}

/// Calls `Field::inverse` of ark-ff on an element of the scalar field of
/// BN254. It returns nothing exactly for zero; otherwise the bytes of the
/// element whose product with the input is one.
#[verifier::external_body]
fn inverse_mod_order(a: &[u8; 32]) -> (inverse: Option<[u8; 32]>)
    requires
        le_value(a@) < modulus(),
    ensures
        inverse is None <==> le_value(a@) == 0,
        inverse matches Some(inv) ==> le_value(inv@) < modulus() && (le_value(a@) * le_value(inv@))
            % modulus() == 1,
{
    let value = Fr::from_le_bytes_mod_order(a).inverse()?;
    let repr = value.into_bigint().to_bytes_le();
    let mut inverse = [0u8; 32];
    inverse.copy_from_slice(&repr);
    Some(inverse)
}

} // verus!
