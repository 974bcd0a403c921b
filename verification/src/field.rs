//! Elements of the Pallas base field, held as their canonical 32-byte
//! little-endian encoding. Arithmetic is done by `pasta_curves`; this module
//! states what each operation returns as arithmetic modulo the field order.

use halo2_proofs::pasta::group::ff::PrimeField;
use halo2_proofs::pasta::Fp;
use vstd::arithmetic::div_mod::{lemma_fundamental_div_mod_converse, lemma_small_mod};
use vstd::arithmetic::mul::lemma_mul_basics;
use vstd::prelude::*;
use vstd::std_specs::cmp::PartialEqSpecImpl;

verus! {

/// The order of the field.
pub open spec fn modulus() -> nat {
    0x40000000000000000000000000000000224698fc094cf91b992d30ed00000001nat
}

/// The sum of two integers in the field.
pub open spec fn field_add(x: nat, y: nat) -> nat {
    (x + y) % modulus()
}

/// The additive inverse of an integer in the field.
pub open spec fn field_neg(x: nat) -> nat {
    ((modulus() - x) % (modulus() as int)) as nat
}

/// The product of two integers in the field.
pub open spec fn field_mul(x: nat, y: nat) -> nat {
    (x * y) % modulus()
}

/// In the field, `s * (x + y - z)` with `s` 0 or 1 is zero exactly when `s`
/// is zero or `z` is the sum of `x` and `y`.
pub proof fn lemma_sum_constraint(s: nat, x: nat, y: nat, z: nat)
    requires
        s <= 1,
        z < modulus(),
    ensures
        field_mul(s, field_add(field_add(x, y), field_neg(z))) == 0 <==> (s == 0 || z == field_add(
            x,
            y,
        )),
{
    let p = modulus();
    let u = field_add(x, y);
    let n = field_neg(z);
    let w = field_add(u, n);
    assert(u < p && w < p);
    if z == 0 {
        lemma_fundamental_div_mod_converse(p as int, p as int, 1, 0);
        assert(n == 0);
        lemma_small_mod(u, p);
        assert(w == u);
    } else {
        lemma_small_mod((p - z) as nat, p);
        assert(n == p - z);
        if u < z {
            lemma_small_mod(u + n, p);
            assert(w == u + p - z);
        } else {
            lemma_fundamental_div_mod_converse((u + n) as int, p as int, 1, u - z);
            assert(w == u - z);
        }
    }
    assert(w == 0 <==> z == u);
    lemma_mul_basics(w as int);
    if s == 1 {
        lemma_small_mod(w, p);
        assert(field_mul(s, w) == w);
    } else {
        lemma_small_mod(0, p);
        assert(field_mul(s, w) == 0);
    }
}

/// The number that a byte string encodes, least significant byte first.
pub open spec fn le_value(bytes: Seq<u8>) -> nat
    decreases bytes.len(),
{
    if bytes.len() == 0 {
        0
    } else {
        bytes[0] as nat + 256 * le_value(bytes.drop_first())
    }
}

/// A byte string encodes zero exactly when all its bytes are zero.
pub proof fn lemma_le_value_zero(bytes: Seq<u8>)
    ensures
        le_value(bytes) == 0 <==> (forall|i: int| 0 <= i < bytes.len() ==> bytes[i] == 0),
    decreases bytes.len(),
{
    if bytes.len() > 0 {
        let rest = bytes.drop_first();
        lemma_le_value_zero(rest);
        if le_value(bytes) == 0 {
            assert forall|i: int| 0 <= i < bytes.len() implies bytes[i] == 0 by {
                if i > 0 {
                    assert(rest[i - 1] == bytes[i]);
                }
            }
        }
        if forall|i: int| 0 <= i < bytes.len() ==> bytes[i] == 0 {
            assert forall|i: int| 0 <= i < rest.len() implies rest[i] == 0 by {
                assert(rest[i] == bytes[i + 1]);
            }
        }
    }
}

/// Two byte strings of one length that encode the same number are the same.
pub proof fn lemma_le_value_injective(a: Seq<u8>, b: Seq<u8>)
    requires
        a.len() == b.len(),
        le_value(a) == le_value(b),
    ensures
        a =~= b,
    decreases a.len(),
{
    if a.len() > 0 {
        let ra = a.drop_first();
        let rb = b.drop_first();
        let x = le_value(ra);
        let y = le_value(rb);
        assert(a[0] as nat + 256 * x == b[0] as nat + 256 * y);
        assert(x == y && a[0] == b[0]) by {
            if x < y {
                assert(256 * x + 256 <= 256 * y);
            } else if y < x {
                assert(256 * y + 256 <= 256 * x);
            }
        }
        lemma_le_value_injective(ra, rb);
        assert forall|i: int| 0 <= i < a.len() implies a[i] == b[i] by {
            if i > 0 {
                assert(ra[i - 1] == a[i]);
                assert(rb[i - 1] == b[i]);
            }
        }
    }
}

/// Calls `Fp::from_repr` (of `ff::PrimeField`) and reports whether it
/// accepted the bytes. Not proved here: `pasta_curves` accepts exactly the
/// little-endian encodings of numbers below the field order.
#[verifier::external_body]
fn fp_is_canonical(bytes: &[u8; 32]) -> (r: bool)
    ensures
        r == (le_value(bytes@) < modulus()),
{
    bool::from(Fp::from_repr(*bytes).is_some())
}

/// Calls `Fp::from(u64)` and `Fp::to_repr`. Not proved here: the result is
/// the canonical little-endian encoding of the given integer, which is below
/// the field order.
#[verifier::external_body]
fn fp_from_u64(v: u64) -> (r: [u8; 32])
    ensures
        le_value(r@) == v as nat,
{
    Fp::from(v).to_repr()
}

/// Calls `Fp`'s `+` between `Fp::from_repr` and `Fp::to_repr`. Not proved
/// here: on canonical encodings, `from_repr` does not fail, field addition is
/// addition modulo the field order, and `to_repr` encodes the sum.
#[verifier::external_body]
fn fp_add(a: &[u8; 32], b: &[u8; 32]) -> (r: [u8; 32])
    requires
        le_value(a@) < modulus(),
        le_value(b@) < modulus(),
    ensures
        le_value(r@) == field_add(le_value(a@), le_value(b@)),
{
    (Fp::from_repr(*a).unwrap() + Fp::from_repr(*b).unwrap()).to_repr()
}

/// Calls `Fp`'s unary `-` between `Fp::from_repr` and `Fp::to_repr`. Not
/// proved here: on a canonical encoding, the result encodes the additive
/// inverse modulo the field order, which is zero for zero.
#[verifier::external_body]
fn fp_neg(a: &[u8; 32]) -> (r: [u8; 32])
    requires
        le_value(a@) < modulus(),
    ensures
        le_value(r@) == field_neg(le_value(a@)),
{
    (-Fp::from_repr(*a).unwrap()).to_repr()
}

/// Calls `Fp`'s `*` between `Fp::from_repr` and `Fp::to_repr`. Not proved
/// here: on canonical encodings, field multiplication is multiplication
/// modulo the field order, and `to_repr` encodes the product.
#[verifier::external_body]
fn fp_mul(a: &[u8; 32], b: &[u8; 32]) -> (r: [u8; 32])
    requires
        le_value(a@) < modulus(),
        le_value(b@) < modulus(),
    ensures
        le_value(r@) == field_mul(le_value(a@), le_value(b@)),
{
    (Fp::from_repr(*a).unwrap() * Fp::from_repr(*b).unwrap()).to_repr()
}

/// A field element.
#[derive(Clone, Copy, Debug)]
pub struct Fe {
    repr: [u8; 32],
}

impl View for Fe {
    type V = nat;

    /// The integer in `0..modulus()` that this element stands for.
    closed spec fn view(&self) -> nat {
        le_value(self.repr@)
    }
}

impl Fe {
    /// Every element is held in canonical form.
    #[verifier::type_invariant]
    pub closed spec fn canonical(self) -> bool {
        le_value(self.repr@) < modulus()
    }

    /// The canonical encoding, least significant byte first.
    pub closed spec fn bytes(self) -> Seq<u8> {
        self.repr@
    }

    pub fn from_u64(v: u64) -> (r: Fe)
        ensures
            r@ == v as nat,
    {
        let repr = fp_from_u64(v);
        Fe { repr }
    }

    pub fn zero() -> (r: Fe)
        ensures
            r@ == 0,
    {
        Fe::from_u64(0)
    }

    pub fn one() -> (r: Fe)
        ensures
            r@ == 1,
    {
        Fe::from_u64(1)
    }

    /// Decodes 32 bytes; `None` when they encode a number that is not below
    /// the field order.
    pub fn from_bytes(bytes: [u8; 32]) -> (r: Option<Fe>)
        ensures
            r is Some <==> le_value(bytes@) < modulus(),
            r matches Some(e) ==> e.bytes() == bytes@ && e@ == le_value(bytes@),
    {
        if fp_is_canonical(&bytes) {
            Some(Fe { repr: bytes })
        } else {
            None
        }
    }

    /// The canonical encoding: it encodes a number below the field order.
    pub fn to_bytes(&self) -> (r: [u8; 32])
        ensures
            r@ == self.bytes(),
            le_value(r@) == self@,
            self@ < modulus(),
    {
        proof {
            use_type_invariant(self);
        }
        self.repr
    }

    pub fn add(&self, rhs: &Fe) -> (r: Fe)
        ensures
            r@ == field_add(self@, rhs@),
    {
        proof {
            use_type_invariant(self);
            use_type_invariant(rhs);
        }
        let repr = fp_add(&self.repr, &rhs.repr);
        Fe { repr }
    }

    pub fn neg(&self) -> (r: Fe)
        ensures
            r@ == field_neg(self@),
    {
        proof {
            use_type_invariant(self);
        }
        let repr = fp_neg(&self.repr);
        Fe { repr }
    }

    pub fn mul(&self, rhs: &Fe) -> (r: Fe)
        ensures
            r@ == field_mul(self@, rhs@),
    {
        proof {
            use_type_invariant(self);
            use_type_invariant(rhs);
        }
        let repr = fp_mul(&self.repr, &rhs.repr);
        Fe { repr }
    }

    pub fn is_zero(&self) -> (r: bool)
        ensures
            r == (self@ == 0),
    {
        let mut i: usize = 0;
        while i < 32
            invariant
                i <= 32,
                forall|j: int| 0 <= j < i ==> self.repr@[j] == 0,
            decreases 32 - i,
        {
            if self.repr[i] != 0 {
                proof {
                    lemma_le_value_zero(self.repr@);
                }
                return false;
            }
            i += 1;
        }
        proof {
            lemma_le_value_zero(self.repr@);
        }
        true
    }
}

/// An element in canonical form stands for an integer below the field
/// order.
pub proof fn lemma_canonical(e: Fe)
    requires
        e.canonical(),
    ensures
        e@ < modulus(),
{
}

/// Two elements are the same exactly when they stand for the same integer.
pub proof fn lemma_view_injective(a: Fe, b: Fe)
    ensures
        a == b <==> a@ == b@,
{
    if a@ == b@ {
        lemma_le_value_injective(a.repr@, b.repr@);
        assert(a.repr =~= b.repr);
    }
}

impl PartialEq for Fe {
    fn eq(&self, other: &Fe) -> (r: bool) {
        let mut i: usize = 0;
        while i < 32
            invariant
                i <= 32,
                forall|j: int| 0 <= j < i ==> self.repr@[j] == other.repr@[j],
            decreases 32 - i,
        {
            if self.repr[i] != other.repr[i] {
                return false;
            }
            i += 1;
        }
        assert(self.repr =~= other.repr);
        true
    }
}

impl PartialEqSpecImpl for Fe {
    open spec fn obeys_eq_spec() -> bool {
        true
    }

    open spec fn eq_spec(&self, other: &Fe) -> bool {
        *self == *other
    }
}

impl Eq for Fe {

}

/// A witness value: supplied, or not yet. Its view is `Some` of the integer
/// it stands for, or `None`.
#[derive(Clone, Copy, Debug)]
pub enum Value {
    Known(Fe),
    Unknown,
}

impl View for Value {
    type V = Option<nat>;

    open spec fn view(&self) -> Option<nat> {
        match self {
            Value::Known(v) => Some(v@),
            Value::Unknown => None,
        }
    }
}

/// The sum of two witness values: unknown as soon as one of them is.
pub open spec fn witness_sum(a: Option<nat>, b: Option<nat>) -> Option<nat> {
    match (a, b) {
        (Some(x), Some(y)) => Some(field_add(x, y)),
        _ => None,
    }
}

/// The product of two witness values: unknown as soon as one of them is.
pub open spec fn witness_product(a: Option<nat>, b: Option<nat>) -> Option<nat> {
    match (a, b) {
        (Some(x), Some(y)) => Some(field_mul(x, y)),
        _ => None,
    }
}

/// The additive inverse of a witness value: unknown where the value is.
pub open spec fn witness_inverse(a: Option<nat>) -> Option<nat> {
    match a {
        Some(x) => Some(field_neg(x)),
        None => None,
    }
}

/// Whether two witness values are known and equal. An unknown value equals
/// nothing, not even another unknown value.
pub open spec fn witness_equal(a: Option<nat>, b: Option<nat>) -> bool {
    a is Some && a == b
}

impl Value {
    pub fn known(v: Fe) -> (r: Value)
        ensures
            r == Value::Known(v),
    {
        Value::Known(v)
    }

    pub fn unknown() -> (r: Value)
        ensures
            r == Value::Unknown,
    {
        Value::Unknown
    }

    pub fn is_known(&self) -> (r: bool)
        ensures
            r == (self@ is Some),
    {
        match self {
            Value::Known(_) => true,
            Value::Unknown => false,
        }
    }

    pub fn add(&self, rhs: &Value) -> (r: Value)
        ensures
            r@ == witness_sum(self@, rhs@),
    {
        match (self, rhs) {
            (Value::Known(x), Value::Known(y)) => Value::Known(x.add(y)),
            _ => Value::Unknown,
        }
    }

    pub fn mul(&self, rhs: &Value) -> (r: Value)
        ensures
            r@ == witness_product(self@, rhs@),
    {
        match (self, rhs) {
            (Value::Known(x), Value::Known(y)) => Value::Known(x.mul(y)),
            _ => Value::Unknown,
        }
    }

    pub fn neg(&self) -> (r: Value)
        ensures
            r@ == witness_inverse(self@),
    {
        match self {
            Value::Known(x) => Value::Known(x.neg()),
            Value::Unknown => Value::Unknown,
        }
    }

    pub fn equals(&self, other: &Value) -> (r: bool)
        ensures
            r == witness_equal(self@, other@),
    {
        match (self, other) {
            (Value::Known(x), Value::Known(y)) => {
                proof {
                    lemma_view_injective(*x, *y);
                }
                *x == *y
            },
            _ => false,
        }
    }
}

} // verus!
