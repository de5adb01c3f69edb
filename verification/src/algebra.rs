//! Field, scalar and group arithmetic for the record confidentiality scheme.
//!
//! The base field is the integers modulo the Mersenne prime `2^61 - 1`; the
//! cyclic group in which record nonces live is modeled by the discrete
//! logarithm of each element with respect to a fixed generator, so a group
//! element is an exponent modulo the group order `2^31 - 1`. Scalar
//! multiplication is then exponent multiplication, which gives the
//! Diffie-Hellman agreement `(g^a)^b == (g^b)^a` needed for record
//! encryption directly from commutativity of multiplication.

use vstd::prelude::*;

verus! {

/// The base field modulus: the Mersenne prime `2^61 - 1`.
pub const FIELD_MODULUS: u64 = 2305843009213693951;

/// The group order: the Mersenne prime `2^31 - 1`.
pub const GROUP_ORDER: u64 = 2147483647;

/// An element of the base field.
#[derive(Clone, Copy, PartialEq, Eq, Structural, Debug, Hash)]
pub struct Field {
    pub value: u64,
}

/// A scalar: an exponent for the group, reduced modulo the group order.
#[derive(Clone, Copy, PartialEq, Eq, Structural, Debug, Hash)]
pub struct Scalar {
    pub value: u64,
}

/// A group element, represented by its discrete logarithm with respect to
/// the fixed generator.
#[derive(Clone, Copy, PartialEq, Eq, Structural, Debug, Hash)]
pub struct Group {
    pub exponent: u64,
}

/// An account address: the group element `generator^view_key`.
#[derive(Clone, Copy, PartialEq, Eq, Structural, Debug, Hash)]
pub struct Address {
    pub element: Group,
}

/// An account view key: the secret scalar whose address is
/// `generator^view_key`. Holding it allows decrypting records sent to that
/// address.
#[derive(Clone, Copy, PartialEq, Eq, Structural, Debug, Hash)]
pub struct ViewKey {
    pub scalar: Scalar,
}

impl Field {
    /// A field element is stored reduced.
    pub open spec fn is_valid(self) -> bool {
        self.value < FIELD_MODULUS
    }
}

impl Scalar {
    /// A scalar is stored reduced modulo the group order.
    pub open spec fn is_valid(self) -> bool {
        self.value < GROUP_ORDER
    }
}

impl Group {
    /// A group element's exponent is reduced modulo the group order.
    pub open spec fn is_valid(self) -> bool {
        self.exponent < GROUP_ORDER
    }
}

impl Address {
    pub open spec fn is_valid(self) -> bool {
        self.element.is_valid()
    }
}

impl ViewKey {
    pub open spec fn is_valid(self) -> bool {
        self.scalar.is_valid()
    }
}

/// Field addition, modulo the field modulus.
pub open spec fn spec_field_add(a: Field, b: Field) -> Field {
    Field { value: (((a.value + b.value) % (FIELD_MODULUS as int)) as u64) }
}

/// Field subtraction, modulo the field modulus.
pub open spec fn spec_field_sub(a: Field, b: Field) -> Field {
    Field { value: (((a.value + FIELD_MODULUS - b.value) % (FIELD_MODULUS as int)) as u64) }
}

/// Adds two field elements.
pub fn field_add(a: Field, b: Field) -> (r: Field)
    requires
        a.is_valid(),
        b.is_valid(),
    ensures
        r == spec_field_add(a, b),
        r.is_valid(),
{
    let sum: u64 = a.value + b.value;
    if sum >= FIELD_MODULUS {
        Field { value: sum - FIELD_MODULUS }
    } else {
        Field { value: sum }
    }
}

/// Subtracts one field element from another.
pub fn field_sub(a: Field, b: Field) -> (r: Field)
    requires
        a.is_valid(),
        b.is_valid(),
    ensures
        r == spec_field_sub(a, b),
        r.is_valid(),
{
    if a.value >= b.value {
        let d: u64 = a.value - b.value;
        assert((a.value + FIELD_MODULUS - b.value) % (FIELD_MODULUS as int) == d) by {
            assert(a.value + FIELD_MODULUS - b.value == d + FIELD_MODULUS);
        };
        Field { value: d }
    } else {
        let d: u64 = a.value + FIELD_MODULUS - b.value;
        Field { value: d }
    }
}

/// Unmasking inverts masking: subtracting the randomizer from the masked
/// element recovers the original element exactly.
pub proof fn lemma_mask_unmask(m: Field, r: Field)
    requires
        m.is_valid(),
        r.is_valid(),
    ensures
        spec_field_sub(spec_field_add(m, r), r) == m,
{
    let p = FIELD_MODULUS as int;
    let s = (m.value + r.value) % p;
    if m.value + r.value < p {
        assert(s == m.value + r.value);
        assert((s + p - r.value) % p == m.value) by {
            assert(s + p - r.value == m.value + p);
        };
    } else {
        assert(s == m.value + r.value - p);
        assert((s + p - r.value) % p == m.value) by {
            assert(s + p - r.value == m.value);
        };
    }
}

/// Scalar multiplication of a group element: in the discrete-logarithm
/// model, the exponent is multiplied modulo the group order.
pub open spec fn spec_group_mul(g: Group, s: Scalar) -> Group {
    Group { exponent: (((g.exponent as int) * (s.value as int)) % (GROUP_ORDER as int)) as u64 }
}

/// Multiplies a group element by a scalar.
pub fn group_mul(g: Group, s: Scalar) -> (r: Group)
    requires
        g.is_valid(),
        s.is_valid(),
    ensures
        r == spec_group_mul(g, s),
        r.is_valid(),
{
    assert((g.exponent as int) * (s.value as int) < (GROUP_ORDER as int) * (GROUP_ORDER as int))
        by (nonlinear_arith)
        requires
            g.exponent < GROUP_ORDER,
            s.value < GROUP_ORDER,
    ;
    let wide: u128 = (g.exponent as u128) * (s.value as u128);
    let reduced: u128 = wide % (GROUP_ORDER as u128);
    assert(reduced < GROUP_ORDER as u128);
    assert(reduced == ((g.exponent as int) * (s.value as int)) % (GROUP_ORDER as int));
    Group { exponent: reduced as u64 }
}

/// The fixed group generator.
pub fn generator() -> (r: Group)
    ensures
        r.exponent == 1,
        r.is_valid(),
{
    Group { exponent: 1 }
}

/// Raises the generator to the given scalar, e.g. to produce a record nonce
/// from its secret randomizer.
pub fn g_scalar_multiply(s: Scalar) -> (r: Group)
    requires
        s.is_valid(),
    ensures
        r == spec_group_mul(Group { exponent: 1 }, s),
        r.exponent == s.value,
        r.is_valid(),
{
    let g = generator();
    let r = group_mul(g, s);
    assert((1int * (s.value as int)) % (GROUP_ORDER as int) == s.value) by {
        assert(1int * (s.value as int) == s.value as int);
    };
    r
}

/// Projects a group element to a field element, as the x-coordinate
/// projection does on a curve point.
pub open spec fn spec_x_coordinate(g: Group) -> Field {
    Field { value: g.exponent }
}

/// Returns the field projection of a group element.
pub fn x_coordinate(g: Group) -> (r: Field)
    requires
        g.is_valid(),
    ensures
        r == spec_x_coordinate(g),
        r.is_valid(),
{
    assert(GROUP_ORDER < FIELD_MODULUS);
    Field { value: g.exponent }
}

impl ViewKey {
    /// Returns the address owned by this view key: `generator^view_key`.
    pub fn to_address(&self) -> (r: Address)
        requires
            self.is_valid(),
        ensures
            r.element.exponent == self.scalar.value,
            r.is_valid(),
    {
        Address { element: g_scalar_multiply(self.scalar) }
    }
}

/// Diffie-Hellman agreement: the sender, holding the recipient's address and
/// the record's secret randomizer, derives the same shared group element as
/// the recipient, who holds the record's public nonce and the view key.
pub proof fn lemma_shared_secret(view_key: ViewKey, randomizer: Scalar)
    requires
        view_key.is_valid(),
        randomizer.is_valid(),
    ensures
        spec_group_mul(Group { exponent: view_key.scalar.value }, randomizer)
            == spec_group_mul(Group { exponent: randomizer.value }, view_key.scalar),
{
    assert((view_key.scalar.value as int) * (randomizer.value as int)
        == (randomizer.value as int) * (view_key.scalar.value as int));
}

} // verus!
