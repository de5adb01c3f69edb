//! Typed plaintext values: literals and recursively nested structs with
//! identifier-named members, together with their mathematical views.
//!
//! Executable values (`Identifier`, `Literal`, `Plaintext`) mirror into
//! spec-level views (`Seq<u8>`, `Literal`, `PlaintextV`) over which every
//! contract in the crate is stated.

use vstd::prelude::*;

use crate::algebra::{Address, Field, Group, Scalar, FIELD_MODULUS};

verus! {

/// Returns true if the byte may appear in an identifier: a lowercase ASCII
/// letter, a digit, or an underscore.
pub open spec fn is_ident_byte(b: u8) -> bool {
    (97 <= b && b <= 122) || (48 <= b && b <= 57) || b == 95
}

/// Returns true if the byte is a lowercase ASCII letter.
pub open spec fn is_letter_byte(b: u8) -> bool {
    97 <= b && b <= 122
}

/// The longest identifier accepted, in bytes.
pub const MAX_IDENT_LEN: usize = 31;

/// A valid identifier is 1 to 31 bytes, starts with a lowercase letter, and
/// continues with lowercase letters, digits or underscores.
pub open spec fn ident_valid(s: Seq<u8>) -> bool {
    &&& 1 <= s.len() <= MAX_IDENT_LEN
    &&& is_letter_byte(s[0])
    &&& forall|i: int| 0 <= i < s.len() ==> is_ident_byte(#[trigger] s[i])
}

/// A field or mapping identifier: a short name unique within its scope.
#[derive(PartialEq, Eq, Debug, Hash)]
pub struct Identifier {
    pub bytes: Vec<u8>,
}

impl Clone for Identifier {
    /// The copy carries the same bytes.
    fn clone(&self) -> (r: Self)
        ensures
            r.bytes@ == self.bytes@,
    {
        let bytes = self.bytes.clone();
        proof {
            assert(bytes@ =~= self.bytes@);
        }
        Identifier { bytes }
    }
}

impl Identifier {
    pub open spec fn view(self) -> Seq<u8> {
        self.bytes@
    }

    pub open spec fn is_valid(self) -> bool {
        ident_valid(self.bytes@)
    }

    /// Builds an identifier from raw bytes, rejecting invalid names.
    pub fn from_bytes(bytes: Vec<u8>) -> (r: Option<Identifier>)
        ensures
            match r {
                Some(id) => id.bytes@ == bytes@ && id.is_valid(),
                None => !ident_valid(bytes@),
            },
    {
        if bytes.len() < 1 || bytes.len() > MAX_IDENT_LEN {
            return None;
        }
        let b0 = bytes[0];
        if !(97 <= b0 && b0 <= 122) {
            return None;
        }
        let mut i: usize = 1;
        while i < bytes.len()
            invariant
                1 <= i <= bytes.len(),
                1 <= bytes.len() <= MAX_IDENT_LEN,
                is_letter_byte(bytes[0]),
                forall|j: int| 0 <= j < i ==> is_ident_byte(#[trigger] bytes@[j]),
            decreases bytes.len() - i,
        {
            let b = bytes[i];
            if !((97 <= b && b <= 122) || (48 <= b && b <= 57) || b == 95) {
                return None;
            }
            i += 1;
        }
        Some(Identifier { bytes })
    }

    /// Compares two identifiers by their bytes.
    pub fn eq_ident(&self, other: &Identifier) -> (r: bool)
        ensures
            r == (self.bytes@ == other.bytes@),
    {
        if self.bytes.len() != other.bytes.len() {
            proof {
                assert(self.bytes@ != other.bytes@);
            }
            return false;
        }
        let mut i: usize = 0;
        while i < self.bytes.len()
            invariant
                0 <= i <= self.bytes.len(),
                self.bytes.len() == other.bytes.len(),
                forall|j: int| 0 <= j < i ==> self.bytes@[j] == other.bytes@[j],
            decreases self.bytes.len() - i,
        {
            if self.bytes[i] != other.bytes[i] {
                proof {
                    assert(self.bytes@[i as int] != other.bytes@[i as int]);
                }
                return false;
            }
            i += 1;
        }
        proof {
            assert(self.bytes@ =~= other.bytes@);
        }
        true
    }
}

/// A literal value: the leaves of the plaintext tree.
#[derive(Clone, Copy, PartialEq, Eq, Structural, Debug, Hash)]
pub enum Literal {
    Bool(bool),
    Field(Field),
    Group(Group),
    Scalar(Scalar),
    Address(Address),
}

/// Validity of a literal: each payload is reduced.
pub open spec fn lit_valid(l: Literal) -> bool {
    match l {
        Literal::Bool(_) => true,
        Literal::Field(f) => f.is_valid(),
        Literal::Group(g) => g.is_valid(),
        Literal::Scalar(s) => s.is_valid(),
        Literal::Address(a) => a.is_valid(),
    }
}

/// A plaintext value: a literal, or a nested struct of named members.
pub enum Plaintext {
    Literal(Literal),
    Struct(Vec<(Identifier, Plaintext)>),
}

/// The mathematical view of a plaintext value.
pub enum PlaintextV {
    Literal(Literal),
    Struct(Seq<(Seq<u8>, PlaintextV)>),
}

/// The view of a plaintext value.
pub open spec fn pt_view(p: Plaintext) -> PlaintextV
    decreases p,
{
    match p {
        Plaintext::Literal(l) => PlaintextV::Literal(l),
        Plaintext::Struct(members) => PlaintextV::Struct(members_view(members@)),
    }
}

/// The view of a member list, in order.
pub open spec fn members_view(ms: Seq<(Identifier, Plaintext)>) -> Seq<(Seq<u8>, PlaintextV)>
    decreases ms,
{
    if ms.len() == 0 {
        Seq::empty()
    } else {
        seq![(ms[0].0.bytes@, pt_view(ms[0].1))] + members_view(ms.drop_first())
    }
}

/// Validity of a plaintext view: literals are reduced, member names are
/// valid identifiers, and member counts fit in one field element.
pub open spec fn pt_valid_v(p: PlaintextV) -> bool
    decreases p,
{
    match p {
        PlaintextV::Literal(l) => lit_valid(l),
        PlaintextV::Struct(ms) => {
            &&& ms.len() < FIELD_MODULUS
            &&& forall|i: int|
                0 <= i < ms.len() ==> ident_valid((#[trigger] ms[i]).0) && pt_valid_v(ms[i].1)
        },
    }
}

/// Structural equivalence of two plaintext views: same shape, equal leaves,
/// equal member names in the same order, equivalent member values.
pub open spec fn pt_eq_v(a: PlaintextV, b: PlaintextV) -> bool
    decreases a,
{
    match (a, b) {
        (PlaintextV::Literal(la), PlaintextV::Literal(lb)) => la == lb,
        (PlaintextV::Struct(ma), PlaintextV::Struct(mb)) => {
            &&& ma.len() == mb.len()
            &&& forall|i: int|
                0 <= i < ma.len() ==> (#[trigger] ma[i]).0 == mb[i].0 && pt_eq_v(ma[i].1, mb[i].1)
        },
        _ => false,
    }
}

/// Structural equivalence is reflexive.
pub proof fn lemma_pt_eq_refl(a: PlaintextV)
    ensures
        pt_eq_v(a, a),
    decreases a,
{
    match a {
        PlaintextV::Literal(_) => {},
        PlaintextV::Struct(ms) => {
            assert forall|i: int| 0 <= i < ms.len() implies (#[trigger] ms[i]).0 == ms[i].0
                && pt_eq_v(ms[i].1, ms[i].1) by {
                lemma_pt_eq_refl(ms[i].1);
            };
        },
    }
}

/// Structural equivalence coincides with equality of views.
pub proof fn lemma_pt_eq_is_eq(a: PlaintextV, b: PlaintextV)
    ensures
        pt_eq_v(a, b) <==> a == b,
    decreases a,
{
    if a == b {
        lemma_pt_eq_refl(a);
    }
    if pt_eq_v(a, b) {
        match (a, b) {
            (PlaintextV::Literal(_), PlaintextV::Literal(_)) => {},
            (PlaintextV::Struct(ma), PlaintextV::Struct(mb)) => {
                assert forall|i: int| 0 <= i < ma.len() implies ma[i] == mb[i] by {
                    assert(ma[i].0 == mb[i].0 && pt_eq_v(ma[i].1, mb[i].1));
                    lemma_pt_eq_is_eq(ma[i].1, mb[i].1);
                };
                assert(ma =~= mb);
            },
            _ => {},
        }
    }
}

/// The view of a member list has one view entry per member.
pub proof fn lemma_members_view_len(ms: Seq<(Identifier, Plaintext)>)
    ensures
        members_view(ms).len() == ms.len(),
    decreases ms,
{
    if ms.len() > 0 {
        lemma_members_view_len(ms.drop_first());
    }
}

/// Indexing the view of a member list gives the view of that member.
pub proof fn lemma_members_view_index(ms: Seq<(Identifier, Plaintext)>, i: int)
    requires
        0 <= i < ms.len(),
    ensures
        members_view(ms).len() == ms.len(),
        members_view(ms)[i] == (ms[i].0.bytes@, pt_view(ms[i].1)),
    decreases ms,
{
    lemma_members_view_len(ms);
    if i > 0 {
        lemma_members_view_index(ms.drop_first(), i - 1);
    }
}

/// Compares the members of two structs from position `i` on, pairwise by
/// name and value.
fn eq_members(ma: &Vec<(Identifier, Plaintext)>, mb: &Vec<(Identifier, Plaintext)>, i: usize) -> (r:
    bool)
    requires
        i <= ma@.len(),
        ma@.len() == mb@.len(),
    ensures
        r == (forall|j: int|
            i <= j < ma@.len() ==> (#[trigger] ma@[j]).0.bytes@ == mb@[j].0.bytes@ && pt_eq_v(
                pt_view(ma@[j].1),
                pt_view(mb@[j].1),
            )),
    decreases *ma, ma@.len() - i + 1,
{
    if i == ma.len() {
        true
    } else {
        let name_eq = ma[i].0.eq_ident(&mb[i].0);
        let value_eq = ma[i].1.eq_plaintext(&mb[i].1);
        if !(name_eq && value_eq) {
            return false;
        }
        eq_members(ma, mb, i + 1)
    }
}

impl Plaintext {
    /// Compares two plaintext values, walking every member of both values;
    /// the result is equality of their views.
    pub fn eq_plaintext(&self, other: &Plaintext) -> (r: bool)
        ensures
            r == pt_eq_v(pt_view(*self), pt_view(*other)),
        decreases *self, 0int,
    {
        match self {
            Plaintext::Literal(la) => match other {
                Plaintext::Literal(lb) => lit_eq(la, lb),
                _ => false,
            },
            Plaintext::Struct(ma) => match other {
                Plaintext::Literal(_) => false,
                Plaintext::Struct(mb) => {
                proof {
                    lemma_members_view_len(ma@);
                    lemma_members_view_len(mb@);
                }
                if ma.len() != mb.len() {
                    return false;
                }
                let r = eq_members(ma, mb, 0);
                proof {
                    if r {
                        assert forall|i: int| 0 <= i < members_view(ma@).len() implies (
                        #[trigger] members_view(ma@)[i]).0 == members_view(mb@)[i].0 && pt_eq_v(
                            members_view(ma@)[i].1,
                            members_view(mb@)[i].1,
                        ) by {
                            lemma_members_view_index(ma@, i);
                            lemma_members_view_index(mb@, i);
                            assert(ma@[i].0.bytes@ == mb@[i].0.bytes@ && pt_eq_v(
                                pt_view(ma@[i].1),
                                pt_view(mb@[i].1),
                            ));
                        };
                    } else {
                        if pt_eq_v(pt_view(*self), pt_view(*other)) {
                            let j = choose|j: int|
                                0 <= j < ma@.len() && !((#[trigger] ma@[j]).0.bytes@
                                    == mb@[j].0.bytes@ && pt_eq_v(
                                    pt_view(ma@[j].1),
                                    pt_view(mb@[j].1),
                                ));
                            lemma_members_view_index(ma@, j);
                            lemma_members_view_index(mb@, j);
                            assert(members_view(ma@)[j].0 == members_view(mb@)[j].0 && pt_eq_v(
                                members_view(ma@)[j].1,
                                members_view(mb@)[j].1,
                            ));
                            assert(false);
                        }
                    }
                }
                    r
                },
            },
        }
    }
}

/// Appends deep copies of the members of `ms` from position `i` on to `out`.
fn clone_members(ms: &Vec<(Identifier, Plaintext)>, i: usize, out: &mut Vec<(Identifier, Plaintext)>)
    requires
        i <= ms@.len(),
    ensures
        final(out)@.len() == old(out)@.len() + (ms@.len() - i),
        forall|j: int|
            0 <= j < final(out)@.len() ==> {
                &&& (j < old(out)@.len() ==> #[trigger] final(out)@[j] == old(out)@[j])
                &&& (old(out)@.len() <= j ==> final(out)@[j].0.bytes@ == ms@[j - old(out)@.len()
                    + i].0.bytes@ && pt_view(final(out)@[j].1) == pt_view(
                    ms@[j - old(out)@.len() + i].1,
                ))
            },
    decreases *ms, ms@.len() - i + 1,
{
    if i < ms.len() {
        let name = ms[i].0.clone();
        let value = ms[i].1.clone();
        out.push((name, value));
        clone_members(ms, i + 1, out);
    }
}

impl Clone for Plaintext {
    /// Deep copy: the copy has the same view as the original.
    fn clone(&self) -> (r: Self)
        ensures
            pt_view(r) == pt_view(*self),
        decreases *self, 0int,
    {
        match self {
            Plaintext::Literal(l) => Plaintext::Literal(*l),
            Plaintext::Struct(ms) => {
                let mut out: Vec<(Identifier, Plaintext)> = Vec::new();
                clone_members(ms, 0, &mut out);
                proof {
                    lemma_members_view_len(ms@);
                    lemma_members_view_len(out@);
                    assert forall|j: int| 0 <= j < ms@.len() implies members_view(out@)[j]
                        == members_view(ms@)[j] by {
                        lemma_members_view_index(out@, j);
                        lemma_members_view_index(ms@, j);
                    };
                    assert(members_view(out@) =~= members_view(ms@));
                }
                Plaintext::Struct(out)
            },
        }
    }
}

/// Compares two literals.
pub fn lit_eq(a: &Literal, b: &Literal) -> (r: bool)
    ensures
        r == (*a == *b),
{
    *a == *b
}

} // verus!
