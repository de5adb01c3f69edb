//! Programs and their functions, as the deployment pipeline sees them: a
//! function is a name, declared input types, and a circuit body; a program
//! is an identifier and an ordered list of functions with unique names.

use vstd::prelude::*;

use crate::plaintext::{ident_valid, Identifier};

verus! {

/// The type of a literal leaf.
#[derive(Clone, Copy, PartialEq, Eq, Structural, Debug)]
pub enum LiteralType {
    Bool,
    Field,
    Group,
    Scalar,
    Address,
}

/// The type of a plaintext value: a literal type, or a named struct type.
pub enum PlaintextType {
    Literal(LiteralType),
    Struct(Identifier),
}

/// The declared type of a function input.
pub enum ValueType {
    Plaintext(PlaintextType),
    Record(Identifier),
    ExternalRecord(Identifier, Identifier),
}

/// One function of a program: its name, declared input types, and circuit
/// body, an opaque word sequence the proof backend compiles.
pub struct FunctionDef {
    pub name: Identifier,
    pub inputs: Vec<ValueType>,
    pub body: Vec<u64>,
}

/// A program: an identifier and its functions in declared order.
pub struct Program {
    pub id: Identifier,
    pub functions: Vec<FunctionDef>,
}

/// The view of a plaintext type: a literal type, or a struct type's name.
pub enum PlaintextTypeV {
    Literal(LiteralType),
    Struct(Seq<u8>),
}

/// The view of a plaintext type.
pub open spec fn plaintext_type_view(t: PlaintextType) -> PlaintextTypeV {
    match t {
        PlaintextType::Literal(lt) => PlaintextTypeV::Literal(lt),
        PlaintextType::Struct(id) => PlaintextTypeV::Struct(id.bytes@),
    }
}

/// Equality of plaintext types, by view.
pub open spec fn plaintext_type_eq(a: PlaintextType, b: PlaintextType) -> bool {
    match (a, b) {
        (PlaintextType::Literal(x), PlaintextType::Literal(y)) => x == y,
        (PlaintextType::Struct(x), PlaintextType::Struct(y)) => x.bytes@ == y.bytes@,
        _ => false,
    }
}

/// Equality of value types, by view.
pub open spec fn value_type_eq(a: ValueType, b: ValueType) -> bool {
    match (a, b) {
        (ValueType::Plaintext(x), ValueType::Plaintext(y)) => plaintext_type_eq(x, y),
        (ValueType::Record(x), ValueType::Record(y)) => x.bytes@ == y.bytes@,
        (ValueType::ExternalRecord(xp, xr), ValueType::ExternalRecord(yp, yr)) => xp.bytes@
            == yp.bytes@ && xr.bytes@ == yr.bytes@,
        _ => false,
    }
}

/// Equality of functions: same name, input types and body.
pub open spec fn function_eq(a: FunctionDef, b: FunctionDef) -> bool {
    &&& a.name.bytes@ == b.name.bytes@
    &&& a.inputs@.len() == b.inputs@.len()
    &&& forall|i: int|
        0 <= i < a.inputs@.len() ==> value_type_eq(#[trigger] a.inputs@[i], b.inputs@[i])
    &&& a.body@ == b.body@
}

/// Equality of programs: same identifier and the same functions in the same
/// order.
pub open spec fn program_eq(a: Program, b: Program) -> bool {
    &&& a.id.bytes@ == b.id.bytes@
    &&& a.functions@.len() == b.functions@.len()
    &&& forall|i: int|
        0 <= i < a.functions@.len() ==> function_eq(#[trigger] a.functions@[i], b.functions@[i])
}

/// A well-formed program: valid identifier, valid and unique function
/// names.
pub open spec fn program_valid(p: Program) -> bool {
    &&& ident_valid(p.id.bytes@)
    &&& forall|i: int|
        0 <= i < p.functions@.len() ==> ident_valid((#[trigger] p.functions@[i]).name.bytes@)
    &&& forall|i: int, j: int|
        0 <= i < j < p.functions@.len() ==> (#[trigger] p.functions@[i]).name.bytes@ != (
        #[trigger] p.functions@[j]).name.bytes@
}

/// Plaintext type equality is reflexive.
pub proof fn lemma_plaintext_type_eq_refl(a: PlaintextType)
    ensures
        plaintext_type_eq(a, a),
{
}

/// Compares two plaintext types.
pub fn eq_plaintext_type(a: &PlaintextType, b: &PlaintextType) -> (r: bool)
    ensures
        r == plaintext_type_eq(*a, *b),
{
    match (a, b) {
        (PlaintextType::Literal(x), PlaintextType::Literal(y)) => *x == *y,
        (PlaintextType::Struct(x), PlaintextType::Struct(y)) => x.eq_ident(y),
        _ => false,
    }
}

/// Compares two value types.
pub fn eq_value_type(a: &ValueType, b: &ValueType) -> (r: bool)
    ensures
        r == value_type_eq(*a, *b),
{
    match (a, b) {
        (ValueType::Plaintext(x), ValueType::Plaintext(y)) => eq_plaintext_type(x, y),
        (ValueType::Record(x), ValueType::Record(y)) => x.eq_ident(y),
        (ValueType::ExternalRecord(xp, xr), ValueType::ExternalRecord(yp, yr)) => xp.eq_ident(yp)
            && xr.eq_ident(yr),
        _ => false,
    }
}

/// Compares two functions.
pub fn eq_function(a: &FunctionDef, b: &FunctionDef) -> (r: bool)
    ensures
        r == function_eq(*a, *b),
{
    if !a.name.eq_ident(&b.name) {
        return false;
    }
    if a.inputs.len() != b.inputs.len() {
        return false;
    }
    let mut i: usize = 0;
    while i < a.inputs.len()
        invariant
            0 <= i <= a.inputs@.len(),
            a.inputs@.len() == b.inputs@.len(),
            forall|j: int| 0 <= j < i ==> value_type_eq(#[trigger] a.inputs@[j], b.inputs@[j]),
        decreases a.inputs@.len() - i,
    {
        if !eq_value_type(&a.inputs[i], &b.inputs[i]) {
            return false;
        }
        i += 1;
    }
    if a.body.len() != b.body.len() {
        proof {
            assert(a.body@ != b.body@);
        }
        return false;
    }
    let mut i: usize = 0;
    while i < a.body.len()
        invariant
            0 <= i <= a.body@.len(),
            a.body@.len() == b.body@.len(),
            forall|j: int| 0 <= j < i ==> a.body@[j] == b.body@[j],
        decreases a.body@.len() - i,
    {
        if a.body[i] != b.body[i] {
            proof {
                assert(a.body@[i as int] != b.body@[i as int]);
            }
            return false;
        }
        i += 1;
    }
    proof {
        assert(a.body@ =~= b.body@);
    }
    true
}

/// Compares two programs.
pub fn eq_program(a: &Program, b: &Program) -> (r: bool)
    ensures
        r == program_eq(*a, *b),
{
    if !a.id.eq_ident(&b.id) {
        return false;
    }
    if a.functions.len() != b.functions.len() {
        return false;
    }
    let mut i: usize = 0;
    while i < a.functions.len()
        invariant
            0 <= i <= a.functions@.len(),
            a.functions@.len() == b.functions@.len(),
            a.id.bytes@ == b.id.bytes@,
            forall|j: int| 0 <= j < i ==> function_eq(#[trigger] a.functions@[j], b.functions@[j]),
        decreases a.functions@.len() - i,
    {
        if !eq_function(&a.functions[i], &b.functions[i]) {
            return false;
        }
        i += 1;
    }
    true
}

} // verus!
