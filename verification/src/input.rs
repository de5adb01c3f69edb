//! Finalize input statements: `input r<n> as <type>.public;` declares one
//! input register of a finalize scope with its plaintext type. Inputs are
//! ordered by their register alone; the declared type does not take part
//! in the ordering.

use vstd::prelude::*;

use crate::command::{
    field_tag_bytes, group_tag_bytes, is_digit, match_tag, parse_ident, parse_u64, scalar_tag_bytes,
    skip_ws, spec_parse_ident, spec_parse_u64, spec_skip_ws, spec_tag_at, dec_digits, Register,
};
use crate::errors::VmError;
use crate::plaintext::Identifier;
use crate::program::{
    plaintext_type_eq, plaintext_type_view, LiteralType, PlaintextType, PlaintextTypeV,
};

verus! {

/// An input statement: the register it fills and its plaintext type.
pub struct Input {
    pub register: Register,
    pub plaintext_type: PlaintextType,
}

pub open spec fn input_kw_bytes() -> Seq<u8> {
    seq![105u8, 110u8, 112u8, 117u8, 116u8]
}

pub open spec fn as_tag_bytes() -> Seq<u8> {
    seq![97u8, 115u8]
}

pub open spec fn public_suffix_bytes() -> Seq<u8> {
    seq![46u8, 112u8, 117u8, 98u8, 108u8, 105u8, 99u8]
}

pub open spec fn boolean_tag_bytes() -> Seq<u8> {
    seq![98u8, 111u8, 111u8, 108u8, 101u8, 97u8, 110u8]
}

pub open spec fn address_tag_bytes() -> Seq<u8> {
    seq![97u8, 100u8, 100u8, 114u8, 101u8, 115u8, 115u8]
}

/// The plaintext type a type name denotes: a literal type for the reserved
/// names, a struct type otherwise.
pub open spec fn spec_type_of_name(name: Seq<u8>) -> PlaintextTypeV {
    if name == field_tag_bytes() {
        PlaintextTypeV::Literal(LiteralType::Field)
    } else if name == boolean_tag_bytes() {
        PlaintextTypeV::Literal(LiteralType::Bool)
    } else if name == group_tag_bytes() {
        PlaintextTypeV::Literal(LiteralType::Group)
    } else if name == scalar_tag_bytes() {
        PlaintextTypeV::Literal(LiteralType::Scalar)
    } else if name == address_tag_bytes() {
        PlaintextTypeV::Literal(LiteralType::Address)
    } else {
        PlaintextTypeV::Struct(name)
    }
}

/// The input statement read from the start of `s`: its grammar is
/// `input r<locator> as <type>.public;`, a member register being refused;
/// the result is the locator, the declared type, and the position after
/// the `;`.
pub open spec fn spec_parse_input(s: Seq<u8>) -> Option<(u64, PlaintextTypeV, int)> {
    let p1 = spec_skip_ws(s, 0);
    match spec_tag_at(s, p1, input_kw_bytes()) {
        None => None,
        Some(p2) => {
            let p3 = spec_skip_ws(s, p2);
            if !(p3 < s.len() && s[p3] == 114) {
                None
            } else {
                match spec_parse_u64(s, p3 + 1) {
                    None => None,
                    Some((locator, p4)) => {
                        if p4 < s.len() && s[p4] == 46 {
                            None
                        } else {
                            let p5 = spec_skip_ws(s, p4);
                            match spec_tag_at(s, p5, as_tag_bytes()) {
                                None => None,
                                Some(p6) => {
                                    let p7 = spec_skip_ws(s, p6);
                                    match spec_parse_ident(s, p7) {
                                        None => None,
                                        Some((tname, p8)) => match spec_tag_at(
                                            s,
                                            p8,
                                            public_suffix_bytes(),
                                        ) {
                                            None => None,
                                            Some(p9) => {
                                                let p10 = spec_skip_ws(s, p9);
                                                match spec_tag_at(s, p10, seq![59u8]) {
                                                    None => None,
                                                    Some(p11) => Some(
                                                        (
                                                            locator,
                                                            spec_type_of_name(tname),
                                                            p11,
                                                        ),
                                                    ),
                                                }
                                            },
                                        },
                                    }
                                },
                            }
                        }
                    },
                }
            }
        },
    }
}

/// The name a plaintext type renders as.
pub open spec fn type_name_bytes(t: PlaintextType) -> Seq<u8> {
    match t {
        PlaintextType::Literal(LiteralType::Bool) => boolean_tag_bytes(),
        PlaintextType::Literal(LiteralType::Field) => field_tag_bytes(),
        PlaintextType::Literal(LiteralType::Group) => group_tag_bytes(),
        PlaintextType::Literal(LiteralType::Scalar) => scalar_tag_bytes(),
        PlaintextType::Literal(LiteralType::Address) => address_tag_bytes(),
        PlaintextType::Struct(id) => id.bytes@,
    }
}

/// The canonical textual form of an input statement:
/// `input r<locator> as <type>.public;`.
pub open spec fn spec_input_text(inp: Input) -> Seq<u8> {
    seq![105u8, 110u8, 112u8, 117u8, 116u8, 32u8, 114u8] + dec_digits(
        register_locator(inp.register),
    ) + seq![32u8, 97u8, 115u8, 32u8] + type_name_bytes(inp.plaintext_type) + seq![
        46u8,
        112u8,
        117u8,
        98u8,
        108u8,
        105u8,
        99u8,
        59u8,
    ]
}

/// Register equality is reflexive.
pub proof fn lemma_register_eq_refl(r: Register)
    ensures
        crate::command::register_eq(r, r),
{
}

/// The locator a register carries.
pub open spec fn register_locator(r: Register) -> u64 {
    match r {
        Register::Locator(n) => n,
        Register::Member(n, _) => n,
    }
}

impl Input {
    /// Returns the input register.
    pub fn register(&self) -> (r: &Register)
        ensures
            crate::command::register_eq(*r, self.register),
            register_locator(*r) == register_locator(self.register),
    {
        proof {
            lemma_register_eq_refl(self.register);
        }
        &self.register
    }

    /// Returns the input plaintext type.
    pub fn plaintext_type(&self) -> (r: &PlaintextType)
        ensures
            plaintext_type_eq(*r, self.plaintext_type),
    {
        proof {
            crate::program::lemma_plaintext_type_eq_refl(self.plaintext_type);
        }
        &self.plaintext_type
    }

    /// Returns the statement keyword.
    pub fn keyword() -> (r: &'static str)
        ensures
            r@ == "input"@,
    {
        "input"
    }

    /// Total order on inputs: by register locator alone; the declared type
    /// is ignored.
    pub fn cmp(&self, other: &Input) -> (r: core::cmp::Ordering)
        ensures
            r == spec_input_cmp(*self, *other),
    {
        let a = match &self.register {
            Register::Locator(n) => *n,
            Register::Member(n, _) => *n,
        };
        let b = match &other.register {
            Register::Locator(n) => *n,
            Register::Member(n, _) => *n,
        };
        if a < b {
            core::cmp::Ordering::Less
        } else if a == b {
            core::cmp::Ordering::Equal
        } else {
            core::cmp::Ordering::Greater
        }
    }

    /// Partial order on inputs: always defined, agreeing with `cmp`.
    pub fn partial_cmp(&self, other: &Input) -> (r: Option<core::cmp::Ordering>)
        ensures
            r == Some(spec_input_cmp(*self, *other)),
    {
        Some(self.cmp(other))
    }

    /// Parses `input r<n> as <type>.public;`, returning the statement and
    /// how much of the input it consumed. A member register is refused: the
    /// returned register is always a plain locator.
    pub fn parse(input: &Vec<u8>) -> (r: Result<(Input, usize), VmError>)
        ensures
            r is Ok == spec_parse_input(input@) is Some,
            r matches Ok((inp, n)) ==> n <= input@.len() && inp.register is Locator
                && spec_parse_input(input@) == Some(
                (
                    register_locator(inp.register),
                    plaintext_type_view(inp.plaintext_type),
                    n as int,
                ),
            ),
            r matches Err(e) ==> e == VmError::ParseError,
    {
        let pos = skip_ws(input, 0);
        let kw: Vec<u8> = vec![105, 110, 112, 117, 116];
        proof {
            assert(kw@ =~= input_kw_bytes());
        }
        let pos = match match_tag(input, pos, &kw) {
            None => {
                return Err(VmError::ParseError);
            },
            Some(p) => p,
        };
        let pos = skip_ws(input, pos);
        if pos >= input.len() || input[pos] != 114 {
            return Err(VmError::ParseError);
        }
        let (locator, pos) = match parse_u64(input, pos + 1) {
            None => {
                return Err(VmError::ParseError);
            },
            Some(x) => x,
        };
        // A member register cannot be an input register.
        if pos < input.len() && input[pos] == 46 {
            return Err(VmError::ParseError);
        }
        let pos = skip_ws(input, pos);
        let as_tag: Vec<u8> = vec![97, 115];
        proof {
            assert(as_tag@ =~= as_tag_bytes());
        }
        let pos = match match_tag(input, pos, &as_tag) {
            None => {
                return Err(VmError::ParseError);
            },
            Some(p) => p,
        };
        let pos = skip_ws(input, pos);
        let (tname, pos) = match parse_ident(input, pos) {
            None => {
                return Err(VmError::ParseError);
            },
            Some(x) => x,
        };
        let plaintext_type = literal_type_of(&tname);
        let pub_tag: Vec<u8> = vec![46, 112, 117, 98, 108, 105, 99];
        proof {
            assert(pub_tag@ =~= public_suffix_bytes());
        }
        let pos = match match_tag(input, pos, &pub_tag) {
            None => {
                return Err(VmError::ParseError);
            },
            Some(p) => p,
        };
        let pos = skip_ws(input, pos);
        let semi: Vec<u8> = vec![59];
        proof {
            assert(semi@ =~= seq![59u8]);
        }
        let pos = match match_tag(input, pos, &semi) {
            None => {
                return Err(VmError::ParseError);
            },
            Some(p) => p,
        };
        Ok((Input { register: Register::Locator(locator), plaintext_type }, pos))
    }

    /// Parses a whole string as one input statement, refusing a failed
    /// parse and trailing input alike.
    pub fn from_str(input: &Vec<u8>) -> (r: Result<Input, VmError>)
        ensures
            r is Ok <==> (spec_parse_input(input@) matches Some(t) && t.2 == input@.len()),
            r matches Ok(inp) ==> inp.register is Locator && spec_parse_input(input@) == Some(
                (
                    register_locator(inp.register),
                    plaintext_type_view(inp.plaintext_type),
                    input@.len() as int,
                ),
            ),
            r matches Err(e) ==> e == VmError::ParseError,
    {
        match Input::parse(input) {
            Ok((inp, n)) => {
                if n == input.len() {
                    Ok(inp)
                } else {
                    Err(VmError::ParseError)
                }
            },
            Err(e) => Err(e),
        }
    }

    /// Renders the statement in its canonical textual form:
    /// `input r<locator> as <type>.public;`.
    pub fn to_text(&self) -> (r: Vec<u8>)
        ensures
            r@ == spec_input_text(*self),
    {
        let mut out: Vec<u8> = Vec::new();
        crate::command::push_all(&mut out, &vec![105, 110, 112, 117, 116, 32, 114]);
        let n = match &self.register {
            Register::Locator(n) => *n,
            Register::Member(n, _) => *n,
        };
        crate::command::push_decimal(&mut out, n);
        crate::command::push_all(&mut out, &vec![32, 97, 115, 32]);
        let ghost mid = out@;
        match &self.plaintext_type {
            PlaintextType::Literal(LiteralType::Bool) => {
                crate::command::push_all(&mut out, &vec![98, 111, 111, 108, 101, 97, 110]);
            },
            PlaintextType::Literal(LiteralType::Field) => {
                crate::command::push_all(&mut out, &vec![102, 105, 101, 108, 100]);
            },
            PlaintextType::Literal(LiteralType::Group) => {
                crate::command::push_all(&mut out, &vec![103, 114, 111, 117, 112]);
            },
            PlaintextType::Literal(LiteralType::Scalar) => {
                crate::command::push_all(&mut out, &vec![115, 99, 97, 108, 97, 114]);
            },
            PlaintextType::Literal(LiteralType::Address) => {
                crate::command::push_all(&mut out, &vec![97, 100, 100, 114, 101, 115, 115]);
            },
            PlaintextType::Struct(id) => {
                crate::command::push_all(&mut out, &id.bytes);
            },
        }
        proof {
            assert(out@ =~= mid + type_name_bytes(self.plaintext_type));
        }
        crate::command::push_all(&mut out, &vec![46, 112, 117, 98, 108, 105, 99, 59]);
        proof {
            assert(out@ =~= spec_input_text(*self));
        }
        out
    }
}

/// The order of two inputs: by register locator.
pub open spec fn spec_input_cmp(a: Input, b: Input) -> core::cmp::Ordering {
    if register_locator(a.register) < register_locator(b.register) {
        core::cmp::Ordering::Less
    } else if register_locator(a.register) == register_locator(b.register) {
        core::cmp::Ordering::Equal
    } else {
        core::cmp::Ordering::Greater
    }
}

/// The plaintext type a type name denotes: a literal type for the
/// reserved names, a struct type otherwise.
fn literal_type_of(name: &Identifier) -> (r: PlaintextType)
    ensures
        plaintext_type_view(r) == spec_type_of_name(name.bytes@),
{
    proof {
        assert(seq![102u8, 105u8, 101u8, 108u8, 100u8] =~= field_tag_bytes());
        assert(seq![98u8, 111u8, 111u8, 108u8, 101u8, 97u8, 110u8] =~= boolean_tag_bytes());
        assert(seq![103u8, 114u8, 111u8, 117u8, 112u8] =~= group_tag_bytes());
        assert(seq![115u8, 99u8, 97u8, 108u8, 97u8, 114u8] =~= scalar_tag_bytes());
        assert(seq![97u8, 100u8, 100u8, 114u8, 101u8, 115u8, 115u8] =~= address_tag_bytes());
    }
    let field_name: Vec<u8> = vec![102, 105, 101, 108, 100];
    let bool_name: Vec<u8> = vec![98, 111, 111, 108, 101, 97, 110];
    let group_name: Vec<u8> = vec![103, 114, 111, 117, 112];
    let scalar_name: Vec<u8> = vec![115, 99, 97, 108, 97, 114];
    let address_name: Vec<u8> = vec![97, 100, 100, 114, 101, 115, 115];
    proof {
        assert(field_name@ =~= field_tag_bytes());
        assert(bool_name@ =~= boolean_tag_bytes());
        assert(group_name@ =~= group_tag_bytes());
        assert(scalar_name@ =~= scalar_tag_bytes());
        assert(address_name@ =~= address_tag_bytes());
    }
    if eq_bytes(&name.bytes, &field_name) {
        PlaintextType::Literal(LiteralType::Field)
    } else if eq_bytes(&name.bytes, &bool_name) {
        PlaintextType::Literal(LiteralType::Bool)
    } else if eq_bytes(&name.bytes, &group_name) {
        PlaintextType::Literal(LiteralType::Group)
    } else if eq_bytes(&name.bytes, &scalar_name) {
        PlaintextType::Literal(LiteralType::Scalar)
    } else if eq_bytes(&name.bytes, &address_name) {
        PlaintextType::Literal(LiteralType::Address)
    } else {
        PlaintextType::Struct(Identifier { bytes: copy_bytes(&name.bytes) })
    }
}

/// Compares two byte vectors.
fn eq_bytes(a: &Vec<u8>, b: &Vec<u8>) -> (r: bool)
    ensures
        r == (a@ == b@),
{
    if a.len() != b.len() {
        proof {
            assert(a@ != b@);
        }
        return false;
    }
    let mut i: usize = 0;
    while i < a.len()
        invariant
            0 <= i <= a@.len(),
            a@.len() == b@.len(),
            forall|j: int| 0 <= j < i ==> a@[j] == b@[j],
        decreases a@.len() - i,
    {
        if a[i] != b[i] {
            proof {
                assert(a@[i as int] != b@[i as int]);
            }
            return false;
        }
        i += 1;
    }
    proof {
        assert(a@ =~= b@);
    }
    true
}

/// Copies a byte vector.
fn copy_bytes(a: &Vec<u8>) -> (r: Vec<u8>)
    ensures
        r@ == a@,
{
    let r = a.clone();
    proof {
        assert(r@ =~= a@);
    }
    r
}

} // verus!
