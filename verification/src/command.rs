//! The finalize `set` command: `set <value> into <mapping>[<key>];`.
//!
//! Executed deterministically by every validating party after proof
//! verification, it resolves its key and value operands against the
//! register environment and upserts the pair into the program's mapping.
//! It either writes exactly one binding or fails leaving the store
//! untouched.

use vstd::prelude::*;

use crate::errors::VmError;
use crate::lookup::{find_path_pt, path_view};
use crate::opcode::Opcode;
use crate::plaintext::{pt_view, Identifier, Literal, Plaintext, PlaintextV};
use crate::stack::{Stack, Value};
use crate::store::{spec_contains_mapping, spec_get, value_view, ProgramStore, ValueV};

verus! {

/// A register reference: a whole register, or a member path into one.
pub enum Register {
    Locator(u64),
    Member(u64, Vec<Identifier>),
}

/// An instruction operand: an immediate literal, or a register reference.
pub enum Operand {
    Literal(Literal),
    Register(Register),
}

/// The finalize register environment: one plaintext per register, indexed
/// by locator.
pub struct FinalizeRegisters {
    pub regs: Vec<Plaintext>,
}

/// The plaintext an operand resolves to in the environment: an immediate
/// literal as itself, a register by its locator, a member by walking the
/// path into the register's value.
pub open spec fn spec_load(regs: FinalizeRegisters, op: Operand) -> Option<PlaintextV> {
    match op {
        Operand::Literal(l) => Some(PlaintextV::Literal(l)),
        Operand::Register(Register::Locator(n)) => if n < regs.regs@.len() {
            Some(pt_view(regs.regs@[n as int]))
        } else {
            None
        },
        Operand::Register(Register::Member(n, path)) => if n < regs.regs@.len() {
            find_path_pt(pt_view(regs.regs@[n as int]), path_view(path@), 0)
        } else {
            None
        },
    }
}

impl FinalizeRegisters {
    /// Resolves an operand to a plaintext, or fails naming the register
    /// that does not resolve.
    pub fn load_plaintext(&self, op: &Operand) -> (r: Result<Plaintext, VmError>)
        ensures
            r is Ok <==> spec_load(*self, *op) is Some,
            r matches Ok(p) ==> spec_load(*self, *op) == Some(pt_view(p)),
            r matches Err(e) ==> e == VmError::RegisterNotFound,
    {
        match op {
            Operand::Literal(l) => Ok(Plaintext::Literal(*l)),
            Operand::Register(Register::Locator(n)) => {
                if *n < self.regs.len() as u64 {
                    Ok(self.regs[*n as usize].clone())
                } else {
                    Err(VmError::RegisterNotFound)
                }
            },
            Operand::Register(Register::Member(n, path)) => {
                if *n < self.regs.len() as u64 {
                    match crate::lookup::descend(&self.regs[*n as usize], path, 0) {
                        Some(p) => Ok(p),
                        None => Err(VmError::RegisterNotFound),
                    }
                } else {
                    Err(VmError::RegisterNotFound)
                }
            },
        }
    }
}

impl Clone for Register {
    /// The copy resolves as the original does.
    fn clone(&self) -> (r: Self)
        ensures
            register_eq(r, *self),
    {
        match self {
            Register::Locator(n) => Register::Locator(*n),
            Register::Member(n, path) => {
                let mut p2: Vec<Identifier> = Vec::new();
                let mut i: usize = 0;
                while i < path.len()
                    invariant
                        0 <= i <= path@.len(),
                        p2@.len() == i,
                        forall|j: int| 0 <= j < i ==> (#[trigger] p2@[j]).bytes@ == path@[j].bytes@,
                    decreases path@.len() - i,
                {
                    p2.push(path[i].clone());
                    i += 1;
                }
                proof {
                    assert(path_view(p2@) =~= path_view(path@));
                }
                Register::Member(*n, p2)
            },
        }
    }
}

/// Equality of register references, by view.
pub open spec fn register_eq(a: Register, b: Register) -> bool {
    match (a, b) {
        (Register::Locator(x), Register::Locator(y)) => x == y,
        (Register::Member(x, px), Register::Member(y, py)) => x == y && path_view(px@)
            == path_view(py@),
        _ => false,
    }
}

/// Equality of operands, by view.
pub open spec fn operand_eq(a: Operand, b: Operand) -> bool {
    match (a, b) {
        (Operand::Literal(x), Operand::Literal(y)) => x == y,
        (Operand::Register(x), Operand::Register(y)) => register_eq(x, y),
        _ => false,
    }
}

/// The view of an operand: its literal, or its register as plain values.
pub enum OperandV {
    Literal(Literal),
    Locator(u64),
    Member(u64, Seq<Seq<u8>>),
}

/// The view of an operand.
pub open spec fn operand_view(op: Operand) -> OperandV {
    match op {
        Operand::Literal(l) => OperandV::Literal(l),
        Operand::Register(Register::Locator(n)) => OperandV::Locator(n),
        Operand::Register(Register::Member(n, path)) => OperandV::Member(
            n,
            crate::lookup::path_view(path@),
        ),
    }
}

pub open spec fn set_tag_bytes() -> Seq<u8> {
    seq![115u8, 101u8, 116u8]
}

pub open spec fn into_tag_bytes() -> Seq<u8> {
    seq![105u8, 110u8, 116u8, 111u8]
}

pub open spec fn true_tag_bytes() -> Seq<u8> {
    seq![116u8, 114u8, 117u8, 101u8]
}

pub open spec fn false_tag_bytes() -> Seq<u8> {
    seq![102u8, 97u8, 108u8, 115u8, 101u8]
}

pub open spec fn field_tag_bytes() -> Seq<u8> {
    seq![102u8, 105u8, 101u8, 108u8, 100u8]
}

pub open spec fn scalar_tag_bytes() -> Seq<u8> {
    seq![115u8, 99u8, 97u8, 108u8, 97u8, 114u8]
}

pub open spec fn group_tag_bytes() -> Seq<u8> {
    seq![103u8, 114u8, 111u8, 117u8, 112u8]
}

pub open spec fn address_suffix_bytes() -> Seq<u8> {
    seq![97u8, 100u8, 100u8, 114u8, 101u8, 115u8, 115u8]
}

/// The dotted member path read at `j`: each `.` must be followed by an
/// identifier; the path ends at the first byte that is no dot.
pub open spec fn spec_parse_path_text(s: Seq<u8>, j: int) -> Option<(Seq<Seq<u8>>, int)>
    decreases s.len() - j,
{
    if !(0 <= j < s.len() && s[j] == 46) {
        Some((Seq::empty(), j))
    } else {
        match spec_parse_ident(s, j + 1) {
            None => None,
            Some((name, e)) => {
                if e > j + 1 && e <= s.len() {
                    match spec_parse_path_text(s, e) {
                        None => None,
                        Some((rest, k)) => Some((seq![name] + rest, k)),
                    }
                } else {
                    None
                }
            },
        }
    }
}

/// The operand read at `i`: a register `r<locator>`, the booleans, or a
/// number with its literal-type suffix, range-checked.
pub open spec fn spec_parse_operand(s: Seq<u8>, i: int) -> Option<(OperandV, int)> {
    if !(0 <= i < s.len()) {
        None
    } else {
        let b = s[i];
        if b == 114 && i + 1 < s.len() && is_digit(s[i + 1]) {
            match spec_parse_u64(s, i + 1) {
                None => None,
                Some((n, j)) => match spec_parse_path_text(s, j) {
                    None => None,
                    Some((path, k)) => {
                        if path.len() == 0 {
                            Some((OperandV::Locator(n), k))
                        } else {
                            Some((OperandV::Member(n, path), k))
                        }
                    },
                },
            }
        } else if b == 116 {
            match spec_tag_at(s, i, true_tag_bytes()) {
                None => None,
                Some(j) => Some((OperandV::Literal(Literal::Bool(true)), j)),
            }
        } else if b == 102 {
            match spec_tag_at(s, i, false_tag_bytes()) {
                None => None,
                Some(j) => Some((OperandV::Literal(Literal::Bool(false)), j)),
            }
        } else if is_digit(b) {
            match spec_parse_u64(s, i) {
                None => None,
                Some((v, j)) => {
                    if spec_tag_at(s, j, field_tag_bytes()) is Some {
                        if v < crate::algebra::FIELD_MODULUS {
                            Some(
                                (
                                    OperandV::Literal(
                                        Literal::Field(crate::algebra::Field { value: v }),
                                    ),
                                    j + 5,
                                ),
                            )
                        } else {
                            None
                        }
                    } else if spec_tag_at(s, j, scalar_tag_bytes()) is Some {
                        if v < crate::algebra::GROUP_ORDER {
                            Some(
                                (
                                    OperandV::Literal(
                                        Literal::Scalar(crate::algebra::Scalar { value: v }),
                                    ),
                                    j + 6,
                                ),
                            )
                        } else {
                            None
                        }
                    } else if spec_tag_at(s, j, group_tag_bytes()) is Some {
                        if v < crate::algebra::GROUP_ORDER {
                            Some(
                                (
                                    OperandV::Literal(
                                        Literal::Group(crate::algebra::Group { exponent: v }),
                                    ),
                                    j + 5,
                                ),
                            )
                        } else {
                            None
                        }
                    } else if spec_tag_at(s, j, address_suffix_bytes()) is Some {
                        if v < crate::algebra::GROUP_ORDER {
                            Some(
                                (
                                    OperandV::Literal(
                                        Literal::Address(
                                            crate::algebra::Address {
                                                element: crate::algebra::Group { exponent: v },
                                            },
                                        ),
                                    ),
                                    j + 7,
                                ),
                            )
                        } else {
                            None
                        }
                    } else {
                        None
                    }
                },
            }
        } else {
            None
        }
    }
}

/// The `set` command read from the start of `s`: its grammar is
/// `set <value> into <mapping>[<key>];` with whitespace runs between the
/// tokens; the result is the mapping name, the key and value operands, and
/// the position after the closing `;`.
pub open spec fn spec_parse_set(s: Seq<u8>) -> Option<(Seq<u8>, OperandV, OperandV, int)> {
    let p1 = spec_skip_ws(s, 0);
    match spec_tag_at(s, p1, set_tag_bytes()) {
        None => None,
        Some(p2) => {
            let p3 = spec_skip_ws(s, p2);
            match spec_parse_operand(s, p3) {
                None => None,
                Some((value, p4)) => {
                    let p5 = spec_skip_ws(s, p4);
                    match spec_tag_at(s, p5, into_tag_bytes()) {
                        None => None,
                        Some(p6) => {
                            let p7 = spec_skip_ws(s, p6);
                            match spec_parse_ident(s, p7) {
                                None => None,
                                Some((mapping, p8)) => match spec_tag_at(s, p8, seq![91u8]) {
                                    None => None,
                                    Some(p9) => {
                                        let p10 = spec_skip_ws(s, p9);
                                        match spec_parse_operand(s, p10) {
                                            None => None,
                                            Some((key, p11)) => {
                                                let p12 = spec_skip_ws(s, p11);
                                                match spec_tag_at(s, p12, seq![93u8]) {
                                                    None => None,
                                                    Some(p13) => {
                                                        let p14 = spec_skip_ws(s, p13);
                                                        match spec_tag_at(s, p14, seq![59u8]) {
                                                            None => None,
                                                            Some(p15) => Some(
                                                                (mapping, key, value, p15),
                                                            ),
                                                        }
                                                    },
                                                }
                                            },
                                        }
                                    },
                                },
                            }
                        },
                    }
                },
            }
        },
    }
}

impl Clone for Operand {
    /// The copy resolves as the original does.
    fn clone(&self) -> (r: Self)
        ensures
            operand_eq(r, *self),
    {
        match self {
            Operand::Literal(l) => Operand::Literal(*l),
            Operand::Register(rg) => Operand::Register(rg.clone()),
        }
    }
}

/// The `set` command: writes `key -> value` into a declared mapping.
pub struct SetCommand {
    pub mapping: Identifier,
    pub key: Operand,
    pub value: Operand,
}

impl SetCommand {
    /// Returns the command's opcode.
    pub fn opcode() -> (r: Opcode)
        ensures
            r matches Opcode::Command(s) && s@ == "set"@,
    {
        Opcode::Command("set".to_string())
    }

    /// Returns the operands of the operation: the value first, then the
    /// key, as the textual form lists them.
    pub fn operands(&self) -> (r: Vec<Operand>)
        ensures
            r@.len() == 2,
            operand_eq(r@[0], self.value),
            operand_eq(r@[1], self.key),
    {
        let mut out: Vec<Operand> = Vec::new();
        out.push(self.value.clone());
        out.push(self.key.clone());
        out
    }

    /// Returns the mapping name.
    pub fn mapping_name(&self) -> (r: &Identifier)
        ensures
            r.bytes@ == self.mapping.bytes@,
    {
        &self.mapping
    }

    /// Returns the operand containing the key.
    pub fn key(&self) -> (r: &Operand)
        ensures
            operand_eq(*r, self.key),
    {
        proof {
            lemma_operand_eq_refl(self.key);
        }
        &self.key
    }

    /// Returns the operand containing the value.
    pub fn value(&self) -> (r: &Operand)
        ensures
            operand_eq(*r, self.value),
    {
        proof {
            lemma_operand_eq_refl(self.value);
        }
        &self.value
    }

    /// Finalizes the command against the store: requires the mapping to be
    /// declared, resolves both operands, and upserts `key -> value` into
    /// the program's mapping. On any failure the store is left exactly as
    /// it was: there are no partial effects.
    pub fn finalize(&self, stack: &Stack, store: &mut ProgramStore, registers: &FinalizeRegisters) -> (r:
        Result<(), VmError>)
        ensures
            r is Ok <==> (spec_contains_mapping(
                *old(store),
                stack.program.id.bytes@,
                self.mapping.bytes@,
            ) && spec_load(*registers, self.key) is Some && spec_load(*registers, self.value)
                is Some),
            r is Err ==> *final(store) == *old(store),
            r matches Err(e) ==> (e == VmError::MappingNotFound <==> !spec_contains_mapping(
                *old(store),
                stack.program.id.bytes@,
                self.mapping.bytes@,
            )),
            final(store).declared == old(store).declared,
            r is Ok ==> spec_get(
                *final(store),
                stack.program.id.bytes@,
                self.mapping.bytes@,
                spec_load(*registers, self.key).unwrap(),
            ) == Some(ValueV::Plaintext(spec_load(*registers, self.value).unwrap())),
            r is Ok ==> forall|p2: Seq<u8>, m2: Seq<u8>, k2: PlaintextV|
                !(p2 == stack.program.id.bytes@ && m2 == self.mapping.bytes@ && crate::plaintext::pt_eq_v(
                    k2,
                    spec_load(*registers, self.key).unwrap(),
                )) ==> spec_get(*final(store), p2, m2, k2) == spec_get(*old(store), p2, m2, k2),
    {
        // The mapping must already exist in storage.
        if !store.contains_mapping(&stack.program.id, &self.mapping) {
            return Err(VmError::MappingNotFound);
        }
        // Resolve the key operand.
        let key = match registers.load_plaintext(&self.key) {
            Ok(k) => k,
            Err(e) => {
                return Err(e);
            },
        };
        // Resolve the value operand.
        let value = match registers.load_plaintext(&self.value) {
            Ok(v) => Value::Plaintext(v),
            Err(e) => {
                return Err(e);
            },
        };
        // Upsert the pair into storage.
        match store.update_key_value(&stack.program.id, &self.mapping, key, value) {
            Ok(_) => Ok(()),
            Err(e) => Err(e),
        }
    }
}

/// Operand equality is reflexive.
pub proof fn lemma_operand_eq_refl(a: Operand)
    ensures
        operand_eq(a, a),
{
}


/// A whitespace byte: space, tab, carriage return or newline.
pub open spec fn is_ws(b: u8) -> bool {
    b == 32 || b == 9 || b == 13 || b == 10
}

/// A decimal digit byte.
pub open spec fn is_digit(b: u8) -> bool {
    48 <= b && b <= 57
}

/// The first position at or after `i` holding no whitespace.
pub open spec fn spec_skip_ws(s: Seq<u8>, i: int) -> int
    decreases s.len() - i,
{
    if 0 <= i < s.len() && is_ws(s[i]) {
        spec_skip_ws(s, i + 1)
    } else {
        i
    }
}

/// Matching a literal at `i`: the position after it, if the bytes at `i`
/// are exactly the literal.
pub open spec fn spec_tag_at(s: Seq<u8>, i: int, tag: Seq<u8>) -> Option<int> {
    if 0 <= i && i + tag.len() <= s.len() && s.subrange(i, i + tag.len()) == tag {
        Some(i + tag.len())
    } else {
        None
    }
}

/// The end of the identifier-byte run starting at `i`.
pub open spec fn spec_ident_end(s: Seq<u8>, i: int) -> int
    decreases s.len() - i,
{
    if 0 <= i < s.len() && crate::plaintext::is_ident_byte(s[i]) {
        spec_ident_end(s, i + 1)
    } else {
        i
    }
}

/// The identifier read at `i`: the maximal identifier-byte run, which must
/// be nonempty and a well-formed name.
pub open spec fn spec_parse_ident(s: Seq<u8>, i: int) -> Option<(Seq<u8>, int)> {
    let e = spec_ident_end(s, i);
    if e == i {
        None
    } else if crate::plaintext::ident_valid(s.subrange(i, e)) {
        Some((s.subrange(i, e), e))
    } else {
        None
    }
}

/// The decimal number scanned from `i` with accumulator `acc`; `None` on a
/// 64-bit overflow.
pub open spec fn spec_scan_u64(s: Seq<u8>, i: int, acc: u64) -> Option<(u64, int)>
    decreases s.len() - i,
{
    if 0 <= i < s.len() && is_digit(s[i]) {
        let d = (s[i] - 48) as u64;
        if acc > (u64::MAX - d) / 10 {
            None
        } else {
            spec_scan_u64(s, i + 1, (acc * 10 + d) as u64)
        }
    } else {
        Some((acc, i))
    }
}

/// The decimal number read at `i`: at least one digit, no overflow.
pub open spec fn spec_parse_u64(s: Seq<u8>, i: int) -> Option<(u64, int)> {
    if 0 <= i < s.len() && is_digit(s[i]) {
        spec_scan_u64(s, i, 0)
    } else {
        None
    }
}

/// Skips spaces, tabs, carriage returns and newlines.
pub fn skip_ws(input: &Vec<u8>, pos: usize) -> (r: usize)
    requires
        pos <= input@.len(),
    ensures
        r == spec_skip_ws(input@, pos as int),
        pos <= r <= input@.len(),
{
    let mut i = pos;
    while i < input.len()
        invariant
            pos <= i <= input@.len(),
            spec_skip_ws(input@, pos as int) == spec_skip_ws(input@, i as int),
        decreases input@.len() - i,
    {
        let b = input[i];
        if b == 32 || b == 9 || b == 13 || b == 10 {
            i += 1;
        } else {
            return i;
        }
    }
    i
}

/// Matches the given literal bytes at `pos`, returning the position after
/// them.
pub fn match_tag(input: &Vec<u8>, pos: usize, tag: &Vec<u8>) -> (r: Option<usize>)
    requires
        pos <= input@.len(),
    ensures
        r is Some == spec_tag_at(input@, pos as int, tag@) is Some,
        r matches Some(n) ==> n == pos + tag@.len() && n <= input@.len() && spec_tag_at(
            input@,
            pos as int,
            tag@,
        ) == Some(n as int),
{
    if input.len() - pos < tag.len() {
        return None;
    }
    let mut i: usize = 0;
    while i < tag.len()
        invariant
            0 <= i <= tag@.len(),
            pos + tag@.len() <= input@.len(),
            input@.len() <= usize::MAX,
            forall|j: int| 0 <= j < i ==> input@[pos + j] == tag@[j],
        decreases tag@.len() - i,
    {
        if input[pos + i] != tag[i] {
            proof {
                assert(input@.subrange(pos as int, pos + tag@.len())[i as int] != tag@[i as int]);
            }
            return None;
        }
        i += 1;
    }
    proof {
        assert(input@.subrange(pos as int, pos + tag@.len()) =~= tag@);
    }
    Some(pos + tag.len())
}

/// True if the byte at `i` may continue an identifier.
fn ident_byte_at(input: &Vec<u8>, i: usize) -> (r: bool)
    requires
        i < input@.len(),
    ensures
        r == crate::plaintext::is_ident_byte(input@[i as int]),
{
    let b = input[i];
    (97 <= b && b <= 122) || (48 <= b && b <= 57) || b == 95
}

/// True if the byte at `i` is a decimal digit.
fn digit_at(input: &Vec<u8>, i: usize) -> (r: bool)
    requires
        i < input@.len(),
    ensures
        r == is_digit(input@[i as int]),
{
    let b = input[i];
    48 <= b && b <= 57
}

/// Reads an identifier at `pos`: a lowercase letter followed by letters,
/// digits or underscores.
pub fn parse_ident(input: &Vec<u8>, pos: usize) -> (r: Option<(Identifier, usize)>)
    requires
        pos <= input@.len(),
    ensures
        r is Some == spec_parse_ident(input@, pos as int) is Some,
        r matches Some((id, n)) ==> pos < n <= input@.len() && id.is_valid() && spec_parse_ident(
            input@,
            pos as int,
        ) == Some((id.bytes@, n as int)),
{
    let mut i = pos;
    let mut bytes: Vec<u8> = Vec::new();
    while i < input.len() && ident_byte_at(input, i)
        invariant
            pos <= i <= input@.len(),
            bytes@.len() == i - pos,
            forall|j: int| 0 <= j < i - pos ==> #[trigger] bytes@[j] == input@[pos + j],
            spec_ident_end(input@, pos as int) == spec_ident_end(input@, i as int),
        decreases input@.len() - i,
    {
        bytes.push(input[i]);
        i += 1;
    }
    proof {
        assert(spec_ident_end(input@, pos as int) == i);
        assert(bytes@ =~= input@.subrange(pos as int, i as int));
    }
    if i == pos {
        return None;
    }
    match Identifier::from_bytes(bytes) {
        None => None,
        Some(id) => Some((id, i)),
    }
}

/// Reads an unsigned decimal number at `pos`.
pub fn parse_u64(input: &Vec<u8>, pos: usize) -> (r: Option<(u64, usize)>)
    requires
        pos <= input@.len(),
    ensures
        r is Some == spec_parse_u64(input@, pos as int) is Some,
        r matches Some((v, n)) ==> pos < n <= input@.len() && spec_parse_u64(input@, pos as int)
            == Some((v, n as int)),
{
    if pos >= input.len() {
        return None;
    }
    let b0 = input[pos];
    if !(48 <= b0 && b0 <= 57) {
        return None;
    }
    let mut i = pos;
    let mut value: u64 = 0;
    while i < input.len() && digit_at(input, i)
        invariant
            pos <= i <= input@.len(),
            spec_scan_u64(input@, pos as int, 0) == spec_scan_u64(input@, i as int, value),
        decreases input@.len() - i,
    {
        let b = input[i];
        let d: u64 = (b - 48) as u64;
        if value > (u64::MAX - d) / 10 {
            return None;
        }
        value = value * 10 + d;
        i += 1;
    }
    Some((value, i))
}

/// Reads the dotted member path after a register's locator, yielding the
/// register operand.
fn parse_register_path(input: &Vec<u8>, locator: u64, start: usize) -> (r: Option<
    (Operand, usize),
>)
    requires
        start <= input@.len(),
    ensures
        r is Some == spec_parse_path_text(input@, start as int) is Some,
        r matches Some((op, n)) ==> start <= n <= input@.len() && (spec_parse_path_text(
            input@,
            start as int,
        ) matches Some(t) && t == (
            match op {
                Operand::Register(Register::Member(_, path)) => crate::lookup::path_view(path@),
                _ => Seq::<Seq<u8>>::empty(),
            },
            n as int,
        )) && operand_view(op) == (match op {
            Operand::Register(Register::Member(_, path)) => OperandV::Member(
                locator,
                crate::lookup::path_view(path@),
            ),
            _ => OperandV::Locator(locator),
        }),
        r matches Some((op, n)) ==> (match op {
            Operand::Register(Register::Member(_, path)) => path@.len() > 0,
            _ => true,
        }),
{
    let mut path: Vec<Identifier> = Vec::new();
    let mut p = start;
    proof {
        if spec_parse_path_text(input@, start as int) is Some {
            let t = spec_parse_path_text(input@, start as int).unwrap();
            assert(Seq::<Seq<u8>>::empty() + t.0 =~= t.0);
        }
    }
    while p < input.len() && input[p] == 46
        invariant
            start <= p <= input@.len(),
            path@.len() > 0 ==> p > start,
            spec_parse_path_text(input@, start as int) is Some == spec_parse_path_text(
                input@,
                p as int,
            ) is Some,
            spec_parse_path_text(input@, start as int) matches Some(t) ==> (spec_parse_path_text(
                input@,
                p as int,
            ) matches Some(u) && t == (crate::lookup::path_view(path@) + u.0, u.1)),
        decreases input@.len() - p,
    {
        let (id, e) = match parse_ident(input, p + 1) {
            None => {
                return None;
            },
            Some(x) => x,
        };
        let ghost oldpath = path@;
        path.push(id);
        proof {
            assert(crate::lookup::path_view(path@) =~= crate::lookup::path_view(oldpath) + seq![
                id.bytes@,
            ]);
            if spec_parse_path_text(input@, start as int) is Some {
                let u = spec_parse_path_text(input@, p as int).unwrap();
                let w = spec_parse_path_text(input@, e as int).unwrap();
                assert(u.0 == seq![id.bytes@] + w.0);
                assert(crate::lookup::path_view(oldpath) + (seq![id.bytes@] + w.0) =~= (
                crate::lookup::path_view(oldpath) + seq![id.bytes@]) + w.0);
            }
        }
        p = e;
    }
    if path.len() == 0 {
        proof {
            if spec_parse_path_text(input@, start as int) is Some {
                let t = spec_parse_path_text(input@, start as int).unwrap();
                assert(t.0 =~= Seq::<Seq<u8>>::empty());
            }
        }
        Some((Operand::Register(Register::Locator(locator)), p))
    } else {
        let op = Operand::Register(Register::Member(locator, path));
        proof {
            if spec_parse_path_text(input@, start as int) is Some {
                let t = spec_parse_path_text(input@, start as int).unwrap();
                assert(t.0 =~= (match op {
                    Operand::Register(Register::Member(_, pp)) => crate::lookup::path_view(pp@),
                    _ => Seq::<Seq<u8>>::empty(),
                }));
            }
        }
        Some((op, p))
    }
}

/// Reads an operand at `pos`: a register `r<locator>` with an optional
/// dotted member path, the literals `true` and `false`, or a number with a
/// `field`, `scalar`, `group` or `address` suffix.
pub fn parse_operand(input: &Vec<u8>, pos: usize) -> (r: Option<(Operand, usize)>)
    requires
        pos <= input@.len(),
    ensures
        r is Some == spec_parse_operand(input@, pos as int) is Some,
        r matches Some((op, n)) ==> pos < n <= input@.len() && spec_parse_operand(
            input@,
            pos as int,
        ) == Some((operand_view(op), n as int)),
{
    if pos >= input.len() {
        return None;
    }
    let b = input[pos];
    if b == 114 && pos + 1 < input.len() && 48 <= input[pos + 1] && input[pos + 1] <= 57 {
        // A register: `r`, digits, then a possibly empty dotted member path.
        match parse_u64(input, pos + 1) {
            None => None,
            Some((n, after)) => {
                let r2 = parse_register_path(input, n, after);
                proof {
                    if r2 is Some {
                        let (op, k) = r2.unwrap();
                        match op {
                            Operand::Register(Register::Member(_, path)) => {
                                assert(crate::lookup::path_view(path@).len() == path@.len());
                            },
                            _ => {},
                        }
                        assert(spec_parse_operand(input@, pos as int) == Some(
                            (operand_view(op), k as int),
                        ));
                    }
                }
                r2
            },
        }
    } else if b == 116 {
        let tag: Vec<u8> = vec![116, 114, 117, 101];
        proof {
            assert(tag@ =~= true_tag_bytes());
        }
        match match_tag(input, pos, &tag) {
            None => None,
            Some(after) => Some(
                (Operand::Literal(crate::plaintext::Literal::Bool(true)), after),
            ),
        }
    } else if b == 102 {
        let tag: Vec<u8> = vec![102, 97, 108, 115, 101];
        proof {
            assert(tag@ =~= false_tag_bytes());
        }
        match match_tag(input, pos, &tag) {
            None => None,
            Some(after) => Some(
                (Operand::Literal(crate::plaintext::Literal::Bool(false)), after),
            ),
        }
    } else if 48 <= b && b <= 57 {
        let (v, after) = match parse_u64(input, pos) {
            None => {
                return None;
            },
            Some(x) => x,
        };
        let field_tag: Vec<u8> = vec![102, 105, 101, 108, 100];
        let scalar_tag: Vec<u8> = vec![115, 99, 97, 108, 97, 114];
        let group_tag: Vec<u8> = vec![103, 114, 111, 117, 112];
        proof {
            assert(field_tag@ =~= field_tag_bytes());
            assert(scalar_tag@ =~= scalar_tag_bytes());
            assert(group_tag@ =~= group_tag_bytes());
        }
        if let Some(after2) = match_tag(input, after, &field_tag) {
            if v < crate::algebra::FIELD_MODULUS {
                return Some(
                    (
                        Operand::Literal(
                            crate::plaintext::Literal::Field(crate::algebra::Field { value: v }),
                        ),
                        after2,
                    ),
                );
            }
            return None;
        }
        if let Some(after2) = match_tag(input, after, &scalar_tag) {
            if v < crate::algebra::GROUP_ORDER {
                return Some(
                    (
                        Operand::Literal(
                            crate::plaintext::Literal::Scalar(crate::algebra::Scalar { value: v }),
                        ),
                        after2,
                    ),
                );
            }
            return None;
        }
        if let Some(after2) = match_tag(input, after, &group_tag) {
            if v < crate::algebra::GROUP_ORDER {
                return Some(
                    (
                        Operand::Literal(
                            crate::plaintext::Literal::Group(
                                crate::algebra::Group { exponent: v },
                            ),
                        ),
                        after2,
                    ),
                );
            }
            return None;
        }
        let address_tag: Vec<u8> = vec![97, 100, 100, 114, 101, 115, 115];
        proof {
            assert(address_tag@ =~= address_suffix_bytes());
        }
        if let Some(after2) = match_tag(input, after, &address_tag) {
            if v < crate::algebra::GROUP_ORDER {
                return Some(
                    (
                        Operand::Literal(
                            crate::plaintext::Literal::Address(
                                crate::algebra::Address {
                                    element: crate::algebra::Group { exponent: v },
                                },
                            ),
                        ),
                        after2,
                    ),
                );
            }
            return None;
        }
        None
    } else {
        None
    }
}

impl SetCommand {
    /// Parses the textual form `set <value> into <mapping>[<key>];`,
    /// returning the command and how much of the input it consumed.
    /// The surrounding instruction grammar is not this crate's concern;
    /// the contract promises a well-formed command on success.
    pub fn parse(input: &Vec<u8>) -> (r: Result<(SetCommand, usize), VmError>)
        ensures
            r is Ok == spec_parse_set(input@) is Some,
            r matches Ok((c, n)) ==> n <= input@.len() && c.mapping.is_valid() && spec_parse_set(
                input@,
            ) == Some((c.mapping.bytes@, operand_view(c.key), operand_view(c.value), n as int)),
            r matches Err(e) ==> e == VmError::ParseError,
    {
        let pos = skip_ws(input, 0);
        let set_tag: Vec<u8> = vec![115, 101, 116];
        proof {
            assert(set_tag@ =~= set_tag_bytes());
        }
        let pos = match match_tag(input, pos, &set_tag) {
            None => {
                return Err(VmError::ParseError);
            },
            Some(p) => p,
        };
        let pos = skip_ws(input, pos);
        let (value, pos) = match parse_operand(input, pos) {
            None => {
                return Err(VmError::ParseError);
            },
            Some(x) => x,
        };
        let pos = skip_ws(input, pos);
        let into_tag: Vec<u8> = vec![105, 110, 116, 111];
        proof {
            assert(into_tag@ =~= into_tag_bytes());
        }
        let pos = match match_tag(input, pos, &into_tag) {
            None => {
                return Err(VmError::ParseError);
            },
            Some(p) => p,
        };
        let pos = skip_ws(input, pos);
        let (mapping, pos) = match parse_ident(input, pos) {
            None => {
                return Err(VmError::ParseError);
            },
            Some(x) => x,
        };
        let open_tag: Vec<u8> = vec![91];
        proof {
            assert(open_tag@ =~= seq![91u8]);
        }
        let pos = match match_tag(input, pos, &open_tag) {
            None => {
                return Err(VmError::ParseError);
            },
            Some(p) => p,
        };
        let pos = skip_ws(input, pos);
        let (key, pos) = match parse_operand(input, pos) {
            None => {
                return Err(VmError::ParseError);
            },
            Some(x) => x,
        };
        let pos = skip_ws(input, pos);
        let close_tag: Vec<u8> = vec![93];
        proof {
            assert(close_tag@ =~= seq![93u8]);
        }
        let pos = match match_tag(input, pos, &close_tag) {
            None => {
                return Err(VmError::ParseError);
            },
            Some(p) => p,
        };
        let pos = skip_ws(input, pos);
        let semi_tag: Vec<u8> = vec![59];
        proof {
            assert(semi_tag@ =~= seq![59u8]);
        }
        let pos = match match_tag(input, pos, &semi_tag) {
            None => {
                return Err(VmError::ParseError);
            },
            Some(p) => p,
        };
        Ok((SetCommand { mapping, key, value }, pos))
    }

    /// Parses a whole string as the command, refusing a failed parse and
    /// trailing input alike.
    pub fn from_str(input: &Vec<u8>) -> (r: Result<SetCommand, VmError>)
        ensures
            r is Ok <==> (spec_parse_set(input@) matches Some(t) && t.3 == input@.len()),
            r matches Ok(c) ==> c.mapping.is_valid() && spec_parse_set(input@) == Some(
                (
                    c.mapping.bytes@,
                    operand_view(c.key),
                    operand_view(c.value),
                    input@.len() as int,
                ),
            ),
            r matches Err(e) ==> e == VmError::ParseError,
    {
        match SetCommand::parse(input) {
            Ok((c, n)) => {
                if n == input.len() {
                    Ok(c)
                } else {
                    Err(VmError::ParseError)
                }
            },
            Err(e) => Err(e),
        }
    }

    /// Renders the command in its canonical textual form:
    /// `set <value> into <mapping>[<key>];`.
    pub fn to_text(&self) -> (r: Vec<u8>)
        ensures
            r@ == spec_set_text(*self),
    {
        let mut out: Vec<u8> = Vec::new();
        push_all(&mut out, &vec![115, 101, 116, 32]);
        push_operand_text(&mut out, &self.value);
        push_all(&mut out, &vec![32, 105, 110, 116, 111, 32]);
        push_all(&mut out, &self.mapping.bytes);
        out.push(91);
        push_operand_text(&mut out, &self.key);
        out.push(93);
        out.push(59);
        proof {
            assert(out@ =~= spec_set_text(*self));
        }
        out
    }

    /// Reads the command's binary form: the mapping identifier, then the
    /// key operand, then the value operand, each self-delimiting.
    pub fn read_le(input: &Vec<u8>) -> (r: Result<(SetCommand, usize), VmError>)
        ensures
            r is Ok == spec_read_set(input@) is Some,
            r matches Ok((c, n)) ==> n <= input@.len() && c.mapping.is_valid()
                && input@.subrange(0, n as int) == set_wire(c) && spec_read_set(input@) == Some(
                (c.mapping.bytes@, operand_view(c.key), operand_view(c.value), n as int),
            ),
            r matches Err(e) ==> e == VmError::ParseError,
    {
        let (mapping, pos) = match read_ident_le(input, 0) {
            None => {
                return Err(VmError::ParseError);
            },
            Some(x) => x,
        };
        let (key, pos) = match read_operand_le(input, pos) {
            None => {
                return Err(VmError::ParseError);
            },
            Some(x) => x,
        };
        let (value, pos) = match read_operand_le(input, pos) {
            None => {
                return Err(VmError::ParseError);
            },
            Some(x) => x,
        };
        let c = SetCommand { mapping, key, value };
        proof {
            assert(input@.subrange(0, pos as int) =~= set_wire(c));
        }
        Ok((c, pos))
    }

    /// Writes the command's binary form: the mapping identifier, then the
    /// key operand, then the value operand, with no length prefix.
    pub fn write_le(&self) -> (r: Vec<u8>)
        requires
            self.mapping.is_valid(),
            operand_valid(self.key),
            operand_valid(self.value),
        ensures
            r@ == set_wire(*self),
    {
        let mut out: Vec<u8> = Vec::new();
        write_ident_le(&mut out, &self.mapping);
        write_operand_le(&mut out, &self.key);
        write_operand_le(&mut out, &self.value);
        proof {
            assert(out@ =~= set_wire(*self));
        }
        out
    }
}

/// The decimal digits of `v`, most significant first.
pub open spec fn dec_digits(v: u64) -> Seq<u8>
    decreases v,
{
    if v < 10 {
        seq![(48 + v) as u8]
    } else {
        dec_digits(v / 10) + seq![(48 + v % 10) as u8]
    }
}

/// The textual form of a member path: a dot before each member name.
pub open spec fn path_text(path: Seq<Identifier>, i: int) -> Seq<u8>
    decreases path.len() - i,
{
    if !(0 <= i < path.len()) {
        Seq::empty()
    } else {
        seq![46u8] + path[i].bytes@ + path_text(path, i + 1)
    }
}

/// The textual form of an operand: `r<locator>` with its dotted member
/// path, `true`/`false`, or a number with its literal-type suffix; an
/// address renders as its group element.
pub open spec fn spec_operand_text(op: Operand) -> Seq<u8> {
    match op {
        Operand::Register(Register::Locator(n)) => seq![114u8] + dec_digits(n),
        Operand::Register(Register::Member(n, path)) => seq![114u8] + dec_digits(n) + path_text(
            path@,
            0,
        ),
        Operand::Literal(Literal::Bool(b)) => if b {
            true_tag_bytes()
        } else {
            false_tag_bytes()
        },
        Operand::Literal(Literal::Field(f)) => dec_digits(f.value) + field_tag_bytes(),
        Operand::Literal(Literal::Scalar(sc)) => dec_digits(sc.value) + scalar_tag_bytes(),
        Operand::Literal(Literal::Group(g)) => dec_digits(g.exponent) + group_tag_bytes(),
        Operand::Literal(Literal::Address(a)) => dec_digits(a.element.exponent)
            + address_suffix_bytes(),
    }
}

/// The canonical textual form of the whole command:
/// `set <value> into <mapping>[<key>];`.
pub open spec fn spec_set_text(c: SetCommand) -> Seq<u8> {
    seq![115u8, 101u8, 116u8, 32u8] + spec_operand_text(c.value) + seq![
        32u8,
        105u8,
        110u8,
        116u8,
        111u8,
        32u8,
    ] + c.mapping.bytes@ + seq![91u8] + spec_operand_text(c.key) + seq![93u8, 59u8]
}

/// Appends all bytes of `src` to `out`.
pub fn push_all(out: &mut Vec<u8>, src: &Vec<u8>)
    ensures
        final(out)@ == old(out)@ + src@,
{
    let mut i: usize = 0;
    while i < src.len()
        invariant
            0 <= i <= src@.len(),
            out@ == old(out)@ + src@.take(i as int),
        decreases src@.len() - i,
    {
        out.push(src[i]);
        proof {
            assert(out@ =~= old(out)@ + src@.take(i + 1));
        }
        i += 1;
    }
    proof {
        assert(out@ =~= old(out)@ + src@);
    }
}

/// Appends the decimal digits of `v`, most significant first.
pub fn push_decimal(out: &mut Vec<u8>, v: u64)
    ensures
        final(out)@ == old(out)@ + dec_digits(v),
        final(out)@.len() > old(out)@.len(),
    decreases v,
{
    if v >= 10 {
        push_decimal(out, v / 10);
    }
    out.push(48 + (v % 10) as u8);
    proof {
        assert(out@ =~= old(out)@ + dec_digits(v));
    }
}

/// Appends an operand's textual form.
pub fn push_operand_text(out: &mut Vec<u8>, op: &Operand)
    ensures
        final(out)@ == old(out)@ + spec_operand_text(*op),
{
    match op {
        Operand::Register(Register::Locator(n)) => {
            out.push(114);
            push_decimal(out, *n);
            proof {
                assert(out@ =~= old(out)@ + spec_operand_text(*op));
            }
        },
        Operand::Register(Register::Member(n, path)) => {
            out.push(114);
            push_decimal(out, *n);
            let ghost head = old(out)@ + seq![114u8] + dec_digits(*n);
            proof {
                assert(out@ =~= head);
            }
            let mut i: usize = 0;
            while i < path.len()
                invariant
                    0 <= i <= path@.len(),
                    out@ == head + path_text_prefix(path@, i as int),
                decreases path@.len() - i,
            {
                out.push(46);
                push_all(out, &path[i].bytes);
                proof {
                    assert(path_text_prefix(path@, i + 1) == path_text_prefix(path@, i as int)
                        + seq![46u8] + path@[i as int].bytes@);
                    assert(out@ =~= head + path_text_prefix(path@, i + 1));
                }
                i += 1;
            }
            proof {
                lemma_path_text_prefix_all(path@, 0);
                assert(path_text_prefix(path@, 0) + path_text(path@, 0) =~= path_text(path@, 0));
                assert(out@ =~= old(out)@ + spec_operand_text(*op));
            }
        },
        Operand::Literal(crate::plaintext::Literal::Bool(b)) => {
            if *b {
                let t: Vec<u8> = vec![116, 114, 117, 101];
                proof {
                    assert(t@ =~= true_tag_bytes());
                }
                push_all(out, &t);
            } else {
                let t: Vec<u8> = vec![102, 97, 108, 115, 101];
                proof {
                    assert(t@ =~= false_tag_bytes());
                }
                push_all(out, &t);
            }
        },
        Operand::Literal(crate::plaintext::Literal::Field(f)) => {
            push_decimal(out, f.value);
            let t: Vec<u8> = vec![102, 105, 101, 108, 100];
            proof {
                assert(t@ =~= field_tag_bytes());
            }
            push_all(out, &t);
            proof {
                assert(out@ =~= old(out)@ + spec_operand_text(*op));
            }
        },
        Operand::Literal(crate::plaintext::Literal::Scalar(sc)) => {
            push_decimal(out, sc.value);
            let t: Vec<u8> = vec![115, 99, 97, 108, 97, 114];
            proof {
                assert(t@ =~= scalar_tag_bytes());
            }
            push_all(out, &t);
            proof {
                assert(out@ =~= old(out)@ + spec_operand_text(*op));
            }
        },
        Operand::Literal(crate::plaintext::Literal::Group(g)) => {
            push_decimal(out, g.exponent);
            let t: Vec<u8> = vec![103, 114, 111, 117, 112];
            proof {
                assert(t@ =~= group_tag_bytes());
            }
            push_all(out, &t);
            proof {
                assert(out@ =~= old(out)@ + spec_operand_text(*op));
            }
        },
        Operand::Literal(crate::plaintext::Literal::Address(a)) => {
            push_decimal(out, a.element.exponent);
            let t: Vec<u8> = vec![97, 100, 100, 114, 101, 115, 115];
            proof {
                assert(t@ =~= address_suffix_bytes());
            }
            push_all(out, &t);
            proof {
                assert(out@ =~= old(out)@ + spec_operand_text(*op));
            }
        },
    }
}

/// The textual form of the first `i` members of a path.
pub open spec fn path_text_prefix(path: Seq<Identifier>, i: int) -> Seq<u8>
    decreases i,
{
    if i <= 0 {
        Seq::empty()
    } else {
        path_text_prefix(path, i - 1) + seq![46u8] + path[i - 1].bytes@
    }
}

/// The whole-path text prefix equals the path's textual form.
pub proof fn lemma_path_text_prefix_all(path: Seq<Identifier>, i: int)
    requires
        0 <= i <= path.len(),
    ensures
        path_text_prefix(path, path.len() as int) == path_text_prefix(path, i) + path_text(
            path,
            i,
        ),
    decreases path.len() - i,
{
    if i < path.len() {
        lemma_path_text_prefix_all(path, i + 1);
        assert(path_text_prefix(path, i) + (seq![46u8] + path[i].bytes@ + path_text(path, i + 1))
            =~= (path_text_prefix(path, i) + seq![46u8] + path[i].bytes@) + path_text(
            path,
            i + 1,
        ));
    } else {
        assert(path_text(path, i) =~= Seq::<u8>::empty());
        assert(path_text_prefix(path, i) + path_text(path, i) =~= path_text_prefix(path, i));
    }
}

/// The wire form of an identifier: its length as one byte, then its bytes.
pub open spec fn ident_wire(name: Seq<u8>) -> Seq<u8> {
    seq![name.len() as u8] + name
}

/// The wire form of an operand: a tag byte, then its payload.
pub open spec fn operand_wire(op: Operand) -> Seq<u8> {
    match op {
        Operand::Literal(l) => seq![0u8] + (match l {
            crate::plaintext::Literal::Bool(b) => seq![0u8] + u64_le(
                if b {
                    1u64
                } else {
                    0u64
                },
            ),
            crate::plaintext::Literal::Field(f) => seq![1u8] + u64_le(f.value),
            crate::plaintext::Literal::Group(g) => seq![2u8] + u64_le(g.exponent),
            crate::plaintext::Literal::Scalar(sc) => seq![3u8] + u64_le(sc.value),
            crate::plaintext::Literal::Address(a) => seq![4u8] + u64_le(a.element.exponent),
        }),
        Operand::Register(Register::Locator(n)) => seq![1u8] + u64_le(n),
        Operand::Register(Register::Member(n, path)) => seq![2u8] + u64_le(n) + seq![
            path@.len() as u8,
        ] + path_wire(path@, 0),
    }
}

/// The wire form of a member path from position `i` on.
pub open spec fn path_wire(path: Seq<Identifier>, i: int) -> Seq<u8>
    decreases path.len() - i,
{
    if !(0 <= i < path.len()) {
        Seq::empty()
    } else {
        ident_wire(path[i].bytes@) + path_wire(path, i + 1)
    }
}

/// The wire form of the whole command: the mapping identifier, the key
/// operand, the value operand, in that order with no length prefix.
pub open spec fn set_wire(c: SetCommand) -> Seq<u8> {
    ident_wire(c.mapping.bytes@) + operand_wire(c.key) + operand_wire(c.value)
}

/// Writes an identifier: its length as one byte, then its bytes.
pub fn write_ident_le(out: &mut Vec<u8>, id: &Identifier)
    requires
        id.is_valid(),
    ensures
        final(out)@ == old(out)@ + ident_wire(id.bytes@),
        final(out)@.len() > old(out)@.len(),
{
    out.push(id.bytes.len() as u8);
    push_all(out, &id.bytes);
    proof {
        assert(out@ =~= old(out)@ + ident_wire(id.bytes@));
    }
}

/// The 64-bit value the eight bytes at `i` encode, little-endian.
pub open spec fn u64_from_le(s: Seq<u8>, i: int) -> u64 {
    let hi = ((s[i + 7] as int) * 256 + s[i + 6]) * 256 + s[i + 5];
    let mid = (hi * 256 + s[i + 4]) * 256 + s[i + 3];
    let lo = (mid * 256 + s[i + 2]) * 256 + s[i + 1];
    (lo * 256 + s[i]) as u64
}

/// The 64-bit value read at `i`, if eight bytes are there.
pub open spec fn spec_read_u64(s: Seq<u8>, i: int) -> Option<(u64, int)> {
    if 0 <= i && i + 8 <= s.len() {
        Some((u64_from_le(s, i), i + 8))
    } else {
        None
    }
}

/// The identifier read at `i` in wire form: a length byte, then that many
/// bytes forming a well-formed name.
pub open spec fn spec_read_ident(s: Seq<u8>, i: int) -> Option<(Seq<u8>, int)> {
    if 0 <= i < s.len() {
        let l = s[i] as int;
        if 1 <= l <= 31 && i + 1 + l <= s.len() && crate::plaintext::ident_valid(
            s.subrange(i + 1, i + 1 + l),
        ) {
            Some((s.subrange(i + 1, i + 1 + l), i + 1 + l))
        } else {
            None
        }
    } else {
        None
    }
}

/// The member path of `count` identifiers read at `i` in wire form.
pub open spec fn spec_read_path(s: Seq<u8>, i: int, count: nat) -> Option<(Seq<Seq<u8>>, int)>
    decreases count,
{
    if count == 0 {
        Some((Seq::empty(), i))
    } else {
        match spec_read_ident(s, i) {
            None => None,
            Some((name, j)) => match spec_read_path(s, j, (count - 1) as nat) {
                None => None,
                Some((rest, k)) => Some((seq![name] + rest, k)),
            },
        }
    }
}

/// The literal a wire literal-type byte and payload decode to,
/// range-checked.
pub open spec fn spec_wire_literal(lt: u8, v: u64) -> Option<Literal> {
    if lt == 0 {
        if v == 0 || v == 1 {
            Some(Literal::Bool(v == 1))
        } else {
            None
        }
    } else if lt == 1 {
        if v < crate::algebra::FIELD_MODULUS {
            Some(Literal::Field(crate::algebra::Field { value: v }))
        } else {
            None
        }
    } else if lt == 2 {
        if v < crate::algebra::GROUP_ORDER {
            Some(Literal::Group(crate::algebra::Group { exponent: v }))
        } else {
            None
        }
    } else if lt == 3 {
        if v < crate::algebra::GROUP_ORDER {
            Some(Literal::Scalar(crate::algebra::Scalar { value: v }))
        } else {
            None
        }
    } else if lt == 4 {
        if v < crate::algebra::GROUP_ORDER {
            Some(
                Literal::Address(
                    crate::algebra::Address { element: crate::algebra::Group { exponent: v } },
                ),
            )
        } else {
            None
        }
    } else {
        None
    }
}

/// The member register read at `i` after its tag: a locator, a count byte,
/// then that many identifiers.
pub open spec fn spec_read_member(s: Seq<u8>, i: int) -> Option<(OperandV, int)> {
    match spec_read_u64(s, i) {
        None => None,
        Some((n, after)) => {
            if after >= s.len() {
                None
            } else {
                match spec_read_path(s, after + 1, s[after] as nat) {
                    None => None,
                    Some((names, p)) => Some((OperandV::Member(n, names), p)),
                }
            }
        },
    }
}

/// The operand read at `i` in wire form: a tag byte, then its payload,
/// range-checked.
pub open spec fn spec_read_operand(s: Seq<u8>, i: int) -> Option<(OperandV, int)> {
    if !(0 <= i < s.len()) {
        None
    } else if s[i] == 0 {
        if i + 1 >= s.len() {
            None
        } else {
            match spec_read_u64(s, i + 2) {
                None => None,
                Some((v, after)) => match spec_wire_literal(s[i + 1], v) {
                    None => None,
                    Some(l) => Some((OperandV::Literal(l), after)),
                },
            }
        }
    } else if s[i] == 1 {
        match spec_read_u64(s, i + 1) {
            None => None,
            Some((n, after)) => Some((OperandV::Locator(n), after)),
        }
    } else if s[i] == 2 {
        spec_read_member(s, i + 1)
    } else {
        None
    }
}

/// The `set` command read at the start of `s` in wire form: the mapping
/// identifier, the key operand, then the value operand.
pub open spec fn spec_read_set(s: Seq<u8>) -> Option<(Seq<u8>, OperandV, OperandV, int)> {
    match spec_read_ident(s, 0) {
        None => None,
        Some((mapping, p1)) => match spec_read_operand(s, p1) {
            None => None,
            Some((key, p2)) => match spec_read_operand(s, p2) {
                None => None,
                Some((value, p3)) => Some((mapping, key, value, p3)),
            },
        },
    }
}

/// Reads an identifier: one length byte, then that many bytes: the inverse
/// of `write_ident_le` on the bytes it consumes.
pub fn read_ident_le(input: &Vec<u8>, pos: usize) -> (r: Option<(Identifier, usize)>)
    ensures
        r is Some == spec_read_ident(input@, pos as int) is Some,
        r matches Some((id, n)) ==> pos < n <= input@.len() && id.is_valid() && input@.subrange(
            pos as int,
            n as int,
        ) == ident_wire(id.bytes@) && spec_read_ident(input@, pos as int) == Some(
            (id.bytes@, n as int),
        ),
{
    if pos >= input.len() {
        return None;
    }
    let l = input[pos] as usize;
    if l == 0 || l > crate::plaintext::MAX_IDENT_LEN {
        return None;
    }
    if input.len() - pos - 1 < l {
        return None;
    }
    let mut bytes: Vec<u8> = Vec::new();
    let mut i: usize = 0;
    while i < l
        invariant
            0 <= i <= l,
            pos + 1 + l <= input@.len(),
            input@.len() <= usize::MAX,
            l == input@[pos as int],
            bytes@.len() == i,
            forall|x: int| 0 <= x < i ==> #[trigger] bytes@[x] == input@[pos + 1 + x],
        decreases l - i,
    {
        bytes.push(input[pos + 1 + i]);
        i += 1;
    }
    proof {
        assert(bytes@ =~= input@.subrange(pos + 1, pos + 1 + l));
    }
    match Identifier::from_bytes(bytes) {
        None => None,
        Some(id) => {
            proof {
                assert(input@.subrange(pos as int, pos + 1 + l) =~= ident_wire(id.bytes@));
            }
            Some((id, pos + 1 + l))
        },
    }
}

/// The eight little-endian bytes of a 64-bit value.
pub open spec fn u64_le(v: u64) -> Seq<u8> {
    seq![
        (v % 256) as u8,
        ((v / 256) % 256) as u8,
        ((v / 65536) % 256) as u8,
        ((v / 16777216) % 256) as u8,
        ((v / 4294967296) % 256) as u8,
        ((v / 1099511627776) % 256) as u8,
        ((v / 281474976710656) % 256) as u8,
        ((v / 72057594037927936) % 256) as u8,
    ]
}

/// Writes a 64-bit value in little-endian order.
pub fn write_u64_le(out: &mut Vec<u8>, v: u64)
    ensures
        final(out)@ == old(out)@ + u64_le(v),
        final(out)@.len() == old(out)@.len() + 8,
        forall|j: int| 0 <= j < old(out)@.len() ==> #[trigger] final(out)@[j] == old(out)@[j],
{
    out.push((v % 256) as u8);
    out.push(((v / 256) % 256) as u8);
    out.push(((v / 65536) % 256) as u8);
    out.push(((v / 16777216) % 256) as u8);
    out.push(((v / 4294967296) % 256) as u8);
    out.push(((v / 1099511627776) % 256) as u8);
    out.push(((v / 281474976710656) % 256) as u8);
    out.push(((v / 72057594037927936) % 256) as u8);
    proof {
        assert(out@ =~= old(out)@ + u64_le(v));
    }
}

/// Reads a 64-bit value in little-endian order: the inverse of
/// `write_u64_le` on the eight bytes it consumes.
pub fn read_u64_le(input: &Vec<u8>, pos: usize) -> (r: Option<(u64, usize)>)
    ensures
        r is Some == spec_read_u64(input@, pos as int) is Some,
        r matches Some((v, n)) ==> n == pos + 8 && n <= input@.len() && u64_le(v) == input@.subrange(
            pos as int,
            pos + 8,
        ) && spec_read_u64(input@, pos as int) == Some((v, n as int)),
{
    if pos >= input.len() || input.len() - pos < 8 {
        return None;
    }
    let b0 = input[pos] as u64;
    let b1 = input[pos + 1] as u64;
    let b2 = input[pos + 2] as u64;
    let b3 = input[pos + 3] as u64;
    let b4 = input[pos + 4] as u64;
    let b5 = input[pos + 5] as u64;
    let b6 = input[pos + 6] as u64;
    let b7 = input[pos + 7] as u64;
    let v = ((((((b7 * 256 + b6) * 256 + b5) * 256 + b4) * 256 + b3) * 256 + b2) * 256 + b1) * 256
        + b0;
    proof {
        assert(v % 256 == b0 && (v / 256) % 256 == b1 && (v / 65536) % 256 == b2 && (v
            / 16777216) % 256 == b3 && (v / 4294967296) % 256 == b4 && (v / 1099511627776) % 256
            == b5 && (v / 281474976710656) % 256 == b6 && (v / 72057594037927936) % 256 == b7)
            by (bit_vector)
            requires
                v == ((((((b7 * 256 + b6) * 256 + b5) * 256 + b4) * 256 + b3) * 256 + b2) * 256
                    + b1) * 256 + b0,
                b0 < 256,
                b1 < 256,
                b2 < 256,
                b3 < 256,
                b4 < 256,
                b5 < 256,
                b6 < 256,
                b7 < 256,
        ;
        assert(u64_le(v) =~= input@.subrange(pos as int, pos + 8));
    }
    Some((v, pos + 8))
}

/// A well-formed operand: a reduced literal, or a register whose member
/// path holds valid identifiers.
pub open spec fn operand_valid(op: Operand) -> bool {
    match op {
        Operand::Literal(l) => crate::plaintext::lit_valid(l),
        Operand::Register(Register::Locator(_)) => true,
        Operand::Register(Register::Member(_, path)) => path@.len() <= 255 && forall|i: int|
            0 <= i < path@.len() ==> crate::plaintext::ident_valid((#[trigger] path@[i]).bytes@),
    }
}

/// Writes an operand: a tag byte, then its payload.
pub fn write_operand_le(out: &mut Vec<u8>, op: &Operand)
    requires
        operand_valid(*op),
    ensures
        final(out)@ == old(out)@ + operand_wire(*op),
        final(out)@.len() > old(out)@.len(),
{
    match op {
        Operand::Literal(l) => {
            out.push(0);
            match l {
                crate::plaintext::Literal::Bool(b) => {
                    out.push(0);
                    write_u64_le(out, if *b { 1 } else { 0 });
                },
                crate::plaintext::Literal::Field(f) => {
                    out.push(1);
                    write_u64_le(out, f.value);
                },
                crate::plaintext::Literal::Group(g) => {
                    out.push(2);
                    write_u64_le(out, g.exponent);
                },
                crate::plaintext::Literal::Scalar(sc) => {
                    out.push(3);
                    write_u64_le(out, sc.value);
                },
                crate::plaintext::Literal::Address(a) => {
                    out.push(4);
                    write_u64_le(out, a.element.exponent);
                },
            }
            proof {
                assert(out@ =~= old(out)@ + operand_wire(*op));
            }
        },
        Operand::Register(Register::Locator(n)) => {
            out.push(1);
            write_u64_le(out, *n);
            proof {
                assert(out@ =~= old(out)@ + operand_wire(*op));
            }
        },
        Operand::Register(Register::Member(n, path)) => {
            out.push(2);
            write_u64_le(out, *n);
            out.push(path.len() as u8);
            let ghost head = old(out)@ + seq![2u8] + u64_le(*n) + seq![path@.len() as u8];
            proof {
                assert(out@ =~= head);
            }
            let mut i: usize = 0;
            while i < path.len()
                invariant
                    0 <= i <= path@.len(),
                    out@ == head + path_wire_prefix(path@, i as int),
                    out@.len() > old(out)@.len(),
                    head.len() > old(out)@.len(),
                    forall|j: int|
                        0 <= j < path@.len() ==> crate::plaintext::ident_valid(
                            (#[trigger] path@[j]).bytes@,
                        ),
                decreases path@.len() - i,
            {
                out.push(path[i].bytes.len() as u8);
                push_all(out, &path[i].bytes);
                proof {
                    assert(path_wire_prefix(path@, i + 1) == path_wire_prefix(path@, i as int)
                        + ident_wire(path@[i as int].bytes@));
                    assert(out@ =~= head + path_wire_prefix(path@, i + 1));
                }
                i += 1;
            }
            proof {
                lemma_path_wire_prefix_all(path@, 0);
                assert(path_wire_prefix(path@, 0) + path_wire(path@, 0) =~= path_wire(path@, 0));
                assert(out@ =~= old(out)@ + operand_wire(*op));
            }
        },
    }
}

/// The wire form of the first `i` members of a path.
pub open spec fn path_wire_prefix(path: Seq<Identifier>, i: int) -> Seq<u8>
    decreases i,
{
    if i <= 0 {
        Seq::empty()
    } else {
        path_wire_prefix(path, i - 1) + ident_wire(path[i - 1].bytes@)
    }
}

/// The wire prefix of the first `i` members reads the same from any list
/// that agrees on those members.
pub proof fn lemma_path_wire_prefix_same(a: Seq<Identifier>, b: Seq<Identifier>, i: int)
    requires
        0 <= i <= a.len(),
        i <= b.len(),
        forall|j: int| 0 <= j < i ==> #[trigger] a[j] == b[j],
    ensures
        path_wire_prefix(a, i) == path_wire_prefix(b, i),
    decreases i,
{
    if i > 0 {
        lemma_path_wire_prefix_same(a, b, i - 1);
    }
}

/// The whole-path prefix equals the path's wire form.
pub proof fn lemma_path_wire_prefix_all(path: Seq<Identifier>, i: int)
    requires
        0 <= i <= path.len(),
    ensures
        path_wire_prefix(path, path.len() as int) == path_wire_prefix(path, i) + path_wire(
            path,
            i,
        ),
    decreases path.len() - i,
{
    if i < path.len() {
        lemma_path_wire_prefix_all(path, i + 1);
        assert(path_wire_prefix(path, i + 1) == path_wire_prefix(path, i) + ident_wire(
            path[i].bytes@,
        ));
        assert(path_wire_prefix(path, i) + (ident_wire(path[i].bytes@) + path_wire(path, i + 1))
            =~= (path_wire_prefix(path, i) + ident_wire(path[i].bytes@)) + path_wire(
            path,
            i + 1,
        ));
    } else {
        assert(path_wire(path, i) =~= Seq::<u8>::empty());
        assert(path_wire_prefix(path, i) + path_wire(path, i) =~= path_wire_prefix(path, i));
    }
}

/// Reads an operand: a tag byte, then its payload: the inverse of
/// `write_operand_le` on the bytes it consumes.
#[verifier::rlimit(100)]
pub fn read_operand_le(input: &Vec<u8>, pos: usize) -> (r: Option<(Operand, usize)>)
    ensures
        r is Some == spec_read_operand(input@, pos as int) is Some,
        r matches Some((op, n)) ==> pos < n <= input@.len() && input@.subrange(
            pos as int,
            n as int,
        ) == operand_wire(op) && spec_read_operand(input@, pos as int) == Some(
            (operand_view(op), n as int),
        ),
    decreases input@.len() - pos,
{
    if pos >= input.len() {
        return None;
    }
    let tag = input[pos];
    if tag == 0 {
        read_literal_le(input, pos)
    } else if tag == 1 {
        match read_u64_le(input, pos + 1) {
            None => None,
            Some((n, after)) => {
                let op = Operand::Register(Register::Locator(n));
                proof {
                    assert(input@.subrange(pos as int, after as int) =~= operand_wire(op));
                }
                Some((op, after))
            },
        }
    } else if tag == 2 {
        match read_member_le(input, pos + 1) {
            None => None,
            Some((op, p)) => {
                proof {
                    assert(input@.subrange(pos as int, p as int) =~= seq![2u8] + input@.subrange(
                        pos + 1,
                        p as int,
                    ));
                    assert(input@.subrange(pos as int, p as int) =~= operand_wire(op));
                }
                Some((op, p))
            },
        }
    } else {
        None
    }
}


/// Reads a literal operand at its tag position: the literal-type byte and
/// one 64-bit payload, range-checked.
/// Decodes a wire literal-type byte and payload.
fn wire_literal(lt: u8, v: u64) -> (r: Option<Literal>)
    ensures
        r == spec_wire_literal(lt, v),
{
    if lt == 0 {
        if v == 0 || v == 1 {
            Some(Literal::Bool(v == 1))
        } else {
            None
        }
    } else if lt == 1 {
        if v < crate::algebra::FIELD_MODULUS {
            Some(Literal::Field(crate::algebra::Field { value: v }))
        } else {
            None
        }
    } else if lt == 2 {
        if v < crate::algebra::GROUP_ORDER {
            Some(Literal::Group(crate::algebra::Group { exponent: v }))
        } else {
            None
        }
    } else if lt == 3 {
        if v < crate::algebra::GROUP_ORDER {
            Some(Literal::Scalar(crate::algebra::Scalar { value: v }))
        } else {
            None
        }
    } else if lt == 4 {
        if v < crate::algebra::GROUP_ORDER {
            Some(
                Literal::Address(
                    crate::algebra::Address { element: crate::algebra::Group { exponent: v } },
                ),
            )
        } else {
            None
        }
    } else {
        None
    }
}

/// Reads a literal operand at its tag position: the literal-type byte and
/// one 64-bit payload, range-checked.
#[verifier::rlimit(100)]
fn read_literal_le(input: &Vec<u8>, pos: usize) -> (r: Option<(Operand, usize)>)
    requires
        pos < input@.len(),
        input@[pos as int] == 0,
    ensures
        r is Some == spec_read_operand(input@, pos as int) is Some,
        r matches Some((op, n)) ==> pos < n <= input@.len() && input@.subrange(
            pos as int,
            n as int,
        ) == operand_wire(op) && spec_read_operand(input@, pos as int) == Some(
            (operand_view(op), n as int),
        ),
{
    if input.len() - pos <= 1 {
        return None;
    }
    let lt = input[pos + 1];
    let (v, after) = match read_u64_le(input, pos + 2) {
        None => {
            return None;
        },
        Some(x) => x,
    };
    let l = match wire_literal(lt, v) {
        None => {
            return None;
        },
        Some(l) => l,
    };
    let op = Operand::Literal(l);
    proof {
        assert(spec_read_operand(input@, pos as int) == Some((operand_view(op), after as int)));
        assert(input@.subrange(pos as int, after as int) =~= operand_wire(op));
    }
    Some((op, after))
}

/// Reads a member register after its operand tag: a locator, a count byte,
/// then that many identifiers.
#[verifier::rlimit(100)]
fn read_member_le(input: &Vec<u8>, pos: usize) -> (r: Option<(Operand, usize)>)
    requires
        pos <= input@.len(),
    ensures
        r is Some == spec_read_member(input@, pos as int) is Some,
        r matches Some((op, n)) ==> pos < n <= input@.len() && spec_read_member(
            input@,
            pos as int,
        ) == Some((operand_view(op), n as int)) && input@.subrange(pos as int, n as int) == (match op {
            Operand::Register(Register::Member(loc, path)) => u64_le(loc) + seq![
                path@.len() as u8,
            ] + path_wire(path@, 0),
            _ => Seq::<u8>::empty(),
        }) && op is Register,
        r matches Some((op, n)) ==> op matches Operand::Register(rg) && rg is Member,
{
    let (n, after) = match read_u64_le(input, pos) {
        None => {
            return None;
        },
        Some(x) => x,
    };
    if after >= input.len() {
        return None;
    }
    let count = input[after] as usize;
    let mut path: Vec<Identifier> = Vec::new();
    let mut p = after + 1;
    let mut i: usize = 0;
    proof {
        if spec_read_path(input@, after + 1, count as nat) is Some {
            let t = spec_read_path(input@, after + 1, count as nat).unwrap();
            assert(Seq::<Seq<u8>>::empty() + t.0 =~= t.0);
        }
    }
    while i < count
        invariant
            0 <= i <= count,
            after + 1 <= p,
            pos < p <= input@.len(),
            spec_read_u64(input@, pos as int) == Some((n, after as int)),
            after < input@.len(),
            count == input@[after as int],
            path@.len() == i,
            input@.subrange(after + 1, p as int) == path_wire_prefix(path@, i as int),
            forall|x: int|
                0 <= x < i ==> crate::plaintext::ident_valid((#[trigger] path@[x]).bytes@),
            spec_read_path(input@, after + 1, count as nat) is Some == spec_read_path(
                input@,
                p as int,
                (count - i) as nat,
            ) is Some,
            spec_read_path(input@, after + 1, count as nat) matches Some(t) ==> (spec_read_path(
                input@,
                p as int,
                (count - i) as nat,
            ) matches Some(u) && t == (crate::lookup::path_view(path@) + u.0, u.1)),
        decreases count - i,
    {
        let (id, np) = match read_ident_le(input, p) {
            None => {
                proof {
                    assert((count - i) as nat != 0);
                    assert(spec_read_path(input@, p as int, (count - i) as nat) is None);
                    assert(spec_read_path(input@, after + 1, count as nat) is None);
                    assert(spec_read_member(input@, pos as int) is None);
                }
                return None;
            },
            Some(x) => x,
        };
        let ghost oldpath = path@;
        path.push(id);
        proof {
            lemma_path_wire_prefix_same(oldpath, path@, i as int);
            assert(path_wire_prefix(path@, i + 1) == path_wire_prefix(path@, i as int)
                + ident_wire(path@[i as int].bytes@));
            assert(input@.subrange(after + 1, np as int) =~= input@.subrange(after + 1, p as int)
                + input@.subrange(p as int, np as int));
            assert(crate::lookup::path_view(path@) =~= crate::lookup::path_view(oldpath) + seq![
                id.bytes@,
            ]);
            if spec_read_path(input@, after + 1, count as nat) is Some {
                let u = spec_read_path(input@, p as int, (count - i) as nat).unwrap();
                let w = spec_read_path(input@, np as int, (count - i - 1) as nat).unwrap();
                assert(u.0 == seq![id.bytes@] + w.0);
                assert(crate::lookup::path_view(oldpath) + (seq![id.bytes@] + w.0) =~= (
                crate::lookup::path_view(oldpath) + seq![id.bytes@]) + w.0);
            }
        }
        p = np;
        i += 1;
    }
    let op = Operand::Register(Register::Member(n, path));
    proof {
        lemma_path_wire_prefix_all(path@, 0);
        assert(path_wire_prefix(path@, 0) + path_wire(path@, 0) =~= path_wire(path@, 0));
        assert(input@.subrange(pos as int, p as int) =~= u64_le(n) + seq![path@.len() as u8]
            + path_wire(path@, 0));
        if spec_read_path(input@, after + 1, count as nat) is Some {
            let t = spec_read_path(input@, after + 1, count as nat).unwrap();
            assert(t.0 =~= crate::lookup::path_view(path@));
        }
    }
    Some((op, p))
}


/// Ten to the power of the decimal digit count of `v`.
pub open spec fn shift10(v: u64) -> int
    decreases v,
{
    if v < 10 {
        10
    } else {
        10 * shift10(v / 10)
    }
}

/// A decimal shift is at least ten.
pub proof fn lemma_shift10_pos(v: u64)
    ensures
        shift10(v) >= 10,
    decreases v,
{
    if v >= 10 {
        lemma_shift10_pos(v / 10);
    }
}

/// Every byte of a decimal rendering is a digit.
pub proof fn lemma_dec_digits_are_digits(v: u64)
    ensures
        forall|k: int| 0 <= k < dec_digits(v).len() ==> is_digit(#[trigger] dec_digits(v)[k]),
        dec_digits(v).len() >= 1,
    decreases v,
{
    if v >= 10 {
        lemma_dec_digits_are_digits(v / 10);
        assert forall|k: int| 0 <= k < dec_digits(v).len() implies is_digit(
            #[trigger] dec_digits(v)[k],
        ) by {
            if k < dec_digits(v / 10).len() {
                assert(dec_digits(v)[k] == dec_digits(v / 10)[k]);
            } else {
                assert(dec_digits(v)[k] == (48 + v % 10) as u8);
            }
        };
    }
}

/// Scanning the decimal rendering of `v` extends the accumulator by `v` in
/// base ten, then continues after it.
pub proof fn lemma_scan_dec(s: Seq<u8>, i: int, v: u64, acc: u64)
    requires
        0 <= i,
        i + dec_digits(v).len() <= s.len(),
        forall|k: int| 0 <= k < dec_digits(v).len() ==> s[i + k] == dec_digits(v)[k],
        (acc as int) * shift10(v) + v <= u64::MAX,
    ensures
        spec_scan_u64(s, i, acc) == spec_scan_u64(
            s,
            i + dec_digits(v).len(),
            ((acc as int) * shift10(v) + v) as u64,
        ),
    decreases v,
{
    if v < 10 {
        assert(s[i + 0] == dec_digits(v)[0]);
        assert(s[i] == (48 + v) as u8);
        let d = (s[i] - 48) as u64;
        assert(d == v);
        assert(!(acc > (u64::MAX - d) / 10)) by (nonlinear_arith)
            requires
                (acc as int) * 10 + d <= u64::MAX,
                d < 10,
        ;
        assert((acc * 10 + d) as int == (acc as int) * shift10(v) + v);
    } else {
        let hd = dec_digits(v / 10);
        assert(dec_digits(v) == hd + seq![(48 + v % 10) as u8]);
        assert forall|k: int| 0 <= k < hd.len() implies s[i + k] == hd[k] by {
            assert(dec_digits(v)[k] == hd[k]);
        };
        lemma_shift10_pos(v / 10);
        assert((acc as int) * shift10(v / 10) >= 0 && (acc as int) * shift10(v / 10) + (v / 10)
            <= u64::MAX) by (nonlinear_arith)
            requires
                (acc as int) * (10 * shift10(v / 10)) + v <= u64::MAX,
                shift10(v / 10) >= 10,
                v >= 10,
                v == 10 * (v / 10) + v % 10,
                v % 10 < 10,
                acc >= 0,
        ;
        lemma_scan_dec(s, i, v / 10, acc);
        let acc2 = (((acc as int) * shift10(v / 10) + (v / 10)) as u64);
        let j = i + hd.len();
        assert(s[j] == (48 + v % 10) as u8) by {
            assert(s[i + (dec_digits(v).len() - 1)] == dec_digits(v)[dec_digits(v).len() - 1]);
        };
        let d = (s[j] - 48) as u64;
        assert(d == v % 10);
        assert((acc2 as int) * 10 + d == (acc as int) * shift10(v) + v) by (nonlinear_arith)
            requires
                acc2 as int == (acc as int) * shift10(v / 10) + (v / 10),
                shift10(v) == 10 * shift10(v / 10),
                v >= 10,
                d == v % 10,
                v == 10 * (v / 10) + v % 10,
        ;
        assert(!(acc2 > (u64::MAX - d) / 10)) by (nonlinear_arith)
            requires
                (acc2 as int) * 10 + d <= u64::MAX,
                d < 10,
        ;
        assert(spec_scan_u64(s, j, acc2) == spec_scan_u64(s, j + 1, (acc2 * 10 + d) as u64));
    }
}

/// Parsing a number at its own decimal rendering yields it back, when no
/// digit follows the rendering.
pub proof fn lemma_parse_dec(s: Seq<u8>, i: int, v: u64)
    requires
        0 <= i,
        i + dec_digits(v).len() <= s.len(),
        forall|k: int| 0 <= k < dec_digits(v).len() ==> s[i + k] == dec_digits(v)[k],
        i + dec_digits(v).len() == s.len() || !is_digit(s[i + dec_digits(v).len()]),
    ensures
        spec_parse_u64(s, i) == Some((v, i + dec_digits(v).len())),
{
    lemma_dec_digits_are_digits(v);
    assert(is_digit(s[i])) by {
        assert(s[i] == dec_digits(v)[0]);
    };
    lemma_shift10_pos(v);
    assert((0int) * shift10(v) + v <= u64::MAX) by (nonlinear_arith)
        requires
            v <= u64::MAX,
            shift10(v) >= 10,
    ;
    lemma_scan_dec(s, i, v, 0);
    assert(((0int) * shift10(v) + v) as u64 == v);
}


/// The identifier-byte run at a rendered name ends exactly after it.
pub proof fn lemma_ident_end_of(s: Seq<u8>, i: int, len: int)
    requires
        0 <= i,
        0 <= len,
        i + len <= s.len(),
        forall|k: int| 0 <= k < len ==> crate::plaintext::is_ident_byte(#[trigger] s[i + k]),
        i + len == s.len() || !crate::plaintext::is_ident_byte(s[i + len]),
    ensures
        spec_ident_end(s, i) == i + len,
    decreases len,
{
    if len > 0 {
        assert(s[i + 0] == s[i]);
        assert forall|k: int| 0 <= k < len - 1 implies crate::plaintext::is_ident_byte(
            #[trigger] s[i + 1 + k],
        ) by {
            assert(s[i + (k + 1)] == s[i + 1 + k]);
        };
        lemma_ident_end_of(s, i + 1, len - 1);
    }
}

/// Parsing at a rendered identifier yields it back, when no identifier
/// byte follows it.
pub proof fn lemma_parse_ident_at(s: Seq<u8>, i: int, name: Seq<u8>)
    requires
        0 <= i,
        i + name.len() <= s.len(),
        crate::plaintext::ident_valid(name),
        forall|k: int| 0 <= k < name.len() ==> s[i + k] == name[k],
        i + name.len() == s.len() || !crate::plaintext::is_ident_byte(s[i + name.len()]),
    ensures
        spec_parse_ident(s, i) == Some((name, i + name.len())),
{
    assert forall|k: int| 0 <= k < name.len() implies crate::plaintext::is_ident_byte(
        #[trigger] s[i + k],
    ) by {
        assert(s[i + k] == name[k]);
        assert(crate::plaintext::is_ident_byte(name[k]));
    };
    lemma_ident_end_of(s, i, name.len() as int);
    assert(s.subrange(i, i + name.len()) =~= name);
}

/// Parsing at a rendered member path yields its names back, when neither a
/// dot nor an identifier byte follows it.
pub proof fn lemma_parse_path_at(s: Seq<u8>, j: int, path: Seq<Identifier>, x: int)
    requires
        0 <= j,
        0 <= x <= path.len(),
        j + path_text(path, x).len() <= s.len(),
        forall|k: int|
            x <= k < path.len() ==> crate::plaintext::ident_valid((#[trigger] path[k]).bytes@),
        forall|k: int| 0 <= k < path_text(path, x).len() ==> s[j + k] == path_text(path, x)[k],
        j + path_text(path, x).len() == s.len() || (!crate::plaintext::is_ident_byte(
            s[j + path_text(path, x).len()],
        ) && s[j + path_text(path, x).len()] != 46),
    ensures
        spec_parse_path_text(s, j) == Some(
            (
                crate::lookup::path_view(path).subrange(x, path.len() as int),
                j + path_text(path, x).len(),
            ),
        ),
    decreases path.len() - x,
{
    if x == path.len() {
        assert(path_text(path, x).len() == 0);
        assert(crate::lookup::path_view(path).subrange(x, path.len() as int) =~= Seq::<
            Seq<u8>,
        >::empty());
    } else {
        let name = path[x].bytes@;
        let tail = path_text(path, x + 1);
        assert(path_text(path, x) == seq![46u8] + name + tail);
        assert(s[j + 0] == path_text(path, x)[0]);
        assert(s[j] == 46);
        assert forall|k: int| 0 <= k < name.len() implies s[j + 1 + k] == name[k] by {
            assert(s[j + (1 + k)] == path_text(path, x)[1 + k]);
            assert(path_text(path, x)[1 + k] == name[k]);
        };
        let e = j + 1 + name.len();
        assert(e + tail.len() == s.len() || !crate::plaintext::is_ident_byte(s[e + tail.len()])
            || tail.len() > 0);
        if tail.len() == 0 {
            lemma_parse_ident_at(s, j + 1, name);
        } else {
            assert(tail[0] == 46u8);
            assert(s[e] == 46) by {
                assert(s[j + (1 + name.len())] == path_text(path, x)[1 + name.len() as int]);
            };
            assert(!crate::plaintext::is_ident_byte(s[e]));
            lemma_parse_ident_at(s, j + 1, name);
        }
        assert forall|k: int| 0 <= k < tail.len() implies s[e + k] == tail[k] by {
            assert(s[j + (1 + name.len() + k)] == path_text(path, x)[1 + name.len() as int + k]);
            assert(path_text(path, x)[1 + name.len() as int + k] == tail[k]);
        };
        lemma_parse_path_at(s, e, path, x + 1);
        assert(seq![name] + crate::lookup::path_view(path).subrange(x + 1, path.len() as int)
            =~= crate::lookup::path_view(path).subrange(x, path.len() as int));
    }
}


/// An operand the textual form can carry faithfully: literals reduced, a
/// member path nonempty with well-formed names.
pub open spec fn operand_textual(op: Operand) -> bool {
    match op {
        Operand::Literal(l) => crate::plaintext::lit_valid(l),
        Operand::Register(Register::Locator(_)) => true,
        Operand::Register(Register::Member(_, path)) => path@.len() > 0 && (forall|k: int|
            0 <= k < path@.len() ==> crate::plaintext::ident_valid(
                (#[trigger] path@[k]).bytes@,
            )),
    }
}

/// Parsing at a rendered operand yields it back, when the byte after the
/// rendering is no digit, dot or identifier byte.
pub proof fn lemma_parse_operand_at(s: Seq<u8>, i: int, op: Operand)
    requires
        0 <= i,
        operand_textual(op),
        i + spec_operand_text(op).len() <= s.len(),
        forall|k: int|
            0 <= k < spec_operand_text(op).len() ==> s[i + k] == spec_operand_text(op)[k],
        i + spec_operand_text(op).len() == s.len() || (!is_digit(
            s[i + spec_operand_text(op).len()],
        ) && s[i + spec_operand_text(op).len()] != 46 && !crate::plaintext::is_ident_byte(
            s[i + spec_operand_text(op).len()],
        )),
    ensures
        spec_parse_operand(s, i) == Some((operand_view(op), i + spec_operand_text(op).len())),
{
    let t = spec_operand_text(op);
    let end = i + t.len();
    match op {
        Operand::Register(Register::Locator(n)) => {
            lemma_dec_digits_are_digits(n);
            assert(t == seq![114u8] + dec_digits(n));
            assert(s[i + 0] == t[0]);
            assert(s[i] == 114);
            assert forall|k: int| 0 <= k < dec_digits(n).len() implies s[i + 1 + k]
                == dec_digits(n)[k] by {
                assert(s[i + (1 + k)] == t[1 + k]);
            };
            assert(is_digit(s[i + 1])) by {
                assert(s[i + 1] == dec_digits(n)[0]);
            };
            lemma_parse_dec(s, i + 1, n);
            assert(spec_parse_path_text(s, end) == Some((Seq::<Seq<u8>>::empty(), end)));
        },
        Operand::Register(Register::Member(n, path)) => {
            lemma_dec_digits_are_digits(n);
            let pt = path_text(path@, 0);
            assert(t == seq![114u8] + dec_digits(n) + pt);
            assert(s[i + 0] == t[0]);
            assert(s[i] == 114);
            assert forall|k: int| 0 <= k < dec_digits(n).len() implies s[i + 1 + k]
                == dec_digits(n)[k] by {
                assert(s[i + (1 + k)] == t[1 + k]);
                assert(t[1 + k] == dec_digits(n)[k]);
            };
            assert(is_digit(s[i + 1])) by {
                assert(s[i + 1] == dec_digits(n)[0]);
            };
            let j = i + 1 + dec_digits(n).len();
            assert(pt.len() > 0);
            assert(pt[0] == 46u8);
            assert(s[j] == 46) by {
                assert(s[i + (1 + dec_digits(n).len())] == t[1 + dec_digits(n).len() as int]);
                assert(t[1 + dec_digits(n).len() as int] == pt[0]);
            };
            lemma_parse_dec(s, i + 1, n);
            assert forall|k: int| 0 <= k < pt.len() implies s[j + k] == pt[k] by {
                assert(s[i + (1 + dec_digits(n).len() + k)] == t[1 + dec_digits(n).len() as int
                    + k]);
                assert(t[1 + dec_digits(n).len() as int + k] == pt[k]);
            };
            lemma_parse_path_at(s, j, path@, 0);
            assert(crate::lookup::path_view(path@).subrange(0, path@.len() as int)
                =~= crate::lookup::path_view(path@));
        },
        Operand::Literal(l) => {
            lemma_parse_literal_at(s, i, l);
        },
    }
}

/// Parsing at a rendered literal yields it back.
pub proof fn lemma_parse_literal_at(s: Seq<u8>, i: int, l: Literal)
    requires
        0 <= i,
        crate::plaintext::lit_valid(l),
        i + spec_operand_text(Operand::Literal(l)).len() <= s.len(),
        forall|k: int|
            0 <= k < spec_operand_text(Operand::Literal(l)).len() ==> s[i + k]
                == spec_operand_text(Operand::Literal(l))[k],
        i + spec_operand_text(Operand::Literal(l)).len() == s.len() || (!is_digit(
            s[i + spec_operand_text(Operand::Literal(l)).len()],
        ) && !crate::plaintext::is_ident_byte(s[i + spec_operand_text(Operand::Literal(l)).len()])),
    ensures
        spec_parse_operand(s, i) == Some(
            (
                OperandV::Literal(l),
                i + spec_operand_text(Operand::Literal(l)).len(),
            ),
        ),
{
    let t = spec_operand_text(Operand::Literal(l));
    match l {
        Literal::Bool(b) => {
            assert(s[i + 0] == t[0]);
            if b {
                assert(s.subrange(i, i + 4) =~= true_tag_bytes()) by {
                    assert forall|k: int| 0 <= k < 4 implies s.subrange(i, i + 4)[k]
                        == true_tag_bytes()[k] by {
                        assert(s[i + k] == t[k]);
                    };
                };
            } else {
                assert(s.subrange(i, i + 5) =~= false_tag_bytes()) by {
                    assert forall|k: int| 0 <= k < 5 implies s.subrange(i, i + 5)[k]
                        == false_tag_bytes()[k] by {
                        assert(s[i + k] == t[k]);
                    };
                };
            }
        },
        Literal::Field(f) => {
            lemma_parse_number_literal(s, i, f.value, field_tag_bytes());
            assert(spec_tag_at(s, i + dec_digits(f.value).len(), field_tag_bytes()) is Some);
        },
        Literal::Scalar(sc) => {
            lemma_parse_number_literal(s, i, sc.value, scalar_tag_bytes());
            let j = i + dec_digits(sc.value).len();
            assert(spec_tag_at(s, j, field_tag_bytes()) is None) by {
                if spec_tag_at(s, j, field_tag_bytes()) is Some {
                    assert(s.subrange(j, j + 5)[0] == s[j]);
                    assert(s[j] == 115) by {
                        assert(s[i + (dec_digits(sc.value).len() as int)] == t[dec_digits(
                            sc.value,
                        ).len() as int]);
                    };
                }
            };
        },
        Literal::Group(g) => {
            lemma_parse_number_literal(s, i, g.exponent, group_tag_bytes());
            let j = i + dec_digits(g.exponent).len();
            assert(s[j] == 103) by {
                assert(s[i + (dec_digits(g.exponent).len() as int)] == t[dec_digits(
                    g.exponent,
                ).len() as int]);
            };
            assert(spec_tag_at(s, j, field_tag_bytes()) is None) by {
                if spec_tag_at(s, j, field_tag_bytes()) is Some {
                    assert(s.subrange(j, j + 5)[0] == s[j]);
                }
            };
            assert(spec_tag_at(s, j, scalar_tag_bytes()) is None) by {
                if spec_tag_at(s, j, scalar_tag_bytes()) is Some {
                    assert(s.subrange(j, j + 6)[0] == s[j]);
                }
            };
        },
        Literal::Address(a) => {
            lemma_parse_number_literal(s, i, a.element.exponent, address_suffix_bytes());
            let j = i + dec_digits(a.element.exponent).len();
            assert(s[j] == 97) by {
                assert(s[i + (dec_digits(a.element.exponent).len() as int)] == t[dec_digits(
                    a.element.exponent,
                ).len() as int]);
            };
            assert(spec_tag_at(s, j, field_tag_bytes()) is None) by {
                if spec_tag_at(s, j, field_tag_bytes()) is Some {
                    assert(s.subrange(j, j + 5)[0] == s[j]);
                }
            };
            assert(spec_tag_at(s, j, scalar_tag_bytes()) is None) by {
                if spec_tag_at(s, j, scalar_tag_bytes()) is Some {
                    assert(s.subrange(j, j + 6)[0] == s[j]);
                }
            };
            assert(spec_tag_at(s, j, group_tag_bytes()) is None) by {
                if spec_tag_at(s, j, group_tag_bytes()) is Some {
                    assert(s.subrange(j, j + 5)[0] == s[j]);
                }
            };
        },
    }
}

/// Common facts for a number-with-suffix literal: the digits re-parse and
/// the suffix bytes are in place.
pub proof fn lemma_parse_number_literal(s: Seq<u8>, i: int, v: u64, suffix: Seq<u8>)
    requires
        0 <= i,
        i + dec_digits(v).len() + suffix.len() <= s.len(),
        forall|k: int|
            0 <= k < dec_digits(v).len() + suffix.len() ==> s[i + k] == (dec_digits(v)
                + suffix)[k],
        suffix.len() > 0,
        !is_digit(suffix[0]),
    ensures
        spec_parse_u64(s, i) == Some((v, i + dec_digits(v).len())),
        spec_tag_at(s, i + dec_digits(v).len(), suffix) == Some(
            i + dec_digits(v).len() + suffix.len(),
        ),
        is_digit(s[i]),
{
    lemma_dec_digits_are_digits(v);
    assert forall|k: int| 0 <= k < dec_digits(v).len() implies s[i + k] == dec_digits(v)[k] by {
        assert((dec_digits(v) + suffix)[k] == dec_digits(v)[k]);
    };
    assert(is_digit(s[i])) by {
        assert(s[i + 0] == dec_digits(v)[0]);
    };
    let j = i + dec_digits(v).len();
    assert(s[j] == suffix[0]) by {
        assert(s[i + (dec_digits(v).len() as int)] == (dec_digits(v) + suffix)[dec_digits(
            v,
        ).len() as int]);
    };
    lemma_parse_dec(s, i, v);
    assert(s.subrange(j, j + suffix.len()) =~= suffix) by {
        assert forall|k: int| 0 <= k < suffix.len() implies s.subrange(j, j + suffix.len())[k]
            == suffix[k] by {
            assert(s[i + (dec_digits(v).len() + k)] == (dec_digits(v) + suffix)[dec_digits(
                v,
            ).len() + k]);
        };
    };
}


/// A rendered operand begins with a printable, non-whitespace byte.
pub proof fn lemma_operand_text_head(op: Operand)
    requires
        operand_textual(op),
    ensures
        spec_operand_text(op).len() > 0,
        !is_ws(spec_operand_text(op)[0]),
        spec_operand_text(op)[0] != 93,
        spec_operand_text(op)[0] != 59,
{
    match op {
        Operand::Register(Register::Locator(n)) => {
            lemma_dec_digits_are_digits(n);
        },
        Operand::Register(Register::Member(n, _)) => {
            lemma_dec_digits_are_digits(n);
        },
        Operand::Literal(Literal::Bool(_)) => {},
        Operand::Literal(Literal::Field(f)) => {
            lemma_dec_digits_are_digits(f.value);
            assert(spec_operand_text(op)[0] == dec_digits(f.value)[0]);
        },
        Operand::Literal(Literal::Scalar(sc)) => {
            lemma_dec_digits_are_digits(sc.value);
            assert(spec_operand_text(op)[0] == dec_digits(sc.value)[0]);
        },
        Operand::Literal(Literal::Group(g)) => {
            lemma_dec_digits_are_digits(g.exponent);
            assert(spec_operand_text(op)[0] == dec_digits(g.exponent)[0]);
        },
        Operand::Literal(Literal::Address(a)) => {
            lemma_dec_digits_are_digits(a.element.exponent);
            assert(spec_operand_text(op)[0] == dec_digits(a.element.exponent)[0]);
        },
    }
}

/// Round trip of the textual form: parsing a command's canonical rendering
/// yields the command back, whole, for every command whose mapping name is
/// well formed and whose operands the textual form can carry.
#[verifier::rlimit(100)]
pub proof fn lemma_text_roundtrip(c: SetCommand)
    requires
        c.mapping.is_valid(),
        operand_textual(c.key),
        operand_textual(c.value),
    ensures
        spec_parse_set(spec_set_text(c)) == Some(
            (
                c.mapping.bytes@,
                operand_view(c.key),
                operand_view(c.value),
                spec_set_text(c).len() as int,
            ),
        ),
{
    let s = spec_set_text(c);
    let vt = spec_operand_text(c.value);
    let kt = spec_operand_text(c.key);
    let m = c.mapping.bytes@;
    let h = seq![115u8, 101u8, 116u8, 32u8];
    let i6 = seq![32u8, 105u8, 110u8, 116u8, 111u8, 32u8];
    let a1 = h + vt;
    let a2 = a1 + i6;
    let a3 = a2 + m;
    let a4 = a3 + seq![91u8];
    let a5 = a4 + kt;
    assert(s == a5 + seq![93u8, 59u8]);
    let vlen = vt.len() as int;
    let mlen = m.len() as int;
    let klen = kt.len() as int;
    lemma_operand_text_head(c.value);
    lemma_operand_text_head(c.key);

    // The bytes of each segment, by position.
    assert forall|k: int| 0 <= k < 4 implies s[k] == h[k] by {
        assert(a1[k] == h[k]);
        assert(a2[k] == a1[k]);
        assert(a3[k] == a2[k]);
        assert(a4[k] == a3[k]);
        assert(a5[k] == a4[k]);
        assert(s[k] == a5[k]);
    };
    assert forall|k: int| 0 <= k < vlen implies s[4 + k] == vt[k] by {
        assert(a1[4 + k] == vt[k]);
        assert(a2[4 + k] == a1[4 + k]);
        assert(a3[4 + k] == a2[4 + k]);
        assert(a4[4 + k] == a3[4 + k]);
        assert(a5[4 + k] == a4[4 + k]);
        assert(s[4 + k] == a5[4 + k]);
    };
    assert forall|k: int| 0 <= k < 6 implies s[4 + vlen + k] == i6[k] by {
        assert(a2[4 + vlen + k] == i6[k]);
        assert(a3[4 + vlen + k] == a2[4 + vlen + k]);
        assert(a4[4 + vlen + k] == a3[4 + vlen + k]);
        assert(a5[4 + vlen + k] == a4[4 + vlen + k]);
        assert(s[4 + vlen + k] == a5[4 + vlen + k]);
    };
    assert forall|k: int| 0 <= k < mlen implies s[10 + vlen + k] == m[k] by {
        assert(a3[10 + vlen + k] == m[k]);
        assert(a4[10 + vlen + k] == a3[10 + vlen + k]);
        assert(a5[10 + vlen + k] == a4[10 + vlen + k]);
        assert(s[10 + vlen + k] == a5[10 + vlen + k]);
    };
    assert(s[10 + vlen + mlen] == 91) by {
        assert(a4[10 + vlen + mlen] == 91);
        assert(a5[10 + vlen + mlen] == a4[10 + vlen + mlen]);
        assert(s[10 + vlen + mlen] == a5[10 + vlen + mlen]);
    };
    assert forall|k: int| 0 <= k < klen implies s[11 + vlen + mlen + k] == kt[k] by {
        assert(a5[11 + vlen + mlen + k] == kt[k]);
        assert(s[11 + vlen + mlen + k] == a5[11 + vlen + mlen + k]);
    };
    assert(s[11 + vlen + mlen + klen] == 93 && s[12 + vlen + mlen + klen] == 59);
    assert(s.len() == 13 + vlen + mlen + klen);

    // `set`, then one space.
    assert(spec_skip_ws(s, 0) == 0);
    assert(s.subrange(0, 3) =~= set_tag_bytes());
    assert(spec_tag_at(s, 0, set_tag_bytes()) == Some(3int));
    assert(spec_skip_ws(s, 4) == 4);
    assert(spec_skip_ws(s, 3) == 4);

    // The value operand, ended by the space before `into`.
    assert(s[4 + vlen] == 32) by {
        assert(s[4 + vlen + 0] == i6[0]);
    };
    lemma_parse_operand_at(s, 4, c.value);
    assert(spec_parse_operand(s, 4) == Some((operand_view(c.value), 4 + vlen)));

    // ` into `, one space on either side.
    assert(spec_skip_ws(s, 5 + vlen) == 5 + vlen) by {
        assert(s[4 + vlen + 1] == i6[1]);
    };
    assert(spec_skip_ws(s, 4 + vlen) == 5 + vlen);
    assert(s.subrange(5 + vlen, 9 + vlen) =~= into_tag_bytes()) by {
        assert forall|k: int| 0 <= k < 4 implies s.subrange(5 + vlen, 9 + vlen)[k]
            == into_tag_bytes()[k] by {
            assert(s[4 + vlen + (1 + k)] == i6[1 + k]);
        };
    };
    assert(spec_tag_at(s, 5 + vlen, into_tag_bytes()) == Some(9 + vlen));
    assert(s[9 + vlen] == 32) by {
        assert(s[4 + vlen + 5] == i6[5]);
    };
    assert(spec_skip_ws(s, 10 + vlen) == 10 + vlen) by {
        assert(s[10 + vlen + 0] == m[0]);
        assert(crate::plaintext::is_letter_byte(m[0]));
    };
    assert(spec_skip_ws(s, 9 + vlen) == 10 + vlen);

    // The mapping name, ended by the opening bracket.
    lemma_parse_ident_at(s, 10 + vlen, m);
    assert(spec_parse_ident(s, 10 + vlen) == Some((m, 10 + vlen + mlen)));

    // The bracketed key operand, then the semicolon.
    assert(s.subrange(10 + vlen + mlen, 11 + vlen + mlen) =~= seq![91u8]);
    assert(spec_tag_at(s, 10 + vlen + mlen, seq![91u8]) == Some(11 + vlen + mlen));
    assert(spec_skip_ws(s, 11 + vlen + mlen) == 11 + vlen + mlen) by {
        assert(s[11 + vlen + mlen + 0] == kt[0]);
    };
    assert(s[11 + vlen + mlen + klen] == 93);
    lemma_parse_operand_at(s, 11 + vlen + mlen, c.key);
    assert(spec_parse_operand(s, 11 + vlen + mlen) == Some(
        (operand_view(c.key), 11 + vlen + mlen + klen),
    ));
    assert(spec_skip_ws(s, 11 + vlen + mlen + klen) == 11 + vlen + mlen + klen);
    assert(s.subrange(11 + vlen + mlen + klen, 12 + vlen + mlen + klen) =~= seq![93u8]);
    assert(spec_tag_at(s, 11 + vlen + mlen + klen, seq![93u8]) == Some(12 + vlen + mlen + klen));
    assert(spec_skip_ws(s, 12 + vlen + mlen + klen) == 12 + vlen + mlen + klen);
    assert(s.subrange(12 + vlen + mlen + klen, 13 + vlen + mlen + klen) =~= seq![59u8]);
    assert(spec_tag_at(s, 12 + vlen + mlen + klen, seq![59u8]) == Some(13 + vlen + mlen + klen));
}


/// Reading eight little-endian bytes yields back the value they encode.
pub proof fn lemma_read_u64_wire(s: Seq<u8>, i: int, v: u64)
    requires
        0 <= i,
        i + 8 <= s.len(),
        forall|k: int| 0 <= k < 8 ==> s[i + k] == u64_le(v)[k],
    ensures
        spec_read_u64(s, i) == Some((v, i + 8)),
{
    assert(s[i + 0] == u64_le(v)[0]);
    let d0 = s[i] as u64;
    let d1 = s[i + 1] as u64;
    let d2 = s[i + 2] as u64;
    let d3 = s[i + 3] as u64;
    let d4 = s[i + 4] as u64;
    let d5 = s[i + 5] as u64;
    let d6 = s[i + 6] as u64;
    let d7 = s[i + 7] as u64;
    assert(d0 == v % 256 && d1 == (v / 256) % 256 && d2 == (v / 65536) % 256 && d3 == (v
        / 16777216) % 256 && d4 == (v / 4294967296) % 256 && d5 == (v / 1099511627776) % 256 && d6
        == (v / 281474976710656) % 256 && d7 == (v / 72057594037927936) % 256);
    assert(v == (((((((d7 * 256 + d6) * 256 + d5) * 256 + d4) * 256 + d3) * 256 + d2) * 256 + d1)
        * 256 + d0)) by (bit_vector)
        requires
            d0 == v % 256,
            d1 == (v / 256) % 256,
            d2 == (v / 65536) % 256,
            d3 == (v / 16777216) % 256,
            d4 == (v / 4294967296) % 256,
            d5 == (v / 1099511627776) % 256,
            d6 == (v / 281474976710656) % 256,
            d7 == (v / 72057594037927936) % 256,
    ;
    assert(u64_from_le(s, i) == v);
}


/// Reading at a written identifier yields its name back.
pub proof fn lemma_read_ident_wire(s: Seq<u8>, i: int, name: Seq<u8>)
    requires
        0 <= i,
        crate::plaintext::ident_valid(name),
        i + ident_wire(name).len() <= s.len(),
        forall|k: int| 0 <= k < ident_wire(name).len() ==> s[i + k] == ident_wire(name)[k],
    ensures
        spec_read_ident(s, i) == Some((name, i + 1 + name.len())),
{
    assert(s[i + 0] == ident_wire(name)[0]);
    assert(s[i] == name.len() as u8);
    assert forall|k: int| 0 <= k < name.len() implies s[i + 1 + k] == name[k] by {
        assert(s[i + (1 + k)] == ident_wire(name)[1 + k]);
        assert(ident_wire(name)[1 + k] == name[k]);
    };
    assert(s.subrange(i + 1, i + 1 + name.len()) =~= name);
}

/// Reading at a written member path yields its names back.
pub proof fn lemma_read_path_wire(s: Seq<u8>, j: int, path: Seq<Identifier>, x: int)
    requires
        0 <= j,
        0 <= x <= path.len(),
        forall|k: int|
            x <= k < path.len() ==> crate::plaintext::ident_valid((#[trigger] path[k]).bytes@),
        j + path_wire(path, x).len() <= s.len(),
        forall|k: int| 0 <= k < path_wire(path, x).len() ==> s[j + k] == path_wire(path, x)[k],
    ensures
        spec_read_path(s, j, (path.len() - x) as nat) == Some(
            (
                crate::lookup::path_view(path).subrange(x, path.len() as int),
                j + path_wire(path, x).len(),
            ),
        ),
    decreases path.len() - x,
{
    if x == path.len() {
        assert(crate::lookup::path_view(path).subrange(x, path.len() as int) =~= Seq::<
            Seq<u8>,
        >::empty());
    } else {
        let name = path[x].bytes@;
        let iw = ident_wire(name);
        let tail = path_wire(path, x + 1);
        assert(path_wire(path, x) == iw + tail);
        assert forall|k: int| 0 <= k < iw.len() implies s[j + k] == iw[k] by {
            assert(path_wire(path, x)[k] == iw[k]);
        };
        lemma_read_ident_wire(s, j, name);
        let e = j + iw.len();
        assert forall|k: int| 0 <= k < tail.len() implies s[e + k] == tail[k] by {
            assert(s[j + (iw.len() + k)] == path_wire(path, x)[iw.len() as int + k]);
            assert(path_wire(path, x)[iw.len() as int + k] == tail[k]);
        };
        lemma_read_path_wire(s, e, path, x + 1);
        assert(seq![name] + crate::lookup::path_view(path).subrange(x + 1, path.len() as int)
            =~= crate::lookup::path_view(path).subrange(x, path.len() as int));
    }
}

/// Reading at a written operand yields it back.
pub proof fn lemma_read_operand_wire(s: Seq<u8>, i: int, op: Operand)
    requires
        0 <= i,
        operand_valid(op),
        i + operand_wire(op).len() <= s.len(),
        forall|k: int| 0 <= k < operand_wire(op).len() ==> s[i + k] == operand_wire(op)[k],
    ensures
        spec_read_operand(s, i) == Some((operand_view(op), i + operand_wire(op).len())),
{
    let w = operand_wire(op);
    assert(s[i + 0] == w[0]);
    match op {
        Operand::Literal(l) => {
            assert(s[i] == 0);
            assert(s[i + 1] == w[1]);
            let payload = match l {
                Literal::Bool(b) => if b {
                    1u64
                } else {
                    0u64
                },
                Literal::Field(f) => f.value,
                Literal::Group(g) => g.exponent,
                Literal::Scalar(sc) => sc.value,
                Literal::Address(a) => a.element.exponent,
            };
            assert forall|k: int| 0 <= k < 8 implies s[i + 2 + k] == u64_le(payload)[k] by {
                assert(s[i + (2 + k)] == w[2 + k]);
            };
            lemma_read_u64_wire(s, i + 2, payload);
            assert(spec_wire_literal(s[i + 1], payload) == Some(l));
        },
        Operand::Register(Register::Locator(n)) => {
            assert(s[i] == 1);
            assert forall|k: int| 0 <= k < 8 implies s[i + 1 + k] == u64_le(n)[k] by {
                assert(s[i + (1 + k)] == w[1 + k]);
            };
            lemma_read_u64_wire(s, i + 1, n);
        },
        Operand::Register(Register::Member(n, path)) => {
            assert(s[i] == 2);
            let pw = path_wire(path@, 0);
            assert(w == seq![2u8] + u64_le(n) + seq![path@.len() as u8] + pw);
            assert forall|k: int| 0 <= k < 8 implies s[i + 1 + k] == u64_le(n)[k] by {
                assert(s[i + (1 + k)] == w[1 + k]);
                assert(w[1 + k] == u64_le(n)[k]);
            };
            lemma_read_u64_wire(s, i + 1, n);
            assert(s[i + 9] == path@.len() as u8) by {
                assert(s[i + (9int)] == w[9]);
            };
            assert forall|k: int| 0 <= k < pw.len() implies s[i + 10 + k] == pw[k] by {
                assert(s[i + (10 + k)] == w[10 + k]);
                assert(w[10 + k] == pw[k]);
            };
            lemma_read_path_wire(s, i + 10, path@, 0);
            assert(crate::lookup::path_view(path@).subrange(0, path@.len() as int)
                =~= crate::lookup::path_view(path@));
        },
    }
}

/// Round trip of the wire form: reading a command's written bytes yields
/// the command back, whole, for every command whose mapping name is well
/// formed and whose operands are well formed.
pub proof fn lemma_wire_roundtrip(c: SetCommand)
    requires
        c.mapping.is_valid(),
        operand_valid(c.key),
        operand_valid(c.value),
    ensures
        spec_read_set(set_wire(c)) == Some(
            (
                c.mapping.bytes@,
                operand_view(c.key),
                operand_view(c.value),
                set_wire(c).len() as int,
            ),
        ),
{
    let s = set_wire(c);
    let iw = ident_wire(c.mapping.bytes@);
    let kw = operand_wire(c.key);
    let vw = operand_wire(c.value);
    assert(s == iw + kw + vw);
    let ilen = iw.len() as int;
    let klen = kw.len() as int;
    assert forall|k: int| 0 <= k < ilen implies s[k] == iw[k] by {
        assert((iw + kw)[k] == iw[k]);
        assert(s[k] == (iw + kw)[k]);
    };
    assert forall|k: int| 0 <= k < klen implies s[ilen + k] == kw[k] by {
        assert((iw + kw)[ilen + k] == kw[k]);
        assert(s[ilen + k] == (iw + kw)[ilen + k]);
    };
    assert forall|k: int| 0 <= k < vw.len() implies s[ilen + klen + k] == vw[k] by {
        assert(s[ilen + klen + k] == vw[k]);
    };
    lemma_read_ident_wire(s, 0, c.mapping.bytes@);
    lemma_read_operand_wire(s, ilen, c.key);
    lemma_read_operand_wire(s, ilen + klen, c.value);
}

} // verus!
