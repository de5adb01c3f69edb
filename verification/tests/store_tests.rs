//! The finalize `set` command against the mapping store.

use zkstate::algebra::{Address, Field, Group};
use zkstate::command::{FinalizeRegisters, Operand, Register, SetCommand};
use zkstate::errors::VmError;
use zkstate::plaintext::{Identifier, Literal, Plaintext};
use zkstate::program::Program;
use zkstate::stack::{Stack, Value};
use zkstate::store::ProgramStore;

fn ident(name: &str) -> Identifier {
    Identifier::from_bytes(name.as_bytes().to_vec()).unwrap()
}

fn sample_stack() -> Stack {
    Stack {
        program: Program { id: ident("token"), functions: vec![] },
        key_cache: vec![],
        externals: vec![],
    }
}

/// Parsing `set r0 into account[r1];` consumes the whole string and yields
/// the mapping name and both operands.
#[test]
fn test_parse() {
    let text = "set r0 into account[r1];".as_bytes().to_vec();
    let (set, consumed) = SetCommand::parse(&text).unwrap();
    assert_eq!(consumed, text.len(), "Parser did not consume all of the string");
    assert_eq!(set.mapping.bytes, "account".as_bytes().to_vec());
    assert_eq!(set.operands().len(), 2, "The number of operands is incorrect");
    assert!(
        matches!(set.value, Operand::Register(Register::Locator(0))),
        "The first operand is incorrect"
    );
    assert!(
        matches!(set.key, Operand::Register(Register::Locator(1))),
        "The second operand is incorrect"
    );
}

/// Writing twice to the same key overwrites: after storing 100 and then
/// 250 under the same key, the store reads 250.
#[test]
fn test_store_overwrite() {
    let stack = sample_stack();
    let mut store = ProgramStore::new();
    store.init_mapping(&stack.program.id, &ident("account"));

    let text = "set r0 into account[r1];".as_bytes().to_vec();
    let (set, _) = SetCommand::parse(&text).unwrap();
    let addr = Plaintext::Literal(Literal::Address(Address {
        element: Group { exponent: 777 },
    }));

    let registers = FinalizeRegisters {
        regs: vec![Plaintext::Literal(Literal::Field(Field { value: 100 })), addr.clone()],
    };
    set.finalize(&stack, &mut store, &registers).unwrap();

    let registers = FinalizeRegisters {
        regs: vec![Plaintext::Literal(Literal::Field(Field { value: 250 })), addr.clone()],
    };
    set.finalize(&stack, &mut store, &registers).unwrap();

    let stored = store.get_value(&stack.program.id, &ident("account"), &addr).unwrap();
    match stored {
        Value::Plaintext(Plaintext::Literal(Literal::Field(f))) => assert_eq!(f.value, 250),
        _ => panic!("wrong stored value"),
    }
}

/// A `set` against a mapping that was never declared fails with a storage
/// error and leaves the store unmodified.
#[test]
fn test_missing_mapping() {
    let stack = sample_stack();
    let mut store = ProgramStore::new();
    let text = "set r0 into account[r1];".as_bytes().to_vec();
    let (set, _) = SetCommand::parse(&text).unwrap();
    let key = Plaintext::Literal(Literal::Field(Field { value: 1 }));
    let registers = FinalizeRegisters {
        regs: vec![
            Plaintext::Literal(Literal::Field(Field { value: 100 })),
            key.clone(),
        ],
    };
    let err = set.finalize(&stack, &mut store, &registers).unwrap_err();
    assert_eq!(err, VmError::MappingNotFound);
    assert!(store.get_value(&stack.program.id, &ident("account"), &key).is_none());
    assert_eq!(store.entries.len(), 0);
}

/// An operand naming an absent register fails the finalize step and leaves
/// the store unmodified.
#[test]
fn test_missing_register() {
    let stack = sample_stack();
    let mut store = ProgramStore::new();
    store.init_mapping(&stack.program.id, &ident("account"));
    let text = "set r5 into account[r1];".as_bytes().to_vec();
    let (set, _) = SetCommand::parse(&text).unwrap();
    let registers = FinalizeRegisters { regs: vec![] };
    let err = set.finalize(&stack, &mut store, &registers).unwrap_err();
    assert_eq!(err, VmError::RegisterNotFound);
    assert_eq!(store.entries.len(), 0);
}

/// The command's opcode is the `set` mnemonic.
#[test]
fn test_set_opcode() {
    let opcode = SetCommand::opcode();
    assert_eq!(opcode.mnemonic(), "set");
}

/// The binary form round-trips through write and read.
#[test]
fn test_set_wire_roundtrip() {
    let text = "set 42field into balances[r3];".as_bytes().to_vec();
    let (set, _) = SetCommand::parse(&text).unwrap();
    let bytes = set.write_le();
    let (back, consumed) = SetCommand::read_le(&bytes).unwrap();
    assert_eq!(consumed, bytes.len());
    assert_eq!(back.mapping.bytes, "balances".as_bytes().to_vec());
    assert!(matches!(back.key, Operand::Register(Register::Locator(3))));
    assert!(matches!(
        back.value,
        Operand::Literal(Literal::Field(Field { value: 42 }))
    ));
}

/// A malformed command text fails to parse.
#[test]
fn test_parse_error() {
    let text = "put r0 into account[r1];".as_bytes().to_vec();
    match SetCommand::parse(&text) {
        Err(e) => assert_eq!(e, VmError::ParseError),
        Ok(_) => panic!("bad opcode parsed"),
    }
    let trailing = "set r0 into account[r1]; extra".as_bytes().to_vec();
    match SetCommand::from_str(&trailing) {
        Err(e) => assert_eq!(e, VmError::ParseError),
        Ok(_) => panic!("trailing input accepted"),
    }
}

/// The textual rendering reproduces the canonical form.
#[test]
fn test_set_display() {
    let text = "set r0 into account[r1];".as_bytes().to_vec();
    let (set, _) = SetCommand::parse(&text).unwrap();
    assert_eq!(set.to_text(), text);
}

/// A member-register operand survives the text round trip.
#[test]
fn test_member_register_text_roundtrip() {
    let text = "set r0.owner into account[r1];".as_bytes().to_vec();
    let set = SetCommand::from_str(&text).unwrap();
    assert!(matches!(&set.value, Operand::Register(Register::Member(0, _))));
    assert_eq!(set.to_text(), text);
    let again = SetCommand::from_str(&set.to_text()).unwrap();
    assert_eq!(again.to_text(), text);
}

/// An address literal operand survives the text round trip.
#[test]
fn test_address_literal_text_roundtrip() {
    let text = "set 777address into account[r1];".as_bytes().to_vec();
    let set = SetCommand::from_str(&text).unwrap();
    assert!(matches!(
        set.value,
        Operand::Literal(Literal::Address(Address { element: Group { exponent: 777 } }))
    ));
    assert_eq!(set.to_text(), text);
}

/// Whitespace between the closing bracket and the semicolon is accepted.
#[test]
fn test_bracket_whitespace() {
    let text = "set r0 into account[r1] ;".as_bytes().to_vec();
    let set = SetCommand::from_str(&text).unwrap();
    assert_eq!(set.mapping.bytes, "account".as_bytes().to_vec());
}

/// The member-register wire form also survives text rendering and
/// re-parsing after a wire round trip.
#[test]
fn test_member_register_wire_and_text() {
    let text = "set r2.balance.total into ledger[r0];".as_bytes().to_vec();
    let set = SetCommand::from_str(&text).unwrap();
    let bytes = set.write_le();
    let (back, consumed) = SetCommand::read_le(&bytes).unwrap();
    assert_eq!(consumed, bytes.len());
    assert_eq!(back.to_text(), text);
}
