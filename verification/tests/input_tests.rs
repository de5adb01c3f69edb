//! Finalize input statements: parsing, display, and ordering.

use std::cmp::Ordering;
use zkstate::command::Register;
use zkstate::errors::VmError;
use zkstate::input::Input;
use zkstate::program::{LiteralType, PlaintextType};

fn input(text: &str) -> Input {
    Input::from_str(&text.as_bytes().to_vec()).unwrap()
}

#[test]
fn test_input_type_name() {
    assert_eq!(Input::keyword(), "input");
}

#[test]
fn test_input_partial_ord() {
    let input1 = input("input r0 as field.public;");
    let input2 = input("input r1 as field.public;");
    let input3 = input("input r0 as signature.public;");
    let input4 = input("input r1 as signature.public;");

    assert_eq!(input1.partial_cmp(&input1), Some(Ordering::Equal));
    assert_eq!(input1.partial_cmp(&input2), Some(Ordering::Less));
    assert_eq!(input1.partial_cmp(&input3), Some(Ordering::Equal));
    assert_eq!(input1.partial_cmp(&input4), Some(Ordering::Less));

    assert_eq!(input2.partial_cmp(&input1), Some(Ordering::Greater));
    assert_eq!(input2.partial_cmp(&input2), Some(Ordering::Equal));
    assert_eq!(input2.partial_cmp(&input3), Some(Ordering::Greater));
    assert_eq!(input2.partial_cmp(&input4), Some(Ordering::Equal));

    assert_eq!(input3.partial_cmp(&input1), Some(Ordering::Equal));
    assert_eq!(input3.partial_cmp(&input2), Some(Ordering::Less));
    assert_eq!(input3.partial_cmp(&input3), Some(Ordering::Equal));
    assert_eq!(input3.partial_cmp(&input4), Some(Ordering::Less));

    assert_eq!(input4.partial_cmp(&input1), Some(Ordering::Greater));
    assert_eq!(input4.partial_cmp(&input2), Some(Ordering::Equal));
    assert_eq!(input4.partial_cmp(&input3), Some(Ordering::Greater));
    assert_eq!(input4.partial_cmp(&input4), Some(Ordering::Equal));
}

#[test]
fn test_input_parse() {
    // Literal
    let parsed = Input::parse(&"input r0 as field.public;".as_bytes().to_vec()).unwrap().0;
    assert!(matches!(parsed.register, Register::Locator(0)));
    assert!(matches!(parsed.plaintext_type, PlaintextType::Literal(LiteralType::Field)));

    // Struct
    let parsed = Input::parse(&"input r1 as signature.public;".as_bytes().to_vec()).unwrap().0;
    assert!(matches!(parsed.register, Register::Locator(1)));
    match &parsed.plaintext_type {
        PlaintextType::Struct(id) => assert_eq!(id.bytes, "signature".as_bytes().to_vec()),
        _ => panic!("expected a struct type"),
    }

    // Record
    let parsed = Input::parse(&"input r2 as token.public;".as_bytes().to_vec()).unwrap().0;
    assert!(matches!(parsed.register, Register::Locator(2)));
    match &parsed.plaintext_type {
        PlaintextType::Struct(id) => assert_eq!(id.bytes, "token".as_bytes().to_vec()),
        _ => panic!("expected a struct type"),
    }
}

#[test]
fn test_input_display() {
    // Literal
    let parsed = input("input r0 as field.public;");
    assert_eq!(parsed.to_text(), "input r0 as field.public;".as_bytes().to_vec());

    // Struct
    let parsed = input("input r1 as signature.public;");
    assert_eq!(parsed.to_text(), "input r1 as signature.public;".as_bytes().to_vec());

    // Record
    let parsed = Input::parse(&"input r2 as token.public;".as_bytes().to_vec()).unwrap().0;
    assert_eq!(parsed.to_text(), "input r2 as token.public;".as_bytes().to_vec());
}

/// A member register cannot be an input register.
#[test]
fn test_input_member_register_refused() {
    let r = Input::from_str(&"input r0.owner as field.public;".as_bytes().to_vec());
    match r {
        Err(e) => assert_eq!(e, VmError::ParseError),
        Ok(_) => panic!("member register accepted"),
    }
}
