//! Record equality and encryption round-trip behavior.

use zkstate::algebra::{Address, Field, Group, Scalar, ViewKey, FIELD_MODULUS, GROUP_ORDER};
use zkstate::plaintext::{Identifier, Literal, Plaintext};
use zkstate::errors::VmError;
use zkstate::record::{CtEntry, CtOwner, Entry, Owner, Record, RecordCiphertext};

fn ident(name: &str) -> Identifier {
    Identifier::from_bytes(name.as_bytes().to_vec()).unwrap()
}

fn sample_address() -> Address {
    Address { element: Group { exponent: 12345 } }
}

/// The sample record: a private owner, a private boolean, a public field,
/// a private group, and a nested struct of three private members.
fn sample_record() -> Record {
    let addr = sample_address();
    let nested = Plaintext::Struct(vec![
        (ident("e"), Plaintext::Literal(Literal::Bool(true))),
        (ident("f"), Plaintext::Literal(Literal::Field(Field { value: 123456789 }))),
        (ident("g"), Plaintext::Literal(Literal::Group(Group { exponent: 0 }))),
    ]);
    Record {
        owner: Owner::Private(addr),
        data: vec![
            (ident("a"), Entry::Private(Plaintext::Literal(Literal::Bool(true)))),
            (
                ident("b"),
                Entry::Public(Plaintext::Literal(Literal::Field(Field { value: 123456789 }))),
            ),
            (ident("c"), Entry::Private(Plaintext::Literal(Literal::Group(Group { exponent: 0 })))),
            (ident("d"), Entry::Private(nested)),
        ],
        nonce: Group { exponent: 0 },
    }
}

/// The same record with the visibility of field `a` flipped to public.
fn sample_mismatched_record() -> Record {
    let mut r = sample_record();
    r.data[0].1 = Entry::Public(Plaintext::Literal(Literal::Bool(true)));
    r
}

fn check_is_equal() {
    let record = sample_record();
    let mismatched_record = sample_mismatched_record();
    let candidate = record.is_equal(&record);
    assert!(candidate);
    let candidate = record.is_equal(&mismatched_record);
    assert!(!candidate);
}

fn check_is_not_equal() {
    let record = sample_record();
    let mismatched_record = sample_mismatched_record();
    let candidate = record.is_not_equal(&mismatched_record);
    assert!(candidate);
    let candidate = record.is_not_equal(&record);
    assert!(!candidate);
}

#[test]
fn test_is_equal_constant() {
    check_is_equal();
}

#[test]
fn test_is_equal_public() {
    check_is_equal();
}

#[test]
fn test_is_equal_private() {
    check_is_equal();
}

#[test]
fn test_is_not_equal_constant() {
    check_is_not_equal();
}

#[test]
fn test_is_not_equal_public() {
    check_is_not_equal();
}

#[test]
fn test_is_not_equal_private() {
    check_is_not_equal();
}

/// The nonce takes part in the comparison: two otherwise identical records
/// with different nonces are unequal.
#[test]
fn test_nonce_in_equality() {
    let record = sample_record();
    let mut other = sample_record();
    other.nonce = Group { exponent: 99 };
    assert!(!record.is_equal(&other));
    assert!(record.is_not_equal(&other));
}

/// Changing a single private value flips both comparisons, and they stay
/// exact complements.
#[test]
fn test_value_sensitivity() {
    let record = sample_record();
    let mut other = sample_record();
    other.data[2].1 = Entry::Private(Plaintext::Literal(Literal::Group(Group { exponent: 5 })));
    assert!(!record.is_equal(&other));
    assert!(record.is_not_equal(&other));
    assert_eq!(record.is_equal(&other), !record.is_not_equal(&other));
}

fn check_encrypt_and_decrypt(view_key: ViewKey, owner: Owner, randomizer: Scalar, seed: u64) {
    let record = Record {
        owner,
        data: vec![
            (
                ident("a"),
                Entry::Private(Plaintext::Literal(Literal::Field(Field {
                    value: seed % FIELD_MODULUS,
                }))),
            ),
            (
                ident("b"),
                Entry::Private(Plaintext::Literal(Literal::Scalar(Scalar {
                    value: seed % GROUP_ORDER,
                }))),
            ),
        ],
        nonce: Group { exponent: randomizer.value },
    };
    let ciphertext = record.encrypt(randomizer).unwrap();
    let decrypted = ciphertext.decrypt(&view_key).unwrap();
    assert!(record.is_equal(&decrypted));
}

#[test]
fn test_encrypt_and_decrypt() {
    let mut state: u64 = 42;
    for _ in 0..100 {
        state = state.wrapping_mul(6364136223846793005).wrapping_add(1442695040888963407);
        let sk = state % GROUP_ORDER;
        let view_key = ViewKey { scalar: Scalar { value: sk } };
        let address = view_key.to_address();
        let randomizer = Scalar { value: (state >> 32) % GROUP_ORDER };

        // Public owner.
        check_encrypt_and_decrypt(view_key, Owner::Public(address), randomizer, state);

        // Private owner.
        check_encrypt_and_decrypt(view_key, Owner::Private(address), randomizer, state);
    }
}

/// Decrypting with a wrong view key never silently yields the true record.
#[test]
fn test_wrong_view_key() {
    let view_key = ViewKey { scalar: Scalar { value: 7777 } };
    let address = view_key.to_address();
    let randomizer = Scalar { value: 31337 };
    let record = Record {
        owner: Owner::Private(address),
        data: vec![(
            ident("amount"),
            Entry::Private(Plaintext::Literal(Literal::Field(Field { value: 500 }))),
        )],
        nonce: Group { exponent: randomizer.value },
    };
    let ciphertext = record.encrypt(randomizer).unwrap();
    let wrong_key = ViewKey { scalar: Scalar { value: 8888 } };
    match ciphertext.decrypt(&wrong_key) {
        Ok(garbage) => assert!(!garbage.is_equal(&record)),
        Err(_) => {}
    }
}

/// Path lookup: the reserved `owner` path, a top-level entry, a nested
/// member, and the two failure modes.
#[test]
fn test_find_paths() {
    let record = sample_record();

    let owner_entry = record.find(&vec![ident("owner")]).unwrap();
    assert!(matches!(owner_entry, Entry::Private(Plaintext::Literal(Literal::Address(_)))));

    let b = record.find(&vec![ident("b")]).unwrap();
    assert!(matches!(
        b,
        Entry::Public(Plaintext::Literal(Literal::Field(Field { value: 123456789 })))
    ));

    let nested = record.find(&vec![ident("d"), ident("f")]).unwrap();
    assert!(matches!(
        nested,
        Entry::Private(Plaintext::Literal(Literal::Field(Field { value: 123456789 })))
    ));

    match record.find(&vec![ident("zzz")]) {
        Err(e) => assert_eq!(e, VmError::EntryNotFound),
        Ok(_) => panic!("missing entry found"),
    }
    match record.find(&vec![]) {
        Err(e) => assert_eq!(e, VmError::EmptyPath),
        Ok(_) => panic!("empty path accepted"),
    }
}

/// A ciphertext carrying two entries under one identifier is refused.
#[test]
fn test_duplicate_identifier() {
    let ct = RecordCiphertext {
        owner: CtOwner::Public(sample_address()),
        data: vec![
            (ident("a"), CtEntry::Public(Plaintext::Literal(Literal::Bool(true)))),
            (ident("a"), CtEntry::Public(Plaintext::Literal(Literal::Bool(false)))),
        ],
        nonce: Group { exponent: 3 },
    };
    let view_key = ViewKey { scalar: Scalar { value: 7777 } };
    match ct.decrypt(&view_key) {
        Err(e) => assert_eq!(e, VmError::DuplicateIdentifier),
        Ok(_) => panic!("duplicate identifiers decrypted"),
    }
}

/// An oversized ciphertext is rejected as malformed rather than decrypted.
#[test]
fn test_malformed_ciphertext() {
    let ct = RecordCiphertext {
        owner: CtOwner::Public(sample_address()),
        data: vec![(ident("a"), CtEntry::Private(vec![Field { value: 1 }]))],
        nonce: Group { exponent: 3 },
    };
    let view_key = ViewKey { scalar: Scalar { value: 7777 } };
    // A single masked element can never decode as a whole plaintext, whose
    // encoding is at least two elements.
    match ct.decrypt(&view_key) {
        Err(e) => assert_eq!(e, VmError::MalformedCiphertext),
        Ok(_) => panic!("malformed ciphertext decrypted"),
    }
}
