//! Deployment pipeline behavior: deploy, verify, order sensitivity and
//! certificate binding.

use zkstate::errors::VmError;
use zkstate::plaintext::Identifier;
use zkstate::program::{FunctionDef, LiteralType, PlaintextType, Program, ValueType};
use zkstate::stack::{Stack, VerifyingKey};

fn ident(name: &str) -> Identifier {
    Identifier::from_bytes(name.as_bytes().to_vec()).unwrap()
}

fn sample_program() -> Program {
    Program {
        id: ident("token"),
        functions: vec![
            FunctionDef {
                name: ident("mint"),
                inputs: vec![ValueType::Plaintext(PlaintextType::Literal(LiteralType::Field))],
                body: vec![1, 2, 3],
            },
            FunctionDef {
                name: ident("transfer"),
                inputs: vec![ValueType::Plaintext(PlaintextType::Literal(LiteralType::Address))],
                body: vec![4, 5, 6, 7],
            },
        ],
    }
}

fn sample_stack() -> Stack {
    Stack { program: sample_program(), key_cache: vec![], externals: vec![] }
}

/// A deployment of the stack's own program verifies.
#[test]
fn test_deploy_and_verify() {
    let mut stack = sample_stack();
    let deployment = stack.deploy().unwrap();
    assert_eq!(deployment.verifying_keys.len(), 2);
    assert!(stack.verify_deployment(&deployment, 99).is_ok());
}

/// A program with no functions cannot be deployed.
#[test]
fn test_deploy_empty_program() {
    let mut stack = Stack {
        program: Program { id: ident("empty"), functions: vec![] },
        key_cache: vec![],
        externals: vec![],
    };
    match stack.deploy() {
        Err(e) => assert_eq!(e, VmError::NoFunctions),
        Ok(_) => panic!("empty program deployed"),
    }
}

/// Permuting the certified keys of a valid deployment makes verification
/// fail: order is part of a deployment's identity.
#[test]
fn test_deployment_order_sensitivity() {
    let mut stack = sample_stack();
    let mut deployment = stack.deploy().unwrap();
    deployment.verifying_keys.swap(0, 1);
    assert_eq!(
        stack.verify_deployment(&deployment, 99).unwrap_err(),
        VmError::UnorderedDeployment
    );
}

/// Substituting one function's certificate for another's verifying key
/// makes verification fail: each certificate binds its own function.
#[test]
fn test_certificate_binding() {
    let mut stack = sample_stack();
    let mut deployment = stack.deploy().unwrap();
    let cert_b = deployment.verifying_keys[1].1 .1.clone();
    deployment.verifying_keys[0].1 .1 = cert_b;
    assert_eq!(
        stack.verify_deployment(&deployment, 99).unwrap_err(),
        VmError::InvalidCertificate
    );
}

/// A deployment of a different program is refused.
#[test]
fn test_program_mismatch() {
    let mut stack = sample_stack();
    let deployment = stack.deploy().unwrap();
    let mut other = Stack {
        program: Program {
            id: ident("other"),
            functions: sample_program().functions,
        },
        key_cache: vec![],
        externals: vec![],
    };
    let _ = other.deploy().unwrap();
    assert_eq!(
        other.verify_deployment(&deployment, 99).unwrap_err(),
        VmError::ProgramMismatch
    );
}

/// A function whose input references an unknown external program cannot be
/// replayed for verification.
#[test]
fn test_unresolvable_external() {
    let mut stack = Stack {
        program: Program {
            id: ident("caller"),
            functions: vec![FunctionDef {
                name: ident("invoke"),
                inputs: vec![ValueType::ExternalRecord(ident("missing"), ident("token"))],
                body: vec![9],
            }],
        },
        key_cache: vec![],
        externals: vec![],
    };
    let deployment = stack.deploy().unwrap();
    assert_eq!(
        stack.verify_deployment(&deployment, 99).unwrap_err(),
        VmError::ExternalProgramNotFound
    );
}

/// A tampered verifying key fails certification.
#[test]
fn test_tampered_verifying_key() {
    let mut stack = sample_stack();
    let mut deployment = stack.deploy().unwrap();
    deployment.verifying_keys[0].1 .0 = VerifyingKey { digest: 0xdeadbeef };
    assert_eq!(
        stack.verify_deployment(&deployment, 99).unwrap_err(),
        VmError::InvalidCertificate
    );
}
