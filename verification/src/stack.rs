//! The deployment pipeline: compiling a program's functions into certified
//! verifying keys, and verifying a third party's deployment by replaying
//! each function and checking its certificate.
//!
//! The proof backend is modeled deterministically: a function's circuit
//! digest stands for its synthesized circuit, a key pair carries that
//! digest, a certificate binds a function name and digest to a verifying
//! key, and one replayed execution captures exactly one assignment whose
//! digest is the function's. Under this model the pipeline's structural
//! rules — order, alignment, all-or-nothing failure, and the binding of
//! each certificate to its own function — are stated and proved exactly.

use vstd::prelude::*;

use crate::errors::VmError;
use crate::plaintext::{Identifier, Literal, Plaintext};
use crate::program::{eq_program, program_eq, FunctionDef, PlaintextType, Program, ValueType};
use crate::record::{Owner, Record};
use crate::algebra::{Address, Field, Group, Scalar, FIELD_MODULUS, GROUP_ORDER};

verus! {

/// The deployment edition this pipeline produces.
pub const EDITION: u16 = 1;

/// A proving key, carrying its circuit's digest.
#[derive(Clone, Copy, PartialEq, Eq, Structural, Debug)]
pub struct ProvingKey {
    pub digest: u64,
}

/// A verifying key, carrying its circuit's digest.
#[derive(Clone, Copy, PartialEq, Eq, Structural, Debug)]
pub struct VerifyingKey {
    pub digest: u64,
}

/// A captured circuit execution trace, reduced to its circuit's digest.
#[derive(Clone, Copy, PartialEq, Eq, Structural, Debug)]
pub struct Assignment {
    pub digest: u64,
}

/// A certificate binding a function name and circuit digest to a verifying
/// key.
pub struct Certificate {
    pub name: Identifier,
    pub digest: u64,
}

/// A runtime value: a plaintext, or a record.
pub enum Value {
    Plaintext(Plaintext),
    Record(Record),
}

/// A synthetic call request, signed under a single-use burner key.
pub struct Request {
    pub signer: Address,
    pub program_id: Identifier,
    pub function_name: Identifier,
    pub inputs: Vec<Value>,
}

/// One digest-mixing step.
pub open spec fn mix(acc: u64, w: u64) -> u64 {
    (((acc * 1099511628211) + w) % 0x10000000000000000) as u64
}

/// Digest of a byte sequence from position `i`, folded left to right.
pub open spec fn bytes_digest_from(s: Seq<u8>, i: int, acc: u64) -> u64
    decreases s.len() - i,
{
    if !(0 <= i < s.len()) {
        acc
    } else {
        bytes_digest_from(s, i + 1, mix(acc, s[i] as u64))
    }
}

/// Digest of a word sequence from position `i`, folded left to right.
pub open spec fn words_digest_from(s: Seq<u64>, i: int, acc: u64) -> u64
    decreases s.len() - i,
{
    if !(0 <= i < s.len()) {
        acc
    } else {
        words_digest_from(s, i + 1, mix(acc, s[i]))
    }
}

/// The digest of a function's circuit: its name and body folded together.
/// It stands for the synthesized circuit of the model's proof backend.
pub open spec fn circuit_digest(f: FunctionDef) -> u64 {
    words_digest_from(f.body@, 0, bytes_digest_from(f.name.bytes@, 0, 1469598103934665603))
}

/// Computes one digest-mixing step.
pub fn mix_exec(acc: u64, w: u64) -> (r: u64)
    ensures
        r == mix(acc, w),
{
    let wide: u128 = (acc as u128) * 1099511628211u128 + (w as u128);
    (wide % 0x10000000000000000u128) as u64
}

/// Computes a function's circuit digest.
fn compute_digest(f: &FunctionDef) -> (r: u64)
    ensures
        r == circuit_digest(*f),
{
    let mut acc: u64 = 1469598103934665603;
    let mut i: usize = 0;
    while i < f.name.bytes.len()
        invariant
            0 <= i <= f.name.bytes@.len(),
            bytes_digest_from(f.name.bytes@, i as int, acc) == bytes_digest_from(
                f.name.bytes@,
                0,
                1469598103934665603,
            ),
        decreases f.name.bytes@.len() - i,
    {
        acc = mix_exec(acc, f.name.bytes[i] as u64);
        i += 1;
    }
    let mut j: usize = 0;
    while j < f.body.len()
        invariant
            0 <= j <= f.body@.len(),
            words_digest_from(f.body@, j as int, acc) == words_digest_from(
                f.body@,
                0,
                bytes_digest_from(f.name.bytes@, 0, 1469598103934665603),
            ),
        decreases f.body@.len() - j,
    {
        acc = mix_exec(acc, f.body[j]);
        j += 1;
    }
    acc
}

impl Clone for Certificate {
    /// The copy binds the same function name and digest.
    fn clone(&self) -> (r: Self)
        ensures
            r.name.bytes@ == self.name.bytes@,
            r.digest == self.digest,
    {
        Certificate { name: self.name.clone(), digest: self.digest }
    }
}

impl Certificate {
    /// Certifies a synthesized key pair for a function: the certificate
    /// binds the function's name and the keys' shared circuit digest.
    /// Fails when the two keys do not belong to the same circuit.
    pub fn certify(function_name: &Identifier, proving_key: &ProvingKey, verifying_key: &VerifyingKey) -> (r: Result<
        Certificate,
        VmError,
    >)
        ensures
            r is Ok <==> proving_key.digest == verifying_key.digest,
            r matches Ok(c) ==> c.name.bytes@ == function_name.bytes@ && c.digest
                == verifying_key.digest,
            r matches Err(e) ==> e == VmError::InvalidCertificate,
    {
        if proving_key.digest != verifying_key.digest {
            return Err(VmError::InvalidCertificate);
        }
        Ok(Certificate { name: function_name.clone(), digest: verifying_key.digest })
    }

    /// Verifies the certificate against a function name, a captured
    /// assignment, and a verifying key: all three must carry the
    /// certificate's binding.
    pub fn verify(&self, function_name: &Identifier, assignment: &Assignment, verifying_key: &VerifyingKey) -> (r:
        bool)
        ensures
            r == certificate_valid(*self, function_name.bytes@, *assignment, *verifying_key),
    {
        self.name.eq_ident(function_name) && self.digest == assignment.digest
            && verifying_key.digest == assignment.digest
    }
}

/// What it means for a certificate to verify: it names the function, and
/// its digest is both the assignment's and the verifying key's.
pub open spec fn certificate_valid(
    c: Certificate,
    function_name: Seq<u8>,
    assignment: Assignment,
    verifying_key: VerifyingKey,
) -> bool {
    &&& c.name.bytes@ == function_name
    &&& c.digest == assignment.digest
    &&& verifying_key.digest == assignment.digest
}

/// A deployment: an edition, a program, and one certified verifying key per
/// function, in the program's declared function order.
pub struct Deployment {
    pub edition: u16,
    pub program: Program,
    pub verifying_keys: Vec<(Identifier, (VerifyingKey, Certificate))>,
}

/// A deployment is ordered when its certified keys align one to one, by
/// name, with the program's functions in declared order.
pub open spec fn deployment_ordered(d: Deployment) -> bool {
    &&& d.verifying_keys@.len() == d.program.functions@.len()
    &&& forall|i: int|
        0 <= i < d.verifying_keys@.len() ==> (#[trigger] d.verifying_keys@[i]).0.bytes@
            == d.program.functions@[i].name.bytes@
}

/// Every certified key of the deployment is the true key of its function:
/// the verifying key carries the function's circuit digest and the
/// certificate binds the function's name to that digest.
pub open spec fn deployment_certified(d: Deployment) -> bool {
    &&& d.verifying_keys@.len() == d.program.functions@.len()
    &&& forall|i: int|
        0 <= i < d.verifying_keys@.len() ==> {
            let f = d.program.functions@[i];
            let vk = (#[trigger] d.verifying_keys@[i]).1.0;
            let c = d.verifying_keys@[i].1.1;
            vk.digest == circuit_digest(f) && c.name.bytes@ == f.name.bytes@ && c.digest
                == circuit_digest(f)
        }
}

impl Deployment {
    /// Checks that the certified keys align, by name and in order, with the
    /// program's declared functions.
    pub fn check_is_ordered(&self) -> (r: Result<(), VmError>)
        ensures
            r is Ok <==> deployment_ordered(*self),
            r matches Err(e) ==> e == VmError::UnorderedDeployment,
    {
        if self.verifying_keys.len() != self.program.functions.len() {
            return Err(VmError::UnorderedDeployment);
        }
        let mut i: usize = 0;
        while i < self.verifying_keys.len()
            invariant
                0 <= i <= self.verifying_keys@.len(),
                self.verifying_keys@.len() == self.program.functions@.len(),
                forall|j: int|
                    0 <= j < i ==> (#[trigger] self.verifying_keys@[j]).0.bytes@
                        == self.program.functions@[j].name.bytes@,
            decreases self.verifying_keys@.len() - i,
        {
            if !self.verifying_keys[i].0.eq_ident(&self.program.functions[i].name) {
                return Err(VmError::UnorderedDeployment);
            }
            i += 1;
        }
        Ok(())
    }
}

/// A per-program execution context: the program, a cache of synthesized
/// keys, and the stacks of external programs it can call into.
pub struct Stack {
    pub program: Program,
    pub key_cache: Vec<(Identifier, (ProvingKey, VerifyingKey))>,
    pub externals: Vec<(Identifier, Stack)>,
}

/// Whether every external record input of the function resolves to a known
/// external stack.
pub open spec fn externals_resolvable(s: Stack, f: FunctionDef) -> bool {
    forall|j: int|
        0 <= j < f.inputs@.len() ==> match #[trigger] f.inputs@[j] {
            ValueType::ExternalRecord(pid, _) => exists|k: int|
                0 <= k < s.externals@.len() && (#[trigger] s.externals@[k]).0.bytes@ == pid.bytes@,
            _ => true,
        }
}

/// Whether a deployment verifies against this stack: it is ordered, its
/// program is the stack's, every input of every function is resolvable for
/// replay, and every certificate is its own function's.
pub open spec fn verifies(s: Stack, d: Deployment) -> bool {
    &&& deployment_ordered(d)
    &&& program_eq(s.program, d.program)
    &&& forall|i: int|
        0 <= i < s.program.functions@.len() ==> externals_resolvable(
            s,
            #[trigger] s.program.functions@[i],
        )
    &&& forall|i: int|
        0 <= i < d.verifying_keys@.len() ==> certificate_valid(
            (#[trigger] d.verifying_keys@[i]).1.1,
            s.program.functions@[i].name.bytes@,
            Assignment { digest: circuit_digest(s.program.functions@[i]) },
            d.verifying_keys@[i].1.0,
        )
}

/// Captures the one circuit assignment a replayed execution produces: in
/// the model, the trace of a function's circuit is its digest.
fn execute_function(f: &FunctionDef, request: &Request, assignments: &mut Vec<Assignment>)
    ensures
        final(assignments)@ == old(assignments)@ + seq![
            Assignment { digest: circuit_digest(*f) },
        ],
{
    let digest = compute_digest(f);
    assignments.push(Assignment { digest });
}

/// Derives a fresh single-use burner key pair and address from the seed:
/// used only to exercise circuits, never a real identity.
fn burner_key(seed: u64, index: u64) -> (r: (Scalar, Address))
    ensures
        r.0.is_valid(),
        r.1.is_valid(),
{
    let sk: u64 = (((seed as u128) ^ ((index as u128) * 2654435761u128)) % (GROUP_ORDER as u128)) as u64;
    let scalar = Scalar { value: sk };
    let address = Address { element: crate::algebra::g_scalar_multiply(scalar) };
    (scalar, address)
}

impl Stack {
    /// Samples a syntactically valid value of the declared type: sampling
    /// never touches real secrets or real state.
    fn sample_value(&self, address: &Address, value_type: &ValueType, seed: u64) -> (r: Value) {
        match value_type {
            ValueType::Plaintext(_) => Value::Plaintext(
                Plaintext::Literal(Literal::Field(Field { value: seed % FIELD_MODULUS })),
            ),
            _ => Value::Record(
                Record {
                    owner: Owner::Public(*address),
                    data: Vec::new(),
                    nonce: Group { exponent: seed % GROUP_ORDER },
                },
            ),
        }
    }

    /// Resolves the stack of an external program by its identifier.
    fn get_external_stack(&self, program_id: &Identifier) -> (r: Option<&Stack>)
        ensures
            r is Some <==> exists|k: int|
                0 <= k < self.externals@.len() && (#[trigger] self.externals@[k]).0.bytes@
                    == program_id.bytes@,
    {
        let mut k: usize = 0;
        while k < self.externals.len()
            invariant
                0 <= k <= self.externals@.len(),
                forall|x: int|
                    0 <= x < k ==> (#[trigger] self.externals@[x]).0.bytes@ != program_id.bytes@,
            decreases self.externals@.len() - k,
        {
            if self.externals[k].0.eq_ident(program_id) {
                return Some(&self.externals[k].1);
            }
            k += 1;
        }
        None
    }

    /// Synthesizes the proving and verifying key of one function and caches
    /// them under its name.
    fn synthesize_key(&mut self, index: usize) -> (r: (ProvingKey, VerifyingKey))
        requires
            index < old(self).program.functions@.len(),
        ensures
            final(self).program == old(self).program,
            final(self).externals == old(self).externals,
            r.0.digest == circuit_digest(old(self).program.functions@[index as int]),
            r.1.digest == circuit_digest(old(self).program.functions@[index as int]),
            final(self).key_cache@.len() == old(self).key_cache@.len() + 1,
            forall|j: int|
                0 <= j < old(self).key_cache@.len() ==> #[trigger] final(self).key_cache@[j]
                    == old(self).key_cache@[j],
            final(self).key_cache@.last().0.bytes@ == old(
                self,
            ).program.functions@[index as int].name.bytes@,
            final(self).key_cache@.last().1 == (r.0, r.1),
    {
        let digest = compute_digest(&self.program.functions[index]);
        let pk = ProvingKey { digest };
        let vk = VerifyingKey { digest };
        let name = self.program.functions[index].name.clone();
        self.key_cache.push((name, (pk, vk)));
        (pk, vk)
    }
}


impl Stack {
    /// Deploys the stack's program: for each function in declared order,
    /// synthesizes its key pair, certifies it, and bundles the ordered
    /// certified verifying keys with the program. Fails only when the
    /// program has no functions, and produces no partial deployment.
    pub fn deploy(&mut self) -> (r: Result<Deployment, VmError>)
        ensures
            r is Ok <==> old(self).program.functions@.len() > 0,
            r matches Err(e) ==> e == VmError::NoFunctions && *final(self) == *old(self),
            final(self).program == old(self).program,
            final(self).externals == old(self).externals,
            r matches Ok(d) ==> {
                &&& d.edition == EDITION
                &&& program_eq(d.program, old(self).program)
                &&& deployment_ordered(d)
                &&& deployment_certified(d)
                &&& final(self).key_cache@.len() == old(self).key_cache@.len()
                    + old(self).program.functions@.len()
                &&& (forall|j: int|
                    0 <= j < old(self).key_cache@.len() ==> #[trigger] final(self).key_cache@[j]
                        == old(self).key_cache@[j])
                &&& (forall|j: int|
                    0 <= j < old(self).program.functions@.len() ==> {
                        let e = #[trigger] final(self).key_cache@[old(self).key_cache@.len() + j];
                        let f = old(self).program.functions@[j];
                        e.0.bytes@ == f.name.bytes@ && e.1.0.digest == circuit_digest(f)
                            && e.1.1.digest == circuit_digest(f)
                    })
            },
    {
        if self.program.functions.len() == 0 {
            return Err(VmError::NoFunctions);
        }
        let ghost p0 = self.program;
        let ghost cache0 = self.key_cache@;
        let mut verifying_keys: Vec<(Identifier, (VerifyingKey, Certificate))> = Vec::new();
        let mut i: usize = 0;
        while i < self.program.functions.len()
            invariant
                0 <= i <= self.program.functions@.len(),
                self.program == p0,
                self.externals == old(self).externals,
                self.key_cache@.len() == cache0.len() + i,
                forall|j: int| 0 <= j < cache0.len() ==> #[trigger] self.key_cache@[j]
                    == cache0[j],
                forall|j: int|
                    0 <= j < i ==> {
                        let e = #[trigger] self.key_cache@[cache0.len() + j];
                        let f = p0.functions@[j];
                        e.0.bytes@ == f.name.bytes@ && e.1.0.digest == circuit_digest(f)
                            && e.1.1.digest == circuit_digest(f)
                    },
                verifying_keys@.len() == i,
                forall|j: int|
                    0 <= j < i ==> {
                        let f = p0.functions@[j];
                        let e = #[trigger] verifying_keys@[j];
                        e.0.bytes@ == f.name.bytes@ && e.1.0.digest == circuit_digest(f)
                            && e.1.1.name.bytes@ == f.name.bytes@ && e.1.1.digest
                            == circuit_digest(f)
                    },
            decreases self.program.functions@.len() - i,
        {
            let (proving_key, verifying_key) = self.synthesize_key(i);
            let name = self.program.functions[i].name.clone();
            let certificate = match Certificate::certify(&name, &proving_key, &verifying_key) {
                Ok(c) => c,
                Err(e) => {
                    return Err(e);
                },
            };
            verifying_keys.push((name, (verifying_key, certificate)));
            i += 1;
        }
        let program = clone_program(&self.program);
        Ok(Deployment { edition: EDITION, program, verifying_keys })
    }

    /// Verifies a third party's deployment: the certified keys must align
    /// with the program's declared function order, the program must be the
    /// stack's, and each function is replayed under a burner identity to
    /// capture one assignment against which its certificate must verify.
    /// Any single failure aborts the whole verification.
    pub fn verify_deployment(&self, deployment: &Deployment, seed: u64) -> (r: Result<(), VmError>)
        ensures
            r is Ok <==> verifies(*self, *deployment),
            r matches Err(e) ==> {
                &&& (e == VmError::UnorderedDeployment <==> !deployment_ordered(*deployment))
                &&& (e == VmError::ProgramMismatch <==> deployment_ordered(*deployment)
                    && !program_eq(self.program, deployment.program))
            },
    {
        // The deployment must be ordered.
        match deployment.check_is_ordered() {
            Ok(_) => {},
            Err(e) => {
                return Err(e);
            },
        }
        // The deployment's program must be the stack's.
        if !eq_program(&self.program, &deployment.program) {
            return Err(VmError::ProgramMismatch);
        }
        let mut i: usize = 0;
        while i < self.program.functions.len()
            invariant
                0 <= i <= self.program.functions@.len(),
                deployment_ordered(*deployment),
                program_eq(self.program, deployment.program),
                deployment.verifying_keys@.len() == self.program.functions@.len(),
                forall|j: int|
                    0 <= j < i ==> externals_resolvable(
                        *self,
                        #[trigger] self.program.functions@[j],
                    ),
                forall|j: int|
                    0 <= j < i ==> certificate_valid(
                        (#[trigger] deployment.verifying_keys@[j]).1.1,
                        self.program.functions@[j].name.bytes@,
                        Assignment { digest: circuit_digest(self.program.functions@[j]) },
                        deployment.verifying_keys@[j].1.0,
                    ),
            decreases self.program.functions@.len() - i,
        {
            let function = &self.program.functions[i];
            let verifying_key = &deployment.verifying_keys[i].1.0;
            let certificate = &deployment.verifying_keys[i].1.1;

            // A fresh burner identity, used only to exercise the circuit.
            let (burner_private_key, burner_address) = burner_key(seed, i as u64);

            // Sample one input per declared input type, resolving external
            // record types through their program's stack.
            let mut inputs: Vec<Value> = Vec::new();
            let mut j: usize = 0;
            while j < function.inputs.len()
                invariant
                    0 <= j <= function.inputs@.len(),
                    function == self.program.functions@[i as int],
                    i < self.program.functions@.len(),
                    deployment_ordered(*deployment),
                    program_eq(self.program, deployment.program),
                    forall|x: int|
                        0 <= x < j ==> match #[trigger] function.inputs@[x] {
                            ValueType::ExternalRecord(pid, _) => exists|k: int|
                                0 <= k < self.externals@.len() && (
                                #[trigger] self.externals@[k]).0.bytes@ == pid.bytes@,
                            _ => true,
                        },
                decreases function.inputs@.len() - j,
            {
                let input = match &function.inputs[j] {
                    ValueType::ExternalRecord(pid, resource) => {
                        let external = match self.get_external_stack(pid) {
                            Some(st) => st,
                            None => {
                                proof {
                                    let f = self.program.functions@[i as int];
                                    assert(match f.inputs@[j as int] {
                                        ValueType::ExternalRecord(p2, _) => p2.bytes@
                                            == pid.bytes@,
                                        _ => false,
                                    });
                                    assert(!externals_resolvable(*self, f));
                                }
                                return Err(VmError::ExternalProgramNotFound);
                            },
                        };
                        external.sample_value(
                            &burner_address,
                            &ValueType::Record(resource.clone()),
                            seed,
                        )
                    },
                    other => self.sample_value(&burner_address, other, seed),
                };
                inputs.push(input);
                j += 1;
            }
            proof {
                assert(externals_resolvable(*self, self.program.functions@[i as int]));
            }

            // A synthetic signed request under the burner key.
            let request = Request {
                signer: burner_address,
                program_id: self.program.id.clone(),
                function_name: function.name.clone(),
                inputs,
            };

            // Replay the function, capturing exactly one assignment.
            let mut assignments: Vec<Assignment> = Vec::new();
            execute_function(function, &request, &mut assignments);
            if assignments.len() == 0 {
                return Err(VmError::MissingAssignment);
            }
            let assignment = &assignments[assignments.len() - 1];

            // The certificate must verify against the captured assignment.
            if !certificate.verify(&function.name, assignment, verifying_key) {
                return Err(VmError::InvalidCertificate);
            }
            i += 1;
        }
        Ok(())
    }
}

/// Deep copy of a program.
fn clone_program(p: &Program) -> (r: Program)
    ensures
        program_eq(r, *p),
{
    let id = p.id.clone();
    let mut functions: Vec<FunctionDef> = Vec::new();
    let mut i: usize = 0;
    while i < p.functions.len()
        invariant
            0 <= i <= p.functions@.len(),
            functions@.len() == i,
            forall|j: int|
                0 <= j < i ==> crate::program::function_eq(
                    #[trigger] functions@[j],
                    p.functions@[j],
                ),
        decreases p.functions@.len() - i,
    {
        let f = &p.functions[i];
        let name = f.name.clone();
        let mut inputs: Vec<ValueType> = Vec::new();
        let mut j: usize = 0;
        while j < f.inputs.len()
            invariant
                0 <= j <= f.inputs@.len(),
                inputs@.len() == j,
                forall|x: int|
                    0 <= x < j ==> crate::program::value_type_eq(
                        #[trigger] inputs@[x],
                        f.inputs@[x],
                    ),
            decreases f.inputs@.len() - j,
        {
            let vt = match &f.inputs[j] {
                ValueType::Plaintext(PlaintextType::Literal(lt)) => ValueType::Plaintext(
                    PlaintextType::Literal(*lt),
                ),
                ValueType::Plaintext(PlaintextType::Struct(n)) => ValueType::Plaintext(
                    PlaintextType::Struct(n.clone()),
                ),
                ValueType::Record(n) => ValueType::Record(n.clone()),
                ValueType::ExternalRecord(a, b) => ValueType::ExternalRecord(a.clone(), b.clone()),
            };
            inputs.push(vt);
            j += 1;
        }
        let body = f.body.clone();
        proof {
            assert(body@ =~= f.body@);
        }
        functions.push(FunctionDef { name, inputs, body });
        i += 1;
    }
    Program { id, functions }
}

/// Permuting a deployment's certified keys breaks their alignment with the
/// program's function order, so verification refuses the permuted
/// deployment.
pub proof fn lemma_swap_breaks_order(d: Deployment, d2: Deployment, i: int, j: int)
    requires
        deployment_ordered(d),
        0 <= i < j < d.verifying_keys@.len(),
        d.program.functions@[i].name.bytes@ != d.program.functions@[j].name.bytes@,
        program_eq(d2.program, d.program),
        d2.verifying_keys@ == d.verifying_keys@.update(i, d.verifying_keys@[j]).update(
            j,
            d.verifying_keys@[i],
        ),
    ensures
        !deployment_ordered(d2),
{
    assert(d2.verifying_keys@[i] == d.verifying_keys@[j]);
    assert(crate::program::function_eq(d2.program.functions@[i], d.program.functions@[i]));
}

/// Substituting one function's certificate for another's makes the
/// deployment fail certification: the certificate names its own function,
/// and function names are unique within a program.
pub proof fn lemma_certificate_binding(s: Stack, d: Deployment, d2: Deployment, i: int, j: int)
    requires
        verifies(s, d),
        0 <= i < d.verifying_keys@.len(),
        0 <= j < d.verifying_keys@.len(),
        i != j,
        s.program.functions@[i].name.bytes@ != s.program.functions@[j].name.bytes@,
        d2.program == d.program,
        d2.verifying_keys@ == d.verifying_keys@.update(
            i,
            (
                d.verifying_keys@[i].0,
                (d.verifying_keys@[i].1.0, d.verifying_keys@[j].1.1),
            ),
        ),
    ensures
        !verifies(s, d2),
{
    if verifies(s, d2) {
        assert(certificate_valid(
            d2.verifying_keys@[i].1.1,
            s.program.functions@[i].name.bytes@,
            Assignment { digest: circuit_digest(s.program.functions@[i]) },
            d2.verifying_keys@[i].1.0,
        ));
        assert(certificate_valid(
            d.verifying_keys@[j].1.1,
            s.program.functions@[j].name.bytes@,
            Assignment { digest: circuit_digest(s.program.functions@[j]) },
            d.verifying_keys@[j].1.0,
        ));
        assert(false);
    }
}

} // verus!
