//! Confidential records: an owner under public or private visibility, an
//! ordered list of named entries each tagged `Constant`, `Public` or
//! `Private`, and a unique nonce.
//!
//! The module also carries the deterministic randomizer stream used to mask
//! private data: a domain-separated pseudorandom expansion seeded by the
//! record view key, modeled as a pure congruential chain over the base
//! field. Every masking and unmasking rule is stated over the record views.

use vstd::prelude::*;

use crate::algebra::{Address, Field, Group, FIELD_MODULUS, GROUP_ORDER};
use crate::encode::{enc_pt, fld};
use crate::plaintext::{ident_valid, pt_valid_v, pt_view, Identifier, Literal, Plaintext, PlaintextV};

verus! {

/// The owner of a plaintext record: an address, publicly readable or kept
/// under the record's encryption.
#[derive(Clone, Copy, PartialEq, Eq, Structural, Debug)]
pub enum Owner {
    Public(Address),
    Private(Address),
}

/// The owner slot of a record ciphertext: the address in the clear, or one
/// masked field element.
#[derive(Clone, Copy, PartialEq, Eq, Structural, Debug)]
pub enum CtOwner {
    Public(Address),
    Private(Field),
}

/// One plaintext entry of a record, tagged with its visibility.
pub enum Entry {
    Constant(Plaintext),
    Public(Plaintext),
    Private(Plaintext),
}

/// One ciphertext entry: constant and public entries stay plaintext, a
/// private entry is a masked field-element sequence.
pub enum CtEntry {
    Constant(Plaintext),
    Public(Plaintext),
    Private(Vec<Field>),
}

/// A plaintext record.
pub struct Record {
    pub owner: Owner,
    pub data: Vec<(Identifier, Entry)>,
    pub nonce: Group,
}

/// A record ciphertext.
pub struct RecordCiphertext {
    pub owner: CtOwner,
    pub data: Vec<(Identifier, CtEntry)>,
    pub nonce: Group,
}

/// The view of a plaintext entry.
pub enum EntryV {
    Constant(PlaintextV),
    Public(PlaintextV),
    Private(PlaintextV),
}

/// The view of a ciphertext entry.
pub enum CtEntryV {
    Constant(PlaintextV),
    Public(PlaintextV),
    Private(Seq<Field>),
}

/// The view of a plaintext record.
#[verifier::ext_equal]
pub struct RecordV {
    pub owner: Owner,
    pub data: Seq<(Seq<u8>, EntryV)>,
    pub nonce: Group,
}

/// The view of a record ciphertext.
#[verifier::ext_equal]
pub struct CtRecordV {
    pub owner: CtOwner,
    pub data: Seq<(Seq<u8>, CtEntryV)>,
    pub nonce: Group,
}

pub open spec fn entry_view(e: Entry) -> EntryV {
    match e {
        Entry::Constant(p) => EntryV::Constant(pt_view(p)),
        Entry::Public(p) => EntryV::Public(pt_view(p)),
        Entry::Private(p) => EntryV::Private(pt_view(p)),
    }
}

pub open spec fn ct_entry_view(e: CtEntry) -> CtEntryV {
    match e {
        CtEntry::Constant(p) => CtEntryV::Constant(pt_view(p)),
        CtEntry::Public(p) => CtEntryV::Public(pt_view(p)),
        CtEntry::Private(c) => CtEntryV::Private(c@),
    }
}

pub open spec fn data_view(ds: Seq<(Identifier, Entry)>) -> Seq<(Seq<u8>, EntryV)> {
    Seq::new(ds.len(), |i: int| (ds[i].0.bytes@, entry_view(ds[i].1)))
}

pub open spec fn ct_data_view(ds: Seq<(Identifier, CtEntry)>) -> Seq<(Seq<u8>, CtEntryV)> {
    Seq::new(ds.len(), |i: int| (ds[i].0.bytes@, ct_entry_view(ds[i].1)))
}

pub open spec fn record_view(r: Record) -> RecordV {
    RecordV { owner: r.owner, data: data_view(r.data@), nonce: r.nonce }
}

pub open spec fn ct_record_view(r: RecordCiphertext) -> CtRecordV {
    CtRecordV { owner: r.owner, data: ct_data_view(r.data@), nonce: r.nonce }
}

/// The reserved identifier `owner`, which never names a data entry.
pub open spec fn owner_name() -> Seq<u8> {
    seq![111u8, 119u8, 110u8, 101u8, 114u8]
}

pub open spec fn owner_valid(o: Owner) -> bool {
    match o {
        Owner::Public(a) => a.is_valid(),
        Owner::Private(a) => a.is_valid(),
    }
}

pub open spec fn entry_valid_v(e: EntryV) -> bool {
    match e {
        EntryV::Constant(p) => pt_valid_v(p),
        EntryV::Public(p) => pt_valid_v(p),
        EntryV::Private(p) => pt_valid_v(p),
    }
}

pub open spec fn ct_entry_valid_v(e: CtEntryV) -> bool {
    match e {
        CtEntryV::Constant(p) => pt_valid_v(p),
        CtEntryV::Public(p) => pt_valid_v(p),
        CtEntryV::Private(c) => forall|k: int| 0 <= k < c.len() ==> (#[trigger] c[k]).is_valid(),
    }
}

/// A well-formed record: valid owner and nonce, valid entry names and
/// values, unique names, and no entry named `owner`.
pub open spec fn record_valid_v(r: RecordV) -> bool {
    &&& owner_valid(r.owner)
    &&& r.nonce.is_valid()
    &&& forall|i: int|
        0 <= i < r.data.len() ==> ident_valid((#[trigger] r.data[i]).0) && entry_valid_v(
            r.data[i].1,
        ) && r.data[i].0 != owner_name()
    &&& forall|i: int, j: int|
        0 <= i < j < r.data.len() ==> (#[trigger] r.data[i]).0 != (#[trigger] r.data[j]).0
}

/// A well-formed record ciphertext.
pub open spec fn ct_record_valid_v(r: CtRecordV) -> bool {
    &&& match r.owner {
        CtOwner::Public(a) => a.is_valid(),
        CtOwner::Private(c) => c.is_valid(),
    }
    &&& r.nonce.is_valid()
    &&& forall|i: int|
        0 <= i < r.data.len() ==> ident_valid((#[trigger] r.data[i]).0) && ct_entry_valid_v(
            r.data[i].1,
        )
}

/// Number of randomizers the owner slot consumes: one if private.
pub open spec fn owner_rand_count(o: Owner) -> nat {
    match o {
        Owner::Public(_) => 0,
        Owner::Private(_) => 1,
    }
}

pub open spec fn ct_owner_rand_count(o: CtOwner) -> nat {
    match o {
        CtOwner::Public(_) => 0,
        CtOwner::Private(_) => 1,
    }
}

/// Number of randomizers a plaintext entry consumes: the length of its
/// field encoding if private, none otherwise.
pub open spec fn entry_rand_count_v(e: EntryV) -> nat {
    match e {
        EntryV::Constant(_) => 0,
        EntryV::Public(_) => 0,
        EntryV::Private(p) => enc_pt(p).len(),
    }
}

pub open spec fn ct_entry_rand_count_v(e: CtEntryV) -> nat {
    match e {
        CtEntryV::Constant(_) => 0,
        CtEntryV::Public(_) => 0,
        CtEntryV::Private(c) => c.len(),
    }
}

/// Randomizers consumed by the first `i` entries.
pub open spec fn data_rand_prefix(ds: Seq<(Seq<u8>, EntryV)>, i: int) -> nat
    decreases i,
{
    if i <= 0 {
        0
    } else {
        data_rand_prefix(ds, i - 1) + entry_rand_count_v(ds[i - 1].1)
    }
}

pub open spec fn ct_data_rand_prefix(ds: Seq<(Seq<u8>, CtEntryV)>, i: int) -> nat
    decreases i,
{
    if i <= 0 {
        0
    } else {
        ct_data_rand_prefix(ds, i - 1) + ct_entry_rand_count_v(ds[i - 1].1)
    }
}

/// The randomizer prefix count is monotone.
pub proof fn lemma_data_rand_prefix_mono(ds: Seq<(Seq<u8>, EntryV)>, i: int, j: int)
    requires
        i <= j,
    ensures
        data_rand_prefix(ds, i) <= data_rand_prefix(ds, j),
    decreases j,
{
    if i < j && j > 0 {
        lemma_data_rand_prefix_mono(ds, i, j - 1);
    }
}

pub proof fn lemma_ct_data_rand_prefix_mono(ds: Seq<(Seq<u8>, CtEntryV)>, i: int, j: int)
    requires
        i <= j,
    ensures
        ct_data_rand_prefix(ds, i) <= ct_data_rand_prefix(ds, j),
    decreases j,
{
    if i < j && j > 0 {
        lemma_ct_data_rand_prefix_mono(ds, i, j - 1);
    }
}

/// Total randomizers a record needs.
pub open spec fn spec_num_randomizers(r: RecordV) -> nat {
    owner_rand_count(r.owner) + data_rand_prefix(r.data, r.data.len() as int)
}

/// Total randomizers a ciphertext carries.
pub open spec fn ct_num_randomizers(r: CtRecordV) -> nat {
    ct_owner_rand_count(r.owner) + ct_data_rand_prefix(r.data, r.data.len() as int)
}

/// Domain separation tag of the record encryption expansion.
pub const ENCRYPTION_DOMAIN: u64 = 126207244316933;

/// Multiplier of the pseudorandom expansion chain.
pub const STREAM_MUL: u64 = 1103515245;

/// Increment of the pseudorandom expansion chain.
pub const STREAM_INC: u64 = 12345;

/// One step of the expansion chain.
pub open spec fn stream_step(s: u64) -> u64 {
    ((STREAM_MUL * s + STREAM_INC) % (FIELD_MODULUS as int)) as u64
}

/// The chain state after `i` steps from `seed`.
pub open spec fn stream_state(seed: u64, i: nat) -> u64
    decreases i,
{
    if i == 0 {
        seed
    } else {
        stream_step(stream_state(seed, (i - 1) as nat))
    }
}

/// The seed of the expansion keyed by `(domain, key)`.
pub open spec fn stream_seed(domain: u64, key: Field) -> u64 {
    ((domain + key.value) % (FIELD_MODULUS as int)) as u64
}

/// The `i`-th randomizer of the expansion keyed by `(domain, key)`.
pub open spec fn randomizer_at(domain: u64, key: Field, i: nat) -> Field {
    fld(stream_state(stream_seed(domain, key), i + 1))
}

/// The first `n` randomizers of the expansion.
pub open spec fn rand_seq(domain: u64, key: Field, n: nat) -> Seq<Field> {
    Seq::new(n, |i: int| randomizer_at(domain, key, i as nat))
}

/// Derives the first `n` randomizers of the expansion keyed by
/// `(domain, key)`: a pure, order-sensitive function of its arguments.
pub fn derive_randomizers(domain: u64, key: Field, n: usize) -> (r: Vec<Field>)
    requires
        domain < FIELD_MODULUS,
        key.is_valid(),
    ensures
        r@ == rand_seq(domain, key, n as nat),
        r@.len() == n,
        forall|i: int| 0 <= i < n ==> (#[trigger] r@[i]).is_valid(),
{
    let seed: u64 = (domain + key.value) % FIELD_MODULUS;
    let mut cur: u64 = seed;
    let mut out: Vec<Field> = Vec::new();
    let mut i: usize = 0;
    while i < n
        invariant
            0 <= i <= n,
            seed == stream_seed(domain, key),
            cur == stream_state(seed, i as nat),
            cur < FIELD_MODULUS || i == 0,
            seed < FIELD_MODULUS,
            out@.len() == i,
            forall|j: int| 0 <= j < i ==> #[trigger] out@[j] == randomizer_at(domain, key, j as nat),
        decreases n - i,
    {
        proof {
            assert((STREAM_MUL as int) * (cur as int) < (STREAM_MUL as int) * 0x2000000000000000)
                by (nonlinear_arith)
                requires
                    cur < 0x2000000000000000,
            ;
        }
        let wide: u128 = (STREAM_MUL as u128) * (cur as u128) + (STREAM_INC as u128);
        let next: u64 = (wide % (FIELD_MODULUS as u128)) as u64;
        proof {
            assert(next == stream_step(cur));
            assert(stream_state(seed, (i + 1) as nat) == stream_step(stream_state(seed, i as nat)));
        }
        out.push(Field { value: next });
        cur = next;
        i += 1;
    }
    proof {
        assert(out@ =~= rand_seq(domain, key, n as nat));
    }
    out
}

/// The address an owner resolves to.
pub open spec fn owner_address(o: Owner) -> Address {
    match o {
        Owner::Public(a) => a,
        Owner::Private(a) => a,
    }
}

impl Clone for Entry {
    /// Deep copy: the copy has the same view as the original.
    fn clone(&self) -> (r: Self)
        ensures
            entry_view(r) == entry_view(*self),
    {
        match self {
            Entry::Constant(p) => Entry::Constant(p.clone()),
            Entry::Public(p) => Entry::Public(p.clone()),
            Entry::Private(p) => Entry::Private(p.clone()),
        }
    }
}

impl Owner {
    /// Presents the owner as a record entry, as path lookups return it.
    pub fn to_entry(&self) -> (r: Entry)
        ensures
            entry_view(r) == owner_entry_view(*self),
    {
        match self {
            Owner::Public(a) => Entry::Public(Plaintext::Literal(Literal::Address(*a))),
            Owner::Private(a) => Entry::Private(Plaintext::Literal(Literal::Address(*a))),
        }
    }
}

/// The entry view an owner presents under path lookup.
pub open spec fn owner_entry_view(o: Owner) -> EntryV {
    match o {
        Owner::Public(a) => EntryV::Public(PlaintextV::Literal(Literal::Address(a))),
        Owner::Private(a) => EntryV::Private(PlaintextV::Literal(Literal::Address(a))),
    }
}

} // verus!
