//! The persistent mapping store: `program_id -> mapping_name -> key ->
//! value`. A mapping must be declared before it can be written; writes
//! overwrite an existing key or insert a new one, and nothing here ever
//! deletes an entry.

use vstd::prelude::*;

use crate::errors::VmError;
use crate::plaintext::{pt_eq_v, pt_view, Identifier, Plaintext};
use crate::record::record_view;
use crate::stack::Value;

verus! {

/// The view of a stored value.
pub enum ValueV {
    Plaintext(crate::plaintext::PlaintextV),
    Record(crate::record::RecordV),
}

/// The view of a runtime value.
pub open spec fn value_view(v: Value) -> ValueV {
    match v {
        Value::Plaintext(p) => ValueV::Plaintext(pt_view(p)),
        Value::Record(r) => ValueV::Record(record_view(r)),
    }
}

/// One stored binding: program, mapping, key, value.
pub struct StoreEntry {
    pub program_id: Identifier,
    pub mapping: Identifier,
    pub key: Plaintext,
    pub value: Value,
}

/// The persistent program store: the declared mappings, and the stored
/// bindings in insertion order.
pub struct ProgramStore {
    pub declared: Vec<(Identifier, Identifier)>,
    pub entries: Vec<StoreEntry>,
}

/// Whether `(pid, mapping)` is declared at or after position `i`.
pub open spec fn declared_from(ds: Seq<(Identifier, Identifier)>, pid: Seq<u8>, mapping: Seq<u8>, i: int) -> bool
    decreases ds.len() - i,
{
    if !(0 <= i < ds.len()) {
        false
    } else if ds[i].0.bytes@ == pid && ds[i].1.bytes@ == mapping {
        true
    } else {
        declared_from(ds, pid, mapping, i + 1)
    }
}

/// Whether the store declares the mapping.
pub open spec fn spec_contains_mapping(st: ProgramStore, pid: Seq<u8>, mapping: Seq<u8>) -> bool {
    declared_from(st.declared@, pid, mapping, 0)
}

/// Whether one entry binds the given triple.
pub open spec fn entry_matches(e: StoreEntry, pid: Seq<u8>, mapping: Seq<u8>, key: crate::plaintext::PlaintextV) -> bool {
    e.program_id.bytes@ == pid && e.mapping.bytes@ == mapping && pt_eq_v(pt_view(e.key), key)
}

/// The value bound to the triple, scanning entries from position `i`.
pub open spec fn get_from(es: Seq<StoreEntry>, pid: Seq<u8>, mapping: Seq<u8>, key: crate::plaintext::PlaintextV, i: int) -> Option<ValueV>
    decreases es.len() - i,
{
    if !(0 <= i < es.len()) {
        None
    } else if entry_matches(es[i], pid, mapping, key) {
        Some(value_view(es[i].value))
    } else {
        get_from(es, pid, mapping, key, i + 1)
    }
}

/// The value the store binds to `(pid, mapping, key)`.
pub open spec fn spec_get(st: ProgramStore, pid: Seq<u8>, mapping: Seq<u8>, key: crate::plaintext::PlaintextV) -> Option<ValueV> {
    get_from(st.entries@, pid, mapping, key, 0)
}

/// Scanning from `i` is unchanged when the element changed at `x < i` or
/// appended at the end does not match the triple, or when the change at
/// `x >= i` rebinds a matching position to the same match-state.
proof fn lemma_get_from_update(
    es: Seq<StoreEntry>,
    es2: Seq<StoreEntry>,
    pid: Seq<u8>,
    mapping: Seq<u8>,
    key: crate::plaintext::PlaintextV,
    i: int,
)
    requires
        es2.len() == es.len(),
        0 <= i <= es.len(),
        forall|x: int|
            i <= x < es.len() ==> (entry_matches(#[trigger] es2[x], pid, mapping, key)
                == entry_matches(es[x], pid, mapping, key)) && (entry_matches(
                es[x],
                pid,
                mapping,
                key,
            ) ==> value_view(es2[x].value) == value_view(es[x].value)),
    ensures
        get_from(es2, pid, mapping, key, i) == get_from(es, pid, mapping, key, i),
    decreases es.len() - i,
{
    if 0 <= i < es.len() {
        lemma_get_from_update(es, es2, pid, mapping, key, i + 1);
    }
}

impl ProgramStore {
    /// An empty store: nothing declared, nothing bound.
    pub fn new() -> (r: ProgramStore)
        ensures
            r.declared@.len() == 0,
            r.entries@.len() == 0,
            forall|pid: Seq<u8>, mapping: Seq<u8>|
                !spec_contains_mapping(r, pid, mapping),
            forall|pid: Seq<u8>, mapping: Seq<u8>, key: crate::plaintext::PlaintextV|
                spec_get(r, pid, mapping, key) is None,
    {
        ProgramStore { declared: Vec::new(), entries: Vec::new() }
    }

    /// Returns true if the mapping is declared for the program.
    pub fn contains_mapping(&self, program_id: &Identifier, mapping: &Identifier) -> (r: bool)
        ensures
            r == spec_contains_mapping(*self, program_id.bytes@, mapping.bytes@),
    {
        let mut i: usize = 0;
        while i < self.declared.len()
            invariant
                0 <= i <= self.declared@.len(),
                declared_from(self.declared@, program_id.bytes@, mapping.bytes@, 0)
                    == declared_from(self.declared@, program_id.bytes@, mapping.bytes@, i as int),
            decreases self.declared@.len() - i,
        {
            if self.declared[i].0.eq_ident(program_id) && self.declared[i].1.eq_ident(mapping) {
                return true;
            }
            i += 1;
        }
        false
    }

    /// Declares a mapping for a program: afterwards exactly the previously
    /// declared mappings and the new pair are declared. Declaring twice is
    /// harmless.
    pub fn init_mapping(&mut self, program_id: &Identifier, mapping: &Identifier)
        ensures
            final(self).entries == old(self).entries,
            forall|p2: Seq<u8>, m2: Seq<u8>|
                spec_contains_mapping(*final(self), p2, m2) <==> (spec_contains_mapping(
                    *old(self),
                    p2,
                    m2,
                ) || (p2 == program_id.bytes@ && m2 == mapping.bytes@)),
    {
        let ghost old_declared = self.declared@;
        self.declared.push((program_id.clone(), mapping.clone()));
        proof {
            assert forall|p2: Seq<u8>, m2: Seq<u8>|
                spec_contains_mapping(*self, p2, m2) <==> (declared_from(old_declared, p2, m2, 0)
                || (p2 == program_id.bytes@ && m2 == mapping.bytes@)) by {
                if declared_from(old_declared, p2, m2, 0) {
                    lemma_declared_push(old_declared, self.declared@, p2, m2, 0);
                }
                if p2 == program_id.bytes@ && m2 == mapping.bytes@ {
                    lemma_declared_last(self.declared@, p2, m2, 0);
                }
                if declared_from(self.declared@, p2, m2, 0) {
                    lemma_declared_push_rev(old_declared, self.declared@, p2, m2, 0);
                }
            };
        }
    }

    /// Returns the value bound to the key in the program's mapping, if any.
    pub fn get_value(&self, program_id: &Identifier, mapping: &Identifier, key: &Plaintext) -> (r:
        Option<&Value>)
        ensures
            r is Some == spec_get(*self, program_id.bytes@, mapping.bytes@, pt_view(*key)) is Some,
            r matches Some(v) ==> spec_get(*self, program_id.bytes@, mapping.bytes@, pt_view(*key))
                == Some(value_view(*v)),
    {
        let mut i: usize = 0;
        while i < self.entries.len()
            invariant
                0 <= i <= self.entries@.len(),
                get_from(self.entries@, program_id.bytes@, mapping.bytes@, pt_view(*key), 0)
                    == get_from(
                    self.entries@,
                    program_id.bytes@,
                    mapping.bytes@,
                    pt_view(*key),
                    i as int,
                ),
            decreases self.entries@.len() - i,
        {
            let e = &self.entries[i];
            if e.program_id.eq_ident(program_id) && e.mapping.eq_ident(mapping)
                && e.key.eq_plaintext(key) {
                return Some(&self.entries[i].value);
            }
            i += 1;
        }
        None
    }

    /// Binds `key` to `value` in the program's mapping: overwrites the
    /// first matching binding, inserts a new one otherwise. Fails, leaving
    /// the store untouched, when the mapping was never declared.
    pub fn update_key_value(&mut self, program_id: &Identifier, mapping: &Identifier, key: Plaintext, value: Value) -> (r:
        Result<(), VmError>)
        ensures
            r is Ok <==> spec_contains_mapping(*old(self), program_id.bytes@, mapping.bytes@),
            r matches Err(e) ==> e == VmError::MappingNotFound && *final(self) == *old(self),
            final(self).declared == old(self).declared,
            r is Ok ==> spec_get(
                *final(self),
                program_id.bytes@,
                mapping.bytes@,
                pt_view(key),
            ) == Some(value_view(value)),
            r is Ok ==> forall|p2: Seq<u8>, m2: Seq<u8>, k2: crate::plaintext::PlaintextV|
                !(p2 == program_id.bytes@ && m2 == mapping.bytes@ && pt_eq_v(k2, pt_view(key)))
                    ==> spec_get(*final(self), p2, m2, k2) == spec_get(*old(self), p2, m2, k2),
    {
        if !self.contains_mapping(program_id, mapping) {
            return Err(VmError::MappingNotFound);
        }
        let ghost old_entries = self.entries@;
        let mut i: usize = 0;
        while i < self.entries.len()
            invariant
                0 <= i <= self.entries@.len(),
                self.entries@ == old_entries,
                old_entries == old(self).entries@,
                self.declared == old(self).declared,
                spec_contains_mapping(*old(self), program_id.bytes@, mapping.bytes@),
                forall|x: int|
                    0 <= x < i ==> !entry_matches(
                        #[trigger] self.entries@[x],
                        program_id.bytes@,
                        mapping.bytes@,
                        pt_view(key),
                    ),
            decreases self.entries@.len() - i,
        {
            let e = &self.entries[i];
            if e.program_id.eq_ident(program_id) && e.mapping.eq_ident(mapping)
                && e.key.eq_plaintext(&key) {
                let entry = StoreEntry {
                    program_id: program_id.clone(),
                    mapping: mapping.clone(),
                    key,
                    value,
                };
                let ghost new_entry = entry;
                self.entries.set(i, entry);
                proof {
                    lemma_get_after_set(
                        old_entries,
                        self.entries@,
                        i as int,
                        new_entry,
                        program_id.bytes@,
                        mapping.bytes@,
                    );
                }
                return Ok(());
            }
            i += 1;
        }
        let entry = StoreEntry {
            program_id: program_id.clone(),
            mapping: mapping.clone(),
            key,
            value,
        };
        let ghost new_entry = entry;
        self.entries.push(entry);
        proof {
            lemma_get_after_push(old_entries, self.entries@, new_entry, program_id.bytes@, mapping.bytes@);
        }
        Ok(())
    }
}

/// A pushed declaration keeps every earlier declaration visible.
proof fn lemma_declared_push(
    ds: Seq<(Identifier, Identifier)>,
    ds2: Seq<(Identifier, Identifier)>,
    pid: Seq<u8>,
    mapping: Seq<u8>,
    i: int,
)
    requires
        ds2.len() == ds.len() + 1,
        forall|x: int| 0 <= x < ds.len() ==> #[trigger] ds2[x] == ds[x],
        0 <= i <= ds.len(),
        declared_from(ds, pid, mapping, i),
    ensures
        declared_from(ds2, pid, mapping, i),
    decreases ds.len() - i,
{
    if i < ds.len() && !(ds[i].0.bytes@ == pid && ds[i].1.bytes@ == mapping) {
        lemma_declared_push(ds, ds2, pid, mapping, i + 1);
    }
}

/// A declaration found after a push was already there, or is the pushed
/// pair itself.
proof fn lemma_declared_push_rev(
    ds: Seq<(Identifier, Identifier)>,
    ds2: Seq<(Identifier, Identifier)>,
    pid: Seq<u8>,
    mapping: Seq<u8>,
    i: int,
)
    requires
        ds2.len() == ds.len() + 1,
        forall|x: int| 0 <= x < ds.len() ==> #[trigger] ds2[x] == ds[x],
        0 <= i <= ds.len(),
        declared_from(ds2, pid, mapping, i),
    ensures
        declared_from(ds, pid, mapping, i) || (ds2.last().0.bytes@ == pid && ds2.last().1.bytes@
            == mapping),
    decreases ds.len() - i,
{
    if i < ds.len() {
        assert(ds2[i] == ds[i]);
        if ds2[i].0.bytes@ == pid && ds2[i].1.bytes@ == mapping {
            assert(declared_from(ds, pid, mapping, i));
        } else {
            assert(declared_from(ds2, pid, mapping, i + 1));
            lemma_declared_push_rev(ds, ds2, pid, mapping, i + 1);
        }
    } else {
        assert(i == ds.len());
        assert(ds2[i] == ds2.last());
        if !(ds2.last().0.bytes@ == pid && ds2.last().1.bytes@ == mapping) {
            assert(declared_from(ds2, pid, mapping, i + 1));
            assert(false);
        }
    }
}

/// A declaration list whose last element is the pair declares the pair.
proof fn lemma_declared_last(
    ds: Seq<(Identifier, Identifier)>,
    pid: Seq<u8>,
    mapping: Seq<u8>,
    i: int,
)
    requires
        ds.len() > 0,
        ds.last().0.bytes@ == pid && ds.last().1.bytes@ == mapping,
        0 <= i < ds.len(),
    ensures
        declared_from(ds, pid, mapping, i),
    decreases ds.len() - i,
{
    if i < ds.len() - 1 {
        lemma_declared_last(ds, pid, mapping, i + 1);
    }
}

/// After overwriting the first matching binding, the triple reads the new
/// value and every other triple reads as before.
proof fn lemma_get_after_set(
    es: Seq<StoreEntry>,
    es2: Seq<StoreEntry>,
    i: int,
    ne: StoreEntry,
    pid: Seq<u8>,
    mapping: Seq<u8>,
)
    requires
        0 <= i < es.len(),
        es2 == es.update(i, ne),
        forall|x: int|
            0 <= x < i ==> !entry_matches(#[trigger] es[x], pid, mapping, pt_view(ne.key)),
        entry_matches(es[i], pid, mapping, pt_view(ne.key)),
        ne.program_id.bytes@ == pid,
        ne.mapping.bytes@ == mapping,
    ensures
        get_from(es2, pid, mapping, pt_view(ne.key), 0) == Some(value_view(ne.value)),
        forall|p2: Seq<u8>, m2: Seq<u8>, k2: crate::plaintext::PlaintextV|
            !(p2 == pid && m2 == mapping && pt_eq_v(k2, pt_view(ne.key))) ==> get_from(
                es2,
                p2,
                m2,
                k2,
            0) == get_from(es, p2, m2, k2, 0),
{
    crate::plaintext::lemma_pt_eq_refl(pt_view(ne.key));
    lemma_get_prefix_skip(es2, pid, mapping, pt_view(ne.key), 0, i);
    assert(entry_matches(es2[i], pid, mapping, pt_view(ne.key)));
    assert forall|p2: Seq<u8>, m2: Seq<u8>, k2: crate::plaintext::PlaintextV|
        !(p2 == pid && m2 == mapping && pt_eq_v(k2, pt_view(ne.key))) implies get_from(
        es2,
        p2,
        m2,
        k2,
    0) == get_from(es, p2, m2, k2, 0) by {
        assert(entry_matches(es2[i], p2, m2, k2) == entry_matches(es[i], p2, m2, k2)) by {
            lemma_entry_matches_same(es[i], ne, p2, m2, k2, pid, mapping);
        };
        if entry_matches(es[i], p2, m2, k2) {
            crate::plaintext::lemma_pt_eq_is_eq(pt_view(es[i].key), pt_view(ne.key));
            crate::plaintext::lemma_pt_eq_is_eq(pt_view(es[i].key), k2);
            crate::plaintext::lemma_pt_eq_is_eq(k2, pt_view(ne.key));
            assert(false);
        }
        lemma_get_from_update(es, es2, p2, m2, k2, 0);
    };
}

/// The new and old entry at an overwritten position match the same triples,
/// except the written one.
proof fn lemma_entry_matches_same(
    e: StoreEntry,
    ne: StoreEntry,
    p2: Seq<u8>,
    m2: Seq<u8>,
    k2: crate::plaintext::PlaintextV,
    pid: Seq<u8>,
    mapping: Seq<u8>,
)
    requires
        entry_matches(e, pid, mapping, pt_view(ne.key)),
        ne.program_id.bytes@ == pid,
        ne.mapping.bytes@ == mapping,
        !(p2 == pid && m2 == mapping && pt_eq_v(k2, pt_view(ne.key))),
    ensures
        entry_matches(ne, p2, m2, k2) == entry_matches(e, p2, m2, k2),
{
    if entry_matches(ne, p2, m2, k2) {
        crate::plaintext::lemma_pt_eq_is_eq(pt_view(ne.key), k2);
        crate::plaintext::lemma_pt_eq_is_eq(pt_view(e.key), pt_view(ne.key));
        crate::plaintext::lemma_pt_eq_is_eq(pt_view(e.key), k2);
    }
    if entry_matches(e, p2, m2, k2) {
        crate::plaintext::lemma_pt_eq_is_eq(pt_view(e.key), k2);
        crate::plaintext::lemma_pt_eq_is_eq(pt_view(e.key), pt_view(ne.key));
        crate::plaintext::lemma_pt_eq_is_eq(pt_view(ne.key), k2);
    }
}

/// Scanning passes over a prefix with no matching entry.
proof fn lemma_get_prefix_skip(
    es: Seq<StoreEntry>,
    pid: Seq<u8>,
    mapping: Seq<u8>,
    key: crate::plaintext::PlaintextV,
    i: int,
    j: int,
)
    requires
        0 <= i <= j <= es.len(),
        forall|x: int| i <= x < j ==> !entry_matches(#[trigger] es[x], pid, mapping, key),
    ensures
        get_from(es, pid, mapping, key, i) == get_from(es, pid, mapping, key, j),
    decreases j - i,
{
    if i < j {
        lemma_get_prefix_skip(es, pid, mapping, key, i + 1, j);
    }
}

/// After appending a binding for a triple no earlier entry matches, the
/// triple reads the new value and every other triple reads as before.
proof fn lemma_get_after_push(
    es: Seq<StoreEntry>,
    es2: Seq<StoreEntry>,
    ne: StoreEntry,
    pid: Seq<u8>,
    mapping: Seq<u8>,
)
    requires
        es2 == es.push(ne),
        forall|x: int|
            0 <= x < es.len() ==> !entry_matches(#[trigger] es[x], pid, mapping, pt_view(ne.key)),
        ne.program_id.bytes@ == pid,
        ne.mapping.bytes@ == mapping,
    ensures
        get_from(es2, pid, mapping, pt_view(ne.key), 0) == Some(value_view(ne.value)),
        forall|p2: Seq<u8>, m2: Seq<u8>, k2: crate::plaintext::PlaintextV|
            !(p2 == pid && m2 == mapping && pt_eq_v(k2, pt_view(ne.key))) ==> get_from(
                es2,
                p2,
                m2,
                k2,
            0) == get_from(es, p2, m2, k2, 0),
{
    crate::plaintext::lemma_pt_eq_refl(pt_view(ne.key));
    assert forall|x: int| 0 <= x < es.len() implies !entry_matches(
        #[trigger] es2[x],
        pid,
        mapping,
        pt_view(ne.key),
    ) by {
        assert(es2[x] == es[x]);
    };
    lemma_get_prefix_skip(es2, pid, mapping, pt_view(ne.key), 0, es.len() as int);
    assert(entry_matches(es2[es.len() as int], pid, mapping, pt_view(ne.key)));
    assert forall|p2: Seq<u8>, m2: Seq<u8>, k2: crate::plaintext::PlaintextV|
        !(p2 == pid && m2 == mapping && pt_eq_v(k2, pt_view(ne.key))) implies get_from(
        es2,
        p2,
        m2,
        k2,
    0) == get_from(es, p2, m2, k2, 0) by {
        lemma_get_push_other(es, es2, ne, p2, m2, k2, pid, mapping, 0);
    };
}

/// Appending a non-matching binding leaves every other triple's read
/// unchanged, from any scan position.
proof fn lemma_get_push_other(
    es: Seq<StoreEntry>,
    es2: Seq<StoreEntry>,
    ne: StoreEntry,
    p2: Seq<u8>,
    m2: Seq<u8>,
    k2: crate::plaintext::PlaintextV,
    pid: Seq<u8>,
    mapping: Seq<u8>,
    i: int,
)
    requires
        es2 == es.push(ne),
        ne.program_id.bytes@ == pid,
        ne.mapping.bytes@ == mapping,
        !(p2 == pid && m2 == mapping && pt_eq_v(k2, pt_view(ne.key))),
        0 <= i <= es.len(),
    ensures
        get_from(es2, p2, m2, k2, i) == get_from(es, p2, m2, k2, i),
    decreases es.len() - i,
{
    if i < es.len() {
        assert(es2[i] == es[i]);
        lemma_get_push_other(es, es2, ne, p2, m2, k2, pid, mapping, i + 1);
    } else {
        assert(!entry_matches(es2[i], p2, m2, k2)) by {
            if entry_matches(ne, p2, m2, k2) {
                crate::plaintext::lemma_pt_eq_is_eq(pt_view(ne.key), k2);
                crate::plaintext::lemma_pt_eq_refl(pt_view(ne.key));
            }
        };
        assert(get_from(es2, p2, m2, k2, i + 1) is None);
        assert(get_from(es, p2, m2, k2, i) is None);
    }
}

} // verus!
