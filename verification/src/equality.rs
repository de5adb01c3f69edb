//! Constant-structure record equality.
//!
//! Both comparisons fold over every entry of both records with no short
//! circuit, as a zero-knowledge circuit must: the work done never depends
//! on where the records differ. `is_not_equal` is the De Morgan dual of
//! `is_equal`, accumulated directly rather than by negating the result, and
//! the contracts pin both to the same mathematical relation, so the two are
//! exact complements.
//!
//! The nonce is part of the comparison: two records that differ only in
//! their nonce are unequal. This choice is pinned by `lemma_nonce_sensitivity`
//! and a regression test.

use vstd::prelude::*;

use crate::plaintext::{lemma_pt_eq_refl, pt_eq_v};
use crate::record::{data_view, entry_view, record_view, Entry, EntryV, Record, RecordV};

verus! {

/// Equivalence of two entries: same visibility, equivalent values.
pub open spec fn entry_eq_v(a: EntryV, b: EntryV) -> bool {
    match (a, b) {
        (EntryV::Constant(pa), EntryV::Constant(pb)) => pt_eq_v(pa, pb),
        (EntryV::Public(pa), EntryV::Public(pb)) => pt_eq_v(pa, pb),
        (EntryV::Private(pa), EntryV::Private(pb)) => pt_eq_v(pa, pb),
        _ => false,
    }
}

/// Equality of two records: same owner, same entry names in order with
/// equivalent entries, and the same nonce.
pub open spec fn record_eq_v(a: RecordV, b: RecordV) -> bool {
    &&& a.owner == b.owner
    &&& a.data.len() == b.data.len()
    &&& forall|i: int|
        0 <= i < a.data.len() ==> (#[trigger] a.data[i]).0 == b.data[i].0 && entry_eq_v(
            a.data[i].1,
            b.data[i].1,
        )
    &&& a.nonce == b.nonce
}

/// Record equality is reflexive.
pub proof fn lemma_record_eq_refl(a: RecordV)
    ensures
        record_eq_v(a, a),
{
    assert forall|i: int| 0 <= i < a.data.len() implies (#[trigger] a.data[i]).0 == a.data[i].0
        && entry_eq_v(a.data[i].1, a.data[i].1) by {
        match a.data[i].1 {
            EntryV::Constant(p) => lemma_pt_eq_refl(p),
            EntryV::Public(p) => lemma_pt_eq_refl(p),
            EntryV::Private(p) => lemma_pt_eq_refl(p),
        }
    };
}

/// Changing any single entry's name, visibility or value makes the records
/// unequal.
pub proof fn lemma_record_eq_sensitivity(a: RecordV, b: RecordV, i: int)
    requires
        0 <= i < a.data.len(),
        a.data.len() == b.data.len(),
        !(a.data[i].0 == b.data[i].0 && entry_eq_v(a.data[i].1, b.data[i].1)),
    ensures
        !record_eq_v(a, b),
{
}

/// Two records that differ only in their nonce are unequal: the nonce is
/// part of the comparison.
pub proof fn lemma_nonce_sensitivity(a: RecordV, b: RecordV)
    requires
        a.nonce != b.nonce,
    ensures
        !record_eq_v(a, b),
{
}

/// Compares two entries, comparing the values whatever the visibilities.
fn entry_eq(a: &Entry, b: &Entry) -> (r: bool)
    ensures
        r == entry_eq_v(entry_view(*a), entry_view(*b)),
{
    match (a, b) {
        (Entry::Constant(pa), Entry::Constant(pb)) => pa.eq_plaintext(pb),
        (Entry::Public(pa), Entry::Public(pb)) => pa.eq_plaintext(pb),
        (Entry::Private(pa), Entry::Private(pb)) => pa.eq_plaintext(pb),
        _ => false,
    }
}

impl Record {
    /// Returns true if the two records are equal: owner, every entry in
    /// order, and nonce. Every entry of both records is compared; the fold
    /// never stops early.
    pub fn is_equal(&self, other: &Record) -> (r: bool)
        requires
            self.data@.len() == other.data@.len(),
        ensures
            r == record_eq_v(record_view(*self), record_view(*other)),
    {
        let ghost av = record_view(*self);
        let ghost bv = record_view(*other);
        let mut equal: bool = true;
        let mut i: usize = 0;
        while i < self.data.len()
            invariant
                0 <= i <= self.data@.len(),
                self.data@.len() == other.data@.len(),
                av == record_view(*self),
                bv == record_view(*other),
                av.data == data_view(self.data@),
                bv.data == data_view(other.data@),
                av.data.len() == self.data@.len(),
                bv.data.len() == other.data@.len(),
                equal == (forall|j: int|
                    0 <= j < i ==> (#[trigger] av.data[j]).0 == bv.data[j].0 && entry_eq_v(
                        av.data[j].1,
                        bv.data[j].1,
                    )),
            decreases self.data@.len() - i,
        {
            let name_eq = self.data[i].0.eq_ident(&other.data[i].0);
            let value_eq = entry_eq(&self.data[i].1, &other.data[i].1);
            proof {
                assert(av.data[i as int] == (self.data@[i as int].0.bytes@, entry_view(
                    self.data@[i as int].1,
                )));
                assert(bv.data[i as int] == (other.data@[i as int].0.bytes@, entry_view(
                    other.data@[i as int].1,
                )));
            }
            equal = equal && name_eq && value_eq;
            i += 1;
        }
        let owner_eq = self.owner == other.owner;
        let nonce_eq = self.nonce == other.nonce;
        owner_eq && equal && nonce_eq
    }

    /// Returns true if the two records are not equal: the De Morgan dual of
    /// `is_equal`, accumulated as a disjunction over the same fold, and by
    /// contract its exact complement.
    pub fn is_not_equal(&self, other: &Record) -> (r: bool)
        requires
            self.data@.len() == other.data@.len(),
        ensures
            r == !record_eq_v(record_view(*self), record_view(*other)),
    {
        let ghost av = record_view(*self);
        let ghost bv = record_view(*other);
        let mut not_equal: bool = false;
        let mut i: usize = 0;
        while i < self.data.len()
            invariant
                0 <= i <= self.data@.len(),
                self.data@.len() == other.data@.len(),
                av == record_view(*self),
                bv == record_view(*other),
                av.data == data_view(self.data@),
                bv.data == data_view(other.data@),
                av.data.len() == self.data@.len(),
                bv.data.len() == other.data@.len(),
                not_equal == !(forall|j: int|
                    0 <= j < i ==> (#[trigger] av.data[j]).0 == bv.data[j].0 && entry_eq_v(
                        av.data[j].1,
                        bv.data[j].1,
                    )),
            decreases self.data@.len() - i,
        {
            let name_eq = self.data[i].0.eq_ident(&other.data[i].0);
            let value_eq = entry_eq(&self.data[i].1, &other.data[i].1);
            proof {
                assert(av.data[i as int] == (self.data@[i as int].0.bytes@, entry_view(
                    self.data@[i as int].1,
                )));
                assert(bv.data[i as int] == (other.data@[i as int].0.bytes@, entry_view(
                    other.data@[i as int].1,
                )));
            }
            not_equal = not_equal || !name_eq || !value_eq;
            i += 1;
        }
        let owner_ne = self.owner != other.owner;
        let nonce_ne = self.nonce != other.nonce;
        owner_ne || not_equal || nonce_ne
    }
}

} // verus!
