//! Record encryption and decryption.
//!
//! A record is encrypted under a per-record shared secret: the sender
//! derives it from the recipient's address and the record's secret
//! randomizer, the recipient re-derives it from the record's public nonce
//! and the view key. The shared secret keys a deterministic randomizer
//! expansion; each private field element is masked by adding its
//! randomizer, and unmasked by subtracting it. Constant and public entries
//! pass through untouched. Decryption order exactly mirrors encryption
//! order: the owner first, then the entries in declared order.
//!
//! Decrypting with a wrong view key does not itself fail: it yields a
//! syntactically plausible but meaningless plaintext, by design;
//! authenticity is the caller's concern.

use vstd::prelude::*;

use crate::algebra::{
    field_add, field_sub, g_scalar_multiply, group_mul, lemma_mask_unmask, lemma_shared_secret,
    spec_field_add, spec_field_sub, spec_group_mul, spec_x_coordinate, x_coordinate, Address,
    Field, Group, Scalar, ViewKey, FIELD_MODULUS, GROUP_ORDER,
};
use crate::encode::{
    dec_all, enc_pt, fld, from_fields, lemma_dec_all_enc, lemma_enc_pt_valid, to_fields,
};
use crate::errors::VmError;
use crate::plaintext::{pt_valid_v, pt_view, Identifier};
use crate::record::{
    ct_data_rand_prefix, ct_data_view, ct_entry_rand_count_v, ct_entry_valid_v, ct_entry_view, entry_valid_v,
    ct_num_randomizers, ct_owner_rand_count, ct_record_valid_v, ct_record_view, data_rand_prefix,
    data_view, derive_randomizers, entry_rand_count_v, entry_view, lemma_ct_data_rand_prefix_mono,
    lemma_data_rand_prefix_mono, owner_address, owner_rand_count, rand_seq, randomizer_at,
    record_valid_v, record_view, CtEntry, CtEntryV, CtOwner, CtRecordV, Entry, EntryV, Owner,
    Record, RecordCiphertext, RecordV, ENCRYPTION_DOMAIN,
};

verus! {

/// Masks a field-element sequence with the randomizers starting at `off`.
pub open spec fn mask_seq(fs: Seq<Field>, key: Field, off: nat) -> Seq<Field> {
    Seq::new(fs.len(), |k: int| spec_field_add(fs[k], randomizer_at(ENCRYPTION_DOMAIN, key, (off + k) as nat)))
}

/// Unmasks a field-element sequence with the given randomizers at `off`.
pub open spec fn unmask_seq(cs: Seq<Field>, rands: Seq<Field>, off: nat) -> Seq<Field> {
    Seq::new(cs.len(), |k: int| spec_field_sub(cs[k], rands[off + k]))
}

/// The ciphertext entry a plaintext entry encrypts to with the expansion
/// keyed by `key`, consuming randomizers from `off` on.
pub open spec fn spec_encrypt_entry(e: EntryV, key: Field, off: nat) -> CtEntryV {
    match e {
        EntryV::Constant(p) => CtEntryV::Constant(p),
        EntryV::Public(p) => CtEntryV::Public(p),
        EntryV::Private(p) => CtEntryV::Private(mask_seq(enc_pt(p), key, off)),
    }
}

/// The ciphertext a record encrypts to under the given randomizer: the
/// nonce is `generator^randomizer`, the shared secret is derived from the
/// owner's address, and every private field element is masked in order.
pub open spec fn spec_encrypt(r: RecordV, randomizer: Scalar) -> CtRecordV {
    let key = spec_x_coordinate(spec_group_mul(owner_address(r.owner).element, randomizer));
    CtRecordV {
        owner: match r.owner {
            Owner::Public(a) => CtOwner::Public(a),
            Owner::Private(a) => CtOwner::Private(
                spec_field_add(
                    fld(a.element.exponent),
                    randomizer_at(ENCRYPTION_DOMAIN, key, 0),
                ),
            ),
        },
        data: Seq::new(
            r.data.len(),
            |i: int|
                (
                    r.data[i].0,
                    spec_encrypt_entry(
                        r.data[i].1,
                        key,
                        owner_rand_count(r.owner) + data_rand_prefix(r.data, i),
                    ),
                ),
        ),
        nonce: spec_group_mul(Group { exponent: 1 }, randomizer),
    }
}

/// The owner a ciphertext owner slot decrypts to, if its masked element
/// unmasks to a group exponent.
pub open spec fn ct_owner_dec(o: CtOwner, rands: Seq<Field>) -> Option<Owner> {
    match o {
        CtOwner::Public(a) => Some(Owner::Public(a)),
        CtOwner::Private(c) => {
            let u = spec_field_sub(c, rands[0]);
            if u.value < GROUP_ORDER {
                Some(Owner::Private(Address { element: Group { exponent: u.value } }))
            } else {
                None
            }
        },
    }
}

/// The entry a ciphertext entry decrypts to with the randomizers at `off`,
/// if its unmasked elements decode as one whole plaintext value.
pub open spec fn ct_entry_dec(e: CtEntryV, rands: Seq<Field>, off: nat) -> Option<EntryV> {
    match e {
        CtEntryV::Constant(p) => Some(EntryV::Constant(p)),
        CtEntryV::Public(p) => Some(EntryV::Public(p)),
        CtEntryV::Private(cs) => match dec_all(unmask_seq(cs, rands, off)) {
            Some(p) => Some(EntryV::Private(p)),
            None => None,
        },
    }
}

/// The record a ciphertext decrypts to under the given randomizers: `None`
/// on a randomizer-count mismatch, an undecodable owner or entry, or a
/// duplicate identifier.
pub open spec fn spec_decrypt_with(ct: CtRecordV, rands: Seq<Field>) -> Option<RecordV> {
    let base = ct_owner_rand_count(ct.owner);
    if rands.len() != ct_num_randomizers(ct) {
        None
    } else if ct_owner_dec(ct.owner, rands) is None {
        None
    } else if !(forall|i: int|
        0 <= i < ct.data.len() ==> ct_entry_dec(
            (#[trigger] ct.data[i]).1,
            rands,
            base + ct_data_rand_prefix(ct.data, i),
        ) is Some) {
        None
    } else if exists|i: int, j: int|
        0 <= i < j < ct.data.len() && (#[trigger] ct.data[i]).0 == (#[trigger] ct.data[j]).0 {
        None
    } else {
        Some(
            RecordV {
                owner: ct_owner_dec(ct.owner, rands).unwrap(),
                data: Seq::new(
                    ct.data.len(),
                    |i: int|
                        (
                            ct.data[i].0,
                            ct_entry_dec(
                                ct.data[i].1,
                                rands,
                                base + ct_data_rand_prefix(ct.data, i),
                            ).unwrap(),
                        ),
                ),
                nonce: ct.nonce,
            },
        )
    }
}

/// Decryption under a record view key: the randomizers are the expansion
/// keyed by the view key, one per masked element.
pub open spec fn spec_decrypt_symmetric(ct: CtRecordV, key: Field) -> Option<RecordV> {
    spec_decrypt_with(ct, rand_seq(ENCRYPTION_DOMAIN, key, ct_num_randomizers(ct)))
}

/// Decryption under an account view key: the record view key is the shared
/// secret derived from the record's nonce and the view key.
pub open spec fn spec_decrypt(ct: CtRecordV, view_key: ViewKey) -> Option<RecordV> {
    spec_decrypt_symmetric(
        ct,
        spec_x_coordinate(spec_group_mul(ct.nonce, view_key.scalar)),
    )
}

impl Record {
    /// Encrypts the record under the given secret randomizer. Fails only
    /// when the record needs more randomizers than the machine can index.
    pub fn encrypt(&self, randomizer: Scalar) -> (r: Result<RecordCiphertext, VmError>)
        requires
            record_valid_v(record_view(*self)),
            randomizer.is_valid(),
        ensures
            r is Ok <==> spec_num_randomizers_ok(record_view(*self)),
            r matches Ok(ct) ==> ct_record_view(ct) == spec_encrypt(record_view(*self), randomizer)
                && ct_record_valid_v(ct_record_view(ct)),
            r matches Err(e) ==> e == VmError::RecordTooLarge,
    {
        let ghost rv = record_view(*self);
        let addr = match &self.owner {
            Owner::Public(a) => *a,
            Owner::Private(a) => *a,
        };
        let key = x_coordinate(group_mul(addr.element, randomizer));
        let nonce = g_scalar_multiply(randomizer);

        // Count the randomizers the record needs.
        let base: usize = match &self.owner {
            Owner::Public(_) => 0,
            Owner::Private(_) => 1,
        };
        let mut total: usize = base;
        let mut i: usize = 0;
        while i < self.data.len()
            invariant
                0 <= i <= self.data@.len(),
                rv == record_view(*self),
                record_valid_v(rv),
                rv.data == data_view(self.data@),
                rv.data.len() == self.data@.len(),
                base == owner_rand_count(rv.owner),
                total == base + data_rand_prefix(rv.data, i as int),
            decreases self.data@.len() - i,
        {
            proof {
                assert(rv.data[i as int] == (self.data@[i as int].0.bytes@, entry_view(
                    self.data@[i as int].1,
                )));
            }
            match &self.data[i].1 {
                Entry::Private(p) => {
                    let fs = to_fields(p);
                    if total > usize::MAX - fs.len() {
                        proof {
                            lemma_data_rand_prefix_mono(rv.data, i as int + 1, rv.data.len() as int);
                        }
                        return Err(VmError::RecordTooLarge);
                    }
                    total = total + fs.len();
                },
                _ => {},
            }
            i += 1;
        }
        let ghost ntotal = crate::record::spec_num_randomizers(rv);
        proof {
            assert(total == ntotal);
        }

        let rands = derive_randomizers(ENCRYPTION_DOMAIN, key, total);
        let ghost sct = spec_encrypt(rv, randomizer);

        // Encrypt the owner, consuming a randomizer if it is private.
        let ct_owner = match &self.owner {
            Owner::Public(a) => CtOwner::Public(*a),
            Owner::Private(a) => CtOwner::Private(
                field_add(Field { value: a.element.exponent }, rands[0]),
            ),
        };
        proof {
            assert(ct_owner == sct.owner);
        }

        // Encrypt the entries in declared order.
        let mut out: Vec<(Identifier, CtEntry)> = Vec::new();
        let mut idx: usize = base;
        let mut i: usize = 0;
        while i < self.data.len()
            invariant
                0 <= i <= self.data@.len(),
                rv == record_view(*self),
                record_valid_v(rv),
                rv.data == data_view(self.data@),
                rv.data.len() == self.data@.len(),
                base == owner_rand_count(rv.owner),
                idx == base + data_rand_prefix(rv.data, i as int),
                total == base + data_rand_prefix(rv.data, rv.data.len() as int),
                rands@ == rand_seq(ENCRYPTION_DOMAIN, key, total as nat),
                rands@.len() == total,
                out@.len() == i,
                forall|j: int|
                    0 <= j < i ==> (#[trigger] out@[j]).0.bytes@ == rv.data[j].0 && ct_entry_view(
                        out@[j].1,
                    ) == spec_encrypt_entry(
                        rv.data[j].1,
                        key,
                        (base + data_rand_prefix(rv.data, j)) as nat,
                    ) && ct_entry_valid_v(ct_entry_view(out@[j].1)),
            decreases self.data@.len() - i,
        {
            proof {
                assert(rv.data[i as int] == (self.data@[i as int].0.bytes@, entry_view(
                    self.data@[i as int].1,
                )));
                assert(data_rand_prefix(rv.data, i as int + 1) == data_rand_prefix(
                    rv.data,
                    i as int,
                ) + entry_rand_count_v(rv.data[i as int].1));
                lemma_data_rand_prefix_mono(rv.data, i as int + 1, rv.data.len() as int);
            }
            let name = self.data[i].0.clone();
            let (entry, consumed) = encrypt_entry(&self.data[i].1, &rands, idx, Ghost(key), Ghost(total));
            out.push((name, entry));
            idx = idx + consumed;
            i += 1;
        }
        let ct = RecordCiphertext { owner: ct_owner, data: out, nonce };
        proof {
            assert forall|j: int| 0 <= j < rv.data.len() implies #[trigger] ct_data_view(out@)[j]
                == sct.data[j] by {
                assert(ct_data_view(out@)[j] == (out@[j].0.bytes@, ct_entry_view(out@[j].1)));
            };
            assert(ct_data_view(out@) =~= sct.data);
            assert(ct_record_view(ct) =~= sct);
            assert forall|j: int| 0 <= j < ct_record_view(ct).data.len() implies ident_valid_ct(
                ct_record_view(ct),
                j,
            ) by {
                assert(ct_data_view(out@)[j] == (out@[j].0.bytes@, ct_entry_view(out@[j].1)));
                assert(rv.data[j] == (self.data@[j].0.bytes@, entry_view(self.data@[j].1)));
            };
        }
        Ok(ct)
    }
}

/// Helper naming the per-entry validity facts of a ciphertext view.
pub open spec fn ident_valid_ct(ct: CtRecordV, i: int) -> bool {
    crate::plaintext::ident_valid(ct.data[i].0) && ct_entry_valid_v(ct.data[i].1)
}

/// Encrypts one entry, masking its field encoding with the randomizers from
/// position `idx` on; constant and public entries pass through unmasked.
fn encrypt_entry(
    e: &Entry,
    rands: &Vec<Field>,
    idx: usize,
    Ghost(key): Ghost<Field>,
    Ghost(total): Ghost<usize>,
) -> (r: (CtEntry, usize))
    requires
        crate::record::entry_valid_v(entry_view(*e)),
        idx + entry_rand_count_v(entry_view(*e)) <= total,
        rands@.len() == total,
        rands@ == rand_seq(ENCRYPTION_DOMAIN, key, total as nat),
    ensures
        ct_entry_view(r.0) == spec_encrypt_entry(entry_view(*e), key, idx as nat),
        r.1 == entry_rand_count_v(entry_view(*e)),
        ct_entry_valid_v(ct_entry_view(r.0)),
{
    match e {
        Entry::Constant(p) => (CtEntry::Constant(p.clone()), 0),
        Entry::Public(p) => (CtEntry::Public(p.clone()), 0),
        Entry::Private(p) => {
            let fs = to_fields(p);
            proof {
                lemma_enc_pt_valid(pt_view(*p));
            }
            let mut masked: Vec<Field> = Vec::new();
            let mut k: usize = 0;
            while k < fs.len()
                invariant
                    0 <= k <= fs@.len(),
                    fs@ == enc_pt(pt_view(*p)),
                    forall|x: int| 0 <= x < fs@.len() ==> (#[trigger] fs@[x]).is_valid(),
                    idx + fs@.len() <= total,
                    rands@.len() == total,
                    rands@ == rand_seq(ENCRYPTION_DOMAIN, key, total as nat),
                    masked@.len() == k,
                    forall|x: int|
                        0 <= x < k ==> #[trigger] masked@[x] == spec_field_add(
                            fs@[x],
                            randomizer_at(ENCRYPTION_DOMAIN, key, (idx + x) as nat),
                        ) && masked@[x].is_valid(),
                decreases fs@.len() - k,
            {
                let m = field_add(fs[k], rands[idx + k]);
                masked.push(m);
                k += 1;
            }
            proof {
                assert(masked@ =~= mask_seq(enc_pt(pt_view(*p)), key, idx as nat));
            }
            let consumed = fs.len();
            (CtEntry::Private(masked), consumed)
        },
    }
}

/// Whether the record's randomizer count is machine-indexable.
pub open spec fn spec_num_randomizers_ok(r: RecordV) -> bool {
    crate::record::spec_num_randomizers(r) <= usize::MAX
}


/// Decrypts one ciphertext entry, unmasking a private entry's elements with
/// the randomizers from `idx` on and decoding them as one plaintext value.
fn decrypt_entry(e: &CtEntry, rands: &Vec<Field>, idx: usize) -> (r: Result<(Entry, usize), VmError>)
    requires
        ct_entry_valid_v(ct_entry_view(*e)),
        idx + ct_entry_rand_count_v(ct_entry_view(*e)) <= rands@.len(),
        forall|x: int| 0 <= x < rands@.len() ==> (#[trigger] rands@[x]).is_valid(),
    ensures
        r is Ok <==> ct_entry_dec(ct_entry_view(*e), rands@, idx as nat) is Some,
        r matches Ok((entry, consumed)) ==> ct_entry_dec(ct_entry_view(*e), rands@, idx as nat)
            == Some(entry_view(entry)) && consumed == ct_entry_rand_count_v(ct_entry_view(*e)),
        r matches Err(er) ==> er == VmError::MalformedCiphertext,
{
    match e {
        CtEntry::Constant(p) => Ok((Entry::Constant(p.clone()), 0)),
        CtEntry::Public(p) => Ok((Entry::Public(p.clone()), 0)),
        CtEntry::Private(cs) => {
            let rlen = rands.len();
            let mut ms: Vec<Field> = Vec::new();
            let mut k: usize = 0;
            while k < cs.len()
                invariant
                    0 <= k <= cs@.len(),
                    idx + cs@.len() <= rands@.len(),
                    rands@.len() <= usize::MAX,
                    forall|x: int| 0 <= x < cs@.len() ==> (#[trigger] cs@[x]).is_valid(),
                    forall|x: int| 0 <= x < rands@.len() ==> (#[trigger] rands@[x]).is_valid(),
                    ms@.len() == k,
                    forall|x: int|
                        0 <= x < k ==> #[trigger] ms@[x] == spec_field_sub(
                            cs@[x],
                            rands@[idx + x],
                        ),
                decreases cs@.len() - k,
            {
                let m = field_sub(cs[k], rands[idx + k]);
                ms.push(m);
                k += 1;
            }
            proof {
                assert(ms@ =~= unmask_seq(cs@, rands@, idx as nat));
            }
            match from_fields(&ms) {
                None => Err(VmError::MalformedCiphertext),
                Some(p) => {
                    let consumed = cs.len();
                    Ok((Entry::Private(p), consumed))
                },
            }
        },
    }
}

impl RecordCiphertext {
    /// Counts the randomizers this ciphertext consumed: one if the owner is
    /// private, plus each private entry's element count.
    pub fn num_randomizers(&self) -> (r: Result<usize, VmError>)
        ensures
            r matches Ok(n) ==> n == ct_num_randomizers(ct_record_view(*self)),
            r is Ok <==> ct_num_randomizers(ct_record_view(*self)) <= usize::MAX,
            r matches Err(e) ==> e == VmError::RecordTooLarge,
    {
        let ghost cv = ct_record_view(*self);
        let base: usize = match &self.owner {
            CtOwner::Public(_) => 0,
            CtOwner::Private(_) => 1,
        };
        let mut total: usize = base;
        let mut i: usize = 0;
        while i < self.data.len()
            invariant
                0 <= i <= self.data@.len(),
                cv == ct_record_view(*self),
                cv.data == ct_data_view(self.data@),
                cv.data.len() == self.data@.len(),
                base == ct_owner_rand_count(cv.owner),
                total == base + ct_data_rand_prefix(cv.data, i as int),
            decreases self.data@.len() - i,
        {
            proof {
                assert(cv.data[i as int] == (self.data@[i as int].0.bytes@, ct_entry_view(
                    self.data@[i as int].1,
                )));
            }
            match &self.data[i].1 {
                CtEntry::Private(cs) => {
                    let n = cs.len();
                    if total > usize::MAX - n {
                        proof {
                            lemma_ct_data_rand_prefix_mono(cv.data, i as int + 1, cv.data.len() as int);
                        }
                        return Err(VmError::RecordTooLarge);
                    }
                    total = total + n;
                },
                _ => {},
            }
            i += 1;
        }
        Ok(total)
    }

    /// Decrypts the ciphertext with explicit randomizers, whose count must
    /// match exactly; the owner is unmasked first, then each entry in
    /// order, and a duplicate entry identifier fails the whole decryption.
    #[verifier::rlimit(100)]
    fn decrypt_with_randomizers(&self, rands: &Vec<Field>) -> (r: Result<Record, VmError>)
        requires
            ct_record_valid_v(ct_record_view(*self)),
            forall|x: int| 0 <= x < rands@.len() ==> (#[trigger] rands@[x]).is_valid(),
        ensures
            r is Ok <==> spec_decrypt_with(ct_record_view(*self), rands@) is Some,
            r matches Ok(rec) ==> spec_decrypt_with(ct_record_view(*self), rands@) == Some(
                record_view(rec),
            ),
            r matches Err(e) ==> e == VmError::MalformedCiphertext || e
                == VmError::DuplicateIdentifier,
    {
        let ghost cv = ct_record_view(*self);
        let rlen = rands.len();
        let total = match self.num_randomizers() {
            Ok(n) => n,
            Err(e) => {
                proof {
                    assert(rands@.len() <= usize::MAX);
                }
                return Err(VmError::MalformedCiphertext);
            },
        };
        if total != rlen {
            return Err(VmError::MalformedCiphertext);
        }
        let base: usize = match &self.owner {
            CtOwner::Public(_) => 0,
            CtOwner::Private(_) => 1,
        };

        // Unmask the owner.
        let owner = match &self.owner {
            CtOwner::Public(a) => Owner::Public(*a),
            CtOwner::Private(c) => {
                let u = field_sub(*c, rands[0]);
                if u.value >= GROUP_ORDER {
                    return Err(VmError::MalformedCiphertext);
                }
                Owner::Private(Address { element: Group { exponent: u.value } })
            },
        };
        proof {
            assert(ct_owner_dec(cv.owner, rands@) == Some(owner));
        }

        // Decrypt the entries in order, refusing duplicate identifiers.
        let mut out: Vec<(Identifier, Entry)> = Vec::new();
        let mut idx: usize = base;
        let mut i: usize = 0;
        while i < self.data.len()
            invariant
                0 <= i <= self.data@.len(),
                cv == ct_record_view(*self),
                ct_record_valid_v(cv),
                cv.data == ct_data_view(self.data@),
                cv.data.len() == self.data@.len(),
                base == ct_owner_rand_count(cv.owner),
                idx == base + ct_data_rand_prefix(cv.data, i as int),
                rands@.len() == base + ct_data_rand_prefix(cv.data, cv.data.len() as int),
                rands@.len() <= usize::MAX,
                forall|x: int| 0 <= x < rands@.len() ==> (#[trigger] rands@[x]).is_valid(),
                out@.len() == i,
                forall|j: int|
                    0 <= j < i ==> (#[trigger] out@[j]).0.bytes@ == cv.data[j].0 && ct_entry_dec(
                        cv.data[j].1,
                        rands@,
                        (base + ct_data_rand_prefix(cv.data, j)) as nat,
                    ) == Some(entry_view(out@[j].1)),
                forall|x: int, y: int|
                    0 <= x < y < i ==> (#[trigger] cv.data[x]).0 != (#[trigger] cv.data[y]).0,
            decreases self.data@.len() - i,
        {
            proof {
                assert(cv.data[i as int] == (self.data@[i as int].0.bytes@, ct_entry_view(
                    self.data@[i as int].1,
                )));
                assert(ct_data_rand_prefix(cv.data, i as int + 1) == ct_data_rand_prefix(
                    cv.data,
                    i as int,
                ) + ct_entry_rand_count_v(cv.data[i as int].1));
                lemma_ct_data_rand_prefix_mono(cv.data, i as int + 1, cv.data.len() as int);
            }
            // Refuse a duplicate identifier.
            let mut j: usize = 0;
            while j < i
                invariant
                    0 <= j <= i < self.data@.len(),
                    cv.data == ct_data_view(self.data@),
                    cv.data.len() == self.data@.len(),
                    forall|x: int|
                        0 <= x < j ==> (#[trigger] cv.data[x]).0 != cv.data[i as int].0,
                decreases i - j,
            {
                if self.data[j].0.eq_ident(&self.data[i].0) {
                    proof {
                        assert(cv.data[j as int].0 == cv.data[i as int].0);
                    }
                    return Err(VmError::DuplicateIdentifier);
                }
                proof {
                    assert(cv.data[j as int] == (self.data@[j as int].0.bytes@, ct_entry_view(
                        self.data@[j as int].1,
                    )));
                }
                j += 1;
            }
            let name = self.data[i].0.clone();
            let (entry, consumed) = match decrypt_entry(&self.data[i].1, rands, idx) {
                Ok(x) => x,
                Err(e) => {
                    return Err(e);
                },
            };
            out.push((name, entry));
            idx = idx + consumed;
            i += 1;
        }
        let rec = Record { owner, data: out, nonce: self.nonce };
        proof {
            assert forall|x: int| 0 <= x < cv.data.len() implies ct_entry_dec(
                (#[trigger] cv.data[x]).1,
                rands@,
                (base + ct_data_rand_prefix(cv.data, x)) as nat,
            ) is Some by {
                assert(ct_entry_dec(
                    cv.data[x].1,
                    rands@,
                    (base + ct_data_rand_prefix(cv.data, x)) as nat,
                ) == Some(entry_view(out@[x].1)));
            };
            assert(!(exists|x: int, y: int|
                0 <= x < y < cv.data.len() && (#[trigger] cv.data[x]).0 == (
                #[trigger] cv.data[y]).0));
            let d = spec_decrypt_with(cv, rands@);
            assert(d is Some);
            let dv = d.unwrap();
            assert forall|j: int| 0 <= j < cv.data.len() implies #[trigger] data_view(out@)[j]
                == dv.data[j] by {
                assert(data_view(out@)[j] == (out@[j].0.bytes@, entry_view(out@[j].1)));
            };
            assert(data_view(out@) =~= dv.data);
            assert(record_view(rec) =~= dv);
        }
        Ok(rec)
    }

    /// Decrypts the ciphertext under the given record view key: the
    /// randomizers are re-derived from it exactly as encryption derived
    /// them.
    pub fn decrypt_symmetric(&self, record_view_key: Field) -> (r: Result<Record, VmError>)
        requires
            ct_record_valid_v(ct_record_view(*self)),
            record_view_key.is_valid(),
        ensures
            r is Ok <==> (ct_num_randomizers(ct_record_view(*self)) <= usize::MAX
                && spec_decrypt_symmetric(ct_record_view(*self), record_view_key) is Some),
            r matches Ok(rec) ==> spec_decrypt_symmetric(ct_record_view(*self), record_view_key)
                == Some(record_view(rec)),
            r matches Err(e) ==> e == VmError::RecordTooLarge || e == VmError::MalformedCiphertext
                || e == VmError::DuplicateIdentifier,
            r matches Err(e) ==> (e == VmError::RecordTooLarge <==> ct_num_randomizers(
                ct_record_view(*self),
            ) > usize::MAX),
    {
        let total = match self.num_randomizers() {
            Ok(n) => n,
            Err(e) => {
                return Err(e);
            },
        };
        let rands = derive_randomizers(ENCRYPTION_DOMAIN, record_view_key, total);
        self.decrypt_with_randomizers(&rands)
    }

    /// Decrypts the ciphertext under an account view key, deriving the
    /// record view key as the shared secret of the record's nonce and the
    /// view key. A wrong view key is not detected here: it yields a
    /// meaningless plaintext or a decoding failure, never a valid record of
    /// the true owner.
    pub fn decrypt(&self, view_key: &ViewKey) -> (r: Result<Record, VmError>)
        requires
            ct_record_valid_v(ct_record_view(*self)),
            view_key.is_valid(),
        ensures
            r is Ok <==> (ct_num_randomizers(ct_record_view(*self)) <= usize::MAX
                && spec_decrypt(ct_record_view(*self), *view_key) is Some),
            r matches Ok(rec) ==> spec_decrypt(ct_record_view(*self), *view_key) == Some(
                record_view(rec),
            ),
            r matches Err(e) ==> e == VmError::RecordTooLarge || e == VmError::MalformedCiphertext
                || e == VmError::DuplicateIdentifier,
            r matches Err(e) ==> (e == VmError::RecordTooLarge <==> ct_num_randomizers(
                ct_record_view(*self),
            ) > usize::MAX),
    {
        let key = x_coordinate(group_mul(self.nonce, view_key.scalar));
        self.decrypt_symmetric(key)
    }
}

/// Counting is preserved by encryption: the ciphertext's randomizer prefix
/// equals the record's at every index.
pub proof fn lemma_encrypt_counts(r: RecordV, randomizer: Scalar, i: int)
    requires
        0 <= i <= r.data.len(),
    ensures
        ct_data_rand_prefix(spec_encrypt(r, randomizer).data, i) == data_rand_prefix(r.data, i),
    decreases i,
{
    if i > 0 {
        lemma_encrypt_counts(r, randomizer, i - 1);
        let ct = spec_encrypt(r, randomizer);
        assert(ct.data[i - 1].1 == spec_encrypt_entry(
            r.data[i - 1].1,
            spec_x_coordinate(spec_group_mul(owner_address(r.owner).element, randomizer)),
            owner_rand_count(r.owner) + data_rand_prefix(r.data, i - 1),
        ));
    }
}

/// Round trip: an honestly encrypted record decrypts, under the matching
/// view key, to the original record exactly, field for field and nonce
/// included, for a public or a private owner alike.
pub proof fn lemma_encrypt_decrypt(r: RecordV, view_key: ViewKey, randomizer: Scalar)
    requires
        record_valid_v(r),
        view_key.is_valid(),
        randomizer.is_valid(),
        owner_address(r.owner).element.exponent == view_key.scalar.value,
        r.nonce == (Group { exponent: randomizer.value }),
    ensures
        spec_decrypt(spec_encrypt(r, randomizer), view_key) == Some(r),
{
    let ct = spec_encrypt(r, randomizer);
    let enc_key = spec_x_coordinate(spec_group_mul(owner_address(r.owner).element, randomizer));

    // The nonce is the generator raised to the randomizer.
    assert(ct.nonce.exponent == randomizer.value) by {
        assert(1int * (randomizer.value as int) == randomizer.value as int);
        assert((randomizer.value as int) % (GROUP_ORDER as int) == randomizer.value as int);
    };
    assert(ct.nonce == r.nonce);

    // Both sides derive the same shared secret.
    let dec_key = spec_x_coordinate(spec_group_mul(ct.nonce, view_key.scalar));
    lemma_shared_secret(view_key, randomizer);
    assert(dec_key == enc_key);

    // The randomizer counts agree.
    lemma_encrypt_counts(r, randomizer, r.data.len() as int);
    assert(ct.data.len() == r.data.len());
    let base = owner_rand_count(r.owner);
    assert(ct_owner_rand_count(ct.owner) == base);
    let total = ct_num_randomizers(ct);
    assert(total == crate::record::spec_num_randomizers(r));
    let rands = rand_seq(ENCRYPTION_DOMAIN, dec_key, total);
    assert(rands.len() == total);

    // The owner unmasks to itself.
    match r.owner {
        Owner::Public(_) => {},
        Owner::Private(a) => {
            assert(total >= 1);
            assert(rands[0] == randomizer_at(ENCRYPTION_DOMAIN, enc_key, 0));
            lemma_mask_unmask(fld(a.element.exponent), randomizer_at(ENCRYPTION_DOMAIN, enc_key, 0));
            assert(ct_owner_dec(ct.owner, rands) == Some(Owner::Private(
                Address { element: Group { exponent: a.element.exponent } },
            )));
            assert(Address { element: Group { exponent: a.element.exponent } } == a);
        },
    }
    assert(ct_owner_dec(ct.owner, rands) == Some(r.owner));

    // Every entry unmasks and decodes to itself.
    assert forall|i: int| 0 <= i < ct.data.len() implies ct_entry_dec(
        (#[trigger] ct.data[i]).1,
        rands,
        (base + ct_data_rand_prefix(ct.data, i)) as nat,
    ) == Some(r.data[i].1) by {
        lemma_encrypt_counts(r, randomizer, i);
        let off = (base + data_rand_prefix(r.data, i)) as nat;
        assert(ct.data[i] == (r.data[i].0, spec_encrypt_entry(r.data[i].1, enc_key, off)));
        match r.data[i].1 {
            EntryV::Constant(_) => {},
            EntryV::Public(_) => {},
            EntryV::Private(p) => {
                assert(entry_valid_v(r.data[i].1));
                assert(pt_valid_v(p));
                let cs = mask_seq(enc_pt(p), enc_key, off);
                assert(ct.data[i].1 == CtEntryV::Private(cs));
                lemma_encrypt_counts(r, randomizer, i + 1);
                assert(data_rand_prefix(r.data, i + 1) == data_rand_prefix(r.data, i)
                    + entry_rand_count_v(r.data[i].1));
                lemma_data_rand_prefix_mono(r.data, i + 1, r.data.len() as int);
                assert(off + cs.len() <= total);
                lemma_enc_pt_valid(p);
                let ms = unmask_seq(cs, rands, off);
                assert forall|k: int| 0 <= k < ms.len() implies ms[k] == enc_pt(p)[k] by {
                    assert(cs[k] == spec_field_add(
                        enc_pt(p)[k],
                        randomizer_at(ENCRYPTION_DOMAIN, enc_key, (off + k) as nat),
                    ));
                    assert(rands[off + k] == randomizer_at(
                        ENCRYPTION_DOMAIN,
                        enc_key,
                        (off + k) as nat,
                    ));
                    lemma_mask_unmask(
                        enc_pt(p)[k],
                        randomizer_at(ENCRYPTION_DOMAIN, enc_key, (off + k) as nat),
                    );
                };
                assert(ms =~= enc_pt(p));
                lemma_dec_all_enc(p);
            },
        }
    };

    // The identifiers are unique, so rebuilding cannot fail.
    assert(!(exists|i: int, j: int|
        0 <= i < j < ct.data.len() && (#[trigger] ct.data[i]).0 == (#[trigger] ct.data[j]).0)) by {
        assert forall|i: int, j: int| 0 <= i < j < ct.data.len() implies (
        #[trigger] ct.data[i]).0 != (#[trigger] ct.data[j]).0 by {
            assert(ct.data[i].0 == r.data[i].0);
            assert(ct.data[j].0 == r.data[j].0);
        };
    };

    let d = spec_decrypt_with(ct, rands);
    assert(d is Some);
    let dv = d.unwrap();
    assert forall|i: int| 0 <= i < r.data.len() implies dv.data[i] == #[trigger] r.data[i] by {
        assert(ct.data[i].0 == r.data[i].0);
    };
    assert(dv.data =~= r.data);
    assert(dv =~= r);
}


impl Record {
    /// Decrypts a record ciphertext into a plaintext record under an
    /// account view key; see `RecordCiphertext::decrypt`.
    pub fn decrypt(ciphertext: &RecordCiphertext, view_key: &ViewKey) -> (r: Result<Record, VmError>)
        requires
            ct_record_valid_v(ct_record_view(*ciphertext)),
            view_key.is_valid(),
        ensures
            r is Ok <==> (ct_num_randomizers(ct_record_view(*ciphertext)) <= usize::MAX
                && spec_decrypt(ct_record_view(*ciphertext), *view_key) is Some),
            r matches Ok(rec) ==> spec_decrypt(ct_record_view(*ciphertext), *view_key) == Some(
                record_view(rec),
            ),
    {
        ciphertext.decrypt(view_key)
    }

    /// Decrypts a record ciphertext into a plaintext record under a record
    /// view key; see `RecordCiphertext::decrypt_symmetric`.
    pub fn decrypt_symmetric(ciphertext: &RecordCiphertext, record_view_key: Field) -> (r: Result<
        Record,
        VmError,
    >)
        requires
            ct_record_valid_v(ct_record_view(*ciphertext)),
            record_view_key.is_valid(),
        ensures
            r is Ok <==> (ct_num_randomizers(ct_record_view(*ciphertext)) <= usize::MAX
                && spec_decrypt_symmetric(ct_record_view(*ciphertext), record_view_key) is Some),
            r matches Ok(rec) ==> spec_decrypt_symmetric(
                ct_record_view(*ciphertext),
                record_view_key,
            ) == Some(record_view(rec)),
    {
        ciphertext.decrypt_symmetric(record_view_key)
    }
}

} // verus!
