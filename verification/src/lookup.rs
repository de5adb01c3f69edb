//! Path lookup into a record: `find` resolves a path of identifiers to the
//! entry it names, walking nested struct members, with the reserved path
//! `owner` resolving to the owner presented as an entry.

use vstd::prelude::*;

use crate::errors::VmError;
use crate::plaintext::{pt_view, Identifier, Plaintext, PlaintextV};
use crate::record::{
    data_view, entry_view, owner_entry_view, owner_name, record_view, Entry, EntryV, Record,
    RecordV,
};

verus! {

/// The views of a path's identifiers, in order.
pub open spec fn path_view(ps: Seq<Identifier>) -> Seq<Seq<u8>> {
    Seq::new(ps.len(), |i: int| ps[i].bytes@)
}

/// The first member named `name` at or after position `i`.
pub open spec fn find_member_from(ms: Seq<(Seq<u8>, PlaintextV)>, name: Seq<u8>, i: int) -> Option<
    PlaintextV,
>
    decreases ms.len() - i,
{
    if !(0 <= i < ms.len()) {
        None
    } else if ms[i].0 == name {
        Some(ms[i].1)
    } else {
        find_member_from(ms, name, i + 1)
    }
}

/// The first data entry named `name` at or after position `i`.
pub open spec fn find_entry_from(ds: Seq<(Seq<u8>, EntryV)>, name: Seq<u8>, i: int) -> Option<
    EntryV,
>
    decreases ds.len() - i,
{
    if !(0 <= i < ds.len()) {
        None
    } else if ds[i].0 == name {
        Some(ds[i].1)
    } else {
        find_entry_from(ds, name, i + 1)
    }
}

/// Walks the path from position `k` down into a plaintext value.
pub open spec fn find_path_pt(p: PlaintextV, path: Seq<Seq<u8>>, k: int) -> Option<PlaintextV>
    decreases path.len() - k,
{
    if k >= path.len() {
        Some(p)
    } else {
        match p {
            PlaintextV::Literal(_) => None,
            PlaintextV::Struct(ms) => match find_member_from(ms, path[k], 0) {
                None => None,
                Some(q) => find_path_pt(q, path, k + 1),
            },
        }
    }
}

/// The plaintext value an entry carries.
pub open spec fn entry_payload(e: EntryV) -> PlaintextV {
    match e {
        EntryV::Constant(p) => p,
        EntryV::Public(p) => p,
        EntryV::Private(p) => p,
    }
}

/// An entry with the same visibility as `e` but payload `p`.
pub open spec fn entry_with_payload(e: EntryV, p: PlaintextV) -> EntryV {
    match e {
        EntryV::Constant(_) => EntryV::Constant(p),
        EntryV::Public(_) => EntryV::Public(p),
        EntryV::Private(_) => EntryV::Private(p),
    }
}

/// The entry a path resolves to in a record: the owner for the one-element
/// path `owner`, otherwise the named top-level entry, descended through
/// nested struct members by the remaining path, keeping the top entry's
/// visibility. `None` for an empty path, an unknown name, or a path that
/// descends into a literal.
pub open spec fn spec_find(r: RecordV, path: Seq<Seq<u8>>) -> Option<EntryV> {
    if path.len() == 1 && path[0] == owner_name() {
        Some(owner_entry_view(r.owner))
    } else if path.len() == 0 {
        None
    } else {
        match find_entry_from(r.data, path[0], 0) {
            None => None,
            Some(e) => match find_path_pt(entry_payload(e), path, 1) {
                None => None,
                Some(q) => Some(entry_with_payload(e, q)),
            },
        }
    }
}

/// True if the identifier is the reserved name `owner`.
fn is_owner_ident(id: &Identifier) -> (r: bool)
    ensures
        r == (id.bytes@ == owner_name()),
{
    if id.bytes.len() != 5 {
        proof {
            assert(id.bytes@ != owner_name());
        }
        return false;
    }
    let r = id.bytes[0] == 111 && id.bytes[1] == 119 && id.bytes[2] == 110 && id.bytes[3] == 101
        && id.bytes[4] == 114;
    proof {
        if r {
            assert(id.bytes@ =~= owner_name());
        } else {
            assert(id.bytes@ != owner_name());
        }
    }
    r
}

/// Descends from position `k` of the path into a plaintext value, returning
/// a copy of the value the path names.
pub fn descend(p: &Plaintext, path: &Vec<Identifier>, k: usize) -> (r: Option<Plaintext>)
    requires
        k <= path@.len(),
    ensures
        r is Some == find_path_pt(pt_view(*p), path_view(path@), k as int) is Some,
        r matches Some(q) ==> find_path_pt(pt_view(*p), path_view(path@), k as int) == Some(
            pt_view(q),
        ),
    decreases path@.len() - k,
{
    if k == path.len() {
        return Some(p.clone());
    }
    match p {
        Plaintext::Literal(_) => None,
        Plaintext::Struct(ms) => {
            let ghost mv = crate::plaintext::members_view(ms@);
            proof {
                crate::plaintext::lemma_members_view_len(ms@);
            }
            let mut i: usize = 0;
            while i < ms.len()
                invariant
                    0 <= i <= ms@.len(),
                    k < path@.len(),
                    path@.len() <= usize::MAX,
                    pt_view(*p) == PlaintextV::Struct(mv),
                    mv == crate::plaintext::members_view(ms@),
                    mv.len() == ms@.len(),
                    find_member_from(mv, path@[k as int].bytes@, 0) == find_member_from(
                        mv,
                        path@[k as int].bytes@,
                        i as int,
                    ),
                decreases ms@.len() - i,
            {
                proof {
                    crate::plaintext::lemma_members_view_index(ms@, i as int);
                }
                if ms[i].0.eq_ident(&path[k]) {
                    let q = descend(&ms[i].1, path, k + 1);
                    proof {
                        assert(mv[i as int] == (ms@[i as int].0.bytes@, pt_view(ms@[i as int].1)));
                        assert(find_member_from(mv, path@[k as int].bytes@, i as int) == Some(
                            pt_view(ms@[i as int].1),
                        ));
                    }
                    return q;
                }
                i += 1;
            }
            None
        },
    }
}

impl Record {
    /// Returns the entry the given path names, or why there is none: an
    /// empty path is refused, and a name or nested member that does not
    /// exist reports the entry as not found.
    pub fn find(&self, path: &Vec<Identifier>) -> (r: Result<Entry, VmError>)
        ensures
            r is Ok == spec_find(record_view(*self), path_view(path@)) is Some,
            r matches Ok(e) ==> spec_find(record_view(*self), path_view(path@)) == Some(
                entry_view(e),
            ),
            r matches Err(e) ==> (e == VmError::EmptyPath <==> path@.len() == 0) && (e
                == VmError::EntryNotFound <==> path@.len() > 0),
    {
        let ghost rv = record_view(*self);
        let ghost pv = path_view(path@);
        if path.len() == 1 && is_owner_ident(&path[0]) {
            return Ok(self.owner.to_entry());
        }
        if path.len() == 0 {
            return Err(VmError::EmptyPath);
        }
        let mut i: usize = 0;
        while i < self.data.len()
            invariant
                0 <= i <= self.data@.len(),
                rv == record_view(*self),
                pv == path_view(path@),
                rv.data == data_view(self.data@),
                rv.data.len() == self.data@.len(),
                path@.len() > 0,
                !(pv.len() == 1 && pv[0] == owner_name()),
                find_entry_from(rv.data, pv[0], 0) == find_entry_from(rv.data, pv[0], i as int),
            decreases self.data@.len() - i,
        {
            proof {
                assert(rv.data[i as int] == (self.data@[i as int].0.bytes@, entry_view(
                    self.data@[i as int].1,
                )));
            }
            if self.data[i].0.eq_ident(&path[0]) {
                let e = &self.data[i].1;
                let payload = match e {
                    Entry::Constant(p) => p,
                    Entry::Public(p) => p,
                    Entry::Private(p) => p,
                };
                let q = match descend(payload, path, 1) {
                    None => {
                        return Err(VmError::EntryNotFound);
                    },
                    Some(q) => q,
                };
                let out = match e {
                    Entry::Constant(_) => Entry::Constant(q),
                    Entry::Public(_) => Entry::Public(q),
                    Entry::Private(_) => Entry::Private(q),
                };
                return Ok(out);
            }
            i += 1;
        }
        Err(VmError::EntryNotFound)
    }
}

} // verus!
