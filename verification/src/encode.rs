//! Field-element encoding of plaintext values.
//!
//! A private record entry is masked element by element, so a plaintext value
//! must first become a flat sequence of field elements. The encoding is
//! self-delimiting: a tag element, then the payload; a struct carries its
//! member count, and each member name carries its byte length. Decoding a
//! sequence produced by the encoder yields the original value back, which is
//! proved here and carries the record round-trip property.

use vstd::prelude::*;

use crate::algebra::{Field, FIELD_MODULUS, GROUP_ORDER};
use crate::plaintext::{
    ident_valid, is_ident_byte, is_letter_byte, lit_valid, members_view, pt_valid_v, pt_view,
    Identifier, Literal, Plaintext, PlaintextV,
};
use crate::algebra::{Address, Group, Scalar};

verus! {

pub const TAG_BOOL: u64 = 0;

pub const TAG_FIELD: u64 = 1;

pub const TAG_GROUP: u64 = 2;

pub const TAG_SCALAR: u64 = 3;

pub const TAG_ADDRESS: u64 = 4;

pub const TAG_STRUCT: u64 = 5;

/// A field element holding a small tag or length.
pub open spec fn fld(v: u64) -> Field {
    Field { value: v }
}

/// Encoding of a literal: its tag, then one payload element.
pub open spec fn enc_lit(l: Literal) -> Seq<Field> {
    match l {
        Literal::Bool(b) => seq![fld(TAG_BOOL), fld(if b { 1u64 } else { 0u64 })],
        Literal::Field(f) => seq![fld(TAG_FIELD), f],
        Literal::Group(g) => seq![fld(TAG_GROUP), fld(g.exponent)],
        Literal::Scalar(s) => seq![fld(TAG_SCALAR), fld(s.value)],
        Literal::Address(a) => seq![fld(TAG_ADDRESS), fld(a.element.exponent)],
    }
}

/// Encoding of an identifier: its byte length, then one element per byte.
pub open spec fn enc_ident(name: Seq<u8>) -> Seq<Field> {
    seq![fld(name.len() as u64)] + Seq::new(name.len(), |k: int| fld(name[k] as u64))
}

/// Encoding of a plaintext value.
pub open spec fn enc_pt(p: PlaintextV) -> Seq<Field>
    decreases p,
{
    match p {
        PlaintextV::Literal(l) => enc_lit(l),
        PlaintextV::Struct(ms) => seq![fld(TAG_STRUCT), fld(ms.len() as u64)] + enc_members(ms),
    }
}

/// Encoding of a member list: each member's name, then its value.
pub open spec fn enc_members(ms: Seq<(Seq<u8>, PlaintextV)>) -> Seq<Field>
    decreases ms,
{
    if ms.len() == 0 {
        Seq::empty()
    } else {
        enc_ident(ms[0].0) + enc_pt(ms[0].1) + enc_members(ms.drop_first())
    }
}

/// Decoding of an identifier at position `j`: reads the length element and
/// that many byte elements, requiring a well-formed name.
pub open spec fn dec_ident(s: Seq<Field>, j: int) -> Option<(Seq<u8>, nat)> {
    if 0 <= j < s.len() && 1 <= s[j].value <= 31 && j + 1 + s[j].value <= s.len() && (forall|k: int|
        0 <= k < s[j].value ==> (#[trigger] s[j + 1 + k]).value < 256 && is_ident_byte(
            s[j + 1 + k].value as u8,
        )) && is_letter_byte(s[j + 1].value as u8) {
        Some(
            (
                Seq::new(s[j].value as nat, |k: int| s[j + 1 + k].value as u8),
                (1 + s[j].value) as nat,
            ),
        )
    } else {
        None
    }
}

/// Decoding of a plaintext value at position `i`; returns the value and the
/// number of elements consumed.
pub open spec fn dec_pt(s: Seq<Field>, i: int) -> Option<(PlaintextV, nat)>
    decreases s.len() - i,
{
    if !(0 <= i && i + 2 <= s.len()) {
        None
    } else {
        let tag = s[i].value;
        let payload = s[i + 1].value;
        if tag == TAG_BOOL {
            if payload == 0 || payload == 1 {
                Some((PlaintextV::Literal(Literal::Bool(payload == 1)), 2))
            } else {
                None
            }
        } else if tag == TAG_FIELD {
            if payload < FIELD_MODULUS {
                Some((PlaintextV::Literal(Literal::Field(Field { value: payload })), 2))
            } else {
                None
            }
        } else if tag == TAG_GROUP {
            if payload < GROUP_ORDER {
                Some((PlaintextV::Literal(Literal::Group(Group { exponent: payload })), 2))
            } else {
                None
            }
        } else if tag == TAG_SCALAR {
            if payload < GROUP_ORDER {
                Some((PlaintextV::Literal(Literal::Scalar(Scalar { value: payload })), 2))
            } else {
                None
            }
        } else if tag == TAG_ADDRESS {
            if payload < GROUP_ORDER {
                Some(
                    (
                        PlaintextV::Literal(
                            Literal::Address(Address { element: Group { exponent: payload } }),
                        ),
                        2,
                    ),
                )
            } else {
                None
            }
        } else if tag == TAG_STRUCT {
            if payload < FIELD_MODULUS {
                match dec_members(s, i + 2, payload as nat) {
                    None => None,
                    Some((ms, used)) => Some((PlaintextV::Struct(ms), (2 + used) as nat)),
                }
            } else {
                None
            }
        } else {
            None
        }
    }
}

/// Decoding of `count` members at position `j`.
pub open spec fn dec_members(s: Seq<Field>, j: int, count: nat) -> Option<
    (Seq<(Seq<u8>, PlaintextV)>, nat),
>
    decreases s.len() - j,
{
    if count == 0 {
        Some((Seq::empty(), 0))
    } else if !(0 <= j && j < s.len()) {
        None
    } else {
        match dec_ident(s, j) {
            None => None,
            Some((name, used1)) => match dec_pt(s, j + used1) {
                None => None,
                Some((value, used2)) => {
                    if j + used1 + used2 > s.len() {
                        None
                    } else {
                        match dec_members(s, j + used1 + used2, (count - 1) as nat) {
                            None => None,
                            Some((rest, used3)) => Some(
                                (
                                    seq![(name, value)] + rest,
                                    (used1 + used2 + used3) as nat,
                                ),
                            ),
                        }
                    }
                },
            },
        }
    }
}

/// Decoding a sequence that carries an encoded valid value, at the position
/// where the encoding starts, yields that value and consumes exactly its
/// encoding, whatever follows it.
pub proof fn lemma_dec_enc(p: PlaintextV, s: Seq<Field>, i: int)
    requires
        pt_valid_v(p),
        0 <= i,
        i + enc_pt(p).len() <= s.len(),
        forall|k: int| 0 <= k < enc_pt(p).len() ==> s[i + k] == enc_pt(p)[k],
    ensures
        dec_pt(s, i) == Some((p, enc_pt(p).len() as nat)),
    decreases p,
{
    match p {
        PlaintextV::Literal(l) => {
            assert(s[i] == enc_pt(p)[0]);
            assert(s[i + 1] == enc_pt(p)[1]);
        },
        PlaintextV::Struct(ms) => {
            assert(s[i] == enc_pt(p)[0]);
            assert(s[i + 1] == enc_pt(p)[1]);
            assert(enc_pt(p) == seq![fld(TAG_STRUCT), fld(ms.len() as u64)] + enc_members(ms));
            assert(s[i].value == TAG_STRUCT);
            assert(s[i + 1].value == ms.len() as u64);
            assert forall|k: int| 0 <= k < enc_members(ms).len() implies s[i + 2 + k]
                == enc_members(ms)[k] by {
                assert(s[i + (2 + k)] == enc_pt(p)[2 + k]);
            };
            lemma_dec_enc_members(ms, s, i + 2);
        },
    }
}

/// Member-list counterpart of the decoding round trip.
pub proof fn lemma_dec_enc_members(ms: Seq<(Seq<u8>, PlaintextV)>, s: Seq<Field>, j: int)
    requires
        forall|x: int| 0 <= x < ms.len() ==> ident_valid((#[trigger] ms[x]).0) && pt_valid_v(
            ms[x].1,
        ),
        0 <= j,
        j + enc_members(ms).len() <= s.len(),
        forall|k: int| 0 <= k < enc_members(ms).len() ==> s[j + k] == enc_members(ms)[k],
    ensures
        dec_members(s, j, ms.len()) == Some((ms, enc_members(ms).len() as nat)),
    decreases ms,
{
    if ms.len() == 0 {
        assert(dec_members(s, j, 0) == Some((Seq::<(Seq<u8>, PlaintextV)>::empty(), 0nat)));
        assert(ms =~= Seq::<(Seq<u8>, PlaintextV)>::empty());
    } else {
        let name = ms[0].0;
        let value = ms[0].1;
        let ei = enc_ident(name);
        let ev = enc_pt(value);
        let rest = ms.drop_first();
        let er = enc_members(rest);
        assert(enc_members(ms) == ei + ev + er);
        let li = ei.len() as int;
        let lv = ev.len() as int;
        let lr = er.len() as int;
        assert(li == 1 + name.len());

        // The identifier decodes to the first member's name.
        assert forall|k: int| 0 <= k < li implies s[j + k] == ei[k] by {
            assert(s[j + k] == enc_members(ms)[k]);
            assert((ei + ev + er)[k] == (ei + ev)[k]);
            assert((ei + ev)[k] == ei[k]);
        };
        assert(s[j] == ei[0]);
        assert(s[j].value == name.len() as u64);
        assert(ident_valid(name));
        assert forall|k: int| 0 <= k < s[j].value implies (#[trigger] s[j + 1 + k]).value < 256
            && is_ident_byte(s[j + 1 + k].value as u8) by {
            assert(s[j + 1 + k] == ei[1 + k]);
            assert(ei[1 + k] == fld(name[k] as u64));
            assert(is_ident_byte(name[k]));
        };
        assert(s[j + 1] == ei[1]);
        assert(is_letter_byte(s[j + 1].value as u8)) by {
            assert(ei[1] == fld(name[0] as u64));
        };
        assert(dec_ident(s, j) is Some);
        let (dname, used1) = dec_ident(s, j).unwrap();
        assert(dname =~= name) by {
            assert forall|k: int| 0 <= k < name.len() implies dname[k] == name[k] by {
                assert(s[j + 1 + k] == ei[1 + k]);
            };
        };
        assert(used1 == li);

        // The member value decodes by induction.
        assert forall|k: int| 0 <= k < lv implies s[j + li + k] == ev[k] by {
            assert(s[j + li + k] == enc_members(ms)[li + k]);
            assert((ei + ev + er)[li + k] == (ei + ev)[li + k]);
            assert((ei + ev)[li + k] == ev[k]);
        };
        lemma_dec_enc(value, s, j + li);

        // The remaining members decode by induction.
        assert forall|k: int| 0 <= k < lr implies s[j + li + lv + k] == er[k] by {
            assert(s[j + li + lv + k] == enc_members(ms)[li + lv + k]);
            assert((ei + ev + er)[li + lv + k] == er[k]);
        };
        assert forall|x: int| 0 <= x < rest.len() implies ident_valid((#[trigger] rest[x]).0)
            && pt_valid_v(rest[x].1) by {
            assert(rest[x] == ms[x + 1]);
        };
        lemma_dec_enc_members(rest, s, j + li + lv);

        assert(dec_members(s, j + li + lv, rest.len()) == Some((rest, er.len() as nat)));
        assert(ms.len() - 1 == rest.len());
        assert(seq![(dname, value)] + rest =~= ms);
    }
}

/// Appends the encoding of an identifier to `out`.
fn encode_ident(id: &Identifier, out: &mut Vec<Field>)
    requires
        id.is_valid(),
    ensures
        final(out)@ == old(out)@ + enc_ident(id.bytes@),
{
    let len: u64 = id.bytes.len() as u64;
    out.push(Field { value: len });
    let mut k: usize = 0;
    while k < id.bytes.len()
        invariant
            0 <= k <= id.bytes.len(),
            id.bytes@.len() <= 31,
            out@.len() == old(out)@.len() + 1 + k,
            forall|j: int| 0 <= j < old(out)@.len() ==> #[trigger] out@[j] == old(out)@[j],
            out@[old(out)@.len() as int] == fld(id.bytes@.len() as u64),
            forall|j: int|
                0 <= j < k ==> #[trigger] out@[old(out)@.len() + 1 + j] == fld(id.bytes@[j] as u64),
        decreases id.bytes.len() - k,
    {
        out.push(Field { value: id.bytes[k] as u64 });
        k += 1;
    }
    proof {
        let n = id.bytes@.len() as int;
        let ol = old(out)@.len() as int;
        assert forall|j: int| 0 <= j < ol + 1 + n implies out@[j] == (old(out)@ + enc_ident(
            id.bytes@,
        ))[j] by {
            if ol + 1 <= j {
                assert(out@[ol + 1 + (j - ol - 1)] == fld(id.bytes@[j - ol - 1] as u64));
            }
        };
        assert(out@ =~= old(out)@ + enc_ident(id.bytes@));
    }
}

/// Appends the encoding of a plaintext value to `out`.
pub fn encode_pt(p: &Plaintext, out: &mut Vec<Field>)
    requires
        pt_valid_v(pt_view(*p)),
    ensures
        final(out)@ == old(out)@ + enc_pt(pt_view(*p)),
    decreases *p, 0int,
{
    match p {
        Plaintext::Literal(l) => {
            match l {
                Literal::Bool(b) => {
                    out.push(Field { value: TAG_BOOL });
                    out.push(Field { value: if *b { 1 } else { 0 } });
                },
                Literal::Field(f) => {
                    out.push(Field { value: TAG_FIELD });
                    out.push(*f);
                },
                Literal::Group(g) => {
                    out.push(Field { value: TAG_GROUP });
                    out.push(Field { value: g.exponent });
                },
                Literal::Scalar(sc) => {
                    out.push(Field { value: TAG_SCALAR });
                    out.push(Field { value: sc.value });
                },
                Literal::Address(a) => {
                    out.push(Field { value: TAG_ADDRESS });
                    out.push(Field { value: a.element.exponent });
                },
            }
            proof {
                assert(out@ =~= old(out)@ + enc_pt(pt_view(*p)));
            }
        },
        Plaintext::Struct(ms) => {
            proof {
                crate::plaintext::lemma_members_view_len(ms@);
                assert forall|x: int| 0 <= x < ms@.len() implies ident_valid(
                    (#[trigger] ms@[x]).0.bytes@,
                ) && pt_valid_v(pt_view(ms@[x].1)) by {
                    crate::plaintext::lemma_members_view_index(ms@, x);
                    assert(ident_valid(members_view(ms@)[x].0) && pt_valid_v(
                        members_view(ms@)[x].1,
                    ));
                };
            }
            out.push(Field { value: TAG_STRUCT });
            out.push(Field { value: ms.len() as u64 });
            encode_members(ms, 0, out);
            proof {
                assert(members_view(ms@.skip(0)) =~= members_view(ms@)) by {
                    assert(ms@.skip(0) =~= ms@);
                };
                assert(out@ =~= old(out)@ + enc_pt(pt_view(*p)));
            }
        },
    }
}

/// Appends the encodings of the members of `ms` from position `i` on.
fn encode_members(ms: &Vec<(Identifier, Plaintext)>, i: usize, out: &mut Vec<Field>)
    requires
        i <= ms@.len(),
        forall|x: int|
            i <= x < ms@.len() ==> ident_valid((#[trigger] ms@[x]).0.bytes@) && pt_valid_v(
                pt_view(ms@[x].1),
            ),
    ensures
        final(out)@ == old(out)@ + enc_members(members_view(ms@.skip(i as int))),
    decreases *ms, ms@.len() - i + 1,
{
    if i == ms.len() {
        proof {
            assert(ms@.skip(i as int) =~= Seq::<(Identifier, Plaintext)>::empty());
            assert(out@ =~= old(out)@ + enc_members(members_view(ms@.skip(i as int))));
        }
    } else {
        encode_ident(&ms[i].0, out);
        encode_pt(&ms[i].1, out);
        encode_members(ms, i + 1, out);
        proof {
            let tail = ms@.skip(i as int);
            assert(tail.len() > 0);
            assert(tail[0] == ms@[i as int]);
            assert(tail.drop_first() =~= ms@.skip(i as int + 1));
            let mv = members_view(tail);
            assert(mv == seq![(ms@[i as int].0.bytes@, pt_view(ms@[i as int].1))] + members_view(
                ms@.skip(i as int + 1),
            ));
            assert(mv.len() > 0);
            assert(mv[0] == (ms@[i as int].0.bytes@, pt_view(ms@[i as int].1)));
            assert(mv.drop_first() =~= members_view(ms@.skip(i as int + 1)));
            assert(enc_members(mv) == enc_ident(mv[0].0) + enc_pt(mv[0].1) + enc_members(
                mv.drop_first(),
            ));
            assert(enc_members(members_view(tail)) == enc_ident(ms@[i as int].0.bytes@) + enc_pt(
                pt_view(ms@[i as int].1),
            ) + enc_members(members_view(ms@.skip(i as int + 1))));
            assert(out@ =~= old(out)@ + enc_members(members_view(tail)));
        }
    }
}

/// Converts a plaintext value to its field-element encoding.
pub fn to_fields(p: &Plaintext) -> (r: Vec<Field>)
    requires
        pt_valid_v(pt_view(*p)),
    ensures
        r@ == enc_pt(pt_view(*p)),
{
    let mut out: Vec<Field> = Vec::new();
    encode_pt(p, &mut out);
    proof {
        assert(out@ =~= enc_pt(pt_view(*p)));
    }
    out
}


/// Decoding of a full sequence: the value must consume every element.
pub open spec fn dec_all(s: Seq<Field>) -> Option<PlaintextV> {
    match dec_pt(s, 0) {
        Some((p, used)) => if used == s.len() {
            Some(p)
        } else {
            None
        },
        None => None,
    }
}

/// Round trip: decoding the encoding of a valid value yields it back.
pub proof fn lemma_dec_all_enc(p: PlaintextV)
    requires
        pt_valid_v(p),
    ensures
        dec_all(enc_pt(p)) == Some(p),
{
    lemma_dec_enc(p, enc_pt(p), 0);
}

/// Reads one identifier from `fields` at `pos`.
fn decode_ident(fields: &Vec<Field>, pos: usize) -> (r: Option<(Identifier, usize)>)
    ensures
        r is Some == dec_ident(fields@, pos as int) is Some,
        r matches Some((id, used)) ==> dec_ident(fields@, pos as int) == Some(
            (id.bytes@, used as nat),
        ) && pos + used <= fields@.len() && 1 <= used,
{
    if pos >= fields.len() {
        return None;
    }
    let lf = fields[pos];
    if !(1 <= lf.value && lf.value <= 31) {
        return None;
    }
    let l = lf.value as usize;
    if (pos as u128) + 1 + (l as u128) > fields.len() as u128 {
        return None;
    }
    let mut bytes: Vec<u8> = Vec::new();
    let mut k: usize = 0;
    while k < l
        invariant
            0 <= k <= l,
            l == fields@[pos as int].value,
            1 <= l <= 31,
            pos + 1 + l <= fields@.len(),
            fields@.len() <= usize::MAX,
            bytes@.len() == k,
            forall|x: int|
                0 <= x < k ==> (#[trigger] fields@[pos + 1 + x]).value < 256 && bytes@[x]
                    == fields@[pos + 1 + x].value as u8,
        decreases l - k,
    {
        let b = fields[pos + 1 + k];
        if b.value >= 256 {
            return None;
        }
        bytes.push(b.value as u8);
        k += 1;
    }
    let id = Identifier::from_bytes(bytes);
    match id {
        None => {
            proof {
                if dec_ident(fields@, pos as int) is Some {
                    let s = fields@;
                    let j = pos as int;
                    assert(bytes@ =~= Seq::new(s[j].value as nat, |x: int| s[j + 1 + x].value as u8));
                    assert(ident_valid(bytes@));
                    assert(false);
                }
            }
            None
        },
        Some(id) => {
            proof {
                let s = fields@;
                let j = pos as int;
                assert(id.bytes@ =~= Seq::new(s[j].value as nat, |x: int| s[j + 1 + x].value as u8));
                assert(is_letter_byte(s[j + 1].value as u8)) by {
                    assert(id.bytes@[0] == s[j + 1].value as u8);
                };
            }
            Some((id, 1 + l))
        },
    }
}

/// Reads one plaintext value from `fields` at `pos`, returning it with the
/// number of elements consumed.
pub fn decode_pt(fields: &Vec<Field>, pos: usize) -> (r: Option<(Plaintext, usize)>)
    ensures
        r is Some == dec_pt(fields@, pos as int) is Some,
        r matches Some((p, used)) ==> dec_pt(fields@, pos as int) == Some(
            (pt_view(p), used as nat),
        ) && pos + used <= fields@.len(),
    decreases fields@.len() - pos, 0int,
{
    if fields.len() < 2 || pos > fields.len() - 2 {
        return None;
    }
    let tag = fields[pos].value;
    let payload = fields[pos + 1].value;
    if tag == TAG_BOOL {
        if payload == 0 || payload == 1 {
            Some((Plaintext::Literal(Literal::Bool(payload == 1)), 2))
        } else {
            None
        }
    } else if tag == TAG_FIELD {
        if payload < FIELD_MODULUS {
            Some((Plaintext::Literal(Literal::Field(Field { value: payload })), 2))
        } else {
            None
        }
    } else if tag == TAG_GROUP {
        if payload < GROUP_ORDER {
            Some((Plaintext::Literal(Literal::Group(Group { exponent: payload })), 2))
        } else {
            None
        }
    } else if tag == TAG_SCALAR {
        if payload < GROUP_ORDER {
            Some((Plaintext::Literal(Literal::Scalar(Scalar { value: payload })), 2))
        } else {
            None
        }
    } else if tag == TAG_ADDRESS {
        if payload < GROUP_ORDER {
            Some(
                (
                    Plaintext::Literal(
                        Literal::Address(Address { element: Group { exponent: payload } }),
                    ),
                    2,
                ),
            )
        } else {
            None
        }
    } else if tag == TAG_STRUCT {
        if payload < FIELD_MODULUS {
            let mut members: Vec<(Identifier, Plaintext)> = Vec::new();
            match decode_members(fields, pos + 2, payload, &mut members) {
                None => None,
                Some(used) => {
                    proof {
                        let dm = dec_members(fields@, pos + 2int, payload as nat).unwrap();
                        assert(members_view(members@.skip(0)) == dm.0);
                        assert(members@.skip(0) =~= members@);
                    }
                    Some((Plaintext::Struct(members), 2 + used))
                },
            }
        } else {
            None
        }
    } else {
        None
    }
}

/// Reads `count` members from `fields` at `pos`, appending them to `out`.
fn decode_members(fields: &Vec<Field>, pos: usize, count: u64, out: &mut Vec<(Identifier, Plaintext)>) -> (r:
    Option<usize>)
    ensures
        r is Some == dec_members(fields@, pos as int, count as nat) is Some,
        r matches Some(used) ==> ({
            &&& dec_members(fields@, pos as int, count as nat) matches Some(dm)
            &&& dm.1 == used as nat
            &&& (count > 0 ==> pos + used <= fields@.len())
            &&& (count == 0 ==> used == 0)
            &&& final(out)@.len() == old(out)@.len() + dm.0.len()
            &&& (forall|j: int| 0 <= j < old(out)@.len() ==> #[trigger] final(out)@[j] == old(out)@[j])
            &&& members_view(final(out)@.skip(old(out)@.len() as int)) == dm.0
        }),
    decreases fields@.len() - pos, 1int,
{
    if count == 0 {
        proof {
            assert(out@.skip(old(out)@.len() as int) =~= Seq::<(Identifier, Plaintext)>::empty());
        }
        return Some(0);
    }
    if pos >= fields.len() {
        return None;
    }
    let (id, used1) = match decode_ident(fields, pos) {
        None => {
            return None;
        },
        Some(x) => x,
    };
    let (value, used2) = match decode_pt(fields, pos + used1) {
        None => {
            return None;
        },
        Some(x) => x,
    };
    out.push((id, value));
    let ghost mid = out@;
    match decode_members(fields, pos + used1 + used2, count - 1, out) {
        None => None,
        Some(used3) => {
            proof {
                let s = fields@;
                let j = pos as int;
                let dname = dec_ident(s, j).unwrap().0;
                let dval = dec_pt(s, j + used1).unwrap().0;
                let dm_rest = dec_members(s, j + used1 + used2, (count - 1) as nat).unwrap();
                let ol = old(out)@.len() as int;
                assert(out@.skip(ol)[0] == (id, value)) by {
                    assert(out@[ol] == mid[ol]);
                    assert(mid[ol] == (id, value));
                };
                assert(out@.skip(ol).drop_first() =~= out@.skip(ol + 1));
                assert(members_view(out@.skip(ol)) == seq![(id.bytes@, pt_view(value))]
                    + members_view(out@.skip(ol + 1)));
                assert(members_view(out@.skip(ol)) =~= seq![(dname, dval)] + dm_rest.0);
            }
            Some(used1 + used2 + used3)
        },
    }
}

/// Parses a plaintext value that occupies the whole of `fields`.
pub fn from_fields(fields: &Vec<Field>) -> (r: Option<Plaintext>)
    ensures
        r is Some == dec_all(fields@) is Some,
        r matches Some(p) ==> dec_all(fields@) == Some(pt_view(p)),
{
    match decode_pt(fields, 0) {
        None => None,
        Some((p, used)) => {
            if used == fields.len() {
                Some(p)
            } else {
                None
            }
        },
    }
}


/// Every element of a valid value's encoding is a reduced field element.
pub proof fn lemma_enc_pt_valid(p: PlaintextV)
    requires
        pt_valid_v(p),
    ensures
        forall|k: int| 0 <= k < enc_pt(p).len() ==> (#[trigger] enc_pt(p)[k]).is_valid(),
    decreases p, 0int,
{
    match p {
        PlaintextV::Literal(l) => {
            assert(enc_pt(p)[0].is_valid());
            assert(enc_pt(p)[1].is_valid());
        },
        PlaintextV::Struct(ms) => {
            lemma_enc_members_valid(ms);
            assert forall|k: int| 0 <= k < enc_pt(p).len() implies (
            #[trigger] enc_pt(p)[k]).is_valid() by {
                if k >= 2 {
                    assert(enc_pt(p)[k] == enc_members(ms)[k - 2]);
                }
            };
        },
    }
}

/// Member-list counterpart of the encoding validity lemma.
pub proof fn lemma_enc_members_valid(ms: Seq<(Seq<u8>, PlaintextV)>)
    requires
        forall|x: int| 0 <= x < ms.len() ==> ident_valid((#[trigger] ms[x]).0) && pt_valid_v(
            ms[x].1,
        ),
    ensures
        forall|k: int| 0 <= k < enc_members(ms).len() ==> (
        #[trigger] enc_members(ms)[k]).is_valid(),
    decreases ms, 1int,
{
    if ms.len() > 0 {
        let name = ms[0].0;
        let ei = enc_ident(name);
        let ev = enc_pt(ms[0].1);
        let rest = ms.drop_first();
        let er = enc_members(rest);
        let li = ei.len() as int;
        let lv = ev.len() as int;
        lemma_enc_pt_valid(ms[0].1);
        assert forall|x: int| 0 <= x < rest.len() implies ident_valid((#[trigger] rest[x]).0)
            && pt_valid_v(rest[x].1) by {
            assert(rest[x] == ms[x + 1]);
        };
        lemma_enc_members_valid(rest);
        assert forall|k: int| 0 <= k < enc_members(ms).len() implies (
        #[trigger] enc_members(ms)[k]).is_valid() by {
            assert(enc_members(ms) == ei + ev + er);
            if k < li {
                assert(enc_members(ms)[k] == ei[k]);
                if k == 0 {
                    assert(ei[0] == fld(name.len() as u64));
                } else {
                    assert(ei[k] == fld(name[k - 1] as u64));
                }
            } else if k < li + lv {
                assert(enc_members(ms)[k] == ev[k - li]);
            } else {
                assert(enc_members(ms)[k] == er[k - li - lv]);
            }
        };
    }
}

} // verus!
