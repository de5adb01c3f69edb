//! Block serialization: a version byte, the block hash, the block's
//! contents, an optional coinbase, and a signature. Reading validates the
//! version and recomputes the hash, refusing a corrupted byte stream.
//!
//! The chain types inside a block (header, transactions, signature) are
//! out of this crate's scope; they are carried as plain words and bytes,
//! and the block hash is the digest of those contents.

use vstd::prelude::*;

use crate::command::{lemma_read_u64_wire, push_all, read_u64_le, spec_read_u64, u64_le, write_u64_le};
use crate::errors::VmError;
use crate::stack::{bytes_digest_from, mix};

verus! {

/// A block: previous hash, header digest, transaction bytes, optional
/// coinbase, signature.
#[derive(PartialEq, Eq, Debug)]
pub struct Block {
    pub previous_hash: u64,
    pub header: u64,
    pub transactions: Vec<u8>,
    pub coinbase: Option<u64>,
    pub signature: u64,
}

/// The hash of a block's contents: a digest of all of them in order.
pub open spec fn block_hash_words(
    previous_hash: u64,
    header: u64,
    transactions: Seq<u8>,
    coinbase: Option<u64>,
    signature: u64,
) -> u64 {
    let h0 = mix(mix(14695981039346656037, previous_hash), header);
    let h1 = bytes_digest_from(transactions, 0, h0);
    let h2 = match coinbase {
        None => mix(h1, 0),
        Some(c) => mix(mix(h1, 1), c),
    };
    mix(h2, signature)
}

/// The hash of a block: a digest of all its contents in order.
pub open spec fn spec_block_hash(b: Block) -> u64 {
    let h0 = mix(mix(14695981039346656037, b.previous_hash), b.header);
    let h1 = bytes_digest_from(b.transactions@, 0, h0);
    let h2 = match b.coinbase {
        None => mix(h1, 0),
        Some(c) => mix(mix(h1, 1), c),
    };
    mix(h2, b.signature)
}

/// The wire form of a block under a given claimed hash: a zero version
/// byte, the claimed hash, the previous hash, the header, the transactions
/// behind their length, the coinbase behind its tag, and the signature.
pub open spec fn block_wire_claimed(b: Block, claimed: u64) -> Seq<u8> {
    seq![0u8] + u64_le(claimed) + u64_le(b.previous_hash) + u64_le(b.header) + u64_le(
        b.transactions@.len() as u64,
    ) + b.transactions@ + (match b.coinbase {
        None => seq![0u8],
        Some(c) => seq![1u8] + u64_le(c),
    }) + u64_le(b.signature)
}

/// The wire form of a block: its contents under their true hash.
pub open spec fn block_wire(b: Block) -> Seq<u8> {
    block_wire_claimed(b, spec_block_hash(b))
}

/// The contents and claimed hash read from the start of `s`, before the
/// hash check: the version byte must be zero and every field whole.
pub open spec fn spec_read_fields(s: Seq<u8>) -> Option<
    (u64, u64, Seq<u8>, Option<u64>, u64, u64, int),
> {
    if !(s.len() > 0 && s[0] == 0) {
        None
    } else {
        match spec_read_u64(s, 1) {
            None => None,
            Some((claimed, p1)) => match spec_read_u64(s, p1) {
                None => None,
                Some((previous_hash, p2)) => match spec_read_u64(s, p2) {
                    None => None,
                    Some((header, p3)) => match spec_read_u64(s, p3) {
                        None => None,
                        Some((tlen, p4)) => {
                            if tlen > s.len() - p4 {
                                None
                            } else {
                                spec_read_tail(
                                    s,
                                    claimed,
                                    previous_hash,
                                    header,
                                    s.subrange(p4, p4 + tlen),
                                    p4 + tlen,
                                )
                            }
                        },
                    },
                },
            },
        }
    }
}

/// The coinbase and signature that end a block's wire form.
pub open spec fn spec_read_tail(
    s: Seq<u8>,
    claimed: u64,
    previous_hash: u64,
    header: u64,
    transactions: Seq<u8>,
    p: int,
) -> Option<(u64, u64, Seq<u8>, Option<u64>, u64, u64, int)> {
    if !(p < s.len() && (s[p] == 0 || s[p] == 1)) {
        None
    } else {
        let read = if s[p] == 0 {
            Some((Option::<u64>::None, p + 1))
        } else {
            match spec_read_u64(s, p + 1) {
                None => None,
                Some((c, p2)) => Some((Some(c), p2)),
            }
        };
        match read {
            None => None,
            Some((coinbase, p2)) => match spec_read_u64(s, p2) {
                None => None,
                Some((signature, p3)) => Some(
                    (previous_hash, header, transactions, coinbase, signature, claimed, p3),
                ),
            },
        }
    }
}

/// The block read from the start of `s`: its fields, read whole, whose
/// contents hash to the claimed hash.
pub open spec fn spec_read_block(s: Seq<u8>) -> Option<
    (u64, u64, Seq<u8>, Option<u64>, u64, int),
> {
    match spec_read_fields(s) {
        None => None,
        Some((previous_hash, header, transactions, coinbase, signature, claimed, n)) => {
            if block_hash_words(previous_hash, header, transactions, coinbase, signature)
                == claimed {
                Some((previous_hash, header, transactions, coinbase, signature, n))
            } else {
                None
            }
        },
    }
}

impl Block {
    /// Computes the block's hash.
    pub fn hash(&self) -> (r: u64)
        ensures
            r == spec_block_hash(*self),
    {
        let mut acc: u64 = crate::stack::mix_exec(
            crate::stack::mix_exec(14695981039346656037, self.previous_hash),
            self.header,
        );
        let mut i: usize = 0;
        while i < self.transactions.len()
            invariant
                0 <= i <= self.transactions@.len(),
                bytes_digest_from(self.transactions@, i as int, acc) == bytes_digest_from(
                    self.transactions@,
                    0,
                    mix(mix(14695981039346656037, self.previous_hash), self.header),
                ),
            decreases self.transactions@.len() - i,
        {
            acc = crate::stack::mix_exec(acc, self.transactions[i] as u64);
            i += 1;
        }
        let acc = match self.coinbase {
            None => crate::stack::mix_exec(acc, 0),
            Some(c) => crate::stack::mix_exec(crate::stack::mix_exec(acc, 1), c),
        };
        crate::stack::mix_exec(acc, self.signature)
    }

    /// Writes the block: a zero version byte, the block hash, the previous
    /// hash, the header, the transactions with their length, the coinbase
    /// tag and value, and the signature.
    pub fn write_le(&self) -> (r: Vec<u8>)
        requires
            self.transactions@.len() <= u64::MAX,
        ensures
            r@ == block_wire(*self),
            r@.len() > 0,
            r@[0] == 0u8,
    {
        let mut out: Vec<u8> = Vec::new();
        out.push(0);
        let h = self.hash();
        write_u64_le(&mut out, h);
        write_u64_le(&mut out, self.previous_hash);
        write_u64_le(&mut out, self.header);
        write_u64_le(&mut out, self.transactions.len() as u64);
        push_all(&mut out, &self.transactions);
        match self.coinbase {
            None => {
                out.push(0);
            },
            Some(c) => {
                out.push(1);
                write_u64_le(&mut out, c);
            },
        }
        write_u64_le(&mut out, self.signature);
        proof {
            assert(out@ =~= block_wire(*self));
        }
        out
    }

    /// Reads a block: refuses a wrong version byte, a wrong coinbase tag,
    /// a truncated stream, and a block hash that does not match the
    /// contents read. Reading succeeds exactly on a stream that begins
    /// with a whole, hash-consistent block wire form.
    pub fn read_le(input: &Vec<u8>) -> (r: Result<(Block, usize), VmError>)
        ensures
            r is Ok == spec_read_block(input@) is Some,
            r matches Ok((b, n)) ==> n <= input@.len() && input@.subrange(0, n as int)
                == block_wire(b) && spec_read_block(input@) == Some(
                (
                    b.previous_hash,
                    b.header,
                    b.transactions@,
                    b.coinbase,
                    b.signature,
                    n as int,
                ),
            ),
            input@.len() == 0 ==> r is Err,
            input@.len() > 0 && input@[0] != 0 ==> r is Err,
            r matches Err(e) ==> e == VmError::ParseError,
    {
        let (block, claimed_hash, pos) = match Self::read_block_fields(input) {
            None => {
                return Err(VmError::ParseError);
            },
            Some(x) => x,
        };
        // The block hash must match the contents, or the stream is
        // corrupted.
        if block.hash() != claimed_hash {
            return Err(VmError::ParseError);
        }
        proof {
            assert(input@.subrange(0, pos as int) =~= block_wire(block));
        }
        Ok((block, pos))
    }

    /// Reads a block's fields and its claimed hash, without checking the
    /// hash against the contents.
    #[verifier::rlimit(100)]
    fn read_block_fields(input: &Vec<u8>) -> (r: Option<(Block, u64, usize)>)
        ensures
            r is Some == spec_read_fields(input@) is Some,
            r matches Some((b, claimed, n)) ==> n <= input@.len() && spec_read_fields(input@)
                == Some(
                (
                    b.previous_hash,
                    b.header,
                    b.transactions@,
                    b.coinbase,
                    b.signature,
                    claimed,
                    n as int,
                ),
            ) && input@.subrange(0, n as int) == block_wire_claimed(b, claimed),
    {
        if input.len() == 0 || input[0] != 0 {
            return None;
        }
        let (claimed_hash, pos) = match read_u64_le(input, 1) {
            None => {
                return None;
            },
            Some(x) => x,
        };
        let (previous_hash, pos) = match read_u64_le(input, pos) {
            None => {
                return None;
            },
            Some(x) => x,
        };
        let (header, pos) = match read_u64_le(input, pos) {
            None => {
                return None;
            },
            Some(x) => x,
        };
        let (tlen, pos) = match read_u64_le(input, pos) {
            None => {
                return None;
            },
            Some(x) => x,
        };
        if (tlen as u128) > (input.len() as u128) - (pos as u128) {
            return None;
        }
        let tl = tlen as usize;
        let mut transactions: Vec<u8> = Vec::new();
        let mut i: usize = 0;
        while i < tl
            invariant
                0 <= i <= tl,
                pos + tl <= input@.len(),
                input@.len() <= usize::MAX,
                transactions@.len() == i,
                forall|j: int| 0 <= j < i ==> #[trigger] transactions@[j] == input@[pos + j],
            decreases tl - i,
        {
            transactions.push(input[pos + i]);
            i += 1;
        }
        proof {
            assert(transactions@ =~= input@.subrange(33, 33 + tl as int));
        }
        let pos = pos + tl;
        if pos >= input.len() {
            return None;
        }
        let tag = input[pos];
        let (coinbase, pos) = if tag == 0 {
            (None, pos + 1)
        } else if tag == 1 {
            match read_u64_le(input, pos + 1) {
                None => {
                    return None;
                },
                Some((c, p)) => (Some(c), p),
            }
        } else {
            return None;
        };
        let (signature, pos) = match read_u64_le(input, pos) {
            None => {
                return None;
            },
            Some(x) => x,
        };
        let block = Block { previous_hash, header, transactions, coinbase, signature };
        proof {
            assert(input@.subrange(0, pos as int) =~= block_wire_claimed(block, claimed_hash));
        }
        Some((block, claimed_hash, pos))
    }

    /// The genesis block of the model chain.
    pub fn genesis() -> (r: Block)
        ensures
            r.previous_hash == 0,
            r.header == 1,
            r.transactions@ == seq![103u8, 101u8, 110u8],
            r.coinbase is None,
            r.signature == 7,
    {
        let mut transactions: Vec<u8> = Vec::new();
        transactions.push(103);
        transactions.push(101);
        transactions.push(110);
        Block {
            previous_hash: 0,
            header: 1,
            transactions,
            coinbase: None,
            signature: 7,
        }
    }
}


/// The bytes of a block's wire form, segment by segment.
#[verifier::rlimit(100)]
pub proof fn lemma_block_wire_bytes(b: Block)
    requires
        b.transactions@.len() <= u64::MAX,
    ensures
        block_wire(b).len() == 41 + b.transactions@.len() + (match b.coinbase {
            Option::None => 1int,
            Option::Some(_) => 9int,
        }),
        block_wire(b)[0] == 0u8,
        forall|k: int| 0 <= k < 8 ==> block_wire(b)[1 + k] == u64_le(spec_block_hash(b))[k],
        forall|k: int| 0 <= k < 8 ==> block_wire(b)[9 + k] == u64_le(b.previous_hash)[k],
        forall|k: int| 0 <= k < 8 ==> block_wire(b)[17 + k] == u64_le(b.header)[k],
        forall|k: int|
            0 <= k < 8 ==> #[trigger] block_wire(b)[25 + k] == u64_le(
                b.transactions@.len() as u64,
            )[k],
        forall|k: int|
            0 <= k < b.transactions@.len() ==> block_wire(b)[33 + k] == b.transactions@[k],
        block_wire(b)[33 + b.transactions@.len() as int] == (match b.coinbase {
            Option::None => 0u8,
            Option::Some(_) => 1u8,
        }),
        b.coinbase matches Some(c) ==> forall|k: int|
            0 <= k < 8 ==> block_wire(b)[34 + b.transactions@.len() as int + k] == u64_le(c)[k],
        forall|k: int|
            0 <= k < 8 ==> block_wire(b)[block_wire(b).len() as int - 8 + k] == u64_le(b.signature)[k],
{
    let h = spec_block_hash(b);
    let s = block_wire(b);
    let t = b.transactions@.len() as int;
    let z = seq![0u8];
    let h8 = u64_le(h);
    let p8 = u64_le(b.previous_hash);
    let hd8 = u64_le(b.header);
    let l8 = u64_le(b.transactions@.len() as u64);
    let cb = (match b.coinbase {
        None => seq![0u8],
        Some(c) => seq![1u8] + u64_le(c),
    });
    let s8 = u64_le(b.signature);
    let a1 = z + h8;
    let a2 = a1 + p8;
    let a3 = a2 + hd8;
    let a4 = a3 + l8;
    let a5 = a4 + b.transactions@;
    let a6 = a5 + cb;
    assert(s == a6 + s8);
    assert(s[0] == 0) by {
        assert(a1[0] == z[0]);
        assert(a2[0] == a1[0]);
        assert(a3[0] == a2[0]);
        assert(a4[0] == a3[0]);
        assert(a5[0] == a4[0]);
        assert(a6[0] == a5[0]);
        assert(s[0] == a6[0]);
    };
    assert forall|k: int| 0 <= k < 8 implies s[1 + k] == h8[k] by {
        assert(a1[1 + k] == h8[k]);
        assert(a2[1 + k] == a1[1 + k]);
        assert(a3[1 + k] == a2[1 + k]);
        assert(a4[1 + k] == a3[1 + k]);
        assert(a5[1 + k] == a4[1 + k]);
        assert(a6[1 + k] == a5[1 + k]);
        assert(s[1 + k] == a6[1 + k]);
    };
    assert forall|k: int| 0 <= k < 8 implies s[9 + k] == p8[k] by {
        assert(a2[9 + k] == p8[k]);
        assert(a3[9 + k] == a2[9 + k]);
        assert(a4[9 + k] == a3[9 + k]);
        assert(a5[9 + k] == a4[9 + k]);
        assert(a6[9 + k] == a5[9 + k]);
        assert(s[9 + k] == a6[9 + k]);
    };
    assert forall|k: int| 0 <= k < 8 implies s[17 + k] == hd8[k] by {
        assert(a3[17 + k] == hd8[k]);
        assert(a4[17 + k] == a3[17 + k]);
        assert(a5[17 + k] == a4[17 + k]);
        assert(a6[17 + k] == a5[17 + k]);
        assert(s[17 + k] == a6[17 + k]);
    };
    assert forall|k: int| 0 <= k < 8 implies s[25 + k] == l8[k] by {
        assert(a4[25 + k] == l8[k]);
        assert(a5[25 + k] == a4[25 + k]);
        assert(a6[25 + k] == a5[25 + k]);
        assert(s[25 + k] == a6[25 + k]);
    };
    assert forall|k: int| 0 <= k < t implies s[33 + k] == b.transactions@[k] by {
        assert(a5[33 + k] == b.transactions@[k]);
        assert(a6[33 + k] == a5[33 + k]);
        assert(s[33 + k] == a6[33 + k]);
    };
    assert(s[33 + t] == cb[0]) by {
        assert(a6[33 + t + 0] == cb[0]);
        assert(s[33 + t + 0] == a6[33 + t + 0]);
    };
    if b.coinbase is Some {
        let c = b.coinbase.unwrap();
        assert forall|k: int| 0 <= k < 8 implies s[34 + t + k] == u64_le(c)[k] by {
            assert(a6[33 + t + (1 + k)] == cb[1 + k]);
            assert(cb[1 + k] == u64_le(c)[k]);
            assert(s[33 + t + (1 + k)] == a6[33 + t + (1 + k)]);
        };
    }
    assert forall|k: int| 0 <= k < 8 implies s[s.len() - 8 + k] == s8[k] by {
        assert(s[a6.len() + k] == s8[k]);
    };
}

/// Round trip of the wire form: reading a block's written bytes yields its
/// contents back, whole, for every block whose transactions are countable
/// in a word.
#[verifier::rlimit(100)]
pub proof fn lemma_block_wire_roundtrip(b: Block)
    requires
        b.transactions@.len() <= u64::MAX,
    ensures
        spec_read_block(block_wire(b)) == Some(
            (
                b.previous_hash,
                b.header,
                b.transactions@,
                b.coinbase,
                b.signature,
                block_wire(b).len() as int,
            ),
        ),
{
    lemma_block_wire_bytes(b);
    let s = block_wire(b);
    let t = b.transactions@.len() as int;
    lemma_read_u64_wire(s, 1, spec_block_hash(b));
    lemma_read_u64_wire(s, 9, b.previous_hash);
    lemma_read_u64_wire(s, 17, b.header);
    lemma_read_u64_wire(s, 25, b.transactions@.len() as u64);
    assert(s.subrange(33, 33 + t) =~= b.transactions@);
    match b.coinbase {
        None => {
            lemma_read_u64_wire(s, 33 + t + 1, b.signature);
        },
        Some(c) => {
            lemma_read_u64_wire(s, 33 + t + 1, c);
            lemma_read_u64_wire(s, 33 + t + 9, b.signature);
        },
    }
}

/// Serializes the genesis block: exactly the wire form of any block with
/// the genesis contents.
pub fn genesis_bytes() -> (r: Vec<u8>)
    ensures
        forall|b: Block|
            (b.previous_hash == 0 && b.header == 1 && b.transactions@ == seq![
                103u8,
                101u8,
                110u8,
            ] && b.coinbase is None && b.signature == 7) ==> r@ == block_wire(b),
        r@.len() > 0,
{
    let g = Block::genesis();
    let out = g.write_le();
    proof {
        assert forall|b: Block|
            (b.previous_hash == 0 && b.header == 1 && b.transactions@ == seq![
                103u8,
                101u8,
                110u8,
            ] && b.coinbase is None && b.signature == 7) implies out@ == block_wire(b) by {
            assert(block_wire(b) =~= block_wire(g));
        };
    }
    out
}

} // verus!
