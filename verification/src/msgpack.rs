//! MessagePack primitives: the byte-level grammar the wire messages are
//! built from.
//!
//! Every encoder has an exact specification (`enc_*`, a function to byte
//! sequences, always the minimal width), and every decoder is proved sound
//! and complete against an encoding relation (`is_enc_*`, the set of all
//! well-formed wire forms of a value, of any width): a decoder returns
//! `Ok` exactly on the well-formed forms, minimal or not, consuming them
//! fully and reconstructing the encoded value. The canonical form is one
//! of the well-formed forms (`lemma_enc_*_is_enc`), so decoding always
//! inverts encoding.
//!
//! Decoding failures carry one of two kinds, mirroring the registry's error
//! taxonomy: `TypeMismatch` when the position holds a well-formed value of
//! the wrong kind (a map where a number was expected), `Malformed` for
//! anything else (truncated input, an undefined tag byte, invalid UTF-8 in
//! a string).
use vstd::prelude::*;

verus! {

/// How a payload failed to decode.
#[derive(Clone, Copy, Debug, PartialEq, Eq, Structural)]
pub enum DecodeError {
    /// A field is present but has the wrong shape. Maps onto 4.13.
    TypeMismatch,
    /// Truncated, not MessagePack, or not canonically encoded. Maps onto
    /// 4.00.
    Malformed,
}

// ---------------------------------------------------------------------------
// big-endian byte strings
// ---------------------------------------------------------------------------

pub open spec fn be2(n: u16) -> Seq<u8> {
    seq![(n >> 8) as u8, n as u8]
}

pub open spec fn be4(n: u32) -> Seq<u8> {
    seq![(n >> 24) as u8, (n >> 16) as u8, (n >> 8) as u8, n as u8]
}

pub open spec fn be8(n: u64) -> Seq<u8> {
    seq![
        (n >> 56) as u8,
        (n >> 48) as u8,
        (n >> 40) as u8,
        (n >> 32) as u8,
        (n >> 24) as u8,
        (n >> 16) as u8,
        (n >> 8) as u8,
        n as u8,
    ]
}

/// A 16-bit number is recovered from its two big-endian bytes.
pub proof fn lemma_be2_recover(n: u16)
    ensures
        (((n >> 8) as u8 as u16) << 8) | (n as u8 as u16) == n,
{
    assert((((n >> 8) as u8 as u16) << 8) | (n as u8 as u16) == n) by (bit_vector);
}

/// A 32-bit number is recovered from its four big-endian bytes.
pub proof fn lemma_be4_recover(n: u32)
    ensures
        (((n >> 24) as u8 as u32) << 24) | (((n >> 16) as u8 as u32) << 16) | (((n
            >> 8) as u8 as u32) << 8) | (n as u8 as u32) == n,
{
    assert((((n >> 24) as u8 as u32) << 24) | (((n >> 16) as u8 as u32) << 16) | (((n
        >> 8) as u8 as u32) << 8) | (n as u8 as u32) == n) by (bit_vector);
}

/// A 64-bit number is recovered from its eight big-endian bytes.
pub proof fn lemma_be8_recover(n: u64)
    ensures
        (((n >> 56) as u8 as u64) << 56) | (((n >> 48) as u8 as u64) << 48) | (((n
            >> 40) as u8 as u64) << 40) | (((n >> 32) as u8 as u64) << 32) | (((n
            >> 24) as u8 as u64) << 24) | (((n >> 16) as u8 as u64) << 16) | (((n
            >> 8) as u8 as u64) << 8) | (n as u8 as u64) == n,
{
    assert((((n >> 56) as u8 as u64) << 56) | (((n >> 48) as u8 as u64) << 48) | (((n
        >> 40) as u8 as u64) << 40) | (((n >> 32) as u8 as u64) << 32) | (((n
        >> 24) as u8 as u64) << 24) | (((n >> 16) as u8 as u64) << 16) | (((n
        >> 8) as u8 as u64) << 8) | (n as u8 as u64) == n) by (bit_vector);
}

// ---------------------------------------------------------------------------
// leading-byte classification
// ---------------------------------------------------------------------------

/// Leading bytes of an unsigned integer.
pub open spec fn leads_uint(b: u8) -> bool {
    b < 0x80 || b == 0xcc || b == 0xcd || b == 0xce || b == 0xcf
}

/// Bytes that lead some well-formed value of this grammar. The reserved
/// byte and the extension family are not part of it.
pub open spec fn defined_lead(b: u8) -> bool {
    b != 0xc1 && b != 0xc7 && b != 0xc8 && b != 0xc9 && !(0xd4 <= b && b <= 0xd8)
}

// ---------------------------------------------------------------------------
// unsigned integers
// ---------------------------------------------------------------------------

/// The canonical (minimal-width) encoding of an unsigned integer.
pub open spec fn enc_uint(n: u64) -> Seq<u8> {
    if n < 0x80 {
        seq![n as u8]
    } else if n < 0x100 {
        seq![0xccu8, n as u8]
    } else if n < 0x10000 {
        seq![0xcdu8] + be2(n as u16)
    } else if n < 0x100000000 {
        seq![0xceu8] + be4(n as u32)
    } else {
        seq![0xcfu8] + be8(n)
    }
}

/// Appends the canonical encoding of `n`.
pub fn put_uint(out: &mut Vec<u8>, n: u64)
    ensures
        final(out)@ == old(out)@ + enc_uint(n),
{
    if n < 0x80 {
        out.push(#[verifier::truncate] (n as u8));
    } else if n < 0x100 {
        out.push(0xcc);
        out.push(#[verifier::truncate] (n as u8));
    } else if n < 0x10000 {
        out.push(0xcd);
        out.push(#[verifier::truncate] ((n >> 8) as u8));
        out.push(#[verifier::truncate] (n as u8));
        proof {
            assert((n as u16) >> 8 == (n >> 8) as u16 && (n as u16) as u8 == n as u8
                && ((n >> 8) as u16) as u8 == (n >> 8) as u8) by (bit_vector)
                requires
                    n < 0x10000u64,
            ;
        }
    } else if n < 0x100000000 {
        out.push(0xce);
        out.push(#[verifier::truncate] ((n >> 24) as u8));
        out.push(#[verifier::truncate] ((n >> 16) as u8));
        out.push(#[verifier::truncate] ((n >> 8) as u8));
        out.push(#[verifier::truncate] (n as u8));
        proof {
            assert((n as u32) >> 24 == (n >> 24) as u32 && (n as u32) >> 16 == (n >> 16) as u32 && (
            n as u32) >> 8 == (n >> 8) as u32 && ((n >> 24) as u32) as u8 == (n >> 24) as u8 && ((n
                >> 16) as u32) as u8 == (n >> 16) as u8 && ((n >> 8) as u32) as u8 == (n
                >> 8) as u8 && (n as u32) as u8 == n as u8) by (bit_vector)
                requires
                    n < 0x100000000u64,
            ;
        }
    } else {
        out.push(0xcf);
        out.push(#[verifier::truncate] ((n >> 56) as u8));
        out.push(#[verifier::truncate] ((n >> 48) as u8));
        out.push(#[verifier::truncate] ((n >> 40) as u8));
        out.push(#[verifier::truncate] ((n >> 32) as u8));
        out.push(#[verifier::truncate] ((n >> 24) as u8));
        out.push(#[verifier::truncate] ((n >> 16) as u8));
        out.push(#[verifier::truncate] ((n >> 8) as u8));
        out.push(#[verifier::truncate] (n as u8));
    }
    proof {
        assert(out@ =~= old(out)@ + enc_uint(n));
    }
}

/// Every well-formed wire form of an unsigned integer: any width whose
/// range holds the number, minimal or not.
pub open spec fn is_enc_uint(b: Seq<u8>, n: u64) -> bool {
    ||| (n < 0x80 && b == seq![n as u8])
    ||| (n < 0x100 && b == seq![0xccu8, n as u8])
    ||| (n < 0x10000 && b == seq![0xcdu8] + be2(n as u16))
    ||| (n < 0x100000000 && b == seq![0xceu8] + be4(n as u32))
    ||| b == seq![0xcfu8] + be8(n)
}

/// The canonical form is one of the well-formed forms.
pub proof fn lemma_enc_uint_is_enc(n: u64)
    ensures
        is_enc_uint(enc_uint(n), n),
{
}

/// Reads back an unsigned integer: succeeds exactly on a well-formed
/// integer of any width standing at `pos`, recovering the encoded number
/// and stepping past it.
pub fn get_uint(buf: &Vec<u8>, pos: usize) -> (r: Result<(u64, usize), DecodeError>)
    requires
        pos <= buf@.len(),
    ensures
        r matches Ok(o) ==> pos < o.1 <= buf@.len() && is_enc_uint(
            buf@.subrange(pos as int, o.1 as int),
            o.0,
        ),
        forall|n: u64, eb: Seq<u8>, rest: Seq<u8>|
            #![trigger is_enc_uint(eb, n), eb + rest]
            is_enc_uint(eb, n) && buf@.skip(pos as int) == eb + rest ==> (r matches Ok(o) && o.0
                == n && o.1 == pos + eb.len()),
        r == Result::<(u64, usize), DecodeError>::Err(DecodeError::TypeMismatch) <==> pos
            < buf@.len() && defined_lead(buf@[pos as int]) && !leads_uint(buf@[pos as int]),
{
    let len = buf.len();
    if pos >= len {
        proof {
            assert forall|n: u64, eb: Seq<u8>, rest: Seq<u8>|
                #![trigger is_enc_uint(eb, n), eb + rest]
                is_enc_uint(eb, n) implies buf@.skip(pos as int) != eb + rest by {
                assert(eb.len() >= 1);
                assert(buf@.skip(pos as int).len() == 0);
                assert((eb + rest).len() >= 1);
            }
        }
        return Result::Err(DecodeError::Malformed);
    }
    let b = buf[pos];
    proof {
        assert(buf@.skip(pos as int)[0] == b);
    }
    if b < 0x80 {
        proof {
            assert(buf@.subrange(pos as int, pos as int + 1) =~= seq![b]);
            assert(is_enc_uint(buf@.subrange(pos as int, pos as int + 1), b as u64));
            assert forall|n: u64, eb: Seq<u8>, rest: Seq<u8>|
                #![trigger is_enc_uint(eb, n), eb + rest]
                is_enc_uint(eb, n) && buf@.skip(pos as int) == eb + rest implies n
                == b as u64 && eb.len() == 1 by {
                assert((eb + rest)[0] == eb[0]);
                assert(eb[0] == b);
            }
        }
        return Result::Ok(((b as u64), pos + 1));
    }
    if b == 0xcc {
        if len - pos < 2 {
            proof {
                assert forall|n: u64, eb: Seq<u8>, rest: Seq<u8>|
                    #![trigger is_enc_uint(eb, n), eb + rest]
                    is_enc_uint(eb, n) implies buf@.skip(pos as int) != eb + rest by {
                    if buf@.skip(pos as int) == eb + rest {
                        assert((eb + rest)[0] == eb[0]);
                        assert(eb[0] == 0xcc);
                        assert(eb.len() == 2);
                        assert(buf@.skip(pos as int).len() >= 2);
                        assert(false);
                    }
                }
            }
            return Result::Err(DecodeError::Malformed);
        }
        let b1 = buf[pos + 1];
        proof {
            assert(buf@.skip(pos as int)[1] == b1);
            assert(buf@.subrange(pos as int, pos as int + 2) =~= seq![0xccu8, b1]);
            assert(is_enc_uint(buf@.subrange(pos as int, pos as int + 2), b1 as u64));
            assert forall|n: u64, eb: Seq<u8>, rest: Seq<u8>|
                #![trigger is_enc_uint(eb, n), eb + rest]
                is_enc_uint(eb, n) && buf@.skip(pos as int) == eb + rest implies n
                == b1 as u64 && eb.len() == 2 by {
                assert((eb + rest)[0] == eb[0]);
                assert(eb[0] == 0xcc);
                assert((eb + rest)[1] == eb[1]);
                assert(eb[1] == b1);
                assert(n as u8 == b1 && n < 0x100);
            }
        }
        return Result::Ok(((b1 as u64), pos + 2));
    }
    if b == 0xcd {
        if len - pos < 3 {
            proof {
                assert forall|n: u64, eb: Seq<u8>, rest: Seq<u8>|
                    #![trigger is_enc_uint(eb, n), eb + rest]
                    is_enc_uint(eb, n) implies buf@.skip(pos as int) != eb + rest by {
                    if buf@.skip(pos as int) == eb + rest {
                        assert((eb + rest)[0] == eb[0]);
                        assert(eb[0] == 0xcd);
                        assert(eb.len() == 3);
                        assert(buf@.skip(pos as int).len() >= 3);
                        assert(false);
                    }
                }
            }
            return Result::Err(DecodeError::Malformed);
        }
        let v = read_be2(buf, pos + 1);
        proof {
            assert(buf@.subrange(pos as int + 1, pos as int + 3) == be2(v));
            assert(buf@.subrange(pos as int, pos as int + 3) =~= seq![0xcdu8] + be2(v));
            assert(is_enc_uint(buf@.subrange(pos as int, pos as int + 3), v as u64));
            assert forall|n: u64, eb: Seq<u8>, rest: Seq<u8>|
                #![trigger is_enc_uint(eb, n), eb + rest]
                is_enc_uint(eb, n) && buf@.skip(pos as int) == eb + rest implies n
                == v as u64 && eb.len() == 3 by {
                assert((eb + rest)[0] == eb[0]);
                assert(eb[0] == 0xcd);
                let m = n as u16;
                assert(n < 0x10000 && eb == seq![0xcdu8] + be2(m));
                assert((eb + rest).skip(1) =~= eb.skip(1) + rest);
                assert(eb.skip(1) =~= be2(m));
                assert(buf@.skip(pos as int).skip(1) =~= buf@.skip(pos as int + 1));
                assert(buf@.skip(pos as int + 1) == be2(m) + rest);
                assert(v == m);
            }
        }
        return Result::Ok(((v as u64), pos + 3));
    }
    if b == 0xce {
        if len - pos < 5 {
            proof {
                assert forall|n: u64, eb: Seq<u8>, rest: Seq<u8>|
                    #![trigger is_enc_uint(eb, n), eb + rest]
                    is_enc_uint(eb, n) implies buf@.skip(pos as int) != eb + rest by {
                    if buf@.skip(pos as int) == eb + rest {
                        assert((eb + rest)[0] == eb[0]);
                        assert(eb[0] == 0xce);
                        assert(eb.len() == 5);
                        assert(buf@.skip(pos as int).len() >= 5);
                        assert(false);
                    }
                }
            }
            return Result::Err(DecodeError::Malformed);
        }
        let v = read_be4(buf, pos + 1);
        proof {
            assert(buf@.subrange(pos as int + 1, pos as int + 5) == be4(v));
            assert(buf@.subrange(pos as int, pos as int + 5) =~= seq![0xceu8] + be4(v));
            assert(is_enc_uint(buf@.subrange(pos as int, pos as int + 5), v as u64));
            assert forall|n: u64, eb: Seq<u8>, rest: Seq<u8>|
                #![trigger is_enc_uint(eb, n), eb + rest]
                is_enc_uint(eb, n) && buf@.skip(pos as int) == eb + rest implies n
                == v as u64 && eb.len() == 5 by {
                assert((eb + rest)[0] == eb[0]);
                assert(eb[0] == 0xce);
                let m = n as u32;
                assert(n < 0x100000000 && eb == seq![0xceu8] + be4(m));
                assert((eb + rest).skip(1) =~= eb.skip(1) + rest);
                assert(eb.skip(1) =~= be4(m));
                assert(buf@.skip(pos as int).skip(1) =~= buf@.skip(pos as int + 1));
                assert(buf@.skip(pos as int + 1) == be4(m) + rest);
                assert(v == m);
            }
        }
        return Result::Ok(((v as u64), pos + 5));
    }
    if b == 0xcf {
        if len - pos < 9 {
            proof {
                assert forall|n: u64, eb: Seq<u8>, rest: Seq<u8>|
                    #![trigger is_enc_uint(eb, n), eb + rest]
                    is_enc_uint(eb, n) implies buf@.skip(pos as int) != eb + rest by {
                    if buf@.skip(pos as int) == eb + rest {
                        assert((eb + rest)[0] == eb[0]);
                        assert(eb[0] == 0xcf);
                        assert(eb.len() == 9);
                        assert(buf@.skip(pos as int).len() >= 9);
                        assert(false);
                    }
                }
            }
            return Result::Err(DecodeError::Malformed);
        }
        let v = read_be8(buf, pos + 1);
        proof {
            assert(buf@.subrange(pos as int + 1, pos as int + 9) == be8(v));
            assert(buf@.subrange(pos as int, pos as int + 9) =~= seq![0xcfu8] + be8(v));
            assert(is_enc_uint(buf@.subrange(pos as int, pos as int + 9), v));
            assert forall|n: u64, eb: Seq<u8>, rest: Seq<u8>|
                #![trigger is_enc_uint(eb, n), eb + rest]
                is_enc_uint(eb, n) && buf@.skip(pos as int) == eb + rest implies n == v
                && eb.len() == 9 by {
                assert((eb + rest)[0] == eb[0]);
                assert(eb[0] == 0xcf);
                assert(eb == seq![0xcfu8] + be8(n));
                assert((eb + rest).skip(1) =~= eb.skip(1) + rest);
                assert(eb.skip(1) =~= be8(n));
                assert(buf@.skip(pos as int).skip(1) =~= buf@.skip(pos as int + 1));
                assert(buf@.skip(pos as int + 1) == be8(n) + rest);
                assert(v == n);
            }
        }
        return Result::Ok((v, pos + 9));
    }
    proof {
        assert(!leads_uint(b));
        assert forall|n: u64, eb: Seq<u8>, rest: Seq<u8>|
            #![trigger is_enc_uint(eb, n), eb + rest]
            is_enc_uint(eb, n) implies buf@.skip(pos as int) != eb + rest by {
            if buf@.skip(pos as int) == eb + rest {
                assert((eb + rest)[0] == eb[0]);
                assert(leads_uint(eb[0]));
                assert(false);
            }
        }
    }
    if b == 0xc1 || b == 0xc7 || b == 0xc8 || b == 0xc9 || (0xd4 <= b && b <= 0xd8) {
        Result::Err(DecodeError::Malformed)
    } else {
        Result::Err(DecodeError::TypeMismatch)
    }
}

// ---------------------------------------------------------------------------
// length headers: strings, binaries, arrays, maps
// ---------------------------------------------------------------------------

/// The canonical encoding of a string's length header.
pub open spec fn enc_strhead(n: u64) -> Seq<u8> {
    if n < 32 {
        seq![(0xa0 + n) as u8]
    } else if n < 0x100 {
        seq![0xd9u8, n as u8]
    } else if n < 0x10000 {
        seq![0xdau8] + be2(n as u16)
    } else {
        seq![0xdbu8] + be4(n as u32)
    }
}

/// Leading bytes of a string's header.
pub open spec fn leads_strhead(b: u8) -> bool {
    (0xa0 <= b && b < 0xa0 + 32) || b == 0xd9 || b == 0xda || b == 0xdb
}

/// Appends the canonical header for a string's of byte length `n`.
pub fn put_strhead(out: &mut Vec<u8>, n: u64)
    requires
        n < 0x100000000,
    ensures
        final(out)@ == old(out)@ + enc_strhead(n),
{
    if n < 32 {
        out.push(#[verifier::truncate] ((0xa0 + n) as u8));
    } else if n < 0x100 {
        out.push(0xd9);
        out.push(#[verifier::truncate] (n as u8));
    } else if n < 0x10000 {
        out.push(0xda);
        out.push(#[verifier::truncate] ((n >> 8) as u8));
        out.push(#[verifier::truncate] (n as u8));
        proof {
            assert((n as u16) >> 8 == (n >> 8) as u16 && (n as u16) as u8 == n as u8
                && ((n >> 8) as u16) as u8 == (n >> 8) as u8) by (bit_vector)
                requires
                    n < 0x10000u64,
            ;
        }
    } else {
        out.push(0xdb);
        out.push(#[verifier::truncate] ((n >> 24) as u8));
        out.push(#[verifier::truncate] ((n >> 16) as u8));
        out.push(#[verifier::truncate] ((n >> 8) as u8));
        out.push(#[verifier::truncate] (n as u8));
        proof {
            assert((n as u32) >> 24 == (n >> 24) as u32 && (n as u32) >> 16 == (n >> 16) as u32 && (
            n as u32) >> 8 == (n >> 8) as u32 && ((n >> 24) as u32) as u8 == (n >> 24) as u8 && ((n
                >> 16) as u32) as u8 == (n >> 16) as u8 && ((n >> 8) as u32) as u8 == (n
                >> 8) as u8 && (n as u32) as u8 == n as u8) by (bit_vector)
                requires
                    n < 0x100000000u64,
            ;
        }
    }
    proof {
        assert(out@ =~= old(out)@ + enc_strhead(n));
    }
}

/// Every well-formed wire form of a string's length header, minimal or not.
pub open spec fn is_enc_strhead(b: Seq<u8>, n: u64) -> bool {
    ||| (n < 32 && b == seq![(0xa0 + n) as u8])
    ||| (n < 0x100 && b == seq![0xd9u8, n as u8])
    ||| (n < 0x10000 && b == seq![0xdau8] + be2(n as u16))
    ||| (n < 0x100000000 && b == seq![0xdbu8] + be4(n as u32))
}

/// The canonical header is one of the well-formed forms.
pub proof fn lemma_enc_strhead_is_enc(n: u64)
    requires
        n < 0x100000000,
    ensures
        is_enc_strhead(enc_strhead(n), n),
{
}

/// Reads back a string's header: succeeds exactly on a well-formed header of
/// any width standing at `pos`, recovering the length and stepping past
/// it.
pub fn get_strhead(buf: &Vec<u8>, pos: usize) -> (r: Result<(u64, usize), DecodeError>)
    requires
        pos <= buf@.len(),
    ensures
        r matches Ok(o) ==> pos < o.1 <= buf@.len() && o.0 < 0x100000000 && is_enc_strhead(
            buf@.subrange(pos as int, o.1 as int),
            o.0,
        ),
        forall|n: u64, eb: Seq<u8>, rest: Seq<u8>|
            #![trigger is_enc_strhead(eb, n), eb + rest]
            is_enc_strhead(eb, n) && buf@.skip(pos as int) == eb + rest ==> (r matches Ok(o) && o.0 == n
                && o.1 == pos + eb.len()),
        r == Result::<(u64, usize), DecodeError>::Err(DecodeError::TypeMismatch) <==> pos
            < buf@.len() && defined_lead(buf@[pos as int]) && !leads_strhead(buf@[pos as int]),
{
    let len = buf.len();
    if pos >= len {
        proof {
            assert forall|n: u64, eb: Seq<u8>, rest: Seq<u8>|
                #![trigger is_enc_strhead(eb, n), eb + rest]
                is_enc_strhead(eb, n) implies buf@.skip(pos as int) != eb + rest by {
                assert(eb.len() >= 1);
                assert(buf@.skip(pos as int).len() == 0);
                assert((eb + rest).len() >= 1);
            }
        }
        return Result::Err(DecodeError::Malformed);
    }
    let b = buf[pos];
    proof {
        assert(buf@.skip(pos as int)[0] == b);
    }
    if 0xa0 <= b && b < 0xa0 + 32 {
        let v = b - 0xa0;
        proof {
            assert(buf@.subrange(pos as int, pos as int + 1) =~= seq![b]);
            assert(is_enc_strhead(buf@.subrange(pos as int, pos as int + 1), v as u64));
            assert forall|n: u64, eb: Seq<u8>, rest: Seq<u8>|
                #![trigger is_enc_strhead(eb, n), eb + rest]
                is_enc_strhead(eb, n) && buf@.skip(pos as int) == eb + rest implies n == v as u64 && eb.len()
                == 1 by {
                assert((eb + rest)[0] == eb[0]);
                assert(eb[0] == b);
            }
        }
        return Result::Ok(((v as u64), pos + 1));
    }
    if b == 0xd9 {
        if len - pos < 2 {
            proof {
                assert forall|n: u64, eb: Seq<u8>, rest: Seq<u8>|
                    #![trigger is_enc_strhead(eb, n), eb + rest]
                    is_enc_strhead(eb, n) implies buf@.skip(pos as int) != eb + rest by {
                    if buf@.skip(pos as int) == eb + rest {
                        assert((eb + rest)[0] == eb[0]);
                        assert(eb[0] == 0xd9);
                        assert(eb.len() == 2);
                        assert(buf@.skip(pos as int).len() >= 2);
                        assert(false);
                    }
                }
            }
            return Result::Err(DecodeError::Malformed);
        }
        let b1 = buf[pos + 1];
        proof {
            assert(buf@.skip(pos as int)[1] == b1);
            assert(buf@.subrange(pos as int, pos as int + 2) =~= seq![0xd9u8, b1]);
            assert(is_enc_strhead(buf@.subrange(pos as int, pos as int + 2), b1 as u64));
            assert forall|n: u64, eb: Seq<u8>, rest: Seq<u8>|
                #![trigger is_enc_strhead(eb, n), eb + rest]
                is_enc_strhead(eb, n) && buf@.skip(pos as int) == eb + rest implies n == b1 as u64
                && eb.len() == 2 by {
                assert((eb + rest)[0] == eb[0]);
                assert(eb[0] == 0xd9);
                assert((eb + rest)[1] == eb[1]);
                assert(eb[1] == b1);
                assert(n as u8 == b1 && n < 0x100);
            }
        }
        return Result::Ok(((b1 as u64), pos + 2));
    }
    if b == 0xda {
        if len - pos < 3 {
            proof {
                assert forall|n: u64, eb: Seq<u8>, rest: Seq<u8>|
                    #![trigger is_enc_strhead(eb, n), eb + rest]
                    is_enc_strhead(eb, n) implies buf@.skip(pos as int) != eb + rest by {
                    if buf@.skip(pos as int) == eb + rest {
                        assert((eb + rest)[0] == eb[0]);
                        assert(eb[0] == 0xda);
                        assert(eb.len() == 3);
                        assert(buf@.skip(pos as int).len() >= 3);
                        assert(false);
                    }
                }
            }
            return Result::Err(DecodeError::Malformed);
        }
        let v = read_be2(buf, pos + 1);
        proof {
            assert(buf@.subrange(pos as int + 1, pos as int + 3) == be2(v));
            assert(buf@.subrange(pos as int, pos as int + 3) =~= seq![0xdau8] + be2(v));
            assert(is_enc_strhead(buf@.subrange(pos as int, pos as int + 3), v as u64));
            assert forall|n: u64, eb: Seq<u8>, rest: Seq<u8>|
                #![trigger is_enc_strhead(eb, n), eb + rest]
                is_enc_strhead(eb, n) && buf@.skip(pos as int) == eb + rest implies n == v as u64 && eb.len()
                == 3 by {
                assert((eb + rest)[0] == eb[0]);
                assert(eb[0] == 0xda);
                let m = n as u16;
                assert(n < 0x10000 && eb == seq![0xdau8] + be2(m));
                assert((eb + rest).skip(1) =~= eb.skip(1) + rest);
                assert(eb.skip(1) =~= be2(m));
                assert(buf@.skip(pos as int).skip(1) =~= buf@.skip(pos as int + 1));
                assert(buf@.skip(pos as int + 1) == be2(m) + rest);
                assert(v == m);
            }
        }
        return Result::Ok(((v as u64), pos + 3));
    }
    if b == 0xdb {
        if len - pos < 5 {
            proof {
                assert forall|n: u64, eb: Seq<u8>, rest: Seq<u8>|
                    #![trigger is_enc_strhead(eb, n), eb + rest]
                    is_enc_strhead(eb, n) implies buf@.skip(pos as int) != eb + rest by {
                    if buf@.skip(pos as int) == eb + rest {
                        assert((eb + rest)[0] == eb[0]);
                        assert(eb[0] == 0xdb);
                        assert(eb.len() == 5);
                        assert(buf@.skip(pos as int).len() >= 5);
                        assert(false);
                    }
                }
            }
            return Result::Err(DecodeError::Malformed);
        }
        let v = read_be4(buf, pos + 1);
        proof {
            assert(buf@.subrange(pos as int + 1, pos as int + 5) == be4(v));
            assert(buf@.subrange(pos as int, pos as int + 5) =~= seq![0xdbu8] + be4(v));
            assert(is_enc_strhead(buf@.subrange(pos as int, pos as int + 5), v as u64));
            assert forall|n: u64, eb: Seq<u8>, rest: Seq<u8>|
                #![trigger is_enc_strhead(eb, n), eb + rest]
                is_enc_strhead(eb, n) && buf@.skip(pos as int) == eb + rest implies n == v as u64 && eb.len()
                == 5 by {
                assert((eb + rest)[0] == eb[0]);
                assert(eb[0] == 0xdb);
                let m = n as u32;
                assert(n < 0x100000000 && eb == seq![0xdbu8] + be4(m));
                assert((eb + rest).skip(1) =~= eb.skip(1) + rest);
                assert(eb.skip(1) =~= be4(m));
                assert(buf@.skip(pos as int).skip(1) =~= buf@.skip(pos as int + 1));
                assert(buf@.skip(pos as int + 1) == be4(m) + rest);
                assert(v == m);
            }
        }
        return Result::Ok(((v as u64), pos + 5));
    }
    proof {
        assert(!leads_strhead(b));
        assert forall|n: u64, eb: Seq<u8>, rest: Seq<u8>|
            #![trigger is_enc_strhead(eb, n), eb + rest]
            is_enc_strhead(eb, n) implies buf@.skip(pos as int) != eb + rest by {
            if buf@.skip(pos as int) == eb + rest {
                assert((eb + rest)[0] == eb[0]);
                assert(leads_strhead(eb[0]));
                assert(false);
            }
        }
    }
    if b == 0xc1 || b == 0xc7 || b == 0xc8 || b == 0xc9 || (0xd4 <= b && b <= 0xd8) {
        Result::Err(DecodeError::Malformed)
    } else {
        Result::Err(DecodeError::TypeMismatch)
    }
}

/// The canonical encoding of a binary's length header.
pub open spec fn enc_binhead(n: u64) -> Seq<u8> {
if n < 0x100 {
        seq![0xc4u8, n as u8]
    } else if n < 0x10000 {
        seq![0xc5u8] + be2(n as u16)
    } else {
        seq![0xc6u8] + be4(n as u32)
    }
}

/// Leading bytes of a binary's header.
pub open spec fn leads_binhead(b: u8) -> bool {
    b == 0xc4 || b == 0xc5 || b == 0xc6
}

/// Appends the canonical header for a binary's of byte length `n`.
pub fn put_binhead(out: &mut Vec<u8>, n: u64)
    requires
        n < 0x100000000,
    ensures
        final(out)@ == old(out)@ + enc_binhead(n),
{
    if n < 0x100 {
        out.push(0xc4);
        out.push(#[verifier::truncate] (n as u8));
    } else if n < 0x10000 {
        out.push(0xc5);
        out.push(#[verifier::truncate] ((n >> 8) as u8));
        out.push(#[verifier::truncate] (n as u8));
        proof {
            assert((n as u16) >> 8 == (n >> 8) as u16 && (n as u16) as u8 == n as u8
                && ((n >> 8) as u16) as u8 == (n >> 8) as u8) by (bit_vector)
                requires
                    n < 0x10000u64,
            ;
        }
    } else {
        out.push(0xc6);
        out.push(#[verifier::truncate] ((n >> 24) as u8));
        out.push(#[verifier::truncate] ((n >> 16) as u8));
        out.push(#[verifier::truncate] ((n >> 8) as u8));
        out.push(#[verifier::truncate] (n as u8));
        proof {
            assert((n as u32) >> 24 == (n >> 24) as u32 && (n as u32) >> 16 == (n >> 16) as u32 && (
            n as u32) >> 8 == (n >> 8) as u32 && ((n >> 24) as u32) as u8 == (n >> 24) as u8 && ((n
                >> 16) as u32) as u8 == (n >> 16) as u8 && ((n >> 8) as u32) as u8 == (n
                >> 8) as u8 && (n as u32) as u8 == n as u8) by (bit_vector)
                requires
                    n < 0x100000000u64,
            ;
        }
    }
    proof {
        assert(out@ =~= old(out)@ + enc_binhead(n));
    }
}

/// Every well-formed wire form of a binary's length header, minimal or not.
pub open spec fn is_enc_binhead(b: Seq<u8>, n: u64) -> bool {
    ||| (n < 0x100 && b == seq![0xc4u8, n as u8])
    ||| (n < 0x10000 && b == seq![0xc5u8] + be2(n as u16))
    ||| (n < 0x100000000 && b == seq![0xc6u8] + be4(n as u32))
}

/// The canonical header is one of the well-formed forms.
pub proof fn lemma_enc_binhead_is_enc(n: u64)
    requires
        n < 0x100000000,
    ensures
        is_enc_binhead(enc_binhead(n), n),
{
}

/// Reads back a binary's header: succeeds exactly on a well-formed header of
/// any width standing at `pos`, recovering the length and stepping past
/// it.
pub fn get_binhead(buf: &Vec<u8>, pos: usize) -> (r: Result<(u64, usize), DecodeError>)
    requires
        pos <= buf@.len(),
    ensures
        r matches Ok(o) ==> pos < o.1 <= buf@.len() && o.0 < 0x100000000 && is_enc_binhead(
            buf@.subrange(pos as int, o.1 as int),
            o.0,
        ),
        forall|n: u64, eb: Seq<u8>, rest: Seq<u8>|
            #![trigger is_enc_binhead(eb, n), eb + rest]
            is_enc_binhead(eb, n) && buf@.skip(pos as int) == eb + rest ==> (r matches Ok(o) && o.0 == n
                && o.1 == pos + eb.len()),
        r == Result::<(u64, usize), DecodeError>::Err(DecodeError::TypeMismatch) <==> pos
            < buf@.len() && defined_lead(buf@[pos as int]) && !leads_binhead(buf@[pos as int]),
{
    let len = buf.len();
    if pos >= len {
        proof {
            assert forall|n: u64, eb: Seq<u8>, rest: Seq<u8>|
                #![trigger is_enc_binhead(eb, n), eb + rest]
                is_enc_binhead(eb, n) implies buf@.skip(pos as int) != eb + rest by {
                assert(eb.len() >= 1);
                assert(buf@.skip(pos as int).len() == 0);
                assert((eb + rest).len() >= 1);
            }
        }
        return Result::Err(DecodeError::Malformed);
    }
    let b = buf[pos];
    proof {
        assert(buf@.skip(pos as int)[0] == b);
    }
    if b == 0xc4 {
        if len - pos < 2 {
            proof {
                assert forall|n: u64, eb: Seq<u8>, rest: Seq<u8>|
                    #![trigger is_enc_binhead(eb, n), eb + rest]
                    is_enc_binhead(eb, n) implies buf@.skip(pos as int) != eb + rest by {
                    if buf@.skip(pos as int) == eb + rest {
                        assert((eb + rest)[0] == eb[0]);
                        assert(eb[0] == 0xc4);
                        assert(eb.len() == 2);
                        assert(buf@.skip(pos as int).len() >= 2);
                        assert(false);
                    }
                }
            }
            return Result::Err(DecodeError::Malformed);
        }
        let b1 = buf[pos + 1];
        proof {
            assert(buf@.skip(pos as int)[1] == b1);
            assert(buf@.subrange(pos as int, pos as int + 2) =~= seq![0xc4u8, b1]);
            assert(is_enc_binhead(buf@.subrange(pos as int, pos as int + 2), b1 as u64));
            assert forall|n: u64, eb: Seq<u8>, rest: Seq<u8>|
                #![trigger is_enc_binhead(eb, n), eb + rest]
                is_enc_binhead(eb, n) && buf@.skip(pos as int) == eb + rest implies n == b1 as u64
                && eb.len() == 2 by {
                assert((eb + rest)[0] == eb[0]);
                assert(eb[0] == 0xc4);
                assert((eb + rest)[1] == eb[1]);
                assert(eb[1] == b1);
                assert(n as u8 == b1 && n < 0x100);
            }
        }
        return Result::Ok(((b1 as u64), pos + 2));
    }
    if b == 0xc5 {
        if len - pos < 3 {
            proof {
                assert forall|n: u64, eb: Seq<u8>, rest: Seq<u8>|
                    #![trigger is_enc_binhead(eb, n), eb + rest]
                    is_enc_binhead(eb, n) implies buf@.skip(pos as int) != eb + rest by {
                    if buf@.skip(pos as int) == eb + rest {
                        assert((eb + rest)[0] == eb[0]);
                        assert(eb[0] == 0xc5);
                        assert(eb.len() == 3);
                        assert(buf@.skip(pos as int).len() >= 3);
                        assert(false);
                    }
                }
            }
            return Result::Err(DecodeError::Malformed);
        }
        let v = read_be2(buf, pos + 1);
        proof {
            assert(buf@.subrange(pos as int + 1, pos as int + 3) == be2(v));
            assert(buf@.subrange(pos as int, pos as int + 3) =~= seq![0xc5u8] + be2(v));
            assert(is_enc_binhead(buf@.subrange(pos as int, pos as int + 3), v as u64));
            assert forall|n: u64, eb: Seq<u8>, rest: Seq<u8>|
                #![trigger is_enc_binhead(eb, n), eb + rest]
                is_enc_binhead(eb, n) && buf@.skip(pos as int) == eb + rest implies n == v as u64 && eb.len()
                == 3 by {
                assert((eb + rest)[0] == eb[0]);
                assert(eb[0] == 0xc5);
                let m = n as u16;
                assert(n < 0x10000 && eb == seq![0xc5u8] + be2(m));
                assert((eb + rest).skip(1) =~= eb.skip(1) + rest);
                assert(eb.skip(1) =~= be2(m));
                assert(buf@.skip(pos as int).skip(1) =~= buf@.skip(pos as int + 1));
                assert(buf@.skip(pos as int + 1) == be2(m) + rest);
                assert(v == m);
            }
        }
        return Result::Ok(((v as u64), pos + 3));
    }
    if b == 0xc6 {
        if len - pos < 5 {
            proof {
                assert forall|n: u64, eb: Seq<u8>, rest: Seq<u8>|
                    #![trigger is_enc_binhead(eb, n), eb + rest]
                    is_enc_binhead(eb, n) implies buf@.skip(pos as int) != eb + rest by {
                    if buf@.skip(pos as int) == eb + rest {
                        assert((eb + rest)[0] == eb[0]);
                        assert(eb[0] == 0xc6);
                        assert(eb.len() == 5);
                        assert(buf@.skip(pos as int).len() >= 5);
                        assert(false);
                    }
                }
            }
            return Result::Err(DecodeError::Malformed);
        }
        let v = read_be4(buf, pos + 1);
        proof {
            assert(buf@.subrange(pos as int + 1, pos as int + 5) == be4(v));
            assert(buf@.subrange(pos as int, pos as int + 5) =~= seq![0xc6u8] + be4(v));
            assert(is_enc_binhead(buf@.subrange(pos as int, pos as int + 5), v as u64));
            assert forall|n: u64, eb: Seq<u8>, rest: Seq<u8>|
                #![trigger is_enc_binhead(eb, n), eb + rest]
                is_enc_binhead(eb, n) && buf@.skip(pos as int) == eb + rest implies n == v as u64 && eb.len()
                == 5 by {
                assert((eb + rest)[0] == eb[0]);
                assert(eb[0] == 0xc6);
                let m = n as u32;
                assert(n < 0x100000000 && eb == seq![0xc6u8] + be4(m));
                assert((eb + rest).skip(1) =~= eb.skip(1) + rest);
                assert(eb.skip(1) =~= be4(m));
                assert(buf@.skip(pos as int).skip(1) =~= buf@.skip(pos as int + 1));
                assert(buf@.skip(pos as int + 1) == be4(m) + rest);
                assert(v == m);
            }
        }
        return Result::Ok(((v as u64), pos + 5));
    }
    proof {
        assert(!leads_binhead(b));
        assert forall|n: u64, eb: Seq<u8>, rest: Seq<u8>|
            #![trigger is_enc_binhead(eb, n), eb + rest]
            is_enc_binhead(eb, n) implies buf@.skip(pos as int) != eb + rest by {
            if buf@.skip(pos as int) == eb + rest {
                assert((eb + rest)[0] == eb[0]);
                assert(leads_binhead(eb[0]));
                assert(false);
            }
        }
    }
    if b == 0xc1 || b == 0xc7 || b == 0xc8 || b == 0xc9 || (0xd4 <= b && b <= 0xd8) {
        Result::Err(DecodeError::Malformed)
    } else {
        Result::Err(DecodeError::TypeMismatch)
    }
}

/// The canonical encoding of an array's length header.
pub open spec fn enc_arrhead(n: u64) -> Seq<u8> {
    if n < 16 {
        seq![(0x90 + n) as u8]
    } else if n < 0x10000 {
        seq![0xdcu8] + be2(n as u16)
    } else {
        seq![0xddu8] + be4(n as u32)
    }
}

/// Leading bytes of an array's header.
pub open spec fn leads_arrhead(b: u8) -> bool {
    (0x90 <= b && b < 0x90 + 16) || b == 0xdc || b == 0xdd
}

/// Appends the canonical header for an array's of byte length `n`.
pub fn put_arrhead(out: &mut Vec<u8>, n: u64)
    requires
        n < 0x100000000,
    ensures
        final(out)@ == old(out)@ + enc_arrhead(n),
{
    if n < 16 {
        out.push(#[verifier::truncate] ((0x90 + n) as u8));
    } else if n < 0x10000 {
        out.push(0xdc);
        out.push(#[verifier::truncate] ((n >> 8) as u8));
        out.push(#[verifier::truncate] (n as u8));
        proof {
            assert((n as u16) >> 8 == (n >> 8) as u16 && (n as u16) as u8 == n as u8
                && ((n >> 8) as u16) as u8 == (n >> 8) as u8) by (bit_vector)
                requires
                    n < 0x10000u64,
            ;
        }
    } else {
        out.push(0xdd);
        out.push(#[verifier::truncate] ((n >> 24) as u8));
        out.push(#[verifier::truncate] ((n >> 16) as u8));
        out.push(#[verifier::truncate] ((n >> 8) as u8));
        out.push(#[verifier::truncate] (n as u8));
        proof {
            assert((n as u32) >> 24 == (n >> 24) as u32 && (n as u32) >> 16 == (n >> 16) as u32 && (
            n as u32) >> 8 == (n >> 8) as u32 && ((n >> 24) as u32) as u8 == (n >> 24) as u8 && ((n
                >> 16) as u32) as u8 == (n >> 16) as u8 && ((n >> 8) as u32) as u8 == (n
                >> 8) as u8 && (n as u32) as u8 == n as u8) by (bit_vector)
                requires
                    n < 0x100000000u64,
            ;
        }
    }
    proof {
        assert(out@ =~= old(out)@ + enc_arrhead(n));
    }
}

/// Every well-formed wire form of an array's length header, minimal or not.
pub open spec fn is_enc_arrhead(b: Seq<u8>, n: u64) -> bool {
    ||| (n < 16 && b == seq![(0x90 + n) as u8])
    ||| (n < 0x10000 && b == seq![0xdcu8] + be2(n as u16))
    ||| (n < 0x100000000 && b == seq![0xddu8] + be4(n as u32))
}

/// The canonical header is one of the well-formed forms.
pub proof fn lemma_enc_arrhead_is_enc(n: u64)
    requires
        n < 0x100000000,
    ensures
        is_enc_arrhead(enc_arrhead(n), n),
{
}

/// Reads back an array's header: succeeds exactly on a well-formed header of
/// any width standing at `pos`, recovering the length and stepping past
/// it.
pub fn get_arrhead(buf: &Vec<u8>, pos: usize) -> (r: Result<(u64, usize), DecodeError>)
    requires
        pos <= buf@.len(),
    ensures
        r matches Ok(o) ==> pos < o.1 <= buf@.len() && o.0 < 0x100000000 && is_enc_arrhead(
            buf@.subrange(pos as int, o.1 as int),
            o.0,
        ),
        forall|n: u64, eb: Seq<u8>, rest: Seq<u8>|
            #![trigger is_enc_arrhead(eb, n), eb + rest]
            is_enc_arrhead(eb, n) && buf@.skip(pos as int) == eb + rest ==> (r matches Ok(o) && o.0 == n
                && o.1 == pos + eb.len()),
        r == Result::<(u64, usize), DecodeError>::Err(DecodeError::TypeMismatch) <==> pos
            < buf@.len() && defined_lead(buf@[pos as int]) && !leads_arrhead(buf@[pos as int]),
{
    let len = buf.len();
    if pos >= len {
        proof {
            assert forall|n: u64, eb: Seq<u8>, rest: Seq<u8>|
                #![trigger is_enc_arrhead(eb, n), eb + rest]
                is_enc_arrhead(eb, n) implies buf@.skip(pos as int) != eb + rest by {
                assert(eb.len() >= 1);
                assert(buf@.skip(pos as int).len() == 0);
                assert((eb + rest).len() >= 1);
            }
        }
        return Result::Err(DecodeError::Malformed);
    }
    let b = buf[pos];
    proof {
        assert(buf@.skip(pos as int)[0] == b);
    }
    if 0x90 <= b && b < 0x90 + 16 {
        let v = b - 0x90;
        proof {
            assert(buf@.subrange(pos as int, pos as int + 1) =~= seq![b]);
            assert(is_enc_arrhead(buf@.subrange(pos as int, pos as int + 1), v as u64));
            assert forall|n: u64, eb: Seq<u8>, rest: Seq<u8>|
                #![trigger is_enc_arrhead(eb, n), eb + rest]
                is_enc_arrhead(eb, n) && buf@.skip(pos as int) == eb + rest implies n == v as u64 && eb.len()
                == 1 by {
                assert((eb + rest)[0] == eb[0]);
                assert(eb[0] == b);
            }
        }
        return Result::Ok(((v as u64), pos + 1));
    }
    if b == 0xdc {
        if len - pos < 3 {
            proof {
                assert forall|n: u64, eb: Seq<u8>, rest: Seq<u8>|
                    #![trigger is_enc_arrhead(eb, n), eb + rest]
                    is_enc_arrhead(eb, n) implies buf@.skip(pos as int) != eb + rest by {
                    if buf@.skip(pos as int) == eb + rest {
                        assert((eb + rest)[0] == eb[0]);
                        assert(eb[0] == 0xdc);
                        assert(eb.len() == 3);
                        assert(buf@.skip(pos as int).len() >= 3);
                        assert(false);
                    }
                }
            }
            return Result::Err(DecodeError::Malformed);
        }
        let v = read_be2(buf, pos + 1);
        proof {
            assert(buf@.subrange(pos as int + 1, pos as int + 3) == be2(v));
            assert(buf@.subrange(pos as int, pos as int + 3) =~= seq![0xdcu8] + be2(v));
            assert(is_enc_arrhead(buf@.subrange(pos as int, pos as int + 3), v as u64));
            assert forall|n: u64, eb: Seq<u8>, rest: Seq<u8>|
                #![trigger is_enc_arrhead(eb, n), eb + rest]
                is_enc_arrhead(eb, n) && buf@.skip(pos as int) == eb + rest implies n == v as u64 && eb.len()
                == 3 by {
                assert((eb + rest)[0] == eb[0]);
                assert(eb[0] == 0xdc);
                let m = n as u16;
                assert(n < 0x10000 && eb == seq![0xdcu8] + be2(m));
                assert((eb + rest).skip(1) =~= eb.skip(1) + rest);
                assert(eb.skip(1) =~= be2(m));
                assert(buf@.skip(pos as int).skip(1) =~= buf@.skip(pos as int + 1));
                assert(buf@.skip(pos as int + 1) == be2(m) + rest);
                assert(v == m);
            }
        }
        return Result::Ok(((v as u64), pos + 3));
    }
    if b == 0xdd {
        if len - pos < 5 {
            proof {
                assert forall|n: u64, eb: Seq<u8>, rest: Seq<u8>|
                    #![trigger is_enc_arrhead(eb, n), eb + rest]
                    is_enc_arrhead(eb, n) implies buf@.skip(pos as int) != eb + rest by {
                    if buf@.skip(pos as int) == eb + rest {
                        assert((eb + rest)[0] == eb[0]);
                        assert(eb[0] == 0xdd);
                        assert(eb.len() == 5);
                        assert(buf@.skip(pos as int).len() >= 5);
                        assert(false);
                    }
                }
            }
            return Result::Err(DecodeError::Malformed);
        }
        let v = read_be4(buf, pos + 1);
        proof {
            assert(buf@.subrange(pos as int + 1, pos as int + 5) == be4(v));
            assert(buf@.subrange(pos as int, pos as int + 5) =~= seq![0xddu8] + be4(v));
            assert(is_enc_arrhead(buf@.subrange(pos as int, pos as int + 5), v as u64));
            assert forall|n: u64, eb: Seq<u8>, rest: Seq<u8>|
                #![trigger is_enc_arrhead(eb, n), eb + rest]
                is_enc_arrhead(eb, n) && buf@.skip(pos as int) == eb + rest implies n == v as u64 && eb.len()
                == 5 by {
                assert((eb + rest)[0] == eb[0]);
                assert(eb[0] == 0xdd);
                let m = n as u32;
                assert(n < 0x100000000 && eb == seq![0xddu8] + be4(m));
                assert((eb + rest).skip(1) =~= eb.skip(1) + rest);
                assert(eb.skip(1) =~= be4(m));
                assert(buf@.skip(pos as int).skip(1) =~= buf@.skip(pos as int + 1));
                assert(buf@.skip(pos as int + 1) == be4(m) + rest);
                assert(v == m);
            }
        }
        return Result::Ok(((v as u64), pos + 5));
    }
    proof {
        assert(!leads_arrhead(b));
        assert forall|n: u64, eb: Seq<u8>, rest: Seq<u8>|
            #![trigger is_enc_arrhead(eb, n), eb + rest]
            is_enc_arrhead(eb, n) implies buf@.skip(pos as int) != eb + rest by {
            if buf@.skip(pos as int) == eb + rest {
                assert((eb + rest)[0] == eb[0]);
                assert(leads_arrhead(eb[0]));
                assert(false);
            }
        }
    }
    if b == 0xc1 || b == 0xc7 || b == 0xc8 || b == 0xc9 || (0xd4 <= b && b <= 0xd8) {
        Result::Err(DecodeError::Malformed)
    } else {
        Result::Err(DecodeError::TypeMismatch)
    }
}

/// The canonical encoding of a map's length header.
pub open spec fn enc_maphead(n: u64) -> Seq<u8> {
    if n < 16 {
        seq![(0x80 + n) as u8]
    } else if n < 0x10000 {
        seq![0xdeu8] + be2(n as u16)
    } else {
        seq![0xdfu8] + be4(n as u32)
    }
}

/// Leading bytes of a map's header.
pub open spec fn leads_maphead(b: u8) -> bool {
    (0x80 <= b && b < 0x80 + 16) || b == 0xde || b == 0xdf
}

/// Appends the canonical header for a map's of byte length `n`.
pub fn put_maphead(out: &mut Vec<u8>, n: u64)
    requires
        n < 0x100000000,
    ensures
        final(out)@ == old(out)@ + enc_maphead(n),
{
    if n < 16 {
        out.push(#[verifier::truncate] ((0x80 + n) as u8));
    } else if n < 0x10000 {
        out.push(0xde);
        out.push(#[verifier::truncate] ((n >> 8) as u8));
        out.push(#[verifier::truncate] (n as u8));
        proof {
            assert((n as u16) >> 8 == (n >> 8) as u16 && (n as u16) as u8 == n as u8
                && ((n >> 8) as u16) as u8 == (n >> 8) as u8) by (bit_vector)
                requires
                    n < 0x10000u64,
            ;
        }
    } else {
        out.push(0xdf);
        out.push(#[verifier::truncate] ((n >> 24) as u8));
        out.push(#[verifier::truncate] ((n >> 16) as u8));
        out.push(#[verifier::truncate] ((n >> 8) as u8));
        out.push(#[verifier::truncate] (n as u8));
        proof {
            assert((n as u32) >> 24 == (n >> 24) as u32 && (n as u32) >> 16 == (n >> 16) as u32 && (
            n as u32) >> 8 == (n >> 8) as u32 && ((n >> 24) as u32) as u8 == (n >> 24) as u8 && ((n
                >> 16) as u32) as u8 == (n >> 16) as u8 && ((n >> 8) as u32) as u8 == (n
                >> 8) as u8 && (n as u32) as u8 == n as u8) by (bit_vector)
                requires
                    n < 0x100000000u64,
            ;
        }
    }
    proof {
        assert(out@ =~= old(out)@ + enc_maphead(n));
    }
}

/// Every well-formed wire form of a map's length header, minimal or not.
pub open spec fn is_enc_maphead(b: Seq<u8>, n: u64) -> bool {
    ||| (n < 16 && b == seq![(0x80 + n) as u8])
    ||| (n < 0x10000 && b == seq![0xdeu8] + be2(n as u16))
    ||| (n < 0x100000000 && b == seq![0xdfu8] + be4(n as u32))
}

/// The canonical header is one of the well-formed forms.
pub proof fn lemma_enc_maphead_is_enc(n: u64)
    requires
        n < 0x100000000,
    ensures
        is_enc_maphead(enc_maphead(n), n),
{
}

/// Reads back a map's header: succeeds exactly on a well-formed header of
/// any width standing at `pos`, recovering the length and stepping past
/// it.
pub fn get_maphead(buf: &Vec<u8>, pos: usize) -> (r: Result<(u64, usize), DecodeError>)
    requires
        pos <= buf@.len(),
    ensures
        r matches Ok(o) ==> pos < o.1 <= buf@.len() && o.0 < 0x100000000 && is_enc_maphead(
            buf@.subrange(pos as int, o.1 as int),
            o.0,
        ),
        forall|n: u64, eb: Seq<u8>, rest: Seq<u8>|
            #![trigger is_enc_maphead(eb, n), eb + rest]
            is_enc_maphead(eb, n) && buf@.skip(pos as int) == eb + rest ==> (r matches Ok(o) && o.0 == n
                && o.1 == pos + eb.len()),
        r == Result::<(u64, usize), DecodeError>::Err(DecodeError::TypeMismatch) <==> pos
            < buf@.len() && defined_lead(buf@[pos as int]) && !leads_maphead(buf@[pos as int]),
{
    let len = buf.len();
    if pos >= len {
        proof {
            assert forall|n: u64, eb: Seq<u8>, rest: Seq<u8>|
                #![trigger is_enc_maphead(eb, n), eb + rest]
                is_enc_maphead(eb, n) implies buf@.skip(pos as int) != eb + rest by {
                assert(eb.len() >= 1);
                assert(buf@.skip(pos as int).len() == 0);
                assert((eb + rest).len() >= 1);
            }
        }
        return Result::Err(DecodeError::Malformed);
    }
    let b = buf[pos];
    proof {
        assert(buf@.skip(pos as int)[0] == b);
    }
    if 0x80 <= b && b < 0x80 + 16 {
        let v = b - 0x80;
        proof {
            assert(buf@.subrange(pos as int, pos as int + 1) =~= seq![b]);
            assert(is_enc_maphead(buf@.subrange(pos as int, pos as int + 1), v as u64));
            assert forall|n: u64, eb: Seq<u8>, rest: Seq<u8>|
                #![trigger is_enc_maphead(eb, n), eb + rest]
                is_enc_maphead(eb, n) && buf@.skip(pos as int) == eb + rest implies n == v as u64 && eb.len()
                == 1 by {
                assert((eb + rest)[0] == eb[0]);
                assert(eb[0] == b);
            }
        }
        return Result::Ok(((v as u64), pos + 1));
    }
    if b == 0xde {
        if len - pos < 3 {
            proof {
                assert forall|n: u64, eb: Seq<u8>, rest: Seq<u8>|
                    #![trigger is_enc_maphead(eb, n), eb + rest]
                    is_enc_maphead(eb, n) implies buf@.skip(pos as int) != eb + rest by {
                    if buf@.skip(pos as int) == eb + rest {
                        assert((eb + rest)[0] == eb[0]);
                        assert(eb[0] == 0xde);
                        assert(eb.len() == 3);
                        assert(buf@.skip(pos as int).len() >= 3);
                        assert(false);
                    }
                }
            }
            return Result::Err(DecodeError::Malformed);
        }
        let v = read_be2(buf, pos + 1);
        proof {
            assert(buf@.subrange(pos as int + 1, pos as int + 3) == be2(v));
            assert(buf@.subrange(pos as int, pos as int + 3) =~= seq![0xdeu8] + be2(v));
            assert(is_enc_maphead(buf@.subrange(pos as int, pos as int + 3), v as u64));
            assert forall|n: u64, eb: Seq<u8>, rest: Seq<u8>|
                #![trigger is_enc_maphead(eb, n), eb + rest]
                is_enc_maphead(eb, n) && buf@.skip(pos as int) == eb + rest implies n == v as u64 && eb.len()
                == 3 by {
                assert((eb + rest)[0] == eb[0]);
                assert(eb[0] == 0xde);
                let m = n as u16;
                assert(n < 0x10000 && eb == seq![0xdeu8] + be2(m));
                assert((eb + rest).skip(1) =~= eb.skip(1) + rest);
                assert(eb.skip(1) =~= be2(m));
                assert(buf@.skip(pos as int).skip(1) =~= buf@.skip(pos as int + 1));
                assert(buf@.skip(pos as int + 1) == be2(m) + rest);
                assert(v == m);
            }
        }
        return Result::Ok(((v as u64), pos + 3));
    }
    if b == 0xdf {
        if len - pos < 5 {
            proof {
                assert forall|n: u64, eb: Seq<u8>, rest: Seq<u8>|
                    #![trigger is_enc_maphead(eb, n), eb + rest]
                    is_enc_maphead(eb, n) implies buf@.skip(pos as int) != eb + rest by {
                    if buf@.skip(pos as int) == eb + rest {
                        assert((eb + rest)[0] == eb[0]);
                        assert(eb[0] == 0xdf);
                        assert(eb.len() == 5);
                        assert(buf@.skip(pos as int).len() >= 5);
                        assert(false);
                    }
                }
            }
            return Result::Err(DecodeError::Malformed);
        }
        let v = read_be4(buf, pos + 1);
        proof {
            assert(buf@.subrange(pos as int + 1, pos as int + 5) == be4(v));
            assert(buf@.subrange(pos as int, pos as int + 5) =~= seq![0xdfu8] + be4(v));
            assert(is_enc_maphead(buf@.subrange(pos as int, pos as int + 5), v as u64));
            assert forall|n: u64, eb: Seq<u8>, rest: Seq<u8>|
                #![trigger is_enc_maphead(eb, n), eb + rest]
                is_enc_maphead(eb, n) && buf@.skip(pos as int) == eb + rest implies n == v as u64 && eb.len()
                == 5 by {
                assert((eb + rest)[0] == eb[0]);
                assert(eb[0] == 0xdf);
                let m = n as u32;
                assert(n < 0x100000000 && eb == seq![0xdfu8] + be4(m));
                assert((eb + rest).skip(1) =~= eb.skip(1) + rest);
                assert(eb.skip(1) =~= be4(m));
                assert(buf@.skip(pos as int).skip(1) =~= buf@.skip(pos as int + 1));
                assert(buf@.skip(pos as int + 1) == be4(m) + rest);
                assert(v == m);
            }
        }
        return Result::Ok(((v as u64), pos + 5));
    }
    proof {
        assert(!leads_maphead(b));
        assert forall|n: u64, eb: Seq<u8>, rest: Seq<u8>|
            #![trigger is_enc_maphead(eb, n), eb + rest]
            is_enc_maphead(eb, n) implies buf@.skip(pos as int) != eb + rest by {
            if buf@.skip(pos as int) == eb + rest {
                assert((eb + rest)[0] == eb[0]);
                assert(leads_maphead(eb[0]));
                assert(false);
            }
        }
    }
    if b == 0xc1 || b == 0xc7 || b == 0xc8 || b == 0xc9 || (0xd4 <= b && b <= 0xd8) {
        Result::Err(DecodeError::Malformed)
    } else {
        Result::Err(DecodeError::TypeMismatch)
    }
}


// ---------------------------------------------------------------------------
// fixed-width payloads
// ---------------------------------------------------------------------------

/// Reads two raw big-endian bytes at `pos`.
pub fn read_be2(buf: &Vec<u8>, pos: usize) -> (r: u16)
    requires
        pos + 2 <= buf@.len(),
    ensures
        buf@.subrange(pos as int, pos as int + 2) == be2(r),
        forall|m: u16, rest: Seq<u8>|
            buf@.skip(pos as int) == #[trigger] (be2(m) + rest) ==> r == m,
{
    let total = buf.len();
    proof {
        assert(pos + 2 <= total);
    }
    let b1 = buf[pos];
    let b2 = buf[pos + 1];
    let v: u16 = ((b1 as u16) << 8) | (b2 as u16);
    proof {
        assert(v >> 8 == b1 && v as u8 == b2) by (bit_vector)
            requires
                v == ((b1 as u16) << 8) | (b2 as u16),
        ;
        assert((v >> 8) as u8 == b1);
        assert(buf@.subrange(pos as int, pos as int + 2) =~= be2(v));
        assert forall|m: u16, rest: Seq<u8>|
            buf@.skip(pos as int) == #[trigger] (be2(m) + rest) implies v == m by {
            assert((be2(m) + rest)[0] == be2(m)[0]);
            assert((be2(m) + rest)[1] == be2(m)[1]);
            assert(buf@.skip(pos as int)[0] == b1);
            assert(buf@.skip(pos as int)[1] == b2);
            assert(b1 == (m >> 8) as u8);
            assert(b2 == m as u8);
            lemma_be2_recover(m);
        }
    }
    v
}

/// Reads four raw big-endian bytes at `pos`.
pub fn read_be4(buf: &Vec<u8>, pos: usize) -> (r: u32)
    requires
        pos + 4 <= buf@.len(),
    ensures
        buf@.subrange(pos as int, pos as int + 4) == be4(r),
        forall|m: u32, rest: Seq<u8>|
            buf@.skip(pos as int) == #[trigger] (be4(m) + rest) ==> r == m,
{
    let total = buf.len();
    proof {
        assert(pos + 4 <= total);
    }
    let b1 = buf[pos];
    let b2 = buf[pos + 1];
    let b3 = buf[pos + 2];
    let b4 = buf[pos + 3];
    let v: u32 = ((b1 as u32) << 24) | ((b2 as u32) << 16) | ((b3 as u32) << 8) | (b4 as u32);
    proof {
        assert(v >> 24 == b1 && (v >> 16) as u8 == b2 && (v >> 8) as u8 == b3 && v as u8 == b4)
            by (bit_vector)
            requires
                v == ((b1 as u32) << 24) | ((b2 as u32) << 16) | ((b3 as u32) << 8) | (b4 as u32),
        ;
        assert((v >> 24) as u8 == b1);
        assert(buf@.subrange(pos as int, pos as int + 4) =~= be4(v));
        assert forall|m: u32, rest: Seq<u8>|
            buf@.skip(pos as int) == #[trigger] (be4(m) + rest) implies v == m by {
            assert((be4(m) + rest)[0] == be4(m)[0]);
            assert((be4(m) + rest)[1] == be4(m)[1]);
            assert((be4(m) + rest)[2] == be4(m)[2]);
            assert((be4(m) + rest)[3] == be4(m)[3]);
            assert(buf@.skip(pos as int)[0] == b1);
            assert(buf@.skip(pos as int)[1] == b2);
            assert(buf@.skip(pos as int)[2] == b3);
            assert(buf@.skip(pos as int)[3] == b4);
            assert(b1 == (m >> 24) as u8);
            assert(b2 == (m >> 16) as u8);
            assert(b3 == (m >> 8) as u8);
            assert(b4 == m as u8);
            lemma_be4_recover(m);
        }
    }
    v
}

/// Reads eight raw big-endian bytes at `pos`.
pub fn read_be8(buf: &Vec<u8>, pos: usize) -> (r: u64)
    requires
        pos + 8 <= buf@.len(),
    ensures
        buf@.subrange(pos as int, pos as int + 8) == be8(r),
        forall|m: u64, rest: Seq<u8>|
            buf@.skip(pos as int) == #[trigger] (be8(m) + rest) ==> r == m,
{
    let total = buf.len();
    proof {
        assert(pos + 8 <= total);
    }
    let b1 = buf[pos];
    let b2 = buf[pos + 1];
    let b3 = buf[pos + 2];
    let b4 = buf[pos + 3];
    let b5 = buf[pos + 4];
    let b6 = buf[pos + 5];
    let b7 = buf[pos + 6];
    let b8 = buf[pos + 7];
    let v: u64 = ((b1 as u64) << 56) | ((b2 as u64) << 48) | ((b3 as u64) << 40) | ((b4 as u64)
        << 32) | ((b5 as u64) << 24) | ((b6 as u64) << 16) | ((b7 as u64) << 8) | (b8 as u64);
    proof {
        assert(v >> 56 == b1 && (v >> 48) as u8 == b2 && (v >> 40) as u8 == b3 && (v >> 32) as u8
            == b4 && (v >> 24) as u8 == b5 && (v >> 16) as u8 == b6 && (v >> 8) as u8 == b7 && v as u8
            == b8) by (bit_vector)
            requires
                v == ((b1 as u64) << 56) | ((b2 as u64) << 48) | ((b3 as u64) << 40) | ((b4 as u64)
                    << 32) | ((b5 as u64) << 24) | ((b6 as u64) << 16) | ((b7 as u64) << 8) | (
                b8 as u64),
        ;
        assert((v >> 56) as u8 == b1);
        assert(buf@.subrange(pos as int, pos as int + 8) =~= be8(v));
        assert forall|m: u64, rest: Seq<u8>|
            buf@.skip(pos as int) == #[trigger] (be8(m) + rest) implies v == m by {
            assert((be8(m) + rest)[0] == be8(m)[0]);
            assert((be8(m) + rest)[1] == be8(m)[1]);
            assert((be8(m) + rest)[2] == be8(m)[2]);
            assert((be8(m) + rest)[3] == be8(m)[3]);
            assert((be8(m) + rest)[4] == be8(m)[4]);
            assert((be8(m) + rest)[5] == be8(m)[5]);
            assert((be8(m) + rest)[6] == be8(m)[6]);
            assert((be8(m) + rest)[7] == be8(m)[7]);
            assert(buf@.skip(pos as int)[0] == b1);
            assert(buf@.skip(pos as int)[1] == b2);
            assert(buf@.skip(pos as int)[2] == b3);
            assert(buf@.skip(pos as int)[3] == b4);
            assert(buf@.skip(pos as int)[4] == b5);
            assert(buf@.skip(pos as int)[5] == b6);
            assert(buf@.skip(pos as int)[6] == b7);
            assert(buf@.skip(pos as int)[7] == b8);
            assert(b1 == (m >> 56) as u8);
            assert(b2 == (m >> 48) as u8);
            assert(b3 == (m >> 40) as u8);
            assert(b4 == (m >> 32) as u8);
            assert(b5 == (m >> 24) as u8);
            assert(b6 == (m >> 16) as u8);
            assert(b7 == (m >> 8) as u8);
            assert(b8 == m as u8);
            lemma_be8_recover(m);
        }
    }
    v
}

/// Appends two big-endian bytes.
pub fn put_be2(out: &mut Vec<u8>, n: u16)
    ensures
        final(out)@ == old(out)@ + be2(n),
{
    out.push(#[verifier::truncate] ((n >> 8) as u8));
    out.push(#[verifier::truncate] (n as u8));
    proof {
        assert(out@ =~= old(out)@ + be2(n));
    }
}

/// Appends four big-endian bytes.
pub fn put_be4(out: &mut Vec<u8>, n: u32)
    ensures
        final(out)@ == old(out)@ + be4(n),
{
    out.push(#[verifier::truncate] ((n >> 24) as u8));
    out.push(#[verifier::truncate] ((n >> 16) as u8));
    out.push(#[verifier::truncate] ((n >> 8) as u8));
    out.push(#[verifier::truncate] (n as u8));
    proof {
        assert(out@ =~= old(out)@ + be4(n));
    }
}

/// Appends eight big-endian bytes.
pub fn put_be8(out: &mut Vec<u8>, n: u64)
    ensures
        final(out)@ == old(out)@ + be8(n),
{
    out.push(#[verifier::truncate] ((n >> 56) as u8));
    out.push(#[verifier::truncate] ((n >> 48) as u8));
    out.push(#[verifier::truncate] ((n >> 40) as u8));
    out.push(#[verifier::truncate] ((n >> 32) as u8));
    out.push(#[verifier::truncate] ((n >> 24) as u8));
    out.push(#[verifier::truncate] ((n >> 16) as u8));
    out.push(#[verifier::truncate] ((n >> 8) as u8));
    out.push(#[verifier::truncate] (n as u8));
    proof {
        assert(out@ =~= old(out)@ + be8(n));
    }
}

/// Copies `n` bytes starting at `pos` into a fresh vector.
pub fn read_bytes(buf: &Vec<u8>, pos: usize, n: usize) -> (r: Vec<u8>)
    requires
        pos + n <= buf@.len(),
    ensures
        r@ == buf@.subrange(pos as int, pos as int + n),
{
    let total = buf.len();
    let mut out: Vec<u8> = Vec::new();
    let mut k: usize = 0;
    while k < n
        invariant
            0 <= k <= n,
            pos + n <= buf@.len(),
            total == buf@.len(),
            out@ == buf@.subrange(pos as int, pos as int + k),
        decreases n - k,
    {
        out.push(buf[pos + k]);
        proof {
            assert(out@ =~= buf@.subrange(pos as int, pos as int + k + 1));
        }
        k = k + 1;
    }
    out
}

// ---------------------------------------------------------------------------
// strings
// ---------------------------------------------------------------------------

/// Whether a string fits the wire format: its UTF-8 encoding is shorter
/// than two to the thirty-second.
pub open spec fn str_ok(s: Seq<char>) -> bool {
    vstd::utf8::encode_utf8(s).len() < 0x100000000
}

/// The canonical encoding of a string: a minimal length header followed by
/// the string's UTF-8 bytes.
pub open spec fn enc_str(s: Seq<char>) -> Seq<u8> {
    enc_strhead(vstd::utf8::encode_utf8(s).len() as u64) + vstd::utf8::encode_utf8(s)
}

/// How many bytes a string header starting with this byte occupies.
pub open spec fn strhead_width(t: u8) -> int {
    if 0xa0 <= t && t <= 0xbf {
        1
    } else if t == 0xd9 {
        2
    } else if t == 0xda {
        3
    } else {
        5
    }
}

/// Every well-formed wire form of a string: a header of any width
/// followed by the string's UTF-8 bytes.
pub open spec fn is_enc_str(b: Seq<u8>, s: Seq<char>) -> bool {
    &&& str_ok(s)
    &&& b.len() >= 1
    &&& strhead_width(b[0]) <= b.len()
    &&& is_enc_strhead(
        b.take(strhead_width(b[0])),
        vstd::utf8::encode_utf8(s).len() as u64,
    )
    &&& b.skip(strhead_width(b[0])) == vstd::utf8::encode_utf8(s)
}

/// A well-formed string header is as long as its first byte announces.
pub proof fn lemma_strhead_width(hb: Seq<u8>, n: u64)
    requires
        is_enc_strhead(hb, n),
    ensures
        hb.len() == strhead_width(hb[0]),
        leads_strhead(hb[0]),
{
}

/// The canonical form is one of the well-formed forms.
pub proof fn lemma_enc_str_is_enc(s: Seq<char>)
    requires
        str_ok(s),
    ensures
        is_enc_str(enc_str(s), s),
{
    let ulen = vstd::utf8::encode_utf8(s).len() as u64;
    let hb = enc_strhead(ulen);
    lemma_enc_strhead_is_enc(ulen);
    lemma_strhead_width(hb, ulen);
    assert(enc_str(s)[0] == hb[0]);
    assert(enc_str(s).take(hb.len() as int) =~= hb);
    assert(enc_str(s).skip(hb.len() as int) =~= vstd::utf8::encode_utf8(s));
}

/// Relies on String::from_utf8: it succeeds exactly on valid UTF-8, and
/// returns the string whose UTF-8 encoding is the given bytes.
#[verifier::external_body]
pub(crate) fn string_from_utf8(v: Vec<u8>) -> (r: Option<String>)
    ensures
        r matches Some(s) ==> vstd::utf8::encode_utf8(s@) == v@,
        r is Some <==> vstd::utf8::valid_utf8(v@),
{
    String::from_utf8(v).ok()
}

/// Appends the canonical encoding of a string.
pub fn put_str(out: &mut Vec<u8>, s: &str)
    requires
        str_ok(s@),
    ensures
        final(out)@ == old(out)@ + enc_str(s@),
{
    let bytes = s.as_bytes();
    let n = bytes.len();
    put_strhead(out, n as u64);
    out.extend_from_slice(bytes);
    proof {
        assert(out@ =~= old(out)@ + enc_str(s@));
    }
}

/// Reads back a string: succeeds exactly on a well-formed string encoding
/// at `pos`, recovering the encoded characters and stepping past them.
#[verifier::rlimit(100)]
pub fn get_str(buf: &Vec<u8>, pos: usize) -> (r: Result<(String, usize), DecodeError>)
    requires
        pos <= buf@.len(),
    ensures
        r matches Ok(o) ==> pos < o.1 <= buf@.len() && str_ok(o.0@) && is_enc_str(
            buf@.subrange(pos as int, o.1 as int),
            o.0@,
        ),
        forall|s: Seq<char>, eb: Seq<u8>, rest: Seq<u8>|
            #![trigger is_enc_str(eb, s), eb + rest]
            is_enc_str(eb, s) && buf@.skip(pos as int) == eb + rest ==> (r matches Ok(o) && o.0@
                == s && o.1 == pos + eb.len()),
        r == Result::<(String, usize), DecodeError>::Err(DecodeError::TypeMismatch) ==> pos
            < buf@.len() && defined_lead(buf@[pos as int]) && !leads_strhead(buf@[pos as int]),
{
    proof {
        assert forall|s: Seq<char>, eb: Seq<u8>, rest: Seq<u8>|
            #![trigger is_enc_str(eb, s), eb + rest]
            is_enc_str(eb, s) && buf@.skip(pos as int) == eb + rest implies ({
            let w = strhead_width(eb[0]);
            let ulen = vstd::utf8::encode_utf8(s).len() as u64;
            &&& is_enc_strhead(eb.take(w), ulen)
            &&& buf@.skip(pos as int) == eb.take(w) + (vstd::utf8::encode_utf8(s) + rest)
            &&& eb.take(w).len() == w
            &&& eb.len() == w + vstd::utf8::encode_utf8(s).len()
        }) by {
            let w = strhead_width(eb[0]);
            assert(eb + rest =~= eb.take(w) + (eb.skip(w) + rest));
            assert(eb.skip(w).len() == eb.len() - w);
        }
    }
    let head = get_strhead(buf, pos);
    match head {
        Result::Ok((n, p1)) => {
            let len = buf.len();
            let avail: u64 = (len - p1) as u64;
            if avail < n {
                proof {
                    assert forall|s: Seq<char>, eb: Seq<u8>, rest: Seq<u8>|
                        #![trigger is_enc_str(eb, s), eb + rest]
                        is_enc_str(eb, s) implies buf@.skip(pos as int) != eb + rest by {
                        if buf@.skip(pos as int) == eb + rest {
                            let w = strhead_width(eb[0]);
                            let ulen = vstd::utf8::encode_utf8(s).len() as u64;
                            assert(n == ulen && p1 == pos + w);
                            assert(buf@.skip(pos as int).len() >= eb.len());
                            assert(false);
                        }
                    }
                }
                return Result::Err(DecodeError::Malformed);
            }
            let nn = n as usize;
            let bs = read_bytes(buf, p1, nn);
            let ghost payload = bs@;
            match string_from_utf8(bs) {
                Option::Some(st) => {
                    proof {
                        let b2 = buf@.subrange(pos as int, p1 + nn);
                        assert(b2.take(p1 - pos) =~= buf@.subrange(pos as int, p1 as int));
                        lemma_strhead_width(buf@.subrange(pos as int, p1 as int), n);
                        assert(b2[0] == buf@.subrange(pos as int, p1 as int)[0]);
                        assert(strhead_width(b2[0]) == p1 - pos);
                        assert(b2.skip(p1 - pos) =~= buf@.subrange(p1 as int, p1 + nn));
                        assert(vstd::utf8::encode_utf8(st@) == payload);
                        assert(is_enc_str(b2, st@));
                        assert forall|s: Seq<char>, eb: Seq<u8>, rest: Seq<u8>|
                            #![trigger is_enc_str(eb, s), eb + rest]
                            is_enc_str(eb, s) && buf@.skip(pos as int) == eb + rest implies st@
                            == s && eb.len() == p1 + nn - pos by {
                            let w = strhead_width(eb[0]);
                            let ulen = vstd::utf8::encode_utf8(s).len() as u64;
                            assert(n == ulen && p1 == pos + w);
                            assert(buf@.skip(pos as int).skip(w) =~= buf@.skip(p1 as int));
                            assert((eb.take(w) + (vstd::utf8::encode_utf8(s) + rest)).skip(w)
                                =~= vstd::utf8::encode_utf8(s) + rest);
                            assert(payload =~= buf@.skip(p1 as int).subrange(0, n as int));
                            assert((vstd::utf8::encode_utf8(s) + rest).subrange(0, n as int)
                                =~= vstd::utf8::encode_utf8(s));
                            assert(vstd::utf8::encode_utf8(st@) == vstd::utf8::encode_utf8(s));
                            vstd::utf8::encode_utf8_decode_utf8(st@);
                            vstd::utf8::encode_utf8_decode_utf8(s);
                        }
                    }
                    Result::Ok((st, p1 + nn))
                },
                Option::None => {
                    proof {
                        assert forall|s: Seq<char>, eb: Seq<u8>, rest: Seq<u8>|
                            #![trigger is_enc_str(eb, s), eb + rest]
                            is_enc_str(eb, s) implies buf@.skip(pos as int) != eb + rest by {
                            if buf@.skip(pos as int) == eb + rest {
                                let w = strhead_width(eb[0]);
                                let ulen = vstd::utf8::encode_utf8(s).len() as u64;
                                assert(n == ulen && p1 == pos + w);
                                assert(buf@.skip(pos as int).skip(w) =~= buf@.skip(p1 as int));
                                assert((eb.take(w) + (vstd::utf8::encode_utf8(s) + rest)).skip(w)
                                    =~= vstd::utf8::encode_utf8(s) + rest);
                                assert(payload =~= buf@.skip(p1 as int).subrange(0, n as int));
                                assert((vstd::utf8::encode_utf8(s) + rest).subrange(0, n as int)
                                    =~= vstd::utf8::encode_utf8(s));
                                vstd::utf8::encode_utf8_valid_utf8(s);
                                assert(vstd::utf8::valid_utf8(payload));
                                assert(false);
                            }
                        }
                    }
                    Result::Err(DecodeError::Malformed)
                },
            }
        },
        Result::Err(e) => {
            proof {
                assert forall|s: Seq<char>, eb: Seq<u8>, rest: Seq<u8>|
                    #![trigger is_enc_str(eb, s), eb + rest]
                    is_enc_str(eb, s) implies buf@.skip(pos as int) != eb + rest by {
                    if buf@.skip(pos as int) == eb + rest {
                        assert(false);
                    }
                }
            }
            Result::Err(e)
        },
    }
}

// ---------------------------------------------------------------------------
// binaries
// ---------------------------------------------------------------------------

/// Whether a byte string fits the wire format.
pub open spec fn bin_ok(b: Seq<u8>) -> bool {
    b.len() < 0x100000000
}

/// The canonical encoding of a byte string: a minimal length header
/// followed by the bytes.
pub open spec fn enc_bin(b: Seq<u8>) -> Seq<u8> {
    enc_binhead(b.len() as u64) + b
}

/// How many bytes a binary header starting with this byte occupies.
pub open spec fn binhead_width(t: u8) -> int {
    if t == 0xc4 {
        2
    } else if t == 0xc5 {
        3
    } else {
        5
    }
}

/// Every well-formed wire form of a byte string: a header of any width
/// followed by the bytes.
pub open spec fn is_enc_bin(b: Seq<u8>, p: Seq<u8>) -> bool {
    &&& bin_ok(p)
    &&& b.len() >= 1
    &&& binhead_width(b[0]) <= b.len()
    &&& is_enc_binhead(b.take(binhead_width(b[0])), p.len() as u64)
    &&& b.skip(binhead_width(b[0])) == p
}

/// A well-formed binary header is as long as its first byte announces.
pub proof fn lemma_binhead_width(hb: Seq<u8>, n: u64)
    requires
        is_enc_binhead(hb, n),
    ensures
        hb.len() == binhead_width(hb[0]),
        leads_binhead(hb[0]),
{
}

/// The canonical form is one of the well-formed forms.
pub proof fn lemma_enc_bin_is_enc(p: Seq<u8>)
    requires
        bin_ok(p),
    ensures
        is_enc_bin(enc_bin(p), p),
{
    let hb = enc_binhead(p.len() as u64);
    lemma_enc_binhead_is_enc(p.len() as u64);
    lemma_binhead_width(hb, p.len() as u64);
    assert(enc_bin(p)[0] == hb[0]);
    assert(enc_bin(p).take(hb.len() as int) =~= hb);
    assert(enc_bin(p).skip(hb.len() as int) =~= p);
}

/// Appends the canonical encoding of a byte string.
pub fn put_bin(out: &mut Vec<u8>, b: &Vec<u8>)
    requires
        bin_ok(b@),
    ensures
        final(out)@ == old(out)@ + enc_bin(b@),
{
    let n = b.len();
    put_binhead(out, n as u64);
    out.extend_from_slice(b.as_slice());
    proof {
        assert(out@ =~= old(out)@ + enc_bin(b@));
    }
}

/// Reads back a byte string: succeeds exactly on a well-formed encoding
/// at `pos`, recovering the bytes and stepping past them.
#[verifier::rlimit(100)]
pub fn get_bin(buf: &Vec<u8>, pos: usize) -> (r: Result<(Vec<u8>, usize), DecodeError>)
    requires
        pos <= buf@.len(),
    ensures
        r matches Ok(o) ==> pos < o.1 <= buf@.len() && bin_ok(o.0@) && is_enc_bin(
            buf@.subrange(pos as int, o.1 as int),
            o.0@,
        ),
        forall|p: Seq<u8>, eb: Seq<u8>, rest: Seq<u8>|
            #![trigger is_enc_bin(eb, p), eb + rest]
            is_enc_bin(eb, p) && buf@.skip(pos as int) == eb + rest ==> (r matches Ok(o) && o.0@
                == p && o.1 == pos + eb.len()),
        r == Result::<(Vec<u8>, usize), DecodeError>::Err(DecodeError::TypeMismatch) ==> pos
            < buf@.len() && defined_lead(buf@[pos as int]) && !leads_binhead(buf@[pos as int]),
{
    proof {
        assert forall|p: Seq<u8>, eb: Seq<u8>, rest: Seq<u8>|
            #![trigger is_enc_bin(eb, p), eb + rest]
            is_enc_bin(eb, p) && buf@.skip(pos as int) == eb + rest implies ({
            let w = binhead_width(eb[0]);
            &&& is_enc_binhead(eb.take(w), p.len() as u64)
            &&& buf@.skip(pos as int) == eb.take(w) + (p + rest)
            &&& eb.take(w).len() == w
            &&& eb.len() == w + p.len()
        }) by {
            let w = binhead_width(eb[0]);
            assert(eb + rest =~= eb.take(w) + (eb.skip(w) + rest));
            assert(eb.skip(w).len() == eb.len() - w);
        }
    }
    let head = get_binhead(buf, pos);
    match head {
        Result::Ok((n, p1)) => {
            let len = buf.len();
            let avail: u64 = (len - p1) as u64;
            if avail < n {
                proof {
                    assert forall|p: Seq<u8>, eb: Seq<u8>, rest: Seq<u8>|
                        #![trigger is_enc_bin(eb, p), eb + rest]
                        is_enc_bin(eb, p) implies buf@.skip(pos as int) != eb + rest by {
                        if buf@.skip(pos as int) == eb + rest {
                            let w = binhead_width(eb[0]);
                            assert(n == p.len() && p1 == pos + w);
                            assert(buf@.skip(pos as int).len() >= eb.len());
                            assert(false);
                        }
                    }
                }
                return Result::Err(DecodeError::Malformed);
            }
            let nn = n as usize;
            let bs = read_bytes(buf, p1, nn);
            proof {
                let b2 = buf@.subrange(pos as int, p1 + nn);
                assert(b2.take(p1 - pos) =~= buf@.subrange(pos as int, p1 as int));
                lemma_binhead_width(buf@.subrange(pos as int, p1 as int), n);
                assert(b2[0] == buf@.subrange(pos as int, p1 as int)[0]);
                assert(binhead_width(b2[0]) == p1 - pos);
                assert(b2.skip(p1 - pos) =~= buf@.subrange(p1 as int, p1 + nn));
                assert(is_enc_bin(b2, bs@));
                assert forall|p: Seq<u8>, eb: Seq<u8>, rest: Seq<u8>|
                    #![trigger is_enc_bin(eb, p), eb + rest]
                    is_enc_bin(eb, p) && buf@.skip(pos as int) == eb + rest implies bs@ == p
                    && eb.len() == p1 + nn - pos by {
                    let w = binhead_width(eb[0]);
                    assert(n == p.len() && p1 == pos + w);
                    assert(buf@.skip(pos as int).skip(w) =~= buf@.skip(p1 as int));
                    assert((eb.take(w) + (p + rest)).skip(w) =~= p + rest);
                    assert(bs@ =~= buf@.skip(p1 as int).subrange(0, n as int));
                    assert((p + rest).subrange(0, n as int) =~= p);
                }
            }
            Result::Ok((bs, p1 + nn))
        },
        Result::Err(e) => {
            proof {
                assert forall|p: Seq<u8>, eb: Seq<u8>, rest: Seq<u8>|
                    #![trigger is_enc_bin(eb, p), eb + rest]
                    is_enc_bin(eb, p) implies buf@.skip(pos as int) != eb + rest by {
                    if buf@.skip(pos as int) == eb + rest {
                        assert(false);
                    }
                }
            }
            Result::Err(e)
        },
    }
}
} // verus!
