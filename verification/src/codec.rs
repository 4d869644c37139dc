//! The message codec: MessagePack encodings of the wire messages.
//!
//! Messages travel as maps with named, camelCase keys, in declaration
//! order — the order the named encoder here and the protocol's own clients
//! emit. Each message has a canonical encoding (`enc_*` over the message's
//! view), which the encoders produce byte for byte, and an encoding
//! relation (`is_enc_*`): the same fields in the same order, with every
//! scalar and length header admitted at any well-formed width. A decoder
//! returns `Ok(m)` precisely on the well-formed forms of `m`, consumed in
//! full, and the canonical form is always among them
//! (`lemma_enc_*_accepted`), so decoding inverts encoding.
use vstd::prelude::*;

use crate::msgpack::DecodeError;
use crate::msgpack::enc_maphead;
use crate::msgpack::enc_str;
use crate::msgpack::enc_uint;
use crate::msgpack::is_enc_maphead;
use crate::msgpack::is_enc_str;
use crate::msgpack::is_enc_uint;
use crate::msgpack::get_maphead;
use crate::msgpack::get_str;
use crate::msgpack::get_uint;
use crate::msgpack::put_maphead;
use crate::msgpack::put_str;
use crate::msgpack::put_uint;
use crate::msgpack::str_ok;
use crate::structures::MsgConnect;
use crate::structures::MsgSkillClose;
use crate::structures::SpecMsgConnect;
use crate::structures::SpecMsgSkillClose;

verus! {


/// The CoAP status a decoding failure is answered with: a wrong-shaped
/// field maps onto 4.13, any other parse failure onto 4.00.
pub fn decode_error_status(e: DecodeError) -> (r: crate::status::ResponseStatus)
    ensures
        r == match e {
            DecodeError::TypeMismatch => crate::status::ResponseStatus::RequestEntityIncomplete,
            DecodeError::Malformed => crate::status::ResponseStatus::BadRequest,
        },
{
    match e {
        DecodeError::TypeMismatch => crate::status::ResponseStatus::RequestEntityIncomplete,
        DecodeError::Malformed => crate::status::ResponseStatus::BadRequest,
    }
}

// ---------------------------------------------------------------------------
// generic pieces
// ---------------------------------------------------------------------------

/// The concatenated encodings of a sequence of items, each encoded by `f`.
pub open spec fn enc_seq_of<T>(s: Seq<T>, f: spec_fn(T) -> Seq<u8>) -> Seq<u8>
    decreases s.len(),
{
    if s.len() == 0 {
        Seq::empty()
    } else {
        f(s[0]) + enc_seq_of(s.drop_first(), f)
    }
}

/// Appending one item to a sequence appends its encoding.
pub proof fn lemma_enc_seq_of_push<T>(s: Seq<T>, f: spec_fn(T) -> Seq<u8>, x: T)
    ensures
        enc_seq_of(s.push(x), f) == enc_seq_of(s, f) + f(x),
    decreases s.len(),
{
    reveal_with_fuel(enc_seq_of, 3);
    if s.len() == 0 {
        assert(s.push(x).drop_first() =~= Seq::<T>::empty());
        assert(s.push(x)[0] == x);
        assert(enc_seq_of(s.push(x), f) =~= enc_seq_of(s, f) + f(x));
    } else {
        lemma_enc_seq_of_push(s.drop_first(), f, x);
        assert(s.push(x).drop_first() =~= s.drop_first().push(x));
        assert(s.push(x)[0] == s[0]);
        assert(enc_seq_of(s.push(x), f) =~= enc_seq_of(s, f) + f(x));
    }
}


/// An ASCII key of bounded length fits the wire format.
proof fn lemma_ascii_key_ok(s: Seq<char>)
    requires
        vstd::utf8::is_ascii_chars(s),
        s.len() < 0x100000000,
    ensures
        str_ok(s),
{
    vstd::utf8::is_ascii_chars_encode_utf8(s);
}

/// The encoding of a fixed map key.
pub open spec fn enc_key(k: Seq<char>) -> Seq<u8> {
    enc_str(k)
}

/// Appends a map key.
pub fn put_key(out: &mut Vec<u8>, k: &str)
    requires
        str_ok(k@),
    ensures
        final(out)@ == old(out)@ + enc_key(k@),
{
    put_str(out, k);
}

/// Every well-formed wire form of the key `k`.
pub open spec fn is_enc_key(b: Seq<u8>, k: Seq<char>) -> bool {
    is_enc_str(b, k)
}

/// Reads a map key and checks it is the expected one: succeeds exactly on
/// a well-formed encoding of `k` standing at `pos`. A well-formed string
/// that is a different key is malformed input here, since fields arrive in
/// declaration order.
pub fn get_key(buf: &Vec<u8>, pos: usize, k: &str) -> (r: Result<usize, DecodeError>)
    requires
        pos <= buf@.len(),
        str_ok(k@),
    ensures
        r matches Ok(p) ==> pos < p <= buf@.len() && is_enc_key(
            buf@.subrange(pos as int, p as int),
            k@,
        ),
        forall|eb: Seq<u8>, rest: Seq<u8>|
            #![trigger is_enc_key(eb, k@), eb + rest]
            is_enc_key(eb, k@) && buf@.skip(pos as int) == eb + rest ==> (r matches Ok(p) && p
                == pos + eb.len()),
{
    let got = get_str(buf, pos);
    match got {
        Result::Ok((st, p)) => {
            let expect = String::from_str(k);
            if st == expect {
                Result::Ok(p)
            } else {
                proof {
                    assert forall|eb: Seq<u8>, rest: Seq<u8>|
                        #![trigger is_enc_key(eb, k@), eb + rest]
                        is_enc_key(eb, k@) implies buf@.skip(pos as int) != eb + rest by {
                        if buf@.skip(pos as int) == eb + rest {
                            assert(st@ == k@);
                            assert(false);
                        }
                    }
                }
                Result::Err(DecodeError::Malformed)
            }
        },
        Result::Err(e) => {
            proof {
                assert forall|eb: Seq<u8>, rest: Seq<u8>|
                    #![trigger is_enc_key(eb, k@), eb + rest]
                    is_enc_key(eb, k@) implies buf@.skip(pos as int) != eb + rest by {
                    if buf@.skip(pos as int) == eb + rest {
                        assert(false);
                    }
                }
            }
            Result::Err(e)
        },
    }
}

/// The canonical encoding of an optional string: nil when absent.
pub open spec fn enc_opt_str(o: Option<Seq<char>>) -> Seq<u8> {
    match o {
        Option::Some(s) => enc_str(s),
        Option::None => seq![0xc0u8],
    }
}

/// Whether an optional string fits the wire format.
pub open spec fn opt_str_ok(o: Option<Seq<char>>) -> bool {
    match o {
        Option::Some(s) => str_ok(s),
        Option::None => true,
    }
}

/// Every well-formed wire form of an optional string: nil when absent, a
/// string of any header width when present.
pub open spec fn is_enc_opt_str(b: Seq<u8>, o: Option<Seq<char>>) -> bool {
    match o {
        Option::Some(s) => is_enc_str(b, s),
        Option::None => b == seq![0xc0u8],
    }
}

/// The canonical form is one of the well-formed forms.
pub proof fn lemma_enc_opt_str_is_enc(o: Option<Seq<char>>)
    requires
        opt_str_ok(o),
    ensures
        is_enc_opt_str(enc_opt_str(o), o),
{
    match o {
        Option::Some(s) => {
            crate::msgpack::lemma_enc_str_is_enc(s);
        },
        Option::None => {},
    }
}

/// Appends an optional string.
pub fn put_opt_str(out: &mut Vec<u8>, o: &Option<String>)
    requires
        opt_str_ok(o.deep_view()),
    ensures
        final(out)@ == old(out)@ + enc_opt_str(o.deep_view()),
{
    match o {
        Option::Some(s) => put_str(out, s.as_str()),
        Option::None => {
            out.push(0xc0);
            proof {
                assert(out@ =~= old(out)@ + enc_opt_str(o.deep_view()));
            }
        },
    }
}

/// Reads back an optional string: succeeds exactly on nil or on a
/// well-formed string encoding at `pos`.
#[verifier::rlimit(100)]
pub fn get_opt_str(buf: &Vec<u8>, pos: usize) -> (r: Result<(Option<String>, usize), DecodeError>)
    requires
        pos <= buf@.len(),
    ensures
        r matches Ok(o) ==> pos < o.1 <= buf@.len() && opt_str_ok(o.0.deep_view())
            && is_enc_opt_str(buf@.subrange(pos as int, o.1 as int), o.0.deep_view()),
        forall|o: Option<Seq<char>>, eb: Seq<u8>, rest: Seq<u8>|
            #![trigger is_enc_opt_str(eb, o), eb + rest]
            is_enc_opt_str(eb, o) && buf@.skip(pos as int) == eb + rest ==> (r matches Ok(q)
                && q.0.deep_view() == o && q.1 == pos + eb.len()),
{
    let len = buf.len();
    if pos < len && buf[pos] == 0xc0 {
        proof {
            let none: Option<Seq<char>> = Option::None;
            assert(buf@.subrange(pos as int, pos as int + 1) =~= seq![0xc0u8]);
            assert(is_enc_opt_str(buf@.subrange(pos as int, pos as int + 1), none));
            assert forall|o: Option<Seq<char>>, eb: Seq<u8>, rest: Seq<u8>|
                #![trigger is_enc_opt_str(eb, o), eb + rest]
                is_enc_opt_str(eb, o) && buf@.skip(pos as int) == eb + rest implies o is None
                && eb.len() == 1 by {
                assert((eb + rest)[0] == eb[0]);
                assert(eb[0] == 0xc0);
                if o is Some {
                    let s = o->0;
                    let w = crate::msgpack::strhead_width(eb[0]);
                    crate::msgpack::lemma_strhead_width(
                        eb.take(w),
                        vstd::utf8::encode_utf8(s).len() as u64,
                    );
                    assert(eb.take(w)[0] == eb[0]);
                    assert(crate::msgpack::leads_strhead(eb[0]));
                    assert(false);
                }
            }
        }
        return Result::Ok((Option::None, pos + 1));
    }
    let got = get_str(buf, pos);
    match got {
        Result::Ok((st, p)) => {
            proof {
                let some: Option<String> = Option::Some(st);
                assert(is_enc_opt_str(buf@.subrange(pos as int, p as int), some.deep_view()));
                assert forall|o: Option<Seq<char>>, eb: Seq<u8>, rest: Seq<u8>|
                    #![trigger is_enc_opt_str(eb, o), eb + rest]
                    is_enc_opt_str(eb, o) && buf@.skip(pos as int) == eb + rest implies o
                    == Option::Some(st@) && eb.len() == p - pos by {
                    if o is None {
                        assert((eb + rest)[0] == eb[0]);
                        assert(eb[0] == 0xc0);
                        assert(buf@.skip(pos as int).len() >= 1);
                        assert(pos < buf@.len());
                        assert(buf@.skip(pos as int)[0] == buf@[pos as int]);
                        assert(false);
                    } else {
                        let sv = o->0;
                        assert(is_enc_str(eb, sv));
                        assert(st@ == sv);
                    }
                }
            }
            Result::Ok((Option::Some(st), p))
        },
        Result::Err(e) => {
            proof {
                assert forall|o: Option<Seq<char>>, eb: Seq<u8>, rest: Seq<u8>|
                    #![trigger is_enc_opt_str(eb, o), eb + rest]
                    is_enc_opt_str(eb, o) implies buf@.skip(pos as int) != eb + rest by {
                    if buf@.skip(pos as int) == eb + rest {
                        if o is None {
                            assert((eb + rest)[0] == eb[0]);
                            assert(eb[0] == 0xc0);
                            assert(buf@.skip(pos as int).len() >= 1);
                            assert(pos < buf@.len());
                            assert(buf@.skip(pos as int)[0] == buf@[pos as int]);
                            assert(false);
                        } else {
                            assert(is_enc_str(eb, o->0));
                            assert(false);
                        }
                    }
                }
            }
            Result::Err(e)
        },
    }
}

// ---------------------------------------------------------------------------
// named fields
// ---------------------------------------------------------------------------

/// The canonical encoding of a named string field.
pub open spec fn enc_kv_str(k: Seq<char>, s: Seq<char>) -> Seq<u8> {
    enc_key(k) + enc_str(s)
}

/// The canonical encoding of a named optional string field.
pub open spec fn enc_kv_opt_str(k: Seq<char>, o: Option<Seq<char>>) -> Seq<u8> {
    enc_key(k) + enc_opt_str(o)
}

/// The canonical encoding of a named unsigned integer field.
pub open spec fn enc_kv_uint(k: Seq<char>, n: u64) -> Seq<u8> {
    enc_key(k) + enc_uint(n)
}

/// Every well-formed wire form of a named string field: the key, then the
/// value, each of any width.
pub open spec fn is_enc_kv_str(b: Seq<u8>, k: Seq<char>, s: Seq<char>) -> bool {
    exists|i: int|
        0 <= i <= b.len() && #[trigger] is_enc_key(b.take(i), k) && is_enc_str(b.skip(i), s)
}

/// Every well-formed wire form of a named optional string field.
pub open spec fn is_enc_kv_opt_str(b: Seq<u8>, k: Seq<char>, o: Option<Seq<char>>) -> bool {
    exists|i: int|
        0 <= i <= b.len() && #[trigger] is_enc_key(b.take(i), k) && is_enc_opt_str(b.skip(i), o)
}

/// Every well-formed wire form of a named unsigned integer field.
pub open spec fn is_enc_kv_uint(b: Seq<u8>, k: Seq<char>, n: u64) -> bool {
    exists|i: int|
        0 <= i <= b.len() && #[trigger] is_enc_key(b.take(i), k) && is_enc_uint(b.skip(i), n)
}

/// The canonical form of a named string field is one of the well-formed
/// forms.
pub proof fn lemma_enc_kv_str_is_enc(k: Seq<char>, s: Seq<char>)
    requires
        str_ok(k),
        str_ok(s),
    ensures
        is_enc_kv_str(enc_kv_str(k, s), k, s),
{
    let b = enc_kv_str(k, s);
    let i = enc_key(k).len() as int;
    crate::msgpack::lemma_enc_str_is_enc(k);
    crate::msgpack::lemma_enc_str_is_enc(s);
    assert(b.take(i) =~= enc_key(k));
    assert(b.skip(i) =~= enc_str(s));
    assert(is_enc_key(b.take(i), k));
}

/// The canonical form of a named optional string field is one of the
/// well-formed forms.
pub proof fn lemma_enc_kv_opt_str_is_enc(k: Seq<char>, o: Option<Seq<char>>)
    requires
        str_ok(k),
        opt_str_ok(o),
    ensures
        is_enc_kv_opt_str(enc_kv_opt_str(k, o), k, o),
{
    let b = enc_kv_opt_str(k, o);
    let i = enc_key(k).len() as int;
    crate::msgpack::lemma_enc_str_is_enc(k);
    lemma_enc_opt_str_is_enc(o);
    assert(b.take(i) =~= enc_key(k));
    assert(b.skip(i) =~= enc_opt_str(o));
    assert(is_enc_key(b.take(i), k));
}

/// Reads a named string field: succeeds exactly on a well-formed encoding
/// of the key `k` followed by a string.
#[verifier::rlimit(100)]
pub fn get_kv_str(buf: &Vec<u8>, pos: usize, k: &str) -> (r: Result<(String, usize), DecodeError>)
    requires
        pos <= buf@.len(),
        str_ok(k@),
    ensures
        r matches Ok(o) ==> pos < o.1 <= buf@.len() && str_ok(o.0@) && is_enc_kv_str(
            buf@.subrange(pos as int, o.1 as int),
            k@,
            o.0@,
        ),
        forall|s: Seq<char>, eb: Seq<u8>, rest: Seq<u8>|
            #![trigger is_enc_kv_str(eb, k@, s), eb + rest]
            is_enc_kv_str(eb, k@, s) && buf@.skip(pos as int) == eb + rest ==> (r matches Ok(o)
                && o.0@ == s && o.1 == pos + eb.len()),
{
    proof {
        assert forall|s: Seq<char>, eb: Seq<u8>, rest: Seq<u8>|
            #![trigger is_enc_kv_str(eb, k@, s), eb + rest]
            is_enc_kv_str(eb, k@, s) && buf@.skip(pos as int) == eb + rest implies ({
            let i = choose|i: int|
                0 <= i <= eb.len() && #[trigger] is_enc_key(eb.take(i), k@) && is_enc_str(
                    eb.skip(i),
                    s,
                );
            &&& 0 <= i <= eb.len()
            &&& is_enc_key(eb.take(i), k@)
            &&& is_enc_str(eb.skip(i), s)
            &&& buf@.skip(pos as int) == eb.take(i) + (eb.skip(i) + rest)
            &&& eb.take(i).len() == i
            &&& eb.skip(i).len() == eb.len() - i
        }) by {
            let i = choose|i: int|
                0 <= i <= eb.len() && #[trigger] is_enc_key(eb.take(i), k@) && is_enc_str(
                    eb.skip(i),
                    s,
                );
            assert(eb + rest =~= eb.take(i) + (eb.skip(i) + rest));
        }
    }
    let p1 = match get_key(buf, pos, k) {
        Result::Ok(p) => p,
        Result::Err(e) => {
            proof {
                assert forall|s: Seq<char>, eb: Seq<u8>, rest: Seq<u8>|
                    #![trigger is_enc_kv_str(eb, k@, s), eb + rest]
                    is_enc_kv_str(eb, k@, s) implies buf@.skip(pos as int) != eb + rest by {
                    if buf@.skip(pos as int) == eb + rest {
                        assert(false);
                    }
                }
            }
            return Result::Err(e);
        },
    };
    proof {
        assert forall|s: Seq<char>, eb: Seq<u8>, rest: Seq<u8>|
            #![trigger is_enc_kv_str(eb, k@, s), eb + rest]
            is_enc_kv_str(eb, k@, s) && buf@.skip(pos as int) == eb + rest implies buf@.skip(
            p1 as int,
        ) == eb.skip(p1 - pos) + rest && is_enc_str(eb.skip(p1 - pos), s) by {
            let i = choose|i: int|
                0 <= i <= eb.len() && #[trigger] is_enc_key(eb.take(i), k@) && is_enc_str(
                    eb.skip(i),
                    s,
                );
            assert(p1 == pos + i);
            assert(buf@.skip(pos as int).skip(i) =~= buf@.skip(p1 as int));
            assert((eb.take(i) + (eb.skip(i) + rest)).skip(i) =~= eb.skip(i) + rest);
        }
    }
    let (v, p2) = match get_str(buf, p1) {
        Result::Ok(o) => o,
        Result::Err(e) => {
            proof {
                assert forall|s: Seq<char>, eb: Seq<u8>, rest: Seq<u8>|
                    #![trigger is_enc_kv_str(eb, k@, s), eb + rest]
                    is_enc_kv_str(eb, k@, s) implies buf@.skip(pos as int) != eb + rest by {
                    if buf@.skip(pos as int) == eb + rest {
                        assert(false);
                    }
                }
            }
            return Result::Err(e);
        },
    };
    proof {
        let b2 = buf@.subrange(pos as int, p2 as int);
        assert(b2.take(p1 - pos) =~= buf@.subrange(pos as int, p1 as int));
        assert(b2.skip(p1 - pos) =~= buf@.subrange(p1 as int, p2 as int));
        assert(is_enc_key(b2.take(p1 - pos), k@));
        assert(is_enc_kv_str(b2, k@, v@));
        assert forall|s: Seq<char>, eb: Seq<u8>, rest: Seq<u8>|
            #![trigger is_enc_kv_str(eb, k@, s), eb + rest]
            is_enc_kv_str(eb, k@, s) && buf@.skip(pos as int) == eb + rest implies v@ == s
            && eb.len() == p2 - pos by {
            assert(buf@.skip(p1 as int) == eb.skip(p1 - pos) + rest);
            assert(v@ == s);
            assert(p2 == p1 + eb.skip(p1 - pos).len());
        }
    }
    Result::Ok((v, p2))
}

/// Reads a named optional string field: succeeds exactly on a well-formed
/// encoding of the key `k` followed by nil or a string.
#[verifier::rlimit(100)]
pub fn get_kv_opt_str(buf: &Vec<u8>, pos: usize, k: &str) -> (r: Result<
    (Option<String>, usize),
    DecodeError,
>)
    requires
        pos <= buf@.len(),
        str_ok(k@),
    ensures
        r matches Ok(o) ==> pos < o.1 <= buf@.len() && opt_str_ok(o.0.deep_view())
            && is_enc_kv_opt_str(buf@.subrange(pos as int, o.1 as int), k@, o.0.deep_view()),
        forall|o: Option<Seq<char>>, eb: Seq<u8>, rest: Seq<u8>|
            #![trigger is_enc_kv_opt_str(eb, k@, o), eb + rest]
            is_enc_kv_opt_str(eb, k@, o) && buf@.skip(pos as int) == eb + rest ==> (r matches Ok(q)
                && q.0.deep_view() == o && q.1 == pos + eb.len()),
{
    proof {
        assert forall|o: Option<Seq<char>>, eb: Seq<u8>, rest: Seq<u8>|
            #![trigger is_enc_kv_opt_str(eb, k@, o), eb + rest]
            is_enc_kv_opt_str(eb, k@, o) && buf@.skip(pos as int) == eb + rest implies ({
            let i = choose|i: int|
                0 <= i <= eb.len() && #[trigger] is_enc_key(eb.take(i), k@) && is_enc_opt_str(
                    eb.skip(i),
                    o,
                );
            &&& 0 <= i <= eb.len()
            &&& is_enc_key(eb.take(i), k@)
            &&& is_enc_opt_str(eb.skip(i), o)
            &&& buf@.skip(pos as int) == eb.take(i) + (eb.skip(i) + rest)
            &&& eb.take(i).len() == i
            &&& eb.skip(i).len() == eb.len() - i
        }) by {
            let i = choose|i: int|
                0 <= i <= eb.len() && #[trigger] is_enc_key(eb.take(i), k@) && is_enc_opt_str(
                    eb.skip(i),
                    o,
                );
            assert(eb + rest =~= eb.take(i) + (eb.skip(i) + rest));
        }
    }
    let p1 = match get_key(buf, pos, k) {
        Result::Ok(p) => p,
        Result::Err(e) => {
            proof {
                assert forall|o: Option<Seq<char>>, eb: Seq<u8>, rest: Seq<u8>|
                    #![trigger is_enc_kv_opt_str(eb, k@, o), eb + rest]
                    is_enc_kv_opt_str(eb, k@, o) implies buf@.skip(pos as int) != eb + rest by {
                    if buf@.skip(pos as int) == eb + rest {
                        assert(false);
                    }
                }
            }
            return Result::Err(e);
        },
    };
    proof {
        assert forall|o: Option<Seq<char>>, eb: Seq<u8>, rest: Seq<u8>|
            #![trigger is_enc_kv_opt_str(eb, k@, o), eb + rest]
            is_enc_kv_opt_str(eb, k@, o) && buf@.skip(pos as int) == eb + rest implies buf@.skip(
            p1 as int,
        ) == eb.skip(p1 - pos) + rest && is_enc_opt_str(eb.skip(p1 - pos), o) by {
            let i = choose|i: int|
                0 <= i <= eb.len() && #[trigger] is_enc_key(eb.take(i), k@) && is_enc_opt_str(
                    eb.skip(i),
                    o,
                );
            assert(p1 == pos + i);
            assert(buf@.skip(pos as int).skip(i) =~= buf@.skip(p1 as int));
            assert((eb.take(i) + (eb.skip(i) + rest)).skip(i) =~= eb.skip(i) + rest);
        }
    }
    let (v, p2) = match get_opt_str(buf, p1) {
        Result::Ok(o) => o,
        Result::Err(e) => {
            proof {
                assert forall|o: Option<Seq<char>>, eb: Seq<u8>, rest: Seq<u8>|
                    #![trigger is_enc_kv_opt_str(eb, k@, o), eb + rest]
                    is_enc_kv_opt_str(eb, k@, o) implies buf@.skip(pos as int) != eb + rest by {
                    if buf@.skip(pos as int) == eb + rest {
                        assert(false);
                    }
                }
            }
            return Result::Err(e);
        },
    };
    proof {
        let b2 = buf@.subrange(pos as int, p2 as int);
        assert(b2.take(p1 - pos) =~= buf@.subrange(pos as int, p1 as int));
        assert(b2.skip(p1 - pos) =~= buf@.subrange(p1 as int, p2 as int));
        assert(is_enc_key(b2.take(p1 - pos), k@));
        assert(is_enc_kv_opt_str(b2, k@, v.deep_view()));
        assert forall|o: Option<Seq<char>>, eb: Seq<u8>, rest: Seq<u8>|
            #![trigger is_enc_kv_opt_str(eb, k@, o), eb + rest]
            is_enc_kv_opt_str(eb, k@, o) && buf@.skip(pos as int) == eb + rest implies v.deep_view()
            == o && eb.len() == p2 - pos by {
            assert(buf@.skip(p1 as int) == eb.skip(p1 - pos) + rest);
            assert(v.deep_view() == o);
            assert(p2 == p1 + eb.skip(p1 - pos).len());
        }
    }
    Result::Ok((v, p2))
}

/// Reads a named unsigned integer field: succeeds exactly on a
/// well-formed encoding of the key `k` followed by an unsigned integer of
/// any width.
#[verifier::rlimit(100)]
pub fn get_kv_uint(buf: &Vec<u8>, pos: usize, k: &str) -> (r: Result<(u64, usize), DecodeError>)
    requires
        pos <= buf@.len(),
        str_ok(k@),
    ensures
        r matches Ok(o) ==> pos < o.1 <= buf@.len() && is_enc_kv_uint(
            buf@.subrange(pos as int, o.1 as int),
            k@,
            o.0,
        ),
        forall|n: u64, eb: Seq<u8>, rest: Seq<u8>|
            #![trigger is_enc_kv_uint(eb, k@, n), eb + rest]
            is_enc_kv_uint(eb, k@, n) && buf@.skip(pos as int) == eb + rest ==> (r matches Ok(o)
                && o.0 == n && o.1 == pos + eb.len()),
{
    proof {
        assert forall|n: u64, eb: Seq<u8>, rest: Seq<u8>|
            #![trigger is_enc_kv_uint(eb, k@, n), eb + rest]
            is_enc_kv_uint(eb, k@, n) && buf@.skip(pos as int) == eb + rest implies ({
            let i = choose|i: int|
                0 <= i <= eb.len() && #[trigger] is_enc_key(eb.take(i), k@) && is_enc_uint(
                    eb.skip(i),
                    n,
                );
            &&& 0 <= i <= eb.len()
            &&& is_enc_key(eb.take(i), k@)
            &&& is_enc_uint(eb.skip(i), n)
            &&& buf@.skip(pos as int) == eb.take(i) + (eb.skip(i) + rest)
            &&& eb.take(i).len() == i
            &&& eb.skip(i).len() == eb.len() - i
        }) by {
            let i = choose|i: int|
                0 <= i <= eb.len() && #[trigger] is_enc_key(eb.take(i), k@) && is_enc_uint(
                    eb.skip(i),
                    n,
                );
            assert(eb + rest =~= eb.take(i) + (eb.skip(i) + rest));
        }
    }
    let p1 = match get_key(buf, pos, k) {
        Result::Ok(p) => p,
        Result::Err(e) => {
            proof {
                assert forall|n: u64, eb: Seq<u8>, rest: Seq<u8>|
                    #![trigger is_enc_kv_uint(eb, k@, n), eb + rest]
                    is_enc_kv_uint(eb, k@, n) implies buf@.skip(pos as int) != eb + rest by {
                    if buf@.skip(pos as int) == eb + rest {
                        assert(false);
                    }
                }
            }
            return Result::Err(e);
        },
    };
    proof {
        assert forall|n: u64, eb: Seq<u8>, rest: Seq<u8>|
            #![trigger is_enc_kv_uint(eb, k@, n), eb + rest]
            is_enc_kv_uint(eb, k@, n) && buf@.skip(pos as int) == eb + rest implies buf@.skip(
            p1 as int,
        ) == eb.skip(p1 - pos) + rest && is_enc_uint(eb.skip(p1 - pos), n) by {
            let i = choose|i: int|
                0 <= i <= eb.len() && #[trigger] is_enc_key(eb.take(i), k@) && is_enc_uint(
                    eb.skip(i),
                    n,
                );
            assert(p1 == pos + i);
            assert(buf@.skip(pos as int).skip(i) =~= buf@.skip(p1 as int));
            assert((eb.take(i) + (eb.skip(i) + rest)).skip(i) =~= eb.skip(i) + rest);
        }
    }
    let (v, p2) = match get_uint(buf, p1) {
        Result::Ok(o) => o,
        Result::Err(e) => {
            proof {
                assert forall|n: u64, eb: Seq<u8>, rest: Seq<u8>|
                    #![trigger is_enc_kv_uint(eb, k@, n), eb + rest]
                    is_enc_kv_uint(eb, k@, n) implies buf@.skip(pos as int) != eb + rest by {
                    if buf@.skip(pos as int) == eb + rest {
                        assert(false);
                    }
                }
            }
            return Result::Err(e);
        },
    };
    proof {
        let b2 = buf@.subrange(pos as int, p2 as int);
        assert(b2.take(p1 - pos) =~= buf@.subrange(pos as int, p1 as int));
        assert(b2.skip(p1 - pos) =~= buf@.subrange(p1 as int, p2 as int));
        assert(is_enc_key(b2.take(p1 - pos), k@));
        assert(is_enc_kv_uint(b2, k@, v));
        assert forall|n: u64, eb: Seq<u8>, rest: Seq<u8>|
            #![trigger is_enc_kv_uint(eb, k@, n), eb + rest]
            is_enc_kv_uint(eb, k@, n) && buf@.skip(pos as int) == eb + rest implies v == n
            && eb.len() == p2 - pos by {
            assert(buf@.skip(p1 as int) == eb.skip(p1 - pos) + rest);
            assert(v == n);
            assert(p2 == p1 + eb.skip(p1 - pos).len());
        }
    }
    Result::Ok((v, p2))
}

// ---------------------------------------------------------------------------
// skillClose
// ---------------------------------------------------------------------------

/// Whether a close message fits the wire format.
pub open spec fn skill_close_ok(m: SpecMsgSkillClose) -> bool {
    str_ok(m.skill_id)
}

/// The canonical encoding of `MsgSkillClose`: one named field, `skillId`.
pub open spec fn enc_skill_close(m: SpecMsgSkillClose) -> Seq<u8> {
    enc_maphead(1) + enc_kv_str("skillId"@, m.skill_id)
}

/// Every well-formed wire form of `MsgSkillClose`: a one-entry map header
/// of any width, then the named field, consumed in full.
pub open spec fn is_enc_skill_close(b: Seq<u8>, m: SpecMsgSkillClose) -> bool {
    exists|q0: int|
        0 <= q0 <= b.len() && #[trigger] is_enc_maphead(b.take(q0), 1) && is_enc_kv_str(
            b.skip(q0),
            "skillId"@,
            m.skill_id,
        )
}

/// The canonical encoding is one of the well-formed forms.
pub proof fn lemma_enc_skill_close_accepted(m: SpecMsgSkillClose)
    requires
        skill_close_ok(m),
    ensures
        is_enc_skill_close(enc_skill_close(m), m),
{
    reveal_strlit("skillId");
    lemma_ascii_key_ok("skillId"@);
    let b = enc_skill_close(m);
    let q0 = enc_maphead(1).len() as int;
    crate::msgpack::lemma_enc_maphead_is_enc(1);
    assert(b.take(q0) =~= enc_maphead(1));
    assert(b.skip(q0) =~= enc_kv_str("skillId"@, m.skill_id));
    lemma_enc_kv_str_is_enc("skillId"@, m.skill_id);
    assert(is_enc_maphead(b.take(q0), 1));
}

/// Encodes a `MsgSkillClose`.
pub fn encode_skill_close(m: &MsgSkillClose) -> (r: Vec<u8>)
    requires
        skill_close_ok(m@),
    ensures
        r@ == enc_skill_close(m@),
{
    let mut out: Vec<u8> = Vec::new();
    put_maphead(&mut out, 1);
    proof {
        reveal_strlit("skillId");
        lemma_ascii_key_ok("skillId"@);
    }
    put_key(&mut out, "skillId");
    put_str(&mut out, m.skill_id.as_str());
    proof {
        assert(out@ =~= enc_skill_close(m@));
    }
    out
}

/// Decodes a `MsgSkillClose`: succeeds exactly on a well-formed encoding
/// of one, consumed in full.
#[verifier::rlimit(100)]
pub fn decode_skill_close(buf: &Vec<u8>) -> (r: Result<MsgSkillClose, DecodeError>)
    ensures
        r matches Ok(m) ==> skill_close_ok(m@) && is_enc_skill_close(buf@, m@),
        forall|m: SpecMsgSkillClose|
            #[trigger] is_enc_skill_close(buf@, m) ==> (r matches Ok(o) && o@ == m),
{
    proof {
        reveal_strlit("skillId");
        lemma_ascii_key_ok("skillId"@);
        assert forall|m: SpecMsgSkillClose| #[trigger] is_enc_skill_close(buf@, m) implies ({
            let q0 = choose|q0: int|
                0 <= q0 <= buf@.len() && #[trigger] is_enc_maphead(buf@.take(q0), 1)
                    && is_enc_kv_str(buf@.skip(q0), "skillId"@, m.skill_id);
            &&& 0 <= q0 <= buf@.len()
            &&& buf@.skip(0) == buf@.take(q0) + buf@.skip(q0)
            &&& is_enc_maphead(buf@.take(q0), 1)
            &&& is_enc_kv_str(buf@.skip(q0), "skillId"@, m.skill_id)
            &&& buf@.take(q0).len() == q0
        }) by {
            let q0 = choose|q0: int|
                0 <= q0 <= buf@.len() && #[trigger] is_enc_maphead(buf@.take(q0), 1)
                    && is_enc_kv_str(buf@.skip(q0), "skillId"@, m.skill_id);
            assert(buf@.skip(0) =~= buf@.take(q0) + buf@.skip(q0));
        }
    }
    let (count, p0) = match get_maphead(buf, 0) {
        Result::Ok(o) => o,
        Result::Err(e) => {
            proof {
                assert forall|m: SpecMsgSkillClose| !(#[trigger] is_enc_skill_close(buf@, m)) by {
                    if is_enc_skill_close(buf@, m) {
                        assert(false);
                    }
                }
            }
            return Result::Err(e);
        },
    };
    if count != 1 {
        proof {
            assert forall|m: SpecMsgSkillClose| !(#[trigger] is_enc_skill_close(buf@, m)) by {
                if is_enc_skill_close(buf@, m) {
                    assert(count == 1);
                    assert(false);
                }
            }
        }
        return Result::Err(DecodeError::Malformed);
    }
    proof {
        assert forall|m: SpecMsgSkillClose| #[trigger] is_enc_skill_close(buf@, m) implies ({
            &&& buf@.skip(p0 as int) == buf@.skip(p0 as int) + Seq::<u8>::empty()
            &&& is_enc_kv_str(buf@.skip(p0 as int), "skillId"@, m.skill_id)
        }) by {
            let q0 = choose|q0: int|
                0 <= q0 <= buf@.len() && #[trigger] is_enc_maphead(buf@.take(q0), 1)
                    && is_enc_kv_str(buf@.skip(q0), "skillId"@, m.skill_id);
            assert(p0 == 0 + buf@.take(q0).len());
            assert(p0 == q0);
            assert(buf@.skip(p0 as int) =~= buf@.skip(p0 as int) + Seq::<u8>::empty());
        }
    }
    let (sid, p1) = match get_kv_str(buf, p0, "skillId") {
        Result::Ok(o) => o,
        Result::Err(e) => {
            proof {
                assert forall|m: SpecMsgSkillClose| !(#[trigger] is_enc_skill_close(buf@, m)) by {
                    if is_enc_skill_close(buf@, m) {
                        assert(false);
                    }
                }
            }
            return Result::Err(e);
        },
    };
    if p1 != buf.len() {
        proof {
            assert forall|m: SpecMsgSkillClose| !(#[trigger] is_enc_skill_close(buf@, m)) by {
                if is_enc_skill_close(buf@, m) {
                    assert(p1 == p0 + buf@.skip(p0 as int).len());
                    assert(false);
                }
            }
        }
        return Result::Err(DecodeError::Malformed);
    }
    let out = MsgSkillClose { skill_id: sid };
    proof {
        assert(buf@.take(p0 as int) =~= buf@.subrange(0, p0 as int));
        assert(buf@.skip(p0 as int) =~= buf@.subrange(p0 as int, p1 as int));
        assert(is_enc_maphead(buf@.take(p0 as int), 1));
        assert(is_enc_kv_str(buf@.skip(p0 as int), "skillId"@, out@.skill_id));
        assert(is_enc_skill_close(buf@, out@));
        assert forall|m: SpecMsgSkillClose| #[trigger] is_enc_skill_close(buf@, m) implies out@
            == m by {
            assert(sid@ == m.skill_id);
        }
    }
    Result::Ok(out)
}

// ---------------------------------------------------------------------------
// connect
// ---------------------------------------------------------------------------

/// Whether a connect message fits the wire format.
pub open spec fn connect_ok(m: SpecMsgConnect) -> bool {
    str_ok(m.id) && str_ok(m.name) && str_ok(m.vap_version) && opt_str_ok(
        m.unique_authentication_token,
    )
}

/// The canonical encoding of `MsgConnect`: the named fields `id`, `name`,
/// `vapVersion` and `uniqueAuthenticationToken`, in declaration order.
pub open spec fn enc_connect(m: SpecMsgConnect) -> Seq<u8> {
    enc_maphead(4) + enc_kv_str("id"@, m.id) + enc_kv_str("name"@, m.name) + enc_kv_str(
        "vapVersion"@,
        m.vap_version,
    ) + enc_kv_opt_str("uniqueAuthenticationToken"@, m.unique_authentication_token)
}

/// Every well-formed wire form of `MsgConnect`: a four-entry map header of
/// any width, then the four named fields in declaration order, each of any
/// width, consumed in full.
pub open spec fn is_enc_connect(b: Seq<u8>, m: SpecMsgConnect) -> bool {
    exists|q0: int, q1: int, q2: int, q3: int|
        #![trigger b.subrange(q0, q1), b.subrange(q2, q3)]
        0 <= q0 <= q1 <= q2 <= q3 <= b.len() && is_enc_maphead(b.take(q0), 4) && is_enc_kv_str(
            b.subrange(q0, q1),
            "id"@,
            m.id,
        ) && is_enc_kv_str(b.subrange(q1, q2), "name"@, m.name) && is_enc_kv_str(
            b.subrange(q2, q3),
            "vapVersion"@,
            m.vap_version,
        ) && is_enc_kv_opt_str(b.skip(q3), "uniqueAuthenticationToken"@, m.unique_authentication_token)
}

/// The canonical encoding is one of the well-formed forms.
pub proof fn lemma_enc_connect_accepted(m: SpecMsgConnect)
    requires
        connect_ok(m),
    ensures
        is_enc_connect(enc_connect(m), m),
{
    reveal_strlit("id");
    lemma_ascii_key_ok("id"@);
    reveal_strlit("name");
    lemma_ascii_key_ok("name"@);
    reveal_strlit("vapVersion");
    lemma_ascii_key_ok("vapVersion"@);
    reveal_strlit("uniqueAuthenticationToken");
    lemma_ascii_key_ok("uniqueAuthenticationToken"@);
    let b = enc_connect(m);
    let q0 = enc_maphead(4).len() as int;
    let q1 = q0 + enc_kv_str("id"@, m.id).len();
    let q2 = q1 + enc_kv_str("name"@, m.name).len();
    let q3 = q2 + enc_kv_str("vapVersion"@, m.vap_version).len();
    crate::msgpack::lemma_enc_maphead_is_enc(4);
    lemma_enc_kv_str_is_enc("id"@, m.id);
    lemma_enc_kv_str_is_enc("name"@, m.name);
    lemma_enc_kv_str_is_enc("vapVersion"@, m.vap_version);
    lemma_enc_kv_opt_str_is_enc("uniqueAuthenticationToken"@, m.unique_authentication_token);
    assert(b.take(q0) =~= enc_maphead(4));
    assert(b.subrange(q0, q1) =~= enc_kv_str("id"@, m.id));
    assert(b.subrange(q1, q2) =~= enc_kv_str("name"@, m.name));
    assert(b.subrange(q2, q3) =~= enc_kv_str("vapVersion"@, m.vap_version));
    assert(b.skip(q3) =~= enc_kv_opt_str(
        "uniqueAuthenticationToken"@,
        m.unique_authentication_token,
    ));
    assert(is_enc_maphead(b.take(q0), 4));
}

/// Encodes a `MsgConnect`.
pub fn encode_connect(m: &MsgConnect) -> (r: Vec<u8>)
    requires
        connect_ok(m@),
    ensures
        r@ == enc_connect(m@),
{
    let mut out: Vec<u8> = Vec::new();
    put_maphead(&mut out, 4);
    proof {
        reveal_strlit("id");
        lemma_ascii_key_ok("id"@);
        reveal_strlit("name");
        lemma_ascii_key_ok("name"@);
        reveal_strlit("vapVersion");
        lemma_ascii_key_ok("vapVersion"@);
        reveal_strlit("uniqueAuthenticationToken");
        lemma_ascii_key_ok("uniqueAuthenticationToken"@);
    }
    put_key(&mut out, "id");
    put_str(&mut out, m.id.as_str());
    put_key(&mut out, "name");
    put_str(&mut out, m.name.as_str());
    put_key(&mut out, "vapVersion");
    put_str(&mut out, m.vap_version.as_str());
    put_key(&mut out, "uniqueAuthenticationToken");
    put_opt_str(&mut out, &m.unique_authentication_token);
    proof {
        assert(out@ =~= enc_connect(m@));
    }
    out
}

/// Decodes a `MsgConnect`: succeeds exactly on a well-formed encoding of
/// one, consumed in full.
#[verifier::rlimit(100)]
pub fn decode_connect(buf: &Vec<u8>) -> (r: Result<MsgConnect, DecodeError>)
    ensures
        r matches Ok(m) ==> connect_ok(m@) && is_enc_connect(buf@, m@),
        forall|m: SpecMsgConnect|
            #[trigger] is_enc_connect(buf@, m) ==> (r matches Ok(o) && o@ == m),
{
    proof {
        reveal_strlit("id");
        lemma_ascii_key_ok("id"@);
        reveal_strlit("name");
        lemma_ascii_key_ok("name"@);
        reveal_strlit("vapVersion");
        lemma_ascii_key_ok("vapVersion"@);
        reveal_strlit("uniqueAuthenticationToken");
        lemma_ascii_key_ok("uniqueAuthenticationToken"@);
        assert forall|m: SpecMsgConnect| #[trigger] is_enc_connect(buf@, m) implies ({
            let (q0, q1, q2, q3) = choose|q0: int, q1: int, q2: int, q3: int|
                #![trigger buf@.subrange(q0, q1), buf@.subrange(q2, q3)]
                0 <= q0 <= q1 <= q2 <= q3 <= buf@.len() && is_enc_maphead(buf@.take(q0), 4)
                    && is_enc_kv_str(buf@.subrange(q0, q1), "id"@, m.id) && is_enc_kv_str(
                    buf@.subrange(q1, q2),
                    "name"@,
                    m.name,
                ) && is_enc_kv_str(buf@.subrange(q2, q3), "vapVersion"@, m.vap_version)
                    && is_enc_kv_opt_str(
                    buf@.skip(q3),
                    "uniqueAuthenticationToken"@,
                    m.unique_authentication_token,
                );
            &&& 0 <= q0 <= q1 <= q2 <= q3 <= buf@.len()
            &&& buf@.skip(0) == buf@.take(q0) + buf@.skip(q0)
            &&& is_enc_maphead(buf@.take(q0), 4)
            &&& buf@.take(q0).len() == q0
        }) by {
            let (q0, q1, q2, q3) = choose|q0: int, q1: int, q2: int, q3: int|
                #![trigger buf@.subrange(q0, q1), buf@.subrange(q2, q3)]
                0 <= q0 <= q1 <= q2 <= q3 <= buf@.len() && is_enc_maphead(buf@.take(q0), 4)
                    && is_enc_kv_str(buf@.subrange(q0, q1), "id"@, m.id) && is_enc_kv_str(
                    buf@.subrange(q1, q2),
                    "name"@,
                    m.name,
                ) && is_enc_kv_str(buf@.subrange(q2, q3), "vapVersion"@, m.vap_version)
                    && is_enc_kv_opt_str(
                    buf@.skip(q3),
                    "uniqueAuthenticationToken"@,
                    m.unique_authentication_token,
                );
            assert(buf@.skip(0) =~= buf@.take(q0) + buf@.skip(q0));
        }
    }
    let (count, p0) = match get_maphead(buf, 0) {
        Result::Ok(o) => o,
        Result::Err(e) => {
            proof {
                assert forall|m: SpecMsgConnect| !(#[trigger] is_enc_connect(buf@, m)) by {
                    if is_enc_connect(buf@, m) {
                        assert(false);
                    }
                }
            }
            return Result::Err(e);
        },
    };
    if count != 4 {
        proof {
            assert forall|m: SpecMsgConnect| !(#[trigger] is_enc_connect(buf@, m)) by {
                if is_enc_connect(buf@, m) {
                    assert(count == 4);
                    assert(false);
                }
            }
        }
        return Result::Err(DecodeError::Malformed);
    }
    proof {
        assert forall|m: SpecMsgConnect| #[trigger] is_enc_connect(buf@, m) implies ({
            let (q0, q1, q2, q3) = choose|q0: int, q1: int, q2: int, q3: int|
                #![trigger buf@.subrange(q0, q1), buf@.subrange(q2, q3)]
                0 <= q0 <= q1 <= q2 <= q3 <= buf@.len() && is_enc_maphead(buf@.take(q0), 4)
                    && is_enc_kv_str(buf@.subrange(q0, q1), "id"@, m.id) && is_enc_kv_str(
                    buf@.subrange(q1, q2),
                    "name"@,
                    m.name,
                ) && is_enc_kv_str(buf@.subrange(q2, q3), "vapVersion"@, m.vap_version)
                    && is_enc_kv_opt_str(
                    buf@.skip(q3),
                    "uniqueAuthenticationToken"@,
                    m.unique_authentication_token,
                );
            &&& p0 == q0
            &&& buf@.skip(p0 as int) == buf@.subrange(q0, q1) + buf@.skip(q1)
            &&& is_enc_kv_str(buf@.subrange(q0, q1), "id"@, m.id)
        }) by {
            let (q0, q1, q2, q3) = choose|q0: int, q1: int, q2: int, q3: int|
                #![trigger buf@.subrange(q0, q1), buf@.subrange(q2, q3)]
                0 <= q0 <= q1 <= q2 <= q3 <= buf@.len() && is_enc_maphead(buf@.take(q0), 4)
                    && is_enc_kv_str(buf@.subrange(q0, q1), "id"@, m.id) && is_enc_kv_str(
                    buf@.subrange(q1, q2),
                    "name"@,
                    m.name,
                ) && is_enc_kv_str(buf@.subrange(q2, q3), "vapVersion"@, m.vap_version)
                    && is_enc_kv_opt_str(
                    buf@.skip(q3),
                    "uniqueAuthenticationToken"@,
                    m.unique_authentication_token,
                );
            assert(p0 == 0 + buf@.take(q0).len());
            assert(buf@.skip(q0) =~= buf@.subrange(q0, q1) + buf@.skip(q1));
        }
    }
    let (v1, p1) = match get_kv_str(buf, p0, "id") {
        Result::Ok(o) => o,
        Result::Err(e) => {
            proof {
                assert forall|m: SpecMsgConnect| !(#[trigger] is_enc_connect(buf@, m)) by {
                    if is_enc_connect(buf@, m) {
                        assert(false);
                    }
                }
            }
            return Result::Err(e);
        },
    };
    proof {
        assert forall|m: SpecMsgConnect| #[trigger] is_enc_connect(buf@, m) implies ({
            let (q0, q1, q2, q3) = choose|q0: int, q1: int, q2: int, q3: int|
                #![trigger buf@.subrange(q0, q1), buf@.subrange(q2, q3)]
                0 <= q0 <= q1 <= q2 <= q3 <= buf@.len() && is_enc_maphead(buf@.take(q0), 4)
                    && is_enc_kv_str(buf@.subrange(q0, q1), "id"@, m.id) && is_enc_kv_str(
                    buf@.subrange(q1, q2),
                    "name"@,
                    m.name,
                ) && is_enc_kv_str(buf@.subrange(q2, q3), "vapVersion"@, m.vap_version)
                    && is_enc_kv_opt_str(
                    buf@.skip(q3),
                    "uniqueAuthenticationToken"@,
                    m.unique_authentication_token,
                );
            &&& p1 == q1
            &&& v1@ == m.id
            &&& buf@.skip(p1 as int) == buf@.subrange(q1, q2) + buf@.skip(q2)
            &&& is_enc_kv_str(buf@.subrange(q1, q2), "name"@, m.name)
        }) by {
            let (q0, q1, q2, q3) = choose|q0: int, q1: int, q2: int, q3: int|
                #![trigger buf@.subrange(q0, q1), buf@.subrange(q2, q3)]
                0 <= q0 <= q1 <= q2 <= q3 <= buf@.len() && is_enc_maphead(buf@.take(q0), 4)
                    && is_enc_kv_str(buf@.subrange(q0, q1), "id"@, m.id) && is_enc_kv_str(
                    buf@.subrange(q1, q2),
                    "name"@,
                    m.name,
                ) && is_enc_kv_str(buf@.subrange(q2, q3), "vapVersion"@, m.vap_version)
                    && is_enc_kv_opt_str(
                    buf@.skip(q3),
                    "uniqueAuthenticationToken"@,
                    m.unique_authentication_token,
                );
            assert(buf@.subrange(q0, q1).len() == q1 - q0);
            assert(p1 == p0 + buf@.subrange(q0, q1).len());
            assert(buf@.skip(q1) =~= buf@.subrange(q1, q2) + buf@.skip(q2));
        }
    }
    let (v2, p2) = match get_kv_str(buf, p1, "name") {
        Result::Ok(o) => o,
        Result::Err(e) => {
            proof {
                assert forall|m: SpecMsgConnect| !(#[trigger] is_enc_connect(buf@, m)) by {
                    if is_enc_connect(buf@, m) {
                        assert(false);
                    }
                }
            }
            return Result::Err(e);
        },
    };
    proof {
        assert forall|m: SpecMsgConnect| #[trigger] is_enc_connect(buf@, m) implies ({
            let (q0, q1, q2, q3) = choose|q0: int, q1: int, q2: int, q3: int|
                #![trigger buf@.subrange(q0, q1), buf@.subrange(q2, q3)]
                0 <= q0 <= q1 <= q2 <= q3 <= buf@.len() && is_enc_maphead(buf@.take(q0), 4)
                    && is_enc_kv_str(buf@.subrange(q0, q1), "id"@, m.id) && is_enc_kv_str(
                    buf@.subrange(q1, q2),
                    "name"@,
                    m.name,
                ) && is_enc_kv_str(buf@.subrange(q2, q3), "vapVersion"@, m.vap_version)
                    && is_enc_kv_opt_str(
                    buf@.skip(q3),
                    "uniqueAuthenticationToken"@,
                    m.unique_authentication_token,
                );
            &&& p2 == q2
            &&& v2@ == m.name
            &&& buf@.skip(p2 as int) == buf@.subrange(q2, q3) + buf@.skip(q3)
            &&& is_enc_kv_str(buf@.subrange(q2, q3), "vapVersion"@, m.vap_version)
        }) by {
            let (q0, q1, q2, q3) = choose|q0: int, q1: int, q2: int, q3: int|
                #![trigger buf@.subrange(q0, q1), buf@.subrange(q2, q3)]
                0 <= q0 <= q1 <= q2 <= q3 <= buf@.len() && is_enc_maphead(buf@.take(q0), 4)
                    && is_enc_kv_str(buf@.subrange(q0, q1), "id"@, m.id) && is_enc_kv_str(
                    buf@.subrange(q1, q2),
                    "name"@,
                    m.name,
                ) && is_enc_kv_str(buf@.subrange(q2, q3), "vapVersion"@, m.vap_version)
                    && is_enc_kv_opt_str(
                    buf@.skip(q3),
                    "uniqueAuthenticationToken"@,
                    m.unique_authentication_token,
                );
            assert(buf@.subrange(q1, q2).len() == q2 - q1);
            assert(p2 == p1 + buf@.subrange(q1, q2).len());
            assert(buf@.skip(q2) =~= buf@.subrange(q2, q3) + buf@.skip(q3));
        }
    }
    let (v3, p3) = match get_kv_str(buf, p2, "vapVersion") {
        Result::Ok(o) => o,
        Result::Err(e) => {
            proof {
                assert forall|m: SpecMsgConnect| !(#[trigger] is_enc_connect(buf@, m)) by {
                    if is_enc_connect(buf@, m) {
                        assert(false);
                    }
                }
            }
            return Result::Err(e);
        },
    };
    proof {
        assert forall|m: SpecMsgConnect| #[trigger] is_enc_connect(buf@, m) implies ({
            let (q0, q1, q2, q3) = choose|q0: int, q1: int, q2: int, q3: int|
                #![trigger buf@.subrange(q0, q1), buf@.subrange(q2, q3)]
                0 <= q0 <= q1 <= q2 <= q3 <= buf@.len() && is_enc_maphead(buf@.take(q0), 4)
                    && is_enc_kv_str(buf@.subrange(q0, q1), "id"@, m.id) && is_enc_kv_str(
                    buf@.subrange(q1, q2),
                    "name"@,
                    m.name,
                ) && is_enc_kv_str(buf@.subrange(q2, q3), "vapVersion"@, m.vap_version)
                    && is_enc_kv_opt_str(
                    buf@.skip(q3),
                    "uniqueAuthenticationToken"@,
                    m.unique_authentication_token,
                );
            &&& p3 == q3
            &&& v3@ == m.vap_version
            &&& buf@.skip(p3 as int) == buf@.skip(q3) + Seq::<u8>::empty()
            &&& is_enc_kv_opt_str(
                buf@.skip(q3),
                "uniqueAuthenticationToken"@,
                m.unique_authentication_token,
            )
        }) by {
            let (q0, q1, q2, q3) = choose|q0: int, q1: int, q2: int, q3: int|
                #![trigger buf@.subrange(q0, q1), buf@.subrange(q2, q3)]
                0 <= q0 <= q1 <= q2 <= q3 <= buf@.len() && is_enc_maphead(buf@.take(q0), 4)
                    && is_enc_kv_str(buf@.subrange(q0, q1), "id"@, m.id) && is_enc_kv_str(
                    buf@.subrange(q1, q2),
                    "name"@,
                    m.name,
                ) && is_enc_kv_str(buf@.subrange(q2, q3), "vapVersion"@, m.vap_version)
                    && is_enc_kv_opt_str(
                    buf@.skip(q3),
                    "uniqueAuthenticationToken"@,
                    m.unique_authentication_token,
                );
            assert(buf@.subrange(q2, q3).len() == q3 - q2);
            assert(p3 == p2 + buf@.subrange(q2, q3).len());
            assert(buf@.skip(q3) =~= buf@.skip(q3) + Seq::<u8>::empty());
        }
    }
    let (v4, p4) = match get_kv_opt_str(buf, p3, "uniqueAuthenticationToken") {
        Result::Ok(o) => o,
        Result::Err(e) => {
            proof {
                assert forall|m: SpecMsgConnect| !(#[trigger] is_enc_connect(buf@, m)) by {
                    if is_enc_connect(buf@, m) {
                        assert(false);
                    }
                }
            }
            return Result::Err(e);
        },
    };
    if p4 != buf.len() {
        proof {
            assert forall|m: SpecMsgConnect| !(#[trigger] is_enc_connect(buf@, m)) by {
                if is_enc_connect(buf@, m) {
                    let (q0, q1, q2, q3) = choose|q0: int, q1: int, q2: int, q3: int|
                #![trigger buf@.subrange(q0, q1), buf@.subrange(q2, q3)]
                0 <= q0 <= q1 <= q2 <= q3 <= buf@.len() && is_enc_maphead(buf@.take(q0), 4)
                    && is_enc_kv_str(buf@.subrange(q0, q1), "id"@, m.id) && is_enc_kv_str(
                    buf@.subrange(q1, q2),
                    "name"@,
                    m.name,
                ) && is_enc_kv_str(buf@.subrange(q2, q3), "vapVersion"@, m.vap_version)
                    && is_enc_kv_opt_str(
                    buf@.skip(q3),
                    "uniqueAuthenticationToken"@,
                    m.unique_authentication_token,
                );
                    assert(p4 == p3 + buf@.skip(q3).len());
                    assert(false);
                }
            }
        }
        return Result::Err(DecodeError::Malformed);
    }
    let out = MsgConnect { id: v1, name: v2, vap_version: v3, unique_authentication_token: v4 };
    proof {
        assert(buf@.take(p0 as int) =~= buf@.subrange(0, p0 as int));
        assert(is_enc_maphead(buf@.take(p0 as int), 4));
        assert(buf@.skip(p3 as int) =~= buf@.subrange(p3 as int, p4 as int));
        assert(is_enc_kv_str(buf@.subrange(p0 as int, p1 as int), "id"@, out@.id));
        assert(is_enc_kv_str(buf@.subrange(p1 as int, p2 as int), "name"@, out@.name));
        assert(is_enc_kv_str(buf@.subrange(p2 as int, p3 as int), "vapVersion"@, out@.vap_version));
        assert(is_enc_kv_opt_str(
            buf@.skip(p3 as int),
            "uniqueAuthenticationToken"@,
            out@.unique_authentication_token,
        ));
        assert(is_enc_connect(buf@, out@));
        assert forall|m: SpecMsgConnect| #[trigger] is_enc_connect(buf@, m) implies out@ == m by {
            assert(v1@ == m.id && v2@ == m.name && v3@ == m.vap_version);
            let (q0, q1, q2, q3) = choose|q0: int, q1: int, q2: int, q3: int|
                #![trigger buf@.subrange(q0, q1), buf@.subrange(q2, q3)]
                0 <= q0 <= q1 <= q2 <= q3 <= buf@.len() && is_enc_maphead(buf@.take(q0), 4)
                    && is_enc_kv_str(buf@.subrange(q0, q1), "id"@, m.id) && is_enc_kv_str(
                    buf@.subrange(q1, q2),
                    "name"@,
                    m.name,
                ) && is_enc_kv_str(buf@.subrange(q2, q3), "vapVersion"@, m.vap_version)
                    && is_enc_kv_opt_str(
                    buf@.skip(q3),
                    "uniqueAuthenticationToken"@,
                    m.unique_authentication_token,
                );
            assert(buf@.skip(p3 as int) == buf@.skip(q3) + Seq::<u8>::empty());
            assert(v4.deep_view() == m.unique_authentication_token);
        }
    }
    Result::Ok(out)
}

} // verus!
