//! The encoder for capability values: every MessagePack value kind the
//! capability data model carries.
//!
//! Each value kind owns exactly one leading tag, so the encoding is a
//! bijection: integers are written at their declared width, floats as
//! their raw bit patterns, and strings, binaries, arrays and maps behind
//! their canonical length headers. The declared width is deliberate: the
//! value model keeps the declared kind (a `U64` holding 5 is not a `U8`),
//! and writing every kind at its own width is what keeps the encoding
//! injective — the most compact width would collapse distinct kinds onto
//! the same bytes.
use vstd::prelude::*;

use crate::msgpack::DecodeError;
use crate::msgpack::be2;
use crate::msgpack::be4;
use crate::msgpack::be8;
use crate::msgpack::bin_ok;
use crate::msgpack::enc_arrhead;
use crate::msgpack::enc_bin;
use crate::msgpack::enc_maphead;
use crate::msgpack::enc_str;
use crate::msgpack::get_arrhead;
use crate::msgpack::get_bin;
use crate::msgpack::get_maphead;
use crate::msgpack::get_str;
use crate::msgpack::leads_arrhead;
use crate::msgpack::leads_binhead;
use crate::msgpack::leads_maphead;
use crate::msgpack::leads_strhead;
use crate::msgpack::put_arrhead;
use crate::msgpack::put_be2;
use crate::msgpack::put_be4;
use crate::msgpack::put_be8;
use crate::msgpack::put_bin;
use crate::msgpack::put_maphead;
use crate::msgpack::put_str;
use crate::msgpack::read_be2;
use crate::msgpack::read_be4;
use crate::msgpack::read_be8;
use crate::msgpack::str_ok;
use crate::structures::SpecValue;
use crate::structures::Value;
use crate::structures::ValueEntry;

verus! {

/// Whether a value fits the wire format: every string, binary, array and
/// map in it is shorter than two to the thirty-second.
pub open spec fn value_ok(v: SpecValue) -> bool
    decreases v,
{
    match v {
        SpecValue::Text(s) => str_ok(s),
        SpecValue::Binary(b) => bin_ok(b),
        SpecValue::Array(a) => a.len() < 0x100000000 && value_seq_ok(a),
        SpecValue::Assoc(m) => m.len() < 0x100000000 && entry_seq_ok(m),
        _ => true,
    }
}

pub open spec fn value_seq_ok(s: Seq<SpecValue>) -> bool
    decreases s,
{
    if s.len() == 0 {
        true
    } else {
        value_ok(s[0]) && value_seq_ok(s.drop_first())
    }
}

pub open spec fn entry_seq_ok(s: Seq<(SpecValue, SpecValue)>) -> bool
    decreases s,
{
    if s.len() == 0 {
        true
    } else {
        value_ok(s[0].0) && value_ok(s[0].1) && entry_seq_ok(s.drop_first())
    }
}

/// The encoding of one value.
pub open spec fn enc_value(v: SpecValue) -> Seq<u8>
    decreases v,
{
    match v {
        SpecValue::Nil => seq![0xc0u8],
        SpecValue::Bool(b) => if b {
            seq![0xc3u8]
        } else {
            seq![0xc2u8]
        },
        SpecValue::U8(n) => seq![0xccu8, n],
        SpecValue::U16(n) => seq![0xcdu8] + be2(n),
        SpecValue::U32(n) => seq![0xceu8] + be4(n),
        SpecValue::U64(n) => seq![0xcfu8] + be8(n),
        SpecValue::I8(n) => seq![0xd0u8, n as u8],
        SpecValue::I16(n) => seq![0xd1u8] + be2(n as u16),
        SpecValue::I32(n) => seq![0xd2u8] + be4(n as u32),
        SpecValue::I64(n) => seq![0xd3u8] + be8(n as u64),
        SpecValue::F32Bits(n) => seq![0xcau8] + be4(n),
        SpecValue::F64Bits(n) => seq![0xcbu8] + be8(n),
        SpecValue::Text(s) => enc_str(s),
        SpecValue::Binary(b) => enc_bin(b),
        SpecValue::Array(a) => enc_arrhead(a.len() as u64) + enc_value_seq(a),
        SpecValue::Assoc(m) => enc_maphead(m.len() as u64) + enc_entry_seq(m),
    }
}

pub open spec fn enc_value_seq(s: Seq<SpecValue>) -> Seq<u8>
    decreases s,
{
    if s.len() == 0 {
        Seq::empty()
    } else {
        enc_value(s[0]) + enc_value_seq(s.drop_first())
    }
}

pub open spec fn enc_entry_seq(s: Seq<(SpecValue, SpecValue)>) -> Seq<u8>
    decreases s,
{
    if s.len() == 0 {
        Seq::empty()
    } else {
        enc_value(s[0].0) + enc_value(s[0].1) + enc_entry_seq(s.drop_first())
    }
}

/// Every value's encoding is at least one byte and starts with the tag of
/// its kind.
pub proof fn lemma_enc_value_shape(v: SpecValue)
    ensures
        enc_value(v).len() >= 1,
        v is Nil ==> enc_value(v)[0] == 0xc0,
        v matches SpecValue::Bool(b0) ==> enc_value(v)[0] == (if b0 {
            0xc3u8
        } else {
            0xc2u8
        }),
        v is U8 ==> enc_value(v)[0] == 0xcc && enc_value(v).len() == 2,
        v is U16 ==> enc_value(v)[0] == 0xcd && enc_value(v).len() == 3,
        v is U32 ==> enc_value(v)[0] == 0xce && enc_value(v).len() == 5,
        v is U64 ==> enc_value(v)[0] == 0xcf && enc_value(v).len() == 9,
        v is I8 ==> enc_value(v)[0] == 0xd0 && enc_value(v).len() == 2,
        v is I16 ==> enc_value(v)[0] == 0xd1 && enc_value(v).len() == 3,
        v is I32 ==> enc_value(v)[0] == 0xd2 && enc_value(v).len() == 5,
        v is I64 ==> enc_value(v)[0] == 0xd3 && enc_value(v).len() == 9,
        v is F32Bits ==> enc_value(v)[0] == 0xca && enc_value(v).len() == 5,
        v is F64Bits ==> enc_value(v)[0] == 0xcb && enc_value(v).len() == 9,
        v is Text ==> leads_strhead(enc_value(v)[0]),
        v is Binary ==> leads_binhead(enc_value(v)[0]),
        v is Array ==> leads_arrhead(enc_value(v)[0]),
        v is Assoc ==> leads_maphead(enc_value(v)[0]),
{
    match v {
        SpecValue::Text(s) => {
            assert(enc_value(v)[0] == crate::msgpack::enc_strhead(
                vstd::utf8::encode_utf8(s).len() as u64,
            )[0]);
        },
        SpecValue::Binary(b) => {
            assert(enc_value(v)[0] == crate::msgpack::enc_binhead(b.len() as u64)[0]);
        },
        SpecValue::Array(a) => {
            assert(enc_value(v)[0] == enc_arrhead(a.len() as u64)[0]);
        },
        SpecValue::Assoc(m) => {
            assert(enc_value(v)[0] == enc_maphead(m.len() as u64)[0]);
        },
        _ => {},
    }
}

/// Appends the encoding of one value.
#[verifier::rlimit(100)]
pub fn put_value(out: &mut Vec<u8>, v: &Value)
    requires
        value_ok(v.model()),
    ensures
        final(out)@ == old(out)@ + enc_value(v.model()),
    decreases v, 0int, 0int,
{
    match v {
        Value::Nil => {
            out.push(0xc0);
            proof {
                assert(out@ =~= old(out)@ + enc_value(v.model()));
            }
        },
        Value::Bool(b) => {
            if *b {
                out.push(0xc3);
            } else {
                out.push(0xc2);
            }
            proof {
                assert(out@ =~= old(out)@ + enc_value(v.model()));
            }
        },
        Value::U8(n) => {
            out.push(0xcc);
            out.push(*n);
            proof {
                assert(out@ =~= old(out)@ + enc_value(v.model()));
            }
        },
        Value::U16(n) => {
            out.push(0xcd);
            put_be2(out, *n);
            proof {
                assert(out@ =~= old(out)@ + enc_value(v.model()));
            }
        },
        Value::U32(n) => {
            out.push(0xce);
            put_be4(out, *n);
            proof {
                assert(out@ =~= old(out)@ + enc_value(v.model()));
            }
        },
        Value::U64(n) => {
            out.push(0xcf);
            put_be8(out, *n);
            proof {
                assert(out@ =~= old(out)@ + enc_value(v.model()));
            }
        },
        Value::I8(n) => {
            out.push(0xd0);
            out.push(#[verifier::truncate] (*n as u8));
            proof {
                assert(out@ =~= old(out)@ + enc_value(v.model()));
            }
        },
        Value::I16(n) => {
            out.push(0xd1);
            put_be2(out, #[verifier::truncate] (*n as u16));
            proof {
                assert(out@ =~= old(out)@ + enc_value(v.model()));
            }
        },
        Value::I32(n) => {
            out.push(0xd2);
            put_be4(out, #[verifier::truncate] (*n as u32));
            proof {
                assert(out@ =~= old(out)@ + enc_value(v.model()));
            }
        },
        Value::I64(n) => {
            out.push(0xd3);
            put_be8(out, #[verifier::truncate] (*n as u64));
            proof {
                assert(out@ =~= old(out)@ + enc_value(v.model()));
            }
        },
        Value::F32Bits(n) => {
            out.push(0xca);
            put_be4(out, *n);
            proof {
                assert(out@ =~= old(out)@ + enc_value(v.model()));
            }
        },
        Value::F64Bits(n) => {
            out.push(0xcb);
            put_be8(out, *n);
            proof {
                assert(out@ =~= old(out)@ + enc_value(v.model()));
            }
        },
        Value::Text(s) => {
            put_str(out, s.as_str());
            proof {
                assert(out@ =~= old(out)@ + enc_value(v.model()));
            }
        },
        Value::Binary(b) => {
            put_bin(out, b);
            proof {
                assert(out@ =~= old(out)@ + enc_value(v.model()));
            }
        },
        Value::Array(a) => {
            let ghost models = Value::model_vec(*a);
            proof {
                crate::structures::Value::lemma_model_seq(a@);
                lemma_value_seq_ok_index(models);
            }
            let n = a.len();
            put_arrhead(out, n as u64);
            let mut i: usize = 0;
            while i < n
                invariant
                    *v == Value::Array(*a),
                    value_ok(v.model()),
                    0 <= i <= n,
                    n == a@.len(),
                    models.len() == n,
                    forall|j: int| 0 <= j < n ==> models[j] == (#[trigger] a@[j]).model(),
                    forall|j: int| 0 <= j < n ==> value_ok(#[trigger] models[j]),
                    out@ == old(out)@ + enc_arrhead(n as u64) + enc_value_seq(models.take(i as int)),
                decreases n - i,
                // The elements of the array sit below the array itself.
            {
                let ghost pre = out@;
                proof {
                    assert(decreases_to!(*v => v->Array_0));
                    assert(v->Array_0 == *a);
                    assert(decreases_to!(*a => a@));
                    assert(decreases_to!(a@ => a@[i as int]));
                    assert(decreases_to!(*v => a@[i as int]));
                }
                put_value(out, &a[i]);
                proof {
                    lemma_enc_value_seq_snoc(models.take(i as int), models[i as int]);
                    assert(models.take(i + 1) =~= models.take(i as int).push(models[i as int]));
                    assert(out@ =~= old(out)@ + enc_arrhead(n as u64) + enc_value_seq(
                        models.take(i + 1),
                    ));
                }
                i = i + 1;
            }
            proof {
                assert(models.take(n as int) =~= models);
                assert(out@ =~= old(out)@ + enc_value(v.model()));
            }
        },
        Value::Assoc(m) => {
            let ghost models = Value::model_entry_vec(*m);
            proof {
                crate::structures::Value::lemma_model_entry_seq(m@);
                lemma_entry_seq_ok_index(models);
            }
            let n = m.len();
            put_maphead(out, n as u64);
            let mut i: usize = 0;
            while i < n
                invariant
                    *v == Value::Assoc(*m),
                    value_ok(v.model()),
                    0 <= i <= n,
                    n == m@.len(),
                    models.len() == n,
                    forall|j: int|
                        0 <= j < n ==> models[j] == crate::structures::Value::model_entry(
                            #[trigger] m@[j],
                        ),
                    forall|j: int|
                        0 <= j < n ==> value_ok((#[trigger] models[j]).0) && value_ok(models[j].1),
                    out@ == old(out)@ + enc_maphead(n as u64) + enc_entry_seq(models.take(i as int)),
                decreases n - i,
            {
                let ghost pre = out@;
                proof {
                    assert(decreases_to!(*v => v->Assoc_0));
                    assert(v->Assoc_0 == *m);
                    assert(decreases_to!(*m => m@));
                    assert(decreases_to!(m@ => m@[i as int]));
                    assert(decreases_to!(m@[i as int] => m@[i as int].key));
                    assert(decreases_to!(m@[i as int] => m@[i as int].val));
                    assert(decreases_to!(*v => m@[i as int].key));
                    assert(decreases_to!(*v => m@[i as int].val));
                }
                put_value(out, &m[i].key);
                put_value(out, &m[i].val);
                proof {
                    lemma_enc_entry_seq_snoc(models.take(i as int), models[i as int]);
                    assert(models.take(i + 1) =~= models.take(i as int).push(models[i as int]));
                    assert(out@ =~= old(out)@ + enc_maphead(n as u64) + enc_entry_seq(
                        models.take(i + 1),
                    ));
                }
                i = i + 1;
            }
            proof {
                assert(models.take(n as int) =~= models);
                assert(out@ =~= old(out)@ + enc_value(v.model()));
            }
        },
    }
}

/// A well-formed value sequence is well formed at every position.
proof fn lemma_value_seq_ok_index(s: Seq<SpecValue>)
    requires
        value_seq_ok(s),
    ensures
        forall|j: int| 0 <= j < s.len() ==> value_ok(#[trigger] s[j]),
    decreases s.len(),
{
    if s.len() > 0 {
        lemma_value_seq_ok_index(s.drop_first());
        assert forall|j: int| 0 <= j < s.len() implies value_ok(#[trigger] s[j]) by {
            if j > 0 {
                assert(s.drop_first()[j - 1] == s[j]);
            }
        }
    }
}

proof fn lemma_entry_seq_ok_index(s: Seq<(SpecValue, SpecValue)>)
    requires
        entry_seq_ok(s),
    ensures
        forall|j: int| 0 <= j < s.len() ==> value_ok((#[trigger] s[j]).0) && value_ok(s[j].1),
    decreases s.len(),
{
    if s.len() > 0 {
        lemma_entry_seq_ok_index(s.drop_first());
        assert forall|j: int| 0 <= j < s.len() implies value_ok((#[trigger] s[j]).0) && value_ok(
            s[j].1,
        ) by {
            if j > 0 {
                assert(s.drop_first()[j - 1] == s[j]);
            }
        }
    }
}

/// The converse: element-wise well-formedness makes the sequence well
/// formed.
proof fn lemma_value_seq_ok_of_index(s: Seq<SpecValue>)
    requires
        forall|j: int| 0 <= j < s.len() ==> value_ok(#[trigger] s[j]),
    ensures
        value_seq_ok(s),
    decreases s.len(),
{
    if s.len() > 0 {
        assert forall|j: int| 0 <= j < s.drop_first().len() implies value_ok(
            #[trigger] s.drop_first()[j],
        ) by {
            assert(s.drop_first()[j] == s[j + 1]);
        }
        lemma_value_seq_ok_of_index(s.drop_first());
    }
}

proof fn lemma_entry_seq_ok_of_index(s: Seq<(SpecValue, SpecValue)>)
    requires
        forall|j: int| 0 <= j < s.len() ==> value_ok((#[trigger] s[j]).0) && value_ok(s[j].1),
    ensures
        entry_seq_ok(s),
    decreases s.len(),
{
    if s.len() > 0 {
        assert forall|j: int| 0 <= j < s.drop_first().len() implies value_ok(
            (#[trigger] s.drop_first()[j]).0,
        ) && value_ok(s.drop_first()[j].1) by {
            assert(s.drop_first()[j] == s[j + 1]);
        }
        lemma_entry_seq_ok_of_index(s.drop_first());
    }
}

/// Appending one value to a sequence appends its encoding.
proof fn lemma_enc_value_seq_snoc(s: Seq<SpecValue>, x: SpecValue)
    ensures
        enc_value_seq(s.push(x)) == enc_value_seq(s) + enc_value(x),
        value_seq_ok(s) && value_ok(x) ==> value_seq_ok(s.push(x)),
    decreases s.len(),
{
    reveal_with_fuel(enc_value_seq, 3);
    reveal_with_fuel(value_seq_ok, 3);
    if s.len() == 0 {
        assert(s.push(x).drop_first() =~= Seq::<SpecValue>::empty());
        assert(s.push(x)[0] == x);
        assert(enc_value_seq(s.push(x)) =~= enc_value_seq(s) + enc_value(x));
    } else {
        lemma_enc_value_seq_snoc(s.drop_first(), x);
        assert(s.push(x).drop_first() =~= s.drop_first().push(x));
        assert(s.push(x)[0] == s[0]);
        assert(enc_value_seq(s.push(x)) =~= enc_value_seq(s) + enc_value(x));
    }
}

proof fn lemma_enc_entry_seq_snoc(s: Seq<(SpecValue, SpecValue)>, x: (SpecValue, SpecValue))
    ensures
        enc_entry_seq(s.push(x)) == enc_entry_seq(s) + enc_value(x.0) + enc_value(x.1),
        entry_seq_ok(s) && value_ok(x.0) && value_ok(x.1) ==> entry_seq_ok(s.push(x)),
    decreases s.len(),
{
    reveal_with_fuel(enc_entry_seq, 3);
    reveal_with_fuel(entry_seq_ok, 3);
    if s.len() == 0 {
        assert(s.push(x).drop_first() =~= Seq::<(SpecValue, SpecValue)>::empty());
        assert(s.push(x)[0] == x);
        assert(enc_entry_seq(s.push(x)) =~= enc_entry_seq(s) + enc_value(x.0) + enc_value(x.1));
    } else {
        lemma_enc_entry_seq_snoc(s.drop_first(), x);
        assert(s.push(x).drop_first() =~= s.drop_first().push(x));
        assert(s.push(x)[0] == s[0]);
        assert(enc_entry_seq(s.push(x)) =~= enc_entry_seq(s) + enc_value(x.0) + enc_value(x.1));
    }
}













// ---------------------------------------------------------------------------
// decoding
// ---------------------------------------------------------------------------

/// How many bytes an array header starting with this byte occupies.
pub open spec fn arrhead_width(t: u8) -> int {
    if 0x90 <= t && t <= 0x9f {
        1
    } else if t == 0xdc {
        3
    } else {
        5
    }
}

/// How many bytes a map header starting with this byte occupies.
pub open spec fn maphead_width(t: u8) -> int {
    if 0x80 <= t && t <= 0x8f {
        1
    } else if t == 0xde {
        3
    } else {
        5
    }
}

/// A well-formed array header is as long as its first byte announces.
pub proof fn lemma_arrhead_width(hb: Seq<u8>, n: u64)
    requires
        crate::msgpack::is_enc_arrhead(hb, n),
    ensures
        hb.len() == arrhead_width(hb[0]),
        leads_arrhead(hb[0]),
{
}

/// A well-formed map header is as long as its first byte announces.
pub proof fn lemma_maphead_width(hb: Seq<u8>, n: u64)
    requires
        crate::msgpack::is_enc_maphead(hb, n),
    ensures
        hb.len() == maphead_width(hb[0]),
        leads_maphead(hb[0]),
{
}

/// Every well-formed wire form of one capability value. Fixed-width kinds
/// have their declared form; a positive one-byte integer is a `U8`, a
/// negative one an `I8`; strings, binaries, arrays and maps admit length
/// headers of any width.
pub open spec fn is_enc_value(b: Seq<u8>, v: SpecValue) -> bool
    decreases v,
{
    match v {
        SpecValue::Nil => b == seq![0xc0u8],
        SpecValue::Bool(b0) => b == (if b0 {
            seq![0xc3u8]
        } else {
            seq![0xc2u8]
        }),
        SpecValue::U8(n) => b == seq![0xccu8, n] || (n < 0x80 && b == seq![n]),
        SpecValue::U16(n) => b == seq![0xcdu8] + be2(n),
        SpecValue::U32(n) => b == seq![0xceu8] + be4(n),
        SpecValue::U64(n) => b == seq![0xcfu8] + be8(n),
        SpecValue::I8(n) => b == seq![0xd0u8, n as u8] || (n < 0 && n >= -32 && b == seq![
            n as u8,
        ]),
        SpecValue::I16(n) => b == seq![0xd1u8] + be2(n as u16),
        SpecValue::I32(n) => b == seq![0xd2u8] + be4(n as u32),
        SpecValue::I64(n) => b == seq![0xd3u8] + be8(n as u64),
        SpecValue::F32Bits(n) => b == seq![0xcau8] + be4(n),
        SpecValue::F64Bits(n) => b == seq![0xcbu8] + be8(n),
        SpecValue::Text(s) => crate::msgpack::is_enc_str(b, s),
        SpecValue::Binary(p) => crate::msgpack::is_enc_bin(b, p),
        SpecValue::Array(a) => {
            &&& a.len() < 0x100000000
            &&& b.len() >= 1
            &&& arrhead_width(b[0]) <= b.len()
            &&& crate::msgpack::is_enc_arrhead(b.take(arrhead_width(b[0])), a.len() as u64)
            &&& is_enc_value_seq(b.skip(arrhead_width(b[0])), a)
        },
        SpecValue::Assoc(m) => {
            &&& m.len() < 0x100000000
            &&& b.len() >= 1
            &&& maphead_width(b[0]) <= b.len()
            &&& crate::msgpack::is_enc_maphead(b.take(maphead_width(b[0])), m.len() as u64)
            &&& is_enc_entry_seq(b.skip(maphead_width(b[0])), m)
        },
    }
}

/// The concatenated well-formed forms of a sequence of values.
pub open spec fn is_enc_value_seq(b: Seq<u8>, elems: Seq<SpecValue>) -> bool
    decreases elems,
{
    if elems.len() == 0 {
        b == Seq::<u8>::empty()
    } else {
        exists|i: int|
            #![trigger b.subrange(0, i)]
            0 <= i <= b.len() && is_enc_value(b.subrange(0, i), elems[0]) && is_enc_value_seq(
                b.skip(i),
                elems.drop_first(),
            )
    }
}

/// The concatenated well-formed forms of a sequence of key/value pairs.
pub open spec fn is_enc_entry_seq(b: Seq<u8>, entries: Seq<(SpecValue, SpecValue)>) -> bool
    decreases entries,
{
    if entries.len() == 0 {
        b == Seq::<u8>::empty()
    } else {
        exists|i: int, j: int|
            #![trigger b.subrange(0, i), b.subrange(i, j)]
            0 <= i <= j <= b.len() && is_enc_value(b.subrange(0, i), entries[0].0) && is_enc_value(
                b.subrange(i, j),
                entries[0].1,
            ) && is_enc_entry_seq(b.skip(j), entries.drop_first())
    }
}

/// Every well-formed value form is at least one byte, starts with the tag
/// family of its kind, and for the fixed-width kinds has a known length.
pub proof fn lemma_is_enc_value_shape(b: Seq<u8>, v: SpecValue)
    requires
        is_enc_value(b, v),
    ensures
        b.len() >= 1,
        v is Nil ==> b[0] == 0xc0,
        v matches SpecValue::Bool(b0) ==> b[0] == (if b0 {
            0xc3u8
        } else {
            0xc2u8
        }),
        v is U8 ==> (b[0] == 0xcc && b.len() == 2) || (b[0] < 0x80 && b.len() == 1),
        v is I8 ==> (b[0] == 0xd0 && b.len() == 2) || (b[0] >= 0xe0 && b.len() == 1),
        v is U16 ==> b[0] == 0xcd && b.len() == 3,
        v is U32 ==> b[0] == 0xce && b.len() == 5,
        v is U64 ==> b[0] == 0xcf && b.len() == 9,
        v is I16 ==> b[0] == 0xd1 && b.len() == 3,
        v is I32 ==> b[0] == 0xd2 && b.len() == 5,
        v is I64 ==> b[0] == 0xd3 && b.len() == 9,
        v is F32Bits ==> b[0] == 0xca && b.len() == 5,
        v is F64Bits ==> b[0] == 0xcb && b.len() == 9,
        v is Text ==> leads_strhead(b[0]),
        v is Binary ==> leads_binhead(b[0]),
        v is Array ==> leads_arrhead(b[0]),
        v is Assoc ==> leads_maphead(b[0]),
{
    match v {
        SpecValue::Text(s) => {
            let w = crate::msgpack::strhead_width(b[0]);
            crate::msgpack::lemma_strhead_width(
                b.take(w),
                vstd::utf8::encode_utf8(s).len() as u64,
            );
            assert(b.take(w)[0] == b[0]);
        },
        SpecValue::Binary(p) => {
            let w = crate::msgpack::binhead_width(b[0]);
            crate::msgpack::lemma_binhead_width(b.take(w), p.len() as u64);
            assert(b.take(w)[0] == b[0]);
        },
        SpecValue::I8(n) => {
            assert(n < 0 && n >= -32 ==> (n as u8) >= 0xe0) by (bit_vector);
        },
        SpecValue::Array(a) => {
            let w = arrhead_width(b[0]);
            lemma_arrhead_width(b.take(w), a.len() as u64);
            assert(b.take(w)[0] == b[0]);
        },
        SpecValue::Assoc(m) => {
            let w = maphead_width(b[0]);
            lemma_maphead_width(b.take(w), m.len() as u64);
            assert(b.take(w)[0] == b[0]);
        },
        _ => {},
    }
}


/// Reads back a fixed-width scalar value standing at `pos`; the leading
/// byte has already been seen to announce one.
#[verifier::rlimit(100)]
fn get_value_scalar_a(buf: &Vec<u8>, pos: usize) -> (r: Result<(Value, usize), DecodeError>)
    requires
        pos < buf@.len(),
        buf@[pos as int] == 0xcc || buf@[pos as int] == 0xcd || buf@[pos as int] == 0xce || buf@[pos as int] == 0xcf || buf@[pos as int] == 0xd0,
    ensures
        r matches Ok(o) ==> pos < o.1 <= buf@.len() && value_ok(o.0.model()) && is_enc_value(
            buf@.subrange(pos as int, o.1 as int),
            o.0.model(),
        ),
        forall|v: SpecValue, eb: Seq<u8>, rest: Seq<u8>|
            #![trigger is_enc_value(eb, v), eb + rest]
            is_enc_value(eb, v) && buf@.skip(pos as int) == eb + rest ==> (r matches Ok(o)
                && o.0.model() == v && o.1 == pos + eb.len()),
{
    let len = buf.len();
    let b = buf[pos];
    proof {
        assert(buf@.skip(pos as int)[0] == b);
    }
    if b == 0xcc {
        if len - pos < 2 {
            proof {
                assert forall|v: SpecValue, eb: Seq<u8>, rest: Seq<u8>|
                    #![trigger is_enc_value(eb, v), eb + rest]
                    is_enc_value(eb, v) implies buf@.skip(pos as int) != eb + rest by {
                    if buf@.skip(pos as int) == eb + rest {
                        assert((eb + rest)[0] == eb[0]);
                        lemma_is_enc_value_shape(eb, v);
                        assert(v is U8);
                        assert(eb.len() == 2);
                        assert(buf@.skip(pos as int).len() >= 2);
                        assert(false);
                    }
                }
            }
            return Result::Err(DecodeError::Malformed);
        }
        let x = buf[pos + 1];
        let out = Value::U8(x);
        proof {
            assert(buf@.skip(pos as int)[1] == x);

            assert(buf@.subrange(pos as int, pos as int + 2) =~= seq![0xccu8, x]);
            assert(is_enc_value(buf@.subrange(pos as int, pos as int + 2), out.model()));
            assert forall|v: SpecValue, eb: Seq<u8>, rest: Seq<u8>|
                #![trigger is_enc_value(eb, v), eb + rest]
                is_enc_value(eb, v) && buf@.skip(pos as int) == eb + rest implies v == out.model()
                && eb.len() == 2 by {
                assert((eb + rest)[0] == eb[0]);
                lemma_is_enc_value_shape(eb, v);
                assert(v is U8);
                assert((eb + rest)[1] == eb[1]);
                let nn = v->U8_0;
                assert(eb == seq![0xccu8, nn]);
                assert(x == nn);
            }
        }
        return Result::Ok((out, pos + 2));
    }
    if b == 0xcd {
        if len - pos < 3 {
            proof {
                assert forall|v: SpecValue, eb: Seq<u8>, rest: Seq<u8>|
                    #![trigger is_enc_value(eb, v), eb + rest]
                    is_enc_value(eb, v) implies buf@.skip(pos as int) != eb + rest by {
                    if buf@.skip(pos as int) == eb + rest {
                        assert((eb + rest)[0] == eb[0]);
                        lemma_is_enc_value_shape(eb, v);
                        assert(v is U16);
                        assert(eb.len() == 3);
                        assert(buf@.skip(pos as int).len() >= 3);
                        assert(false);
                    }
                }
            }
            return Result::Err(DecodeError::Malformed);
        }
        let x = read_be2(buf, pos + 1);
        let out = Value::U16(x);
        proof {
            assert(buf@.subrange(pos as int + 1, pos as int + 3) == be2(x));

            assert(buf@.subrange(pos as int, pos as int + 3) =~= seq![0xcdu8] + be2(x));
            assert(is_enc_value(buf@.subrange(pos as int, pos as int + 3), out.model()));
            assert forall|v: SpecValue, eb: Seq<u8>, rest: Seq<u8>|
                #![trigger is_enc_value(eb, v), eb + rest]
                is_enc_value(eb, v) && buf@.skip(pos as int) == eb + rest implies v == out.model()
                && eb.len() == 3 by {
                assert((eb + rest)[0] == eb[0]);
                lemma_is_enc_value_shape(eb, v);
                assert(v is U16);
                assert((eb + rest).skip(1) =~= eb.skip(1) + rest);
                assert(buf@.skip(pos as int).skip(1) =~= buf@.skip(pos as int + 1));
                let nn = v->U16_0;
                assert(eb == seq![0xcdu8] + be2(nn));
                assert(eb.skip(1) =~= be2(nn));
                assert(buf@.skip(pos as int + 1) == be2(nn) + rest);
                assert(x == nn);
            }
        }
        return Result::Ok((out, pos + 3));
    }
    if b == 0xce {
        if len - pos < 5 {
            proof {
                assert forall|v: SpecValue, eb: Seq<u8>, rest: Seq<u8>|
                    #![trigger is_enc_value(eb, v), eb + rest]
                    is_enc_value(eb, v) implies buf@.skip(pos as int) != eb + rest by {
                    if buf@.skip(pos as int) == eb + rest {
                        assert((eb + rest)[0] == eb[0]);
                        lemma_is_enc_value_shape(eb, v);
                        assert(v is U32);
                        assert(eb.len() == 5);
                        assert(buf@.skip(pos as int).len() >= 5);
                        assert(false);
                    }
                }
            }
            return Result::Err(DecodeError::Malformed);
        }
        let x = read_be4(buf, pos + 1);
        let out = Value::U32(x);
        proof {
            assert(buf@.subrange(pos as int + 1, pos as int + 5) == be4(x));

            assert(buf@.subrange(pos as int, pos as int + 5) =~= seq![0xceu8] + be4(x));
            assert(is_enc_value(buf@.subrange(pos as int, pos as int + 5), out.model()));
            assert forall|v: SpecValue, eb: Seq<u8>, rest: Seq<u8>|
                #![trigger is_enc_value(eb, v), eb + rest]
                is_enc_value(eb, v) && buf@.skip(pos as int) == eb + rest implies v == out.model()
                && eb.len() == 5 by {
                assert((eb + rest)[0] == eb[0]);
                lemma_is_enc_value_shape(eb, v);
                assert(v is U32);
                assert((eb + rest).skip(1) =~= eb.skip(1) + rest);
                assert(buf@.skip(pos as int).skip(1) =~= buf@.skip(pos as int + 1));
                let nn = v->U32_0;
                assert(eb == seq![0xceu8] + be4(nn));
                assert(eb.skip(1) =~= be4(nn));
                assert(buf@.skip(pos as int + 1) == be4(nn) + rest);
                assert(x == nn);
            }
        }
        return Result::Ok((out, pos + 5));
    }
    if b == 0xcf {
        if len - pos < 9 {
            proof {
                assert forall|v: SpecValue, eb: Seq<u8>, rest: Seq<u8>|
                    #![trigger is_enc_value(eb, v), eb + rest]
                    is_enc_value(eb, v) implies buf@.skip(pos as int) != eb + rest by {
                    if buf@.skip(pos as int) == eb + rest {
                        assert((eb + rest)[0] == eb[0]);
                        lemma_is_enc_value_shape(eb, v);
                        assert(v is U64);
                        assert(eb.len() == 9);
                        assert(buf@.skip(pos as int).len() >= 9);
                        assert(false);
                    }
                }
            }
            return Result::Err(DecodeError::Malformed);
        }
        let x = read_be8(buf, pos + 1);
        let out = Value::U64(x);
        proof {
            assert(buf@.subrange(pos as int + 1, pos as int + 9) == be8(x));

            assert(buf@.subrange(pos as int, pos as int + 9) =~= seq![0xcfu8] + be8(x));
            assert(is_enc_value(buf@.subrange(pos as int, pos as int + 9), out.model()));
            assert forall|v: SpecValue, eb: Seq<u8>, rest: Seq<u8>|
                #![trigger is_enc_value(eb, v), eb + rest]
                is_enc_value(eb, v) && buf@.skip(pos as int) == eb + rest implies v == out.model()
                && eb.len() == 9 by {
                assert((eb + rest)[0] == eb[0]);
                lemma_is_enc_value_shape(eb, v);
                assert(v is U64);
                assert((eb + rest).skip(1) =~= eb.skip(1) + rest);
                assert(buf@.skip(pos as int).skip(1) =~= buf@.skip(pos as int + 1));
                let nn = v->U64_0;
                assert(eb == seq![0xcfu8] + be8(nn));
                assert(eb.skip(1) =~= be8(nn));
                assert(buf@.skip(pos as int + 1) == be8(nn) + rest);
                assert(x == nn);
            }
        }
        return Result::Ok((out, pos + 9));
    }
    if b == 0xd0 {
        if len - pos < 2 {
            proof {
                assert forall|v: SpecValue, eb: Seq<u8>, rest: Seq<u8>|
                    #![trigger is_enc_value(eb, v), eb + rest]
                    is_enc_value(eb, v) implies buf@.skip(pos as int) != eb + rest by {
                    if buf@.skip(pos as int) == eb + rest {
                        assert((eb + rest)[0] == eb[0]);
                        lemma_is_enc_value_shape(eb, v);
                        assert(v is I8);
                        assert(eb.len() == 2);
                        assert(buf@.skip(pos as int).len() >= 2);
                        assert(false);
                    }
                }
            }
            return Result::Err(DecodeError::Malformed);
        }
        let x = buf[pos + 1];
        let out = Value::I8(#[verifier::truncate] (x as i8));
        proof {
            assert(buf@.skip(pos as int)[1] == x);
            assert(((x as i8) as u8) == x) by (bit_vector);
            assert(buf@.subrange(pos as int, pos as int + 2) =~= seq![0xd0u8, (#[verifier::truncate] (x as i8)) as u8]);
            assert(is_enc_value(buf@.subrange(pos as int, pos as int + 2), out.model()));
            assert forall|v: SpecValue, eb: Seq<u8>, rest: Seq<u8>|
                #![trigger is_enc_value(eb, v), eb + rest]
                is_enc_value(eb, v) && buf@.skip(pos as int) == eb + rest implies v == out.model()
                && eb.len() == 2 by {
                assert((eb + rest)[0] == eb[0]);
                lemma_is_enc_value_shape(eb, v);
                assert(v is I8);
                assert((eb + rest)[1] == eb[1]);
                let nn = v->I8_0;
                assert(eb == seq![0xd0u8, nn as u8]);
                assert(x == nn as u8);
                assert(((nn as u8) as i8) == nn) by (bit_vector);
            }
        }
        return Result::Ok((out, pos + 2));
    }
    proof {
        assert(false);
    }
    Result::Err(DecodeError::Malformed)
}

/// Reads back a fixed-width scalar value standing at `pos`; the leading
/// byte has already been seen to announce one.
#[verifier::rlimit(100)]
fn get_value_scalar_b(buf: &Vec<u8>, pos: usize) -> (r: Result<(Value, usize), DecodeError>)
    requires
        pos < buf@.len(),
        buf@[pos as int] == 0xd1 || buf@[pos as int] == 0xd2 || buf@[pos as int] == 0xd3 || buf@[pos as int] == 0xca || buf@[pos as int] == 0xcb,
    ensures
        r matches Ok(o) ==> pos < o.1 <= buf@.len() && value_ok(o.0.model()) && is_enc_value(
            buf@.subrange(pos as int, o.1 as int),
            o.0.model(),
        ),
        forall|v: SpecValue, eb: Seq<u8>, rest: Seq<u8>|
            #![trigger is_enc_value(eb, v), eb + rest]
            is_enc_value(eb, v) && buf@.skip(pos as int) == eb + rest ==> (r matches Ok(o)
                && o.0.model() == v && o.1 == pos + eb.len()),
{
    let len = buf.len();
    let b = buf[pos];
    proof {
        assert(buf@.skip(pos as int)[0] == b);
    }
    if b == 0xd1 {
        if len - pos < 3 {
            proof {
                assert forall|v: SpecValue, eb: Seq<u8>, rest: Seq<u8>|
                    #![trigger is_enc_value(eb, v), eb + rest]
                    is_enc_value(eb, v) implies buf@.skip(pos as int) != eb + rest by {
                    if buf@.skip(pos as int) == eb + rest {
                        assert((eb + rest)[0] == eb[0]);
                        lemma_is_enc_value_shape(eb, v);
                        assert(v is I16);
                        assert(eb.len() == 3);
                        assert(buf@.skip(pos as int).len() >= 3);
                        assert(false);
                    }
                }
            }
            return Result::Err(DecodeError::Malformed);
        }
        let x = read_be2(buf, pos + 1);
        let out = Value::I16(#[verifier::truncate] (x as i16));
        proof {
            assert(buf@.subrange(pos as int + 1, pos as int + 3) == be2(x));
            assert(((x as i16) as u16) == x) by (bit_vector);
            assert(buf@.subrange(pos as int, pos as int + 3) =~= seq![0xd1u8] + be2((#[verifier::truncate] (x as i16)) as u16));
            assert(is_enc_value(buf@.subrange(pos as int, pos as int + 3), out.model()));
            assert forall|v: SpecValue, eb: Seq<u8>, rest: Seq<u8>|
                #![trigger is_enc_value(eb, v), eb + rest]
                is_enc_value(eb, v) && buf@.skip(pos as int) == eb + rest implies v == out.model()
                && eb.len() == 3 by {
                assert((eb + rest)[0] == eb[0]);
                lemma_is_enc_value_shape(eb, v);
                assert(v is I16);
                assert((eb + rest).skip(1) =~= eb.skip(1) + rest);
                assert(buf@.skip(pos as int).skip(1) =~= buf@.skip(pos as int + 1));
                let nn = v->I16_0;
                assert(eb == seq![0xd1u8] + be2(nn as u16));
                assert(eb.skip(1) =~= be2(nn as u16));
                assert(buf@.skip(pos as int + 1) == be2(nn as u16) + rest);
                assert(x == nn as u16);
                assert(((nn as u16) as i16) == nn) by (bit_vector);
            }
        }
        return Result::Ok((out, pos + 3));
    }
    if b == 0xd2 {
        if len - pos < 5 {
            proof {
                assert forall|v: SpecValue, eb: Seq<u8>, rest: Seq<u8>|
                    #![trigger is_enc_value(eb, v), eb + rest]
                    is_enc_value(eb, v) implies buf@.skip(pos as int) != eb + rest by {
                    if buf@.skip(pos as int) == eb + rest {
                        assert((eb + rest)[0] == eb[0]);
                        lemma_is_enc_value_shape(eb, v);
                        assert(v is I32);
                        assert(eb.len() == 5);
                        assert(buf@.skip(pos as int).len() >= 5);
                        assert(false);
                    }
                }
            }
            return Result::Err(DecodeError::Malformed);
        }
        let x = read_be4(buf, pos + 1);
        let out = Value::I32(#[verifier::truncate] (x as i32));
        proof {
            assert(buf@.subrange(pos as int + 1, pos as int + 5) == be4(x));
            assert(((x as i32) as u32) == x) by (bit_vector);
            assert(buf@.subrange(pos as int, pos as int + 5) =~= seq![0xd2u8] + be4((#[verifier::truncate] (x as i32)) as u32));
            assert(is_enc_value(buf@.subrange(pos as int, pos as int + 5), out.model()));
            assert forall|v: SpecValue, eb: Seq<u8>, rest: Seq<u8>|
                #![trigger is_enc_value(eb, v), eb + rest]
                is_enc_value(eb, v) && buf@.skip(pos as int) == eb + rest implies v == out.model()
                && eb.len() == 5 by {
                assert((eb + rest)[0] == eb[0]);
                lemma_is_enc_value_shape(eb, v);
                assert(v is I32);
                assert((eb + rest).skip(1) =~= eb.skip(1) + rest);
                assert(buf@.skip(pos as int).skip(1) =~= buf@.skip(pos as int + 1));
                let nn = v->I32_0;
                assert(eb == seq![0xd2u8] + be4(nn as u32));
                assert(eb.skip(1) =~= be4(nn as u32));
                assert(buf@.skip(pos as int + 1) == be4(nn as u32) + rest);
                assert(x == nn as u32);
                assert(((nn as u32) as i32) == nn) by (bit_vector);
            }
        }
        return Result::Ok((out, pos + 5));
    }
    if b == 0xd3 {
        if len - pos < 9 {
            proof {
                assert forall|v: SpecValue, eb: Seq<u8>, rest: Seq<u8>|
                    #![trigger is_enc_value(eb, v), eb + rest]
                    is_enc_value(eb, v) implies buf@.skip(pos as int) != eb + rest by {
                    if buf@.skip(pos as int) == eb + rest {
                        assert((eb + rest)[0] == eb[0]);
                        lemma_is_enc_value_shape(eb, v);
                        assert(v is I64);
                        assert(eb.len() == 9);
                        assert(buf@.skip(pos as int).len() >= 9);
                        assert(false);
                    }
                }
            }
            return Result::Err(DecodeError::Malformed);
        }
        let x = read_be8(buf, pos + 1);
        let out = Value::I64(#[verifier::truncate] (x as i64));
        proof {
            assert(buf@.subrange(pos as int + 1, pos as int + 9) == be8(x));
            assert(((x as i64) as u64) == x) by (bit_vector);
            assert(buf@.subrange(pos as int, pos as int + 9) =~= seq![0xd3u8] + be8((#[verifier::truncate] (x as i64)) as u64));
            assert(is_enc_value(buf@.subrange(pos as int, pos as int + 9), out.model()));
            assert forall|v: SpecValue, eb: Seq<u8>, rest: Seq<u8>|
                #![trigger is_enc_value(eb, v), eb + rest]
                is_enc_value(eb, v) && buf@.skip(pos as int) == eb + rest implies v == out.model()
                && eb.len() == 9 by {
                assert((eb + rest)[0] == eb[0]);
                lemma_is_enc_value_shape(eb, v);
                assert(v is I64);
                assert((eb + rest).skip(1) =~= eb.skip(1) + rest);
                assert(buf@.skip(pos as int).skip(1) =~= buf@.skip(pos as int + 1));
                let nn = v->I64_0;
                assert(eb == seq![0xd3u8] + be8(nn as u64));
                assert(eb.skip(1) =~= be8(nn as u64));
                assert(buf@.skip(pos as int + 1) == be8(nn as u64) + rest);
                assert(x == nn as u64);
                assert(((nn as u64) as i64) == nn) by (bit_vector);
            }
        }
        return Result::Ok((out, pos + 9));
    }
    if b == 0xca {
        if len - pos < 5 {
            proof {
                assert forall|v: SpecValue, eb: Seq<u8>, rest: Seq<u8>|
                    #![trigger is_enc_value(eb, v), eb + rest]
                    is_enc_value(eb, v) implies buf@.skip(pos as int) != eb + rest by {
                    if buf@.skip(pos as int) == eb + rest {
                        assert((eb + rest)[0] == eb[0]);
                        lemma_is_enc_value_shape(eb, v);
                        assert(v is F32Bits);
                        assert(eb.len() == 5);
                        assert(buf@.skip(pos as int).len() >= 5);
                        assert(false);
                    }
                }
            }
            return Result::Err(DecodeError::Malformed);
        }
        let x = read_be4(buf, pos + 1);
        let out = Value::F32Bits(x);
        proof {
            assert(buf@.subrange(pos as int + 1, pos as int + 5) == be4(x));

            assert(buf@.subrange(pos as int, pos as int + 5) =~= seq![0xcau8] + be4(x));
            assert(is_enc_value(buf@.subrange(pos as int, pos as int + 5), out.model()));
            assert forall|v: SpecValue, eb: Seq<u8>, rest: Seq<u8>|
                #![trigger is_enc_value(eb, v), eb + rest]
                is_enc_value(eb, v) && buf@.skip(pos as int) == eb + rest implies v == out.model()
                && eb.len() == 5 by {
                assert((eb + rest)[0] == eb[0]);
                lemma_is_enc_value_shape(eb, v);
                assert(v is F32Bits);
                assert((eb + rest).skip(1) =~= eb.skip(1) + rest);
                assert(buf@.skip(pos as int).skip(1) =~= buf@.skip(pos as int + 1));
                let nn = v->F32Bits_0;
                assert(eb == seq![0xcau8] + be4(nn));
                assert(eb.skip(1) =~= be4(nn));
                assert(buf@.skip(pos as int + 1) == be4(nn) + rest);
                assert(x == nn);
            }
        }
        return Result::Ok((out, pos + 5));
    }
    if b == 0xcb {
        if len - pos < 9 {
            proof {
                assert forall|v: SpecValue, eb: Seq<u8>, rest: Seq<u8>|
                    #![trigger is_enc_value(eb, v), eb + rest]
                    is_enc_value(eb, v) implies buf@.skip(pos as int) != eb + rest by {
                    if buf@.skip(pos as int) == eb + rest {
                        assert((eb + rest)[0] == eb[0]);
                        lemma_is_enc_value_shape(eb, v);
                        assert(v is F64Bits);
                        assert(eb.len() == 9);
                        assert(buf@.skip(pos as int).len() >= 9);
                        assert(false);
                    }
                }
            }
            return Result::Err(DecodeError::Malformed);
        }
        let x = read_be8(buf, pos + 1);
        let out = Value::F64Bits(x);
        proof {
            assert(buf@.subrange(pos as int + 1, pos as int + 9) == be8(x));

            assert(buf@.subrange(pos as int, pos as int + 9) =~= seq![0xcbu8] + be8(x));
            assert(is_enc_value(buf@.subrange(pos as int, pos as int + 9), out.model()));
            assert forall|v: SpecValue, eb: Seq<u8>, rest: Seq<u8>|
                #![trigger is_enc_value(eb, v), eb + rest]
                is_enc_value(eb, v) && buf@.skip(pos as int) == eb + rest implies v == out.model()
                && eb.len() == 9 by {
                assert((eb + rest)[0] == eb[0]);
                lemma_is_enc_value_shape(eb, v);
                assert(v is F64Bits);
                assert((eb + rest).skip(1) =~= eb.skip(1) + rest);
                assert(buf@.skip(pos as int).skip(1) =~= buf@.skip(pos as int + 1));
                let nn = v->F64Bits_0;
                assert(eb == seq![0xcbu8] + be8(nn));
                assert(eb.skip(1) =~= be8(nn));
                assert(buf@.skip(pos as int + 1) == be8(nn) + rest);
                assert(x == nn);
            }
        }
        return Result::Ok((out, pos + 9));
    }
    proof {
        assert(false);
    }
    Result::Err(DecodeError::Malformed)
}


/// Reads back an array value standing at `pos`; the leading byte has
/// already been seen to announce one.
#[verifier::rlimit(100)]
fn get_value_array(buf: &Vec<u8>, pos: usize) -> (r: Result<(Value, usize), DecodeError>)
    requires
        pos < buf@.len(),
        leads_arrhead(buf@[pos as int]),
    ensures
        r matches Ok(o) ==> pos < o.1 <= buf@.len() && value_ok(o.0.model()) && is_enc_value(
            buf@.subrange(pos as int, o.1 as int),
            o.0.model(),
        ),
        forall|v: SpecValue, eb: Seq<u8>, rest: Seq<u8>|
            #![trigger is_enc_value(eb, v), eb + rest]
            is_enc_value(eb, v) && buf@.skip(pos as int) == eb + rest ==> (r matches Ok(o)
                && o.0.model() == v && o.1 == pos + eb.len()),
    decreases buf@.len() - pos, 1int, 0int,
{
    proof {
        assert forall|v: SpecValue, eb: Seq<u8>, rest: Seq<u8>|
            #![trigger is_enc_value(eb, v), eb + rest]
            is_enc_value(eb, v) && buf@.skip(pos as int) == eb + rest implies ({
            let a = v->Array_0;
            let w = arrhead_width(eb[0]);
            &&& v is Array
            &&& a.len() < 0x100000000
            &&& crate::msgpack::is_enc_arrhead(eb.take(w), a.len() as u64)
            &&& is_enc_value_seq(eb.skip(w), a)
            &&& buf@.skip(pos as int) == eb.take(w) + (eb.skip(w) + rest)
            &&& eb.take(w).len() == w
            &&& eb.skip(w).len() == eb.len() - w
        }) by {
            assert((eb + rest)[0] == eb[0]);
            lemma_is_enc_value_shape(eb, v);
            let w = arrhead_width(eb[0]);
            assert(eb + rest =~= eb.take(w) + (eb.skip(w) + rest));
        }
    }
    let got = get_arrhead(buf, pos);
    let (n, p1) = match got {
        Result::Ok(o) => o,
        Result::Err(e) => {
            proof {
                assert forall|v: SpecValue, eb: Seq<u8>, rest: Seq<u8>|
                    #![trigger is_enc_value(eb, v), eb + rest]
                    is_enc_value(eb, v) implies buf@.skip(pos as int) != eb + rest by {
                    if buf@.skip(pos as int) == eb + rest {
                        assert(false);
                    }
                }
            }
            return Result::Err(e);
        },
    };
    proof {
        assert forall|v: SpecValue, eb: Seq<u8>, rest: Seq<u8>|
            #![trigger is_enc_value(eb, v), eb + rest]
            is_enc_value(eb, v) && buf@.skip(pos as int) == eb + rest implies buf@.skip(p1 as int)
            == eb.skip(p1 - pos) + rest && is_enc_value_seq(eb.skip(p1 - pos), v->Array_0)
            && v->Array_0.len() == n by {
            let w = arrhead_width(eb[0]);
            assert(p1 == pos + w);
            assert(buf@.skip(pos as int).skip(w) =~= buf@.skip(p1 as int));
            assert((eb.take(w) + (eb.skip(w) + rest)).skip(w) =~= eb.skip(w) + rest);
        }
    }
    let got2 = get_value_list(buf, p1, n);
    match got2 {
        Result::Ok((vs, p2)) => {
            let ghost models = crate::structures::Value::model_seq(vs@);
            let out = Value::Array(vs);
            proof {
                crate::structures::Value::lemma_model_seq(out->Array_0@);
                assert(out.model() == SpecValue::Array(models));
                let b2 = buf@.subrange(pos as int, p2 as int);
                assert(b2.take(p1 - pos) =~= buf@.subrange(pos as int, p1 as int));
                lemma_arrhead_width(buf@.subrange(pos as int, p1 as int), n);
                assert(b2[0] == buf@.subrange(pos as int, p1 as int)[0]);
                assert(arrhead_width(b2[0]) == p1 - pos);
                assert(b2.skip(p1 - pos) =~= buf@.subrange(p1 as int, p2 as int));
                assert(is_enc_value(b2, out.model()));
                assert forall|v: SpecValue, eb: Seq<u8>, rest: Seq<u8>|
                    #![trigger is_enc_value(eb, v), eb + rest]
                    is_enc_value(eb, v) && buf@.skip(pos as int) == eb + rest implies v
                    == out.model() && eb.len() == p2 - pos by {
                    assert(buf@.skip(p1 as int) == eb.skip(p1 - pos) + rest);
                    assert(models == v->Array_0);
                    assert(p2 == p1 + eb.skip(p1 - pos).len());
                }
            }
            Result::Ok((out, p2))
        },
        Result::Err(e) => {
            proof {
                assert forall|v: SpecValue, eb: Seq<u8>, rest: Seq<u8>|
                    #![trigger is_enc_value(eb, v), eb + rest]
                    is_enc_value(eb, v) implies buf@.skip(pos as int) != eb + rest by {
                    if buf@.skip(pos as int) == eb + rest {
                        assert(buf@.skip(p1 as int) == eb.skip(p1 - pos) + rest);
                        assert(false);
                    }
                }
            }
            Result::Err(e)
        },
    }
}

/// Reads back a map value standing at `pos`; the leading byte has already
/// been seen to announce one.
#[verifier::rlimit(100)]
fn get_value_assoc(buf: &Vec<u8>, pos: usize) -> (r: Result<(Value, usize), DecodeError>)
    requires
        pos < buf@.len(),
        leads_maphead(buf@[pos as int]),
    ensures
        r matches Ok(o) ==> pos < o.1 <= buf@.len() && value_ok(o.0.model()) && is_enc_value(
            buf@.subrange(pos as int, o.1 as int),
            o.0.model(),
        ),
        forall|v: SpecValue, eb: Seq<u8>, rest: Seq<u8>|
            #![trigger is_enc_value(eb, v), eb + rest]
            is_enc_value(eb, v) && buf@.skip(pos as int) == eb + rest ==> (r matches Ok(o)
                && o.0.model() == v && o.1 == pos + eb.len()),
    decreases buf@.len() - pos, 1int, 0int,
{
    proof {
        assert forall|v: SpecValue, eb: Seq<u8>, rest: Seq<u8>|
            #![trigger is_enc_value(eb, v), eb + rest]
            is_enc_value(eb, v) && buf@.skip(pos as int) == eb + rest implies ({
            let m = v->Assoc_0;
            let w = maphead_width(eb[0]);
            &&& v is Assoc
            &&& m.len() < 0x100000000
            &&& crate::msgpack::is_enc_maphead(eb.take(w), m.len() as u64)
            &&& is_enc_entry_seq(eb.skip(w), m)
            &&& buf@.skip(pos as int) == eb.take(w) + (eb.skip(w) + rest)
            &&& eb.take(w).len() == w
            &&& eb.skip(w).len() == eb.len() - w
        }) by {
            assert((eb + rest)[0] == eb[0]);
            lemma_is_enc_value_shape(eb, v);
            let w = maphead_width(eb[0]);
            assert(eb + rest =~= eb.take(w) + (eb.skip(w) + rest));
        }
    }
    let got = get_maphead(buf, pos);
    let (n, p1) = match got {
        Result::Ok(o) => o,
        Result::Err(e) => {
            proof {
                assert forall|v: SpecValue, eb: Seq<u8>, rest: Seq<u8>|
                    #![trigger is_enc_value(eb, v), eb + rest]
                    is_enc_value(eb, v) implies buf@.skip(pos as int) != eb + rest by {
                    if buf@.skip(pos as int) == eb + rest {
                        assert(false);
                    }
                }
            }
            return Result::Err(e);
        },
    };
    proof {
        assert forall|v: SpecValue, eb: Seq<u8>, rest: Seq<u8>|
            #![trigger is_enc_value(eb, v), eb + rest]
            is_enc_value(eb, v) && buf@.skip(pos as int) == eb + rest implies buf@.skip(p1 as int)
            == eb.skip(p1 - pos) + rest && is_enc_entry_seq(eb.skip(p1 - pos), v->Assoc_0)
            && v->Assoc_0.len() == n by {
            let w = maphead_width(eb[0]);
            assert(p1 == pos + w);
            assert(buf@.skip(pos as int).skip(w) =~= buf@.skip(p1 as int));
            assert((eb.take(w) + (eb.skip(w) + rest)).skip(w) =~= eb.skip(w) + rest);
        }
    }
    let got2 = get_entry_list(buf, p1, n);
    match got2 {
        Result::Ok((es, p2)) => {
            let ghost models = crate::structures::Value::model_entry_seq(es@);
            let out = Value::Assoc(es);
            proof {
                crate::structures::Value::lemma_model_entry_seq(out->Assoc_0@);
                assert(out.model() == SpecValue::Assoc(models));
                let b2 = buf@.subrange(pos as int, p2 as int);
                assert(b2.take(p1 - pos) =~= buf@.subrange(pos as int, p1 as int));
                lemma_maphead_width(buf@.subrange(pos as int, p1 as int), n);
                assert(b2[0] == buf@.subrange(pos as int, p1 as int)[0]);
                assert(maphead_width(b2[0]) == p1 - pos);
                assert(b2.skip(p1 - pos) =~= buf@.subrange(p1 as int, p2 as int));
                assert(is_enc_value(b2, out.model()));
                assert forall|v: SpecValue, eb: Seq<u8>, rest: Seq<u8>|
                    #![trigger is_enc_value(eb, v), eb + rest]
                    is_enc_value(eb, v) && buf@.skip(pos as int) == eb + rest implies v
                    == out.model() && eb.len() == p2 - pos by {
                    assert(buf@.skip(p1 as int) == eb.skip(p1 - pos) + rest);
                    assert(models == v->Assoc_0);
                    assert(p2 == p1 + eb.skip(p1 - pos).len());
                }
            }
            Result::Ok((out, p2))
        },
        Result::Err(e) => {
            proof {
                assert forall|v: SpecValue, eb: Seq<u8>, rest: Seq<u8>|
                    #![trigger is_enc_value(eb, v), eb + rest]
                    is_enc_value(eb, v) implies buf@.skip(pos as int) != eb + rest by {
                    if buf@.skip(pos as int) == eb + rest {
                        assert(buf@.skip(p1 as int) == eb.skip(p1 - pos) + rest);
                        assert(false);
                    }
                }
            }
            Result::Err(e)
        },
    }
}

/// Reads back one capability value: succeeds exactly on a well-formed
/// value form standing at `pos`, reconstructing the value and stepping
/// past it. Every defined MessagePack tag announces some value kind, so a
/// failure here is always malformed input, never a wrong kind.
#[verifier::rlimit(100)]
pub fn get_value(buf: &Vec<u8>, pos: usize) -> (r: Result<(Value, usize), DecodeError>)
    requires
        pos <= buf@.len(),
    ensures
        r matches Ok(o) ==> pos < o.1 <= buf@.len() && value_ok(o.0.model()) && is_enc_value(
            buf@.subrange(pos as int, o.1 as int),
            o.0.model(),
        ),
        forall|v: SpecValue, eb: Seq<u8>, rest: Seq<u8>|
            #![trigger is_enc_value(eb, v), eb + rest]
            is_enc_value(eb, v) && buf@.skip(pos as int) == eb + rest ==> (r matches Ok(o)
                && o.0.model() == v && o.1 == pos + eb.len()),
    decreases buf@.len() - pos, 2int, 0int,
{
    let len = buf.len();
    if pos >= len {
        proof {
            assert forall|v: SpecValue, eb: Seq<u8>, rest: Seq<u8>|
                #![trigger is_enc_value(eb, v), eb + rest]
                is_enc_value(eb, v) implies buf@.skip(pos as int) != eb + rest by {
                if buf@.skip(pos as int) == eb + rest {
                    lemma_is_enc_value_shape(eb, v);
                    assert((eb + rest).len() >= 1);
                    assert(buf@.skip(pos as int).len() == 0);
                    assert(false);
                }
            }
        }
        return Result::Err(DecodeError::Malformed);
    }
    let b = buf[pos];
    proof {
        assert(buf@.skip(pos as int)[0] == b);
    }
    if b == 0xc0 {
        proof {
            assert(buf@.subrange(pos as int, pos as int + 1) =~= seq![0xc0u8]);
            assert forall|v: SpecValue, eb: Seq<u8>, rest: Seq<u8>|
                #![trigger is_enc_value(eb, v), eb + rest]
                is_enc_value(eb, v) && buf@.skip(pos as int) == eb + rest implies v is Nil
                && eb.len() == 1 by {
                assert((eb + rest)[0] == eb[0]);
                lemma_is_enc_value_shape(eb, v);
            }
        }
        return Result::Ok((Value::Nil, pos + 1));
    }
    if b == 0xc2 || b == 0xc3 {
        let tv = b == 0xc3;
        proof {
            assert(buf@.subrange(pos as int, pos as int + 1) =~= seq![b]);
            assert(is_enc_value(buf@.subrange(pos as int, pos as int + 1), SpecValue::Bool(tv)));
            assert forall|v: SpecValue, eb: Seq<u8>, rest: Seq<u8>|
                #![trigger is_enc_value(eb, v), eb + rest]
                is_enc_value(eb, v) && buf@.skip(pos as int) == eb + rest implies v
                == SpecValue::Bool(tv) && eb.len() == 1 by {
                assert((eb + rest)[0] == eb[0]);
                lemma_is_enc_value_shape(eb, v);
            }
        }
        return Result::Ok((Value::Bool(tv), pos + 1));
    }
    if b < 0x80 {
        let out = Value::U8(b);
        proof {
            assert(buf@.subrange(pos as int, pos as int + 1) =~= seq![b]);
            assert(is_enc_value(buf@.subrange(pos as int, pos as int + 1), out.model()));
            assert forall|v: SpecValue, eb: Seq<u8>, rest: Seq<u8>|
                #![trigger is_enc_value(eb, v), eb + rest]
                is_enc_value(eb, v) && buf@.skip(pos as int) == eb + rest implies v == out.model()
                && eb.len() == 1 by {
                assert((eb + rest)[0] == eb[0]);
                lemma_is_enc_value_shape(eb, v);
                assert(v is U8);
                assert(eb == seq![v->U8_0]);
            }
        }
        return Result::Ok((out, pos + 1));
    }
    if b >= 0xe0 {
        let out = Value::I8(#[verifier::truncate] (b as i8));
        proof {
            assert((b as i8) < 0 && (b as i8) >= -32 && ((b as i8) as u8) == b) by (bit_vector)
                requires
                    b >= 0xe0,
            ;
            assert(buf@.subrange(pos as int, pos as int + 1) =~= seq![b]);
            assert(is_enc_value(buf@.subrange(pos as int, pos as int + 1), out.model()));
            assert forall|v: SpecValue, eb: Seq<u8>, rest: Seq<u8>|
                #![trigger is_enc_value(eb, v), eb + rest]
                is_enc_value(eb, v) && buf@.skip(pos as int) == eb + rest implies v == out.model()
                && eb.len() == 1 by {
                assert((eb + rest)[0] == eb[0]);
                lemma_is_enc_value_shape(eb, v);
                assert(v is I8);
                let nn = v->I8_0;
                assert(eb == seq![nn as u8]);
                assert(b == nn as u8);
                assert(nn < 0 && nn >= -32);
                assert(nn < 0 && nn >= -32 && b == nn as u8 && b >= 0xe0 ==> ((b as i8) == nn))
                    by (bit_vector);
            }
        }
        return Result::Ok((out, pos + 1));
    }
    if b == 0xcc || b == 0xcd || b == 0xce || b == 0xcf || b == 0xd0 {
        return get_value_scalar_a(buf, pos);
    }
    if b == 0xd1 || b == 0xd2 || b == 0xd3 || b == 0xca || b == 0xcb {
        return get_value_scalar_b(buf, pos);
    }
    if 0xa0 <= b && b <= 0xbf || b == 0xd9 || b == 0xda || b == 0xdb {
        return get_value_text(buf, pos);
    }
    if b == 0xc4 || b == 0xc5 || b == 0xc6 {
        return get_value_binary(buf, pos);
    }
    if 0x90 <= b && b <= 0x9f || b == 0xdc || b == 0xdd {
        return get_value_array(buf, pos);
    }
    if 0x80 <= b && b <= 0x8f || b == 0xde || b == 0xdf {
        return get_value_assoc(buf, pos);
    }
    proof {
        assert forall|v: SpecValue, eb: Seq<u8>, rest: Seq<u8>|
            #![trigger is_enc_value(eb, v), eb + rest]
            is_enc_value(eb, v) implies buf@.skip(pos as int) != eb + rest by {
            if buf@.skip(pos as int) == eb + rest {
                assert((eb + rest)[0] == eb[0]);
                lemma_is_enc_value_shape(eb, v);
                assert(false);
            }
        }
    }
    Result::Err(DecodeError::Malformed)
}


/// Reads back a string value standing at `pos`; the leading byte has
/// already been seen to announce one.
#[verifier::rlimit(100)]
fn get_value_text(buf: &Vec<u8>, pos: usize) -> (r: Result<(Value, usize), DecodeError>)
    requires
        pos < buf@.len(),
        leads_strhead(buf@[pos as int]),
    ensures
        r matches Ok(o) ==> pos < o.1 <= buf@.len() && value_ok(o.0.model()) && is_enc_value(
            buf@.subrange(pos as int, o.1 as int),
            o.0.model(),
        ),
        forall|v: SpecValue, eb: Seq<u8>, rest: Seq<u8>|
            #![trigger is_enc_value(eb, v), eb + rest]
            is_enc_value(eb, v) && buf@.skip(pos as int) == eb + rest ==> (r matches Ok(o)
                && o.0.model() == v && o.1 == pos + eb.len()),
{
    proof {
        assert forall|v: SpecValue, eb: Seq<u8>, rest: Seq<u8>|
            #![trigger is_enc_value(eb, v), eb + rest]
            is_enc_value(eb, v) && buf@.skip(pos as int) == eb + rest implies v is Text
            && crate::msgpack::is_enc_str(eb, v->Text_0) by {
            assert((eb + rest)[0] == eb[0]);
            lemma_is_enc_value_shape(eb, v);
        }
    }
    let got = get_str(buf, pos);
    match got {
        Result::Ok((s, p)) => {
            let out = Value::Text(s);
            proof {
                assert(is_enc_value(buf@.subrange(pos as int, p as int), out.model()));
                assert forall|v: SpecValue, eb: Seq<u8>, rest: Seq<u8>|
                    #![trigger is_enc_value(eb, v), eb + rest]
                    is_enc_value(eb, v) && buf@.skip(pos as int) == eb + rest implies v
                    == out.model() && eb.len() == p - pos by {
                    assert(s@ == v->Text_0);
                }
            }
            Result::Ok((out, p))
        },
        Result::Err(e) => {
            proof {
                assert forall|v: SpecValue, eb: Seq<u8>, rest: Seq<u8>|
                    #![trigger is_enc_value(eb, v), eb + rest]
                    is_enc_value(eb, v) implies buf@.skip(pos as int) != eb + rest by {
                    if buf@.skip(pos as int) == eb + rest {
                        assert(false);
                    }
                }
            }
            Result::Err(e)
        },
    }
}

/// Reads back a binary value standing at `pos`; the leading byte has
/// already been seen to announce one.
#[verifier::rlimit(100)]
fn get_value_binary(buf: &Vec<u8>, pos: usize) -> (r: Result<(Value, usize), DecodeError>)
    requires
        pos < buf@.len(),
        leads_binhead(buf@[pos as int]),
    ensures
        r matches Ok(o) ==> pos < o.1 <= buf@.len() && value_ok(o.0.model()) && is_enc_value(
            buf@.subrange(pos as int, o.1 as int),
            o.0.model(),
        ),
        forall|v: SpecValue, eb: Seq<u8>, rest: Seq<u8>|
            #![trigger is_enc_value(eb, v), eb + rest]
            is_enc_value(eb, v) && buf@.skip(pos as int) == eb + rest ==> (r matches Ok(o)
                && o.0.model() == v && o.1 == pos + eb.len()),
{
    proof {
        assert forall|v: SpecValue, eb: Seq<u8>, rest: Seq<u8>|
            #![trigger is_enc_value(eb, v), eb + rest]
            is_enc_value(eb, v) && buf@.skip(pos as int) == eb + rest implies v is Binary
            && crate::msgpack::is_enc_bin(eb, v->Binary_0) by {
            assert((eb + rest)[0] == eb[0]);
            lemma_is_enc_value_shape(eb, v);
        }
    }
    let got = get_bin(buf, pos);
    match got {
        Result::Ok((p0, p)) => {
            let out = Value::Binary(p0);
            proof {
                assert(is_enc_value(buf@.subrange(pos as int, p as int), out.model()));
                assert forall|v: SpecValue, eb: Seq<u8>, rest: Seq<u8>|
                    #![trigger is_enc_value(eb, v), eb + rest]
                    is_enc_value(eb, v) && buf@.skip(pos as int) == eb + rest implies v
                    == out.model() && eb.len() == p - pos by {
                    assert(out.model()->Binary_0 == v->Binary_0);
                }
            }
            Result::Ok((out, p))
        },
        Result::Err(e) => {
            proof {
                assert forall|v: SpecValue, eb: Seq<u8>, rest: Seq<u8>|
                    #![trigger is_enc_value(eb, v), eb + rest]
                    is_enc_value(eb, v) implies buf@.skip(pos as int) != eb + rest by {
                    if buf@.skip(pos as int) == eb + rest {
                        assert(false);
                    }
                }
            }
            Result::Err(e)
        },
    }
}

/// Reads back `n` consecutive values: succeeds exactly on `n` well-formed
/// value forms in a row.
#[verifier::rlimit(100)]
pub fn get_value_list(buf: &Vec<u8>, pos: usize, n: u64) -> (r: Result<
    (Vec<Value>, usize),
    DecodeError,
>)
    requires
        pos <= buf@.len(),
    ensures
        r matches Ok(o) ==> pos <= o.1 <= buf@.len() && o.0@.len() == n && value_seq_ok(
            crate::structures::Value::model_seq(o.0@),
        ) && is_enc_value_seq(
            buf@.subrange(pos as int, o.1 as int),
            crate::structures::Value::model_seq(o.0@),
        ),
        forall|elems: Seq<SpecValue>, eb: Seq<u8>, rest: Seq<u8>|
            #![trigger is_enc_value_seq(eb, elems), eb + rest]
            elems.len() == n && is_enc_value_seq(eb, elems) && buf@.skip(pos as int) == eb + rest
                ==> (r matches Ok(o) && crate::structures::Value::model_seq(o.0@) == elems && o.1
                == pos + eb.len()),
    decreases buf@.len() - pos, 3int, n as int,
{
    if n == 0 {
        let out: Vec<Value> = Vec::new();
        proof {
            crate::structures::Value::lemma_model_seq(out@);
            assert(crate::structures::Value::model_seq(out@) =~= Seq::<SpecValue>::empty());
            assert(buf@.subrange(pos as int, pos as int) =~= Seq::<u8>::empty());
        }
        return Result::Ok((out, pos));
    }
    proof {
        assert forall|elems: Seq<SpecValue>, eb: Seq<u8>, rest: Seq<u8>|
            #![trigger is_enc_value_seq(eb, elems), eb + rest]
            elems.len() == n && is_enc_value_seq(eb, elems) && buf@.skip(pos as int) == eb + rest
            implies ({
            let i = choose|i: int|
                #![trigger eb.subrange(0, i)]
                0 <= i <= eb.len() && is_enc_value(eb.subrange(0, i), elems[0])
                    && is_enc_value_seq(eb.skip(i), elems.drop_first());
            &&& 0 <= i <= eb.len()
            &&& is_enc_value(eb.subrange(0, i), elems[0])
            &&& is_enc_value_seq(eb.skip(i), elems.drop_first())
            &&& buf@.skip(pos as int) == eb.subrange(0, i) + (eb.skip(i) + rest)
            &&& eb.subrange(0, i).len() == i
            &&& eb.skip(i).len() == eb.len() - i
        }) by {
            assert(is_enc_value_seq(eb, elems));
            assert(elems.len() > 0);
            let i = choose|i: int|
                #![trigger eb.subrange(0, i)]
                0 <= i <= eb.len() && is_enc_value(eb.subrange(0, i), elems[0])
                    && is_enc_value_seq(eb.skip(i), elems.drop_first());
            assert(eb + rest =~= eb.subrange(0, i) + (eb.skip(i) + rest));
        }
    }
    let first = get_value(buf, pos);
    let (v0, p1) = match first {
        Result::Ok(o) => o,
        Result::Err(e) => {
            proof {
                assert forall|elems: Seq<SpecValue>, eb: Seq<u8>, rest: Seq<u8>|
                    #![trigger is_enc_value_seq(eb, elems), eb + rest]
                    elems.len() == n && is_enc_value_seq(eb, elems) implies buf@.skip(pos as int)
                    != eb + rest by {
                    if buf@.skip(pos as int) == eb + rest {
                        assert(false);
                    }
                }
            }
            return Result::Err(e);
        },
    };
    proof {
        assert forall|elems: Seq<SpecValue>, eb: Seq<u8>, rest: Seq<u8>|
            #![trigger is_enc_value_seq(eb, elems), eb + rest]
            elems.len() == n && is_enc_value_seq(eb, elems) && buf@.skip(pos as int) == eb + rest
            implies buf@.skip(p1 as int) == eb.skip(p1 - pos) + rest && is_enc_value_seq(
            eb.skip(p1 - pos),
            elems.drop_first(),
        ) && v0.model() == elems[0] by {
            let i = choose|i: int|
                #![trigger eb.subrange(0, i)]
                0 <= i <= eb.len() && is_enc_value(eb.subrange(0, i), elems[0])
                    && is_enc_value_seq(eb.skip(i), elems.drop_first());
            assert(p1 == pos + i);
            assert(buf@.skip(pos as int).skip(i) =~= buf@.skip(p1 as int));
            assert((eb.subrange(0, i) + (eb.skip(i) + rest)).skip(i) =~= eb.skip(i) + rest);
        }
    }
    let rest_r = get_value_list(buf, p1, n - 1);
    match rest_r {
        Result::Ok((vs, p2)) => {
            let ghost tail_models = crate::structures::Value::model_seq(vs@);
            let mut out: Vec<Value> = Vec::new();
            out.push(v0);
            let mut tail = vs;
            out.append(&mut tail);
            let ghost models = crate::structures::Value::model_seq(out@);
            proof {
                crate::structures::Value::lemma_model_seq(out@);
                crate::structures::Value::lemma_model_seq(vs@);
                assert(models =~= seq![v0.model()] + tail_models) by {
                    assert forall|j: int| 0 <= j < models.len() implies models[j] == (seq![
                        v0.model(),
                    ] + tail_models)[j] by {
                        assert(models[j] == out@[j].model());
                        if j > 0 {
                            assert(out@[j] == vs@[j - 1]);
                            assert(tail_models[j - 1] == vs@[j - 1].model());
                        } else {
                            assert(out@[0] == v0);
                        }
                    }
                }
                assert(models.drop_first() =~= tail_models);
                assert(models[0] == v0.model());
                assert(value_seq_ok(models));
                let b2 = buf@.subrange(pos as int, p2 as int);
                assert(b2.subrange(0, p1 - pos) =~= buf@.subrange(pos as int, p1 as int));
                assert(b2.skip(p1 - pos) =~= buf@.subrange(p1 as int, p2 as int));
                assert(is_enc_value(b2.subrange(0, p1 - pos), models[0]));
                assert(is_enc_value_seq(b2, models));
                assert forall|elems: Seq<SpecValue>, eb: Seq<u8>, rest: Seq<u8>|
                    #![trigger is_enc_value_seq(eb, elems), eb + rest]
                    elems.len() == n && is_enc_value_seq(eb, elems) && buf@.skip(pos as int) == eb
                    + rest implies models == elems && eb.len() == p2 - pos by {
                    assert(buf@.skip(p1 as int) == eb.skip(p1 - pos) + rest);
                    assert(tail_models == elems.drop_first());
                    assert(models =~= elems);
                    assert(p2 == p1 + eb.skip(p1 - pos).len());
                }
            }
            Result::Ok((out, p2))
        },
        Result::Err(e) => {
            proof {
                assert forall|elems: Seq<SpecValue>, eb: Seq<u8>, rest: Seq<u8>|
                    #![trigger is_enc_value_seq(eb, elems), eb + rest]
                    elems.len() == n && is_enc_value_seq(eb, elems) implies buf@.skip(pos as int)
                    != eb + rest by {
                    if buf@.skip(pos as int) == eb + rest {
                        assert(buf@.skip(p1 as int) == eb.skip(p1 - pos) + rest);
                        assert(false);
                    }
                }
            }
            Result::Err(e)
        },
    }
}

/// Reads back `n` consecutive key/value pairs: succeeds exactly on `n`
/// well-formed pairs in a row.
#[verifier::rlimit(100)]
pub fn get_entry_list(buf: &Vec<u8>, pos: usize, n: u64) -> (r: Result<
    (Vec<ValueEntry>, usize),
    DecodeError,
>)
    requires
        pos <= buf@.len(),
    ensures
        r matches Ok(o) ==> pos <= o.1 <= buf@.len() && o.0@.len() == n && entry_seq_ok(
            crate::structures::Value::model_entry_seq(o.0@),
        ) && is_enc_entry_seq(
            buf@.subrange(pos as int, o.1 as int),
            crate::structures::Value::model_entry_seq(o.0@),
        ),
        forall|elems: Seq<(SpecValue, SpecValue)>, eb: Seq<u8>, rest: Seq<u8>|
            #![trigger is_enc_entry_seq(eb, elems), eb + rest]
            elems.len() == n && is_enc_entry_seq(eb, elems) && buf@.skip(pos as int) == eb + rest
                ==> (r matches Ok(o) && crate::structures::Value::model_entry_seq(o.0@) == elems
                && o.1 == pos + eb.len()),
    decreases buf@.len() - pos, 3int, n as int,
{
    if n == 0 {
        let out: Vec<ValueEntry> = Vec::new();
        proof {
            crate::structures::Value::lemma_model_entry_seq(out@);
            assert(crate::structures::Value::model_entry_seq(out@) =~= Seq::<
                (SpecValue, SpecValue),
            >::empty());
            assert(buf@.subrange(pos as int, pos as int) =~= Seq::<u8>::empty());
        }
        return Result::Ok((out, pos));
    }
    proof {
        assert forall|elems: Seq<(SpecValue, SpecValue)>, eb: Seq<u8>, rest: Seq<u8>|
            #![trigger is_enc_entry_seq(eb, elems), eb + rest]
            elems.len() == n && is_enc_entry_seq(eb, elems) && buf@.skip(pos as int) == eb + rest
            implies ({
            let (i, j) = choose|i: int, j: int|
                #![trigger eb.subrange(0, i), eb.subrange(i, j)]
                0 <= i <= j <= eb.len() && is_enc_value(eb.subrange(0, i), elems[0].0)
                    && is_enc_value(eb.subrange(i, j), elems[0].1) && is_enc_entry_seq(
                    eb.skip(j),
                    elems.drop_first(),
                );
            &&& 0 <= i <= j <= eb.len()
            &&& is_enc_value(eb.subrange(0, i), elems[0].0)
            &&& is_enc_value(eb.subrange(i, j), elems[0].1)
            &&& is_enc_entry_seq(eb.skip(j), elems.drop_first())
            &&& buf@.skip(pos as int) == eb.subrange(0, i) + (eb.subrange(i, j) + (eb.skip(j)
                + rest))
            &&& eb.subrange(0, i).len() == i
            &&& eb.subrange(i, j).len() == j - i
        }) by {
            let (i, j) = choose|i: int, j: int|
                #![trigger eb.subrange(0, i), eb.subrange(i, j)]
                0 <= i <= j <= eb.len() && is_enc_value(eb.subrange(0, i), elems[0].0)
                    && is_enc_value(eb.subrange(i, j), elems[0].1) && is_enc_entry_seq(
                    eb.skip(j),
                    elems.drop_first(),
                );
            assert(eb + rest =~= eb.subrange(0, i) + (eb.subrange(i, j) + (eb.skip(j) + rest)));
        }
    }
    let kr = get_value(buf, pos);
    let (kv, p1) = match kr {
        Result::Ok(o) => o,
        Result::Err(e) => {
            proof {
                assert forall|elems: Seq<(SpecValue, SpecValue)>, eb: Seq<u8>, rest: Seq<u8>|
                    #![trigger is_enc_entry_seq(eb, elems), eb + rest]
                    elems.len() == n && is_enc_entry_seq(eb, elems) implies buf@.skip(pos as int)
                    != eb + rest by {
                    if buf@.skip(pos as int) == eb + rest {
                        assert(false);
                    }
                }
            }
            return Result::Err(e);
        },
    };
    proof {
        assert forall|elems: Seq<(SpecValue, SpecValue)>, eb: Seq<u8>, rest: Seq<u8>|
            #![trigger is_enc_entry_seq(eb, elems), eb + rest]
            elems.len() == n && is_enc_entry_seq(eb, elems) && buf@.skip(pos as int) == eb + rest
            implies buf@.skip(p1 as int) == eb.subrange(p1 - pos, eb.len() as int) + rest
            && kv.model() == elems[0].0 && ({
            let (i, j) = choose|i: int, j: int|
                #![trigger eb.subrange(0, i), eb.subrange(i, j)]
                0 <= i <= j <= eb.len() && is_enc_value(eb.subrange(0, i), elems[0].0)
                    && is_enc_value(eb.subrange(i, j), elems[0].1) && is_enc_entry_seq(
                    eb.skip(j),
                    elems.drop_first(),
                );
            &&& i == p1 - pos
            &&& buf@.skip(p1 as int) == eb.subrange(i, j) + (eb.skip(j) + rest)
        }) by {
            let (i, j) = choose|i: int, j: int|
                #![trigger eb.subrange(0, i), eb.subrange(i, j)]
                0 <= i <= j <= eb.len() && is_enc_value(eb.subrange(0, i), elems[0].0)
                    && is_enc_value(eb.subrange(i, j), elems[0].1) && is_enc_entry_seq(
                    eb.skip(j),
                    elems.drop_first(),
                );
            assert(p1 == pos + i);
            assert(buf@.skip(pos as int).skip(i) =~= buf@.skip(p1 as int));
            assert((eb.subrange(0, i) + (eb.subrange(i, j) + (eb.skip(j) + rest))).skip(i)
                =~= eb.subrange(i, j) + (eb.skip(j) + rest));
            assert(eb.subrange(p1 - pos, eb.len() as int) =~= eb.skip(p1 - pos));
            assert(eb.skip(i) + rest =~= eb.subrange(i, j) + (eb.skip(j) + rest));
            assert(buf@.skip(p1 as int) =~= eb.subrange(p1 - pos, eb.len() as int) + rest);
        }
    }
    let vr = get_value(buf, p1);
    let (vv, p2) = match vr {
        Result::Ok(o) => o,
        Result::Err(e) => {
            proof {
                assert forall|elems: Seq<(SpecValue, SpecValue)>, eb: Seq<u8>, rest: Seq<u8>|
                    #![trigger is_enc_entry_seq(eb, elems), eb + rest]
                    elems.len() == n && is_enc_entry_seq(eb, elems) implies buf@.skip(pos as int)
                    != eb + rest by {
                    if buf@.skip(pos as int) == eb + rest {
                        assert(false);
                    }
                }
            }
            return Result::Err(e);
        },
    };
    proof {
        assert forall|elems: Seq<(SpecValue, SpecValue)>, eb: Seq<u8>, rest: Seq<u8>|
            #![trigger is_enc_entry_seq(eb, elems), eb + rest]
            elems.len() == n && is_enc_entry_seq(eb, elems) && buf@.skip(pos as int) == eb + rest
            implies buf@.skip(p2 as int) == eb.skip(p2 - pos) + rest && vv.model() == elems[0].1
            && is_enc_entry_seq(eb.skip(p2 - pos), elems.drop_first()) by {
            let (i, j) = choose|i: int, j: int|
                #![trigger eb.subrange(0, i), eb.subrange(i, j)]
                0 <= i <= j <= eb.len() && is_enc_value(eb.subrange(0, i), elems[0].0)
                    && is_enc_value(eb.subrange(i, j), elems[0].1) && is_enc_entry_seq(
                    eb.skip(j),
                    elems.drop_first(),
                );
            assert(buf@.skip(p1 as int) == eb.subrange(i, j) + (eb.skip(j) + rest));
            assert(p2 == p1 + (j - i));
            assert(buf@.skip(p1 as int).skip(j - i) =~= buf@.skip(p2 as int));
            assert((eb.subrange(i, j) + (eb.skip(j) + rest)).skip(j - i) =~= eb.skip(j) + rest);
            assert(eb.skip(p2 - pos) =~= eb.skip(j));
        }
    }
    let rest_r = get_entry_list(buf, p2, n - 1);
    match rest_r {
        Result::Ok((es, p3)) => {
            let ghost tail_models = crate::structures::Value::model_entry_seq(es@);
            let mut out: Vec<ValueEntry> = Vec::new();
            out.push(ValueEntry { key: kv, val: vv });
            let mut tail = es;
            out.append(&mut tail);
            let ghost models = crate::structures::Value::model_entry_seq(out@);
            proof {
                crate::structures::Value::lemma_model_entry_seq(out@);
                crate::structures::Value::lemma_model_entry_seq(es@);
                assert(models =~= seq![(kv.model(), vv.model())] + tail_models) by {
                    assert forall|j: int| 0 <= j < models.len() implies models[j] == (seq![
                        (kv.model(), vv.model()),
                    ] + tail_models)[j] by {
                        assert(models[j] == crate::structures::Value::model_entry(out@[j]));
                        if j > 0 {
                            assert(out@[j] == es@[j - 1]);
                            assert(tail_models[j - 1] == crate::structures::Value::model_entry(
                                es@[j - 1],
                            ));
                        } else {
                            assert(out@[0] == ValueEntry { key: kv, val: vv });
                        }
                    }
                }
                assert(models.drop_first() =~= tail_models);
                assert(models[0] == (kv.model(), vv.model()));
                assert(entry_seq_ok(models));
                let b2 = buf@.subrange(pos as int, p3 as int);
                assert(b2.subrange(0, p1 - pos) =~= buf@.subrange(pos as int, p1 as int));
                assert(b2.subrange(p1 - pos, p2 - pos) =~= buf@.subrange(p1 as int, p2 as int));
                assert(b2.skip(p2 - pos) =~= buf@.subrange(p2 as int, p3 as int));
                assert(is_enc_value(b2.subrange(0, p1 - pos), models[0].0));
                assert(is_enc_value(b2.subrange(p1 - pos, p2 - pos), models[0].1));
                assert(is_enc_entry_seq(b2, models));
                assert forall|elems: Seq<(SpecValue, SpecValue)>, eb: Seq<u8>, rest: Seq<u8>|
                    #![trigger is_enc_entry_seq(eb, elems), eb + rest]
                    elems.len() == n && is_enc_entry_seq(eb, elems) && buf@.skip(pos as int) == eb
                    + rest implies models == elems && eb.len() == p3 - pos by {
                    assert(buf@.skip(p2 as int) == eb.skip(p2 - pos) + rest);
                    assert(tail_models == elems.drop_first());
                    assert(models =~= elems);
                    assert(p3 == p2 + eb.skip(p2 - pos).len());
                }
            }
            Result::Ok((out, p3))
        },
        Result::Err(e) => {
            proof {
                assert forall|elems: Seq<(SpecValue, SpecValue)>, eb: Seq<u8>, rest: Seq<u8>|
                    #![trigger is_enc_entry_seq(eb, elems), eb + rest]
                    elems.len() == n && is_enc_entry_seq(eb, elems) implies buf@.skip(pos as int)
                    != eb + rest by {
                    if buf@.skip(pos as int) == eb + rest {
                        assert(buf@.skip(p2 as int) == eb.skip(p2 - pos) + rest);
                        assert(false);
                    }
                }
            }
            Result::Err(e)
        },
    }
}


/// The canonical encoding of a value is one of its well-formed forms, so
/// decoding always inverts encoding: reading back `enc_value(v)` yields
/// `v`.
pub proof fn lemma_enc_value_accepted(v: SpecValue)
    requires
        value_ok(v),
    ensures
        is_enc_value(enc_value(v), v),
    decreases v, 1int, 0int,
{
    match v {
        SpecValue::Text(s) => {
            crate::msgpack::lemma_enc_str_is_enc(s);
        },
        SpecValue::Binary(p) => {
            crate::msgpack::lemma_enc_bin_is_enc(p);
        },
        SpecValue::Array(a) => {
            let b = enc_value(v);
            let hb = enc_arrhead(a.len() as u64);
            crate::msgpack::lemma_enc_arrhead_is_enc(a.len() as u64);
            lemma_arrhead_width(hb, a.len() as u64);
            assert(b[0] == hb[0]);
            assert(b.take(hb.len() as int) =~= hb);
            assert(b.skip(hb.len() as int) =~= enc_value_seq(a));
            lemma_enc_value_seq_accepted(a);
        },
        SpecValue::Assoc(m) => {
            let b = enc_value(v);
            let hb = enc_maphead(m.len() as u64);
            crate::msgpack::lemma_enc_maphead_is_enc(m.len() as u64);
            lemma_maphead_width(hb, m.len() as u64);
            assert(b[0] == hb[0]);
            assert(b.take(hb.len() as int) =~= hb);
            assert(b.skip(hb.len() as int) =~= enc_entry_seq(m));
            lemma_enc_entry_seq_accepted(m);
        },
        _ => {},
    }
}

/// The canonical encodings of a value sequence, concatenated, are a
/// well-formed form of it.
pub proof fn lemma_enc_value_seq_accepted(s: Seq<SpecValue>)
    requires
        value_seq_ok(s),
    ensures
        is_enc_value_seq(enc_value_seq(s), s),
    decreases s, 2int, 0int,
{
    if s.len() > 0 {
        let b = enc_value_seq(s);
        let i = enc_value(s[0]).len() as int;
        lemma_enc_value_accepted(s[0]);
        lemma_enc_value_seq_accepted(s.drop_first());
        assert(b.subrange(0, i) =~= enc_value(s[0]));
        assert(b.skip(i) =~= enc_value_seq(s.drop_first()));
    }
}

/// The canonical encodings of a pair sequence, concatenated, are a
/// well-formed form of it.
pub proof fn lemma_enc_entry_seq_accepted(s: Seq<(SpecValue, SpecValue)>)
    requires
        entry_seq_ok(s),
    ensures
        is_enc_entry_seq(enc_entry_seq(s), s),
    decreases s, 2int, 0int,
{
    if s.len() > 0 {
        let b = enc_entry_seq(s);
        let i = enc_value(s[0].0).len() as int;
        let j = i + enc_value(s[0].1).len();
        lemma_enc_value_accepted(s[0].0);
        lemma_enc_value_accepted(s[0].1);
        lemma_enc_entry_seq_accepted(s.drop_first());
        assert(b.subrange(0, i) =~= enc_value(s[0].0));
        assert(b.subrange(i, j) =~= enc_value(s[0].1));
        assert(b.skip(j) =~= enc_entry_seq(s.drop_first()));
    }
}

} // verus!
