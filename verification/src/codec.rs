//! The value codec: lowering typed values into a flat wire representation
//! and fallibly lifting them back.
//!
//! `enc` and `dec` are the mathematical forms; `lower` and `lift` are the
//! executable ones, proved against them. The round-trip laws at the end of
//! the file state that lifting a lowered value yields the value back.

use vstd::prelude::*;
use crate::value::{Shape, Value, ValModel, wf, wf_fields, wf_elems, seq_view};
use crate::value::lemma_seq_view;
use crate::wire::{le_bytes, le_val, bits_val, bits_of, drop_bits, valid_utf8};
use crate::wire::{lemma_le_bytes_len, lemma_le_roundtrip, lemma_le_val_bound};
use crate::wire::{lemma_bits_val_bound, lemma_bits_roundtrip, lemma_bits_val_drop};
use crate::wire::{push_le, read_le, pack_bits, unpack_bits, shift_out, check_utf8};
use vstd::arithmetic::power2::pow2;
use vstd::arithmetic::power2::lemma2_to64;
use vstd::arithmetic::power2::lemma_pow2_strictly_increases;

verus! {

/// Why lifting rejected a piece of wire data.
#[derive(Clone, Copy, Debug, PartialEq, Eq, Structural)]
pub enum DecodeError {
    /// The wire data ended before the shape was fully read.
    Truncated,
    /// An option, result or boolean discriminant outside {0, 1}.
    Discriminant,
    /// A variant tag beyond the declared case list.
    Tag,
    /// A flag bit-set with bits set beyond the declared flags.
    FlagBits,
    /// Text that is not well-formed UTF-8.
    Utf8,
    /// Wire data left over after the value was fully read.
    Trailing,
}

/// The number of bytes a flag set of `n` flags occupies: the smallest
/// integer width of 8, 16, 32 or 64 bits that holds the declared count.
pub open spec fn flag_width(n: nat) -> nat {
    if n <= 8 {
        1
    } else if n <= 16 {
        2
    } else if n <= 32 {
        4
    } else {
        8
    }
}

/// The wire representation of a value.
///
/// Scalars lower to their fixed-width little-endian representation (floats
/// as their bit patterns), options and results to a one-byte discriminant
/// followed by the payload of the chosen side only, variant cases to a
/// four-byte tag and that case's payload, flag sets to the smallest unsigned
/// bit-set that holds the declared flag count, records and tuples to their
/// fields in declared order, lists and text to a four-byte length prefix
/// followed by the elements or the UTF-8 bytes.
pub open spec fn enc(v: ValModel) -> Seq<u8>
    decreases v, 0int,
{
    match v {
        ValModel::U8(x) => seq![x],
        ValModel::S8(x) => seq![x as u8],
        ValModel::U16(x) => le_bytes(x as nat, 2),
        ValModel::S16(x) => le_bytes((x as u16) as nat, 2),
        ValModel::U32(x) => le_bytes(x as nat, 4),
        ValModel::S32(x) => le_bytes((x as u32) as nat, 4),
        ValModel::U64(x) => le_bytes(x as nat, 8),
        ValModel::S64(x) => le_bytes((x as u64) as nat, 8),
        ValModel::F32(x) => le_bytes(x as nat, 4),
        ValModel::F64(x) => le_bytes(x as nat, 8),
        ValModel::Bool(b) => seq![
            if b {
                1u8
            } else {
                0u8
            },
        ],
        ValModel::Unit => Seq::empty(),
        ValModel::OptNone => seq![0u8],
        ValModel::OptSome(b) => seq![1u8] + enc(*b),
        ValModel::ResOk(b) => seq![0u8] + enc(*b),
        ValModel::ResErr(b) => seq![1u8] + enc(*b),
        ValModel::Case(tag, b) => le_bytes(tag as nat, 4) + enc(*b),
        ValModel::FlagSet(bs) => le_bytes(bits_val(bs), flag_width(bs.len())),
        ValModel::Record(vs) => enc_fields(vs, 0),
        ValModel::Tuple(vs) => enc_fields(vs, 0),
        ValModel::List(vs) => le_bytes(vs.len(), 4) + enc_fields(vs, 0),
        ValModel::Text(bs) => le_bytes(bs.len(), 4) + bs,
    }
}

/// The concatenated wire representations of the values from position `k` on.
pub open spec fn enc_fields(vs: Seq<ValModel>, k: int) -> Seq<u8>
    decreases vs, vs.len() - k,
{
    if k < 0 || k >= vs.len() {
        Seq::empty()
    } else {
        enc(vs[k]) + enc_fields(vs, k + 1)
    }
}

/// Lifts one value of shape `t` from the front of `s`: the value and how
/// many bytes it occupied, or the exact reason the data was rejected.
pub open spec fn dec(t: Shape, s: Seq<u8>) -> Result<(ValModel, int), DecodeError>
    decreases t, 0int, 0int,
{
    match t {
        Shape::U8 => if s.len() < 1 {
            Err(DecodeError::Truncated)
        } else {
            Ok((ValModel::U8(s[0]), 1))
        },
        Shape::S8 => if s.len() < 1 {
            Err(DecodeError::Truncated)
        } else {
            Ok((ValModel::S8(s[0] as i8), 1))
        },
        Shape::U16 => if s.len() < 2 {
            Err(DecodeError::Truncated)
        } else {
            Ok((ValModel::U16(le_val(s.take(2)) as u16), 2))
        },
        Shape::S16 => if s.len() < 2 {
            Err(DecodeError::Truncated)
        } else {
            Ok((ValModel::S16((le_val(s.take(2)) as u16) as i16), 2))
        },
        Shape::U32 => if s.len() < 4 {
            Err(DecodeError::Truncated)
        } else {
            Ok((ValModel::U32(le_val(s.take(4)) as u32), 4))
        },
        Shape::S32 => if s.len() < 4 {
            Err(DecodeError::Truncated)
        } else {
            Ok((ValModel::S32((le_val(s.take(4)) as u32) as i32), 4))
        },
        Shape::U64 => if s.len() < 8 {
            Err(DecodeError::Truncated)
        } else {
            Ok((ValModel::U64(le_val(s.take(8)) as u64), 8))
        },
        Shape::S64 => if s.len() < 8 {
            Err(DecodeError::Truncated)
        } else {
            Ok((ValModel::S64((le_val(s.take(8)) as u64) as i64), 8))
        },
        Shape::F32 => if s.len() < 4 {
            Err(DecodeError::Truncated)
        } else {
            Ok((ValModel::F32(le_val(s.take(4)) as u32), 4))
        },
        Shape::F64 => if s.len() < 8 {
            Err(DecodeError::Truncated)
        } else {
            Ok((ValModel::F64(le_val(s.take(8)) as u64), 8))
        },
        Shape::Bool => if s.len() < 1 {
            Err(DecodeError::Truncated)
        } else if s[0] == 0 {
            Ok((ValModel::Bool(false), 1))
        } else if s[0] == 1 {
            Ok((ValModel::Bool(true), 1))
        } else {
            Err(DecodeError::Discriminant)
        },
        Shape::Unit => Ok((ValModel::Unit, 0)),
        Shape::Optional(t1) => if s.len() < 1 {
            Err(DecodeError::Truncated)
        } else if s[0] == 0 {
            Ok((ValModel::OptNone, 1))
        } else if s[0] == 1 {
            match dec(*t1, s.skip(1)) {
                Ok((v, n)) => Ok((ValModel::OptSome(Box::new(v)), 1 + n)),
                Err(e) => Err(e),
            }
        } else {
            Err(DecodeError::Discriminant)
        },
        Shape::Fallible(to, te) => if s.len() < 1 {
            Err(DecodeError::Truncated)
        } else if s[0] == 0 {
            match dec(*to, s.skip(1)) {
                Ok((v, n)) => Ok((ValModel::ResOk(Box::new(v)), 1 + n)),
                Err(e) => Err(e),
            }
        } else if s[0] == 1 {
            match dec(*te, s.skip(1)) {
                Ok((v, n)) => Ok((ValModel::ResErr(Box::new(v)), 1 + n)),
                Err(e) => Err(e),
            }
        } else {
            Err(DecodeError::Discriminant)
        },
        Shape::Variant(cs) => if s.len() < 4 {
            Err(DecodeError::Truncated)
        } else {
            let tag = le_val(s.take(4));
            if tag >= cs@.len() {
                Err(DecodeError::Tag)
            } else {
                match dec(cs@[tag as int], s.skip(4)) {
                    Ok((v, n)) => Ok((ValModel::Case(tag as u32, Box::new(v)), 4 + n)),
                    Err(e) => Err(e),
                }
            }
        },
        Shape::FlagSet(n) => {
            let w = flag_width(n as nat);
            if s.len() < w {
                Err(DecodeError::Truncated)
            } else {
                let x = le_val(s.take(w as int));
                if drop_bits(x, n as nat) != 0 {
                    Err(DecodeError::FlagBits)
                } else {
                    Ok((ValModel::FlagSet(bits_of(x, n as nat)), w as int))
                }
            }
        },
        Shape::Record(ts) => match dec_fields(ts@, 0, s) {
            Ok((vs, n)) => Ok((ValModel::Record(vs), n)),
            Err(e) => Err(e),
        },
        Shape::Tuple(ts) => match dec_fields(ts@, 0, s) {
            Ok((vs, n)) => Ok((ValModel::Tuple(vs), n)),
            Err(e) => Err(e),
        },
        Shape::List(et) => if s.len() < 4 {
            Err(DecodeError::Truncated)
        } else {
            let m = le_val(s.take(4));
            match dec_elems(*et, m as int, s.skip(4)) {
                Ok((vs, n)) => Ok((ValModel::List(vs), 4 + n)),
                Err(e) => Err(e),
            }
        },
        Shape::Text => if s.len() < 4 {
            Err(DecodeError::Truncated)
        } else {
            let m = le_val(s.take(4)) as int;
            if s.len() < 4 + m {
                Err(DecodeError::Truncated)
            } else if !valid_utf8(s.subrange(4, 4 + m)) {
                Err(DecodeError::Utf8)
            } else {
                Ok((ValModel::Text(s.subrange(4, 4 + m)), 4 + m))
            }
        },
    }
}

/// Lifts the fields from position `k` on, each of its declared shape, one
/// after the other from the front of `s`.
pub open spec fn dec_fields(ts: Seq<Shape>, k: int, s: Seq<u8>) -> Result<
    (Seq<ValModel>, int),
    DecodeError,
>
    decreases ts, ts.len() - k, 0int,
{
    if k < 0 || k >= ts.len() {
        Ok((Seq::empty(), 0))
    } else {
        match dec(ts[k], s) {
            Ok((v, n)) => match dec_fields(ts, k + 1, s.skip(n)) {
                Ok((vs, n2)) => Ok((seq![v] + vs, n + n2)),
                Err(e) => Err(e),
            },
            Err(e) => Err(e),
        }
    }
}

/// Lifts `m` list elements of shape `t` from the front of `s`.
pub open spec fn dec_elems(t: Shape, m: int, s: Seq<u8>) -> Result<
    (Seq<ValModel>, int),
    DecodeError,
>
    decreases t, m, 0int,
{
    if m <= 0 {
        Ok((Seq::empty(), 0))
    } else {
        match dec(t, s) {
            Ok((v, n)) => match dec_elems(t, m - 1, s.skip(n)) {
                Ok((vs, n2)) => Ok((seq![v] + vs, n + n2)),
                Err(e) => Err(e),
            },
            Err(e) => Err(e),
        }
    }
}

/// The machine limit lowering needs: every flag set in the value declares at
/// most 64 flags, so its bit-set fits one unsigned word.
pub open spec fn encodable(v: ValModel) -> bool
    decreases v, 0int,
{
    match v {
        ValModel::OptSome(b) => encodable(*b),
        ValModel::ResOk(b) => encodable(*b),
        ValModel::ResErr(b) => encodable(*b),
        ValModel::Case(_, b) => encodable(*b),
        ValModel::FlagSet(bs) => bs.len() <= 64,
        ValModel::Record(vs) => encodable_fields(vs, 0),
        ValModel::Tuple(vs) => encodable_fields(vs, 0),
        ValModel::List(vs) => encodable_fields(vs, 0),
        _ => true,
    }
}

pub open spec fn encodable_fields(vs: Seq<ValModel>, k: int) -> bool
    decreases vs, vs.len() - k,
{
    if k < 0 || k >= vs.len() {
        true
    } else {
        encodable(vs[k]) && encodable_fields(vs, k + 1)
    }
}

/// A value that inhabits any shape is encodable.
pub proof fn lemma_wf_encodable(t: Shape, v: ValModel)
    requires
        wf(t, v),
    ensures
        encodable(v),
    decreases t, 0int, 0int,
{
    match t {
        Shape::Optional(t1) => match v {
            ValModel::OptSome(b) => lemma_wf_encodable(*t1, *b),
            _ => {},
        },
        Shape::Fallible(to, te) => match v {
            ValModel::ResOk(b) => lemma_wf_encodable(*to, *b),
            ValModel::ResErr(b) => lemma_wf_encodable(*te, *b),
            _ => {},
        },
        Shape::Variant(cs) => match v {
            ValModel::Case(tag, b) => lemma_wf_encodable(cs@[tag as int], *b),
            _ => {},
        },
        Shape::Record(ts) => match v {
            ValModel::Record(vs) => lemma_wf_encodable_fields(ts@, vs, 0),
            _ => {},
        },
        Shape::Tuple(ts) => match v {
            ValModel::Tuple(vs) => lemma_wf_encodable_fields(ts@, vs, 0),
            _ => {},
        },
        Shape::List(et) => match v {
            ValModel::List(vs) => lemma_wf_encodable_elems(*et, vs, 0),
            _ => {},
        },
        _ => {},
    }
}

proof fn lemma_wf_encodable_fields(ts: Seq<Shape>, vs: Seq<ValModel>, k: int)
    requires
        vs.len() == ts.len(),
        0 <= k <= ts.len(),
        wf_fields(ts, vs, k),
    ensures
        encodable_fields(vs, k),
    decreases ts, ts.len() - k, 0int,
{
    if k < ts.len() {
        lemma_wf_encodable(ts[k], vs[k]);
        lemma_wf_encodable_fields(ts, vs, k + 1);
    }
}

/// The central round-trip fact, stated for an arbitrary continuation of the
/// wire data: a lowered value at the front of the data lifts back to itself
/// and consumes exactly its own bytes.
pub proof fn lemma_dec_enc(t: Shape, v: ValModel, rest: Seq<u8>)
    requires
        wf(t, v),
    ensures
        dec(t, enc(v) + rest) == Ok::<(ValModel, int), DecodeError>(
            (v, enc(v).len() as int),
        ),
    decreases t, 0int, 0int,
{
    let s = enc(v) + rest;
    lemma2_to64();
    match t {
        Shape::U8 => {
            let x = v->U8_0;
            assert(s[0] == x);
        },
        Shape::S8 => {
            let x = v->S8_0;
            assert(s[0] == x as u8);
            assert((x as u8) as i8 == x) by (bit_vector);
        },
        Shape::U16 => {
            let x = v->U16_0;
            lemma_le_bytes_len(x as nat, 2);
            assert(s.take(2) =~= le_bytes(x as nat, 2));
            lemma_le_roundtrip(x as nat, 2);
        },
        Shape::S16 => {
            let x = v->S16_0;
            lemma_le_bytes_len((x as u16) as nat, 2);
            assert(s.take(2) =~= le_bytes((x as u16) as nat, 2));
            lemma_le_roundtrip((x as u16) as nat, 2);
            assert((x as u16) as i16 == x) by (bit_vector);
        },
        Shape::U32 => {
            let x = v->U32_0;
            lemma_le_bytes_len(x as nat, 4);
            assert(s.take(4) =~= le_bytes(x as nat, 4));
            lemma_le_roundtrip(x as nat, 4);
        },
        Shape::S32 => {
            let x = v->S32_0;
            lemma_le_bytes_len((x as u32) as nat, 4);
            assert(s.take(4) =~= le_bytes((x as u32) as nat, 4));
            lemma_le_roundtrip((x as u32) as nat, 4);
            assert((x as u32) as i32 == x) by (bit_vector);
        },
        Shape::U64 => {
            let x = v->U64_0;
            lemma_le_bytes_len(x as nat, 8);
            assert(s.take(8) =~= le_bytes(x as nat, 8));
            lemma_le_roundtrip(x as nat, 8);
        },
        Shape::S64 => {
            let x = v->S64_0;
            lemma_le_bytes_len((x as u64) as nat, 8);
            assert(s.take(8) =~= le_bytes((x as u64) as nat, 8));
            lemma_le_roundtrip((x as u64) as nat, 8);
            assert((x as u64) as i64 == x) by (bit_vector);
        },
        Shape::F32 => {
            let x = v->F32_0;
            lemma_le_bytes_len(x as nat, 4);
            assert(s.take(4) =~= le_bytes(x as nat, 4));
            lemma_le_roundtrip(x as nat, 4);
        },
        Shape::F64 => {
            let x = v->F64_0;
            lemma_le_bytes_len(x as nat, 8);
            assert(s.take(8) =~= le_bytes(x as nat, 8));
            lemma_le_roundtrip(x as nat, 8);
        },
        Shape::Bool => {
            let b = v->Bool_0;
            assert(s[0] == if b {
                1u8
            } else {
                0u8
            });
        },
        Shape::Unit => {},
        Shape::Optional(t1) => {
            match v {
                ValModel::OptNone => {
                    assert(s[0] == 0);
                },
                ValModel::OptSome(b) => {
                    let e1 = enc(*b);
                    assert(s[0] == 1);
                    assert(s.skip(1) =~= e1 + rest);
                    lemma_dec_enc(*t1, *b, rest);
                    assert(ValModel::OptSome(Box::new(*b)) == v);
                },
                _ => {},
            }
        },
        Shape::Fallible(to, te) => {
            match v {
                ValModel::ResOk(b) => {
                    let e1 = enc(*b);
                    assert(s[0] == 0);
                    assert(s.skip(1) =~= e1 + rest);
                    lemma_dec_enc(*to, *b, rest);
                    assert(ValModel::ResOk(Box::new(*b)) == v);
                },
                ValModel::ResErr(b) => {
                    let e1 = enc(*b);
                    assert(s[0] == 1);
                    assert(s.skip(1) =~= e1 + rest);
                    lemma_dec_enc(*te, *b, rest);
                    assert(ValModel::ResErr(Box::new(*b)) == v);
                },
                _ => {},
            }
        },
        Shape::Variant(cs) => {
            let tag = v->Case_0;
            let b = v->Case_1;
            let e0 = le_bytes(tag as nat, 4);
            let e1 = enc(*b);
            lemma_le_bytes_len(tag as nat, 4);
            assert(s.take(4) =~= e0);
            lemma_le_roundtrip(tag as nat, 4);
            assert(s.skip(4) =~= e1 + rest);
            lemma_dec_enc(cs@[tag as int], *b, rest);
            assert(ValModel::Case((tag as nat) as u32, Box::new(*b)) == v);
        },
        Shape::FlagSet(n) => {
            let bs = v->FlagSet_0;
            let w = flag_width(n as nat);
            let x = bits_val(bs);
            lemma_le_bytes_len(x, w);
            assert(s.take(w as int) =~= le_bytes(x, w));
            lemma_bits_val_bound(bs);
            assert(x < pow2(8 * w)) by {
                if bs.len() < 8 * w {
                    lemma_pow2_strictly_increases(bs.len(), 8 * w);
                }
            }
            lemma_le_roundtrip(x, w);
            lemma_bits_val_drop(bs);
            lemma_bits_roundtrip(bs);
        },
        Shape::Record(ts) => {
            let vs = v->Record_0;
            lemma_dec_fields_enc(ts@, vs, 0, rest);
            assert(vs.subrange(0, vs.len() as int) =~= vs);
        },
        Shape::Tuple(ts) => {
            let vs = v->Tuple_0;
            lemma_dec_fields_enc(ts@, vs, 0, rest);
            assert(vs.subrange(0, vs.len() as int) =~= vs);
        },
        Shape::List(et) => {
            let vs = v->List_0;
            let e0 = le_bytes(vs.len(), 4);
            let e1 = enc_fields(vs, 0);
            lemma_le_bytes_len(vs.len(), 4);
            assert(s.take(4) =~= e0);
            lemma_le_roundtrip(vs.len(), 4);
            assert(s.skip(4) =~= e1 + rest);
            lemma_dec_elems_enc(*et, vs, 0, rest);
            assert(vs.subrange(0, vs.len() as int) =~= vs);
        },
        Shape::Text => {
            let bs = v->Text_0;
            let e0 = le_bytes(bs.len(), 4);
            lemma_le_bytes_len(bs.len(), 4);
            assert(s.take(4) =~= e0);
            lemma_le_roundtrip(bs.len(), 4);
            assert(s.subrange(4, 4 + bs.len() as int) =~= bs);
        },
    }
}

/// Round trip for a run of record or tuple fields, from position `k` on.
pub proof fn lemma_dec_fields_enc(ts: Seq<Shape>, vs: Seq<ValModel>, k: int, rest: Seq<u8>)
    requires
        vs.len() == ts.len(),
        0 <= k <= ts.len(),
        wf_fields(ts, vs, k),
    ensures
        dec_fields(ts, k, enc_fields(vs, k) + rest) == Ok::<(Seq<ValModel>, int), DecodeError>(
            (vs.subrange(k, vs.len() as int), enc_fields(vs, k).len() as int),
        ),
    decreases ts, ts.len() - k, 1int,
{
    if k == ts.len() {
        assert(vs.subrange(k, vs.len() as int) =~= Seq::<ValModel>::empty());
        assert(enc_fields(vs, k) + rest =~= rest);
    } else {
        let e0 = enc(vs[k]);
        let e1 = enc_fields(vs, k + 1);
        let s = enc_fields(vs, k) + rest;
        assert(s =~= e0 + (e1 + rest));
        lemma_dec_enc(ts[k], vs[k], e1 + rest);
        assert(s.skip(e0.len() as int) =~= e1 + rest);
        lemma_dec_fields_enc(ts, vs, k + 1, rest);
        assert(seq![vs[k]] + vs.subrange(k + 1, vs.len() as int) =~= vs.subrange(
            k,
            vs.len() as int,
        ));
    }
}

/// Round trip for a run of list elements, from position `k` on: element
/// order and count are preserved exactly.
pub proof fn lemma_dec_elems_enc(t: Shape, vs: Seq<ValModel>, k: int, rest: Seq<u8>)
    requires
        0 <= k <= vs.len(),
        wf_elems(t, vs, k),
    ensures
        dec_elems(t, vs.len() - k, enc_fields(vs, k) + rest) == Ok::<
            (Seq<ValModel>, int),
            DecodeError,
        >((vs.subrange(k, vs.len() as int), enc_fields(vs, k).len() as int)),
    decreases t, vs.len() - k, 1int,
{
    if k == vs.len() {
        assert(vs.subrange(k, vs.len() as int) =~= Seq::<ValModel>::empty());
        assert(enc_fields(vs, k) + rest =~= rest);
    } else {
        let e0 = enc(vs[k]);
        let e1 = enc_fields(vs, k + 1);
        let s = enc_fields(vs, k) + rest;
        assert(s =~= e0 + (e1 + rest));
        lemma_dec_enc(t, vs[k], e1 + rest);
        assert(s.skip(e0.len() as int) =~= e1 + rest);
        lemma_dec_elems_enc(t, vs, k + 1, rest);
        assert(seq![vs[k]] + vs.subrange(k + 1, vs.len() as int) =~= vs.subrange(
            k,
            vs.len() as int,
        ));
    }
}

/// Round-trip fidelity: lifting a lowered well-formed value of any shape
/// yields the value back, consuming the whole wire form.
pub proof fn lemma_round_trip(t: Shape, v: ValModel)
    requires
        wf(t, v),
    ensures
        dec(t, enc(v)) == Ok::<(ValModel, int), DecodeError>((v, enc(v).len() as int)),
{
    lemma_dec_enc(t, v, Seq::empty());
    assert(enc(v) + Seq::<u8>::empty() =~= enc(v));
}

/// Lowering an absent option and lifting it yields the absent option, for
/// any payload shape: the payload is never touched.
pub proof fn lemma_none_round_trip(t1: Shape)
    ensures
        dec(Shape::Optional(Box::new(t1)), enc(ValModel::OptNone)) == Ok::<
            (ValModel, int),
            DecodeError,
        >((ValModel::OptNone, 1)),
{
    lemma_round_trip(Shape::Optional(Box::new(t1)), ValModel::OptNone);
}

/// Lowering a failure and lifting it yields the same failure, for every
/// well-formed value of the declared error shape.
pub proof fn lemma_err_round_trip(to: Shape, te: Shape, e: ValModel)
    requires
        wf(te, e),
    ensures
        dec(Shape::Fallible(Box::new(to), Box::new(te)), enc(ValModel::ResErr(Box::new(e))))
            == Ok::<(ValModel, int), DecodeError>(
            (ValModel::ResErr(Box::new(e)), enc(ValModel::ResErr(Box::new(e))).len() as int),
        ),
{
    lemma_round_trip(Shape::Fallible(Box::new(to), Box::new(te)), ValModel::ResErr(Box::new(e)));
}

/// Flags independence: toggling one flag and round-tripping the set yields
/// exactly the toggled set, so every other flag keeps its state, for every
/// subset of the declared flags.
pub proof fn lemma_flag_independence(n: usize, bs: Seq<bool>, j: int)
    requires
        bs.len() == n,
        n <= 64,
        0 <= j < n,
    ensures
        dec(Shape::FlagSet(n), enc(ValModel::FlagSet(bs.update(j, !bs[j])))) == Ok::<
            (ValModel, int),
            DecodeError,
        >((ValModel::FlagSet(bs.update(j, !bs[j])), flag_width(n as nat) as int)),
        forall|i: int| 0 <= i < n && i != j ==> bs.update(j, !bs[j])[i] == bs[i],
        bs.update(j, !bs[j])[j] == !bs[j],
{
    let toggled = bs.update(j, !bs[j]);
    lemma_round_trip(Shape::FlagSet(n), ValModel::FlagSet(toggled));
    lemma_le_bytes_len(bits_val(toggled), flag_width(n as nat));
}

/// Sequence integrity: a round-tripped list keeps its element count and
/// order exactly, whatever its length.
pub proof fn lemma_list_round_trip(et: Shape, vs: Seq<ValModel>)
    requires
        vs.len() < 0x1_0000_0000,
        wf_elems(et, vs, 0),
    ensures
        dec(Shape::List(Box::new(et)), enc(ValModel::List(vs))) == Ok::<
            (ValModel, int),
            DecodeError,
        >((ValModel::List(vs), enc(ValModel::List(vs)).len() as int)),
{
    lemma_round_trip(Shape::List(Box::new(et)), ValModel::List(vs));
}

proof fn lemma_wf_encodable_elems(t: Shape, vs: Seq<ValModel>, k: int)
    requires
        0 <= k <= vs.len(),
        wf_elems(t, vs, k),
    ensures
        encodable_fields(vs, k),
    decreases t, vs.len() - k, 0int,
{
    if k < vs.len() {
        lemma_wf_encodable(t, vs[k]);
        lemma_wf_encodable_elems(t, vs, k + 1);
    }
}

/// Appends the bytes of `bs` from position `k` on to `out`.
fn push_bytes(out: &mut Vec<u8>, bs: &Vec<u8>, k: usize)
    requires
        k <= bs.len(),
    ensures
        final(out)@ == old(out)@ + bs@.skip(k as int),
    decreases bs.len() - k,
{
    if k == bs.len() {
        assert(final(out)@ =~= old(out)@ + bs@.skip(k as int));
    } else {
        out.push(bs[k]);
        push_bytes(out, bs, k + 1);
        assert(final(out)@ =~= old(out)@ + bs@.skip(k as int));
    }
}

/// Copies `s[from..to]` into a fresh vector.
fn copy_range(s: &Vec<u8>, from: usize, to: usize) -> (r: Vec<u8>)
    requires
        from <= to <= s.len(),
    ensures
        r@ == s@.subrange(from as int, to as int),
{
    let mut r: Vec<u8> = Vec::new();
    let mut i: usize = from;
    while i < to
        invariant
            from <= i <= to <= s.len(),
            r@ == s@.subrange(from as int, i as int),
        decreases to - i,
    {
        r.push(s[i]);
        i = i + 1;
        proof {
            assert(r@ =~= s@.subrange(from as int, i as int));
        }
    }
    r
}

/// Lowers `v` onto the end of `out`.
fn lower_into(v: &Value, out: &mut Vec<u8>)
    requires
        encodable(v@),
    ensures
        final(out)@ == old(out)@ + enc(v@),
    decreases v, 0int,
{
    match v {
        Value::U8(x) => {
            out.push(*x);
            assert(final(out)@ =~= old(out)@ + enc(v@));
        },
        Value::S8(x) => {
            out.push(*x as u8);
            assert(final(out)@ =~= old(out)@ + enc(v@));
        },
        Value::U16(x) => {
            push_le(out, *x as u64, 2);
        },
        Value::S16(x) => {
            push_le(out, *x as u16 as u64, 2);
        },
        Value::U32(x) => {
            push_le(out, *x as u64, 4);
        },
        Value::S32(x) => {
            push_le(out, *x as u32 as u64, 4);
        },
        Value::U64(x) => {
            push_le(out, *x, 8);
        },
        Value::S64(x) => {
            push_le(out, *x as u64, 8);
        },
        Value::F32(x) => {
            push_le(out, *x as u64, 4);
        },
        Value::F64(x) => {
            push_le(out, *x, 8);
        },
        Value::Bool(b) => {
            out.push(
                if *b {
                    1
                } else {
                    0
                },
            );
            assert(final(out)@ =~= old(out)@ + enc(v@));
        },
        Value::Unit => {
            assert(final(out)@ =~= old(out)@ + enc(v@));
        },
        Value::OptNone => {
            out.push(0);
            assert(final(out)@ =~= old(out)@ + enc(v@));
        },
        Value::OptSome(b) => {
            out.push(1);
            lower_into(b, out);
            assert(final(out)@ =~= old(out)@ + enc(v@));
        },
        Value::ResOk(b) => {
            out.push(0);
            lower_into(b, out);
            assert(final(out)@ =~= old(out)@ + enc(v@));
        },
        Value::ResErr(b) => {
            out.push(1);
            lower_into(b, out);
            assert(final(out)@ =~= old(out)@ + enc(v@));
        },
        Value::Case(tag, b) => {
            push_le(out, *tag as u64, 4);
            lower_into(b, out);
            assert(final(out)@ =~= old(out)@ + enc(v@));
        },
        Value::FlagSet(bs) => {
            assert(bs@.skip(0) =~= bs@);
            let x = pack_bits(bs, 0);
            let w: usize = if bs.len() <= 8 {
                1
            } else if bs.len() <= 16 {
                2
            } else if bs.len() <= 32 {
                4
            } else {
                8
            };
            push_le(out, x, w);
        },
        Value::Record(vs) => {
            lower_fields(vs, 0, out);
        },
        Value::Tuple(vs) => {
            lower_fields(vs, 0, out);
        },
        Value::List(vs) => {
            proof {
                lemma_seq_view(vs@);
            }
            push_le(out, vs.len() as u64, 4);
            lower_fields(vs, 0, out);
            assert(final(out)@ =~= old(out)@ + enc(v@));
        },
        Value::Text(bs) => {
            push_le(out, bs.len() as u64, 4);
            assert(bs@.skip(0) =~= bs@);
            push_bytes(out, bs, 0);
            assert(final(out)@ =~= old(out)@ + enc(v@));
        },
    }
}

/// Lowers the fields of `vs` from position `k` on onto the end of `out`.
fn lower_fields(vs: &Vec<Value>, k: usize, out: &mut Vec<u8>)
    requires
        k <= vs.len(),
        encodable_fields(seq_view(vs@), k as int),
    ensures
        final(out)@ == old(out)@ + enc_fields(seq_view(vs@), k as int),
    decreases vs, vs.len() - k,
{
    proof {
        lemma_seq_view(vs@);
    }
    if k == vs.len() {
        assert(final(out)@ =~= old(out)@ + enc_fields(seq_view(vs@), k as int));
    } else {
        lower_into(&vs[k], out);
        lower_fields(vs, k + 1, out);
        assert(final(out)@ =~= old(out)@ + enc_fields(seq_view(vs@), k as int));
    }
}

/// Lowers a value into its flat wire representation.
///
/// The one machine limit: every flag set in the value declares at most 64
/// flags, so its bit-set fits the widest supported word.
pub fn lower(v: &Value) -> (r: Vec<u8>)
    requires
        encodable(v@),
    ensures
        r@ == enc(v@),
{
    let mut out: Vec<u8> = Vec::new();
    lower_into(v, &mut out);
    assert(out@ =~= enc(v@));
    out
}

/// Lifts one value of shape `t` from `s`, starting at `pos`: the value and
/// the position just past it, or the reason the data was rejected.
#[verifier::rlimit(100)]
fn lift_at(t: &Shape, s: &Vec<u8>, pos: usize) -> (r: Result<(Value, usize), DecodeError>)
    requires
        pos <= s.len(),
    ensures
        match r {
            Ok(p) => pos <= p.1 <= s.len() && dec(*t, s@.skip(pos as int)) == Ok::<
                (ValModel, int),
                DecodeError,
            >((p.0@, p.1 - pos)),
            Err(e) => dec(*t, s@.skip(pos as int)) == Err::<(ValModel, int), DecodeError>(e),
        },
    decreases t, 0int, 0int,
{
    let ghost tail = s@.skip(pos as int);
    match t {
        Shape::U8 => {
            if s.len() - pos < 1 {
                Err(DecodeError::Truncated)
            } else {
                assert(tail[0] == s@[pos as int]);
                Ok((Value::U8(s[pos]), pos + 1))
            }
        },
        Shape::S8 => {
            if s.len() - pos < 1 {
                Err(DecodeError::Truncated)
            } else {
                assert(tail[0] == s@[pos as int]);
                Ok((Value::S8(s[pos] as i8), pos + 1))
            }
        },
        Shape::U16 => {
            if s.len() - pos < 2 {
                Err(DecodeError::Truncated)
            } else {
                let x = read_le(s, pos, 2);
                assert(s@.subrange(pos as int, pos + 2) =~= tail.take(2));
                Ok((Value::U16(x as u16), pos + 2))
            }
        },
        Shape::S16 => {
            if s.len() - pos < 2 {
                Err(DecodeError::Truncated)
            } else {
                let x = read_le(s, pos, 2);
                assert(s@.subrange(pos as int, pos + 2) =~= tail.take(2));
                Ok((Value::S16(x as u16 as i16), pos + 2))
            }
        },
        Shape::U32 => {
            if s.len() - pos < 4 {
                Err(DecodeError::Truncated)
            } else {
                let x = read_le(s, pos, 4);
                assert(s@.subrange(pos as int, pos + 4) =~= tail.take(4));
                Ok((Value::U32(x as u32), pos + 4))
            }
        },
        Shape::S32 => {
            if s.len() - pos < 4 {
                Err(DecodeError::Truncated)
            } else {
                let x = read_le(s, pos, 4);
                assert(s@.subrange(pos as int, pos + 4) =~= tail.take(4));
                Ok((Value::S32(x as u32 as i32), pos + 4))
            }
        },
        Shape::U64 => {
            if s.len() - pos < 8 {
                Err(DecodeError::Truncated)
            } else {
                let x = read_le(s, pos, 8);
                assert(s@.subrange(pos as int, pos + 8) =~= tail.take(8));
                Ok((Value::U64(x), pos + 8))
            }
        },
        Shape::S64 => {
            if s.len() - pos < 8 {
                Err(DecodeError::Truncated)
            } else {
                let x = read_le(s, pos, 8);
                assert(s@.subrange(pos as int, pos + 8) =~= tail.take(8));
                Ok((Value::S64(x as i64), pos + 8))
            }
        },
        Shape::F32 => {
            if s.len() - pos < 4 {
                Err(DecodeError::Truncated)
            } else {
                let x = read_le(s, pos, 4);
                assert(s@.subrange(pos as int, pos + 4) =~= tail.take(4));
                Ok((Value::F32(x as u32), pos + 4))
            }
        },
        Shape::F64 => {
            if s.len() - pos < 8 {
                Err(DecodeError::Truncated)
            } else {
                let x = read_le(s, pos, 8);
                assert(s@.subrange(pos as int, pos + 8) =~= tail.take(8));
                Ok((Value::F64(x), pos + 8))
            }
        },
        Shape::Bool => {
            if s.len() - pos < 1 {
                Err(DecodeError::Truncated)
            } else {
                assert(tail[0] == s@[pos as int]);
                let b = s[pos];
                if b == 0 {
                    Ok((Value::Bool(false), pos + 1))
                } else if b == 1 {
                    Ok((Value::Bool(true), pos + 1))
                } else {
                    Err(DecodeError::Discriminant)
                }
            }
        },
        Shape::Unit => Ok((Value::Unit, pos)),
        Shape::Optional(t1) => {
            if s.len() - pos < 1 {
                Err(DecodeError::Truncated)
            } else {
                assert(tail[0] == s@[pos as int]);
                let b = s[pos];
                if b == 0 {
                    Ok((Value::OptNone, pos + 1))
                } else if b == 1 {
                    assert(tail.skip(1) =~= s@.skip(pos + 1));
                    match lift_at(&**t1, s, pos + 1) {
                        Ok((v, end)) => Ok((Value::OptSome(Box::new(v)), end)),
                        Err(e) => Err(e),
                    }
                } else {
                    Err(DecodeError::Discriminant)
                }
            }
        },
        Shape::Fallible(to, te) => {
            if s.len() - pos < 1 {
                Err(DecodeError::Truncated)
            } else {
                assert(tail[0] == s@[pos as int]);
                let b = s[pos];
                if b == 0 {
                    assert(tail.skip(1) =~= s@.skip(pos + 1));
                    match lift_at(&**to, s, pos + 1) {
                        Ok((v, end)) => Ok((Value::ResOk(Box::new(v)), end)),
                        Err(e) => Err(e),
                    }
                } else if b == 1 {
                    assert(tail.skip(1) =~= s@.skip(pos + 1));
                    match lift_at(&**te, s, pos + 1) {
                        Ok((v, end)) => Ok((Value::ResErr(Box::new(v)), end)),
                        Err(e) => Err(e),
                    }
                } else {
                    Err(DecodeError::Discriminant)
                }
            }
        },
        Shape::Variant(cs) => {
            if s.len() - pos < 4 {
                Err(DecodeError::Truncated)
            } else {
                let x = read_le(s, pos, 4);
                proof {
                    assert(s@.subrange(pos as int, pos + 4) =~= tail.take(4));
                    lemma_le_val_bound(tail.take(4));
                    lemma2_to64();
                }
                if x >= cs.len() as u64 {
                    Err(DecodeError::Tag)
                } else {
                    assert(tail.skip(4) =~= s@.skip(pos + 4));
                    match lift_at(&cs[x as usize], s, pos + 4) {
                        Ok((v, end)) => Ok((Value::Case(x as u32, Box::new(v)), end)),
                        Err(e) => Err(e),
                    }
                }
            }
        },
        Shape::FlagSet(n) => {
            let w: usize = if *n <= 8 {
                1
            } else if *n <= 16 {
                2
            } else if *n <= 32 {
                4
            } else {
                8
            };
            if s.len() - pos < w {
                Err(DecodeError::Truncated)
            } else {
                let x = read_le(s, pos, w);
                assert(s@.subrange(pos as int, pos + w) =~= tail.take(w as int));
                let hi = shift_out(x, *n);
                if hi != 0 {
                    Err(DecodeError::FlagBits)
                } else {
                    let bits = unpack_bits(x, *n);
                    Ok((Value::FlagSet(bits), pos + w))
                }
            }
        },
        Shape::Record(ts) => {
            match lift_fields(ts, 0, s, pos) {
                Ok((vs, end)) => Ok((Value::Record(vs), end)),
                Err(e) => Err(e),
            }
        },
        Shape::Tuple(ts) => {
            match lift_fields(ts, 0, s, pos) {
                Ok((vs, end)) => Ok((Value::Tuple(vs), end)),
                Err(e) => Err(e),
            }
        },
        Shape::List(et) => {
            if s.len() - pos < 4 {
                Err(DecodeError::Truncated)
            } else {
                let m = read_le(s, pos, 4);
                proof {
                    assert(s@.subrange(pos as int, pos + 4) =~= tail.take(4));
                    assert(tail.skip(4) =~= s@.skip(pos + 4));
                }
                match lift_elems(&**et, m, s, pos + 4) {
                    Ok((vs, end)) => Ok((Value::List(vs), end)),
                    Err(e) => Err(e),
                }
            }
        },
        Shape::Text => {
            if s.len() - pos < 4 {
                Err(DecodeError::Truncated)
            } else {
                let m = read_le(s, pos, 4);
                proof {
                    assert(s@.subrange(pos as int, pos + 4) =~= tail.take(4));
                }
                let rem = s.len() - pos - 4;
                if (rem as u64) < m {
                    Err(DecodeError::Truncated)
                } else {
                    let mlen = m as usize;
                    let bytes = copy_range(s, pos + 4, pos + 4 + mlen);
                    proof {
                        assert(bytes@ =~= tail.subrange(4, 4 + mlen as int));
                        assert(bytes@.skip(0) =~= bytes@);
                    }
                    if check_utf8(&bytes, 0) {
                        Ok((Value::Text(bytes), pos + 4 + mlen))
                    } else {
                        Err(DecodeError::Utf8)
                    }
                }
            }
        },
    }
}

/// Lifts the fields from position `k` of `ts` on, one after the other.
fn lift_fields(ts: &Vec<Shape>, k: usize, s: &Vec<u8>, pos: usize) -> (r: Result<
    (Vec<Value>, usize),
    DecodeError,
>)
    requires
        k <= ts.len(),
        pos <= s.len(),
    ensures
        match r {
            Ok(p) => pos <= p.1 <= s.len() && dec_fields(ts@, k as int, s@.skip(pos as int))
                == Ok::<(Seq<ValModel>, int), DecodeError>((seq_view(p.0@), p.1 - pos)),
            Err(e) => dec_fields(ts@, k as int, s@.skip(pos as int)) == Err::<
                (Seq<ValModel>, int),
                DecodeError,
            >(e),
        },
    decreases ts, ts.len() - k, 0int,
{
    let ghost tail = s@.skip(pos as int);
    if k == ts.len() {
        let vs: Vec<Value> = Vec::new();
        assert(seq_view(vs@) =~= Seq::<ValModel>::empty());
        Ok((vs, pos))
    } else {
        match lift_at(&ts[k], s, pos) {
            Ok((v, p2)) => {
                assert(tail.skip(p2 - pos) =~= s@.skip(p2 as int));
                match lift_fields(ts, k + 1, s, p2) {
                    Ok((vs2, end)) => {
                        let ghost old_vs2 = vs2@;
                        let mut vs2 = vs2;
                        vs2.insert(0, v);
                        proof {
                            assert(vs2@ =~= seq![v] + old_vs2);
                            crate::value::lemma_seq_view_cons(v, old_vs2);
                        }
                        Ok((vs2, end))
                    },
                    Err(e) => Err(e),
                }
            },
            Err(e) => Err(e),
        }
    }
}

/// Lifts `m` list elements of shape `t`, one after the other.
fn lift_elems(t: &Shape, m: u64, s: &Vec<u8>, pos: usize) -> (r: Result<
    (Vec<Value>, usize),
    DecodeError,
>)
    requires
        pos <= s.len(),
    ensures
        match r {
            Ok(p) => pos <= p.1 <= s.len() && dec_elems(*t, m as int, s@.skip(pos as int))
                == Ok::<(Seq<ValModel>, int), DecodeError>((seq_view(p.0@), p.1 - pos)),
            Err(e) => dec_elems(*t, m as int, s@.skip(pos as int)) == Err::<
                (Seq<ValModel>, int),
                DecodeError,
            >(e),
        },
    decreases t, m, 0int,
{
    let ghost tail = s@.skip(pos as int);
    if m == 0 {
        let vs: Vec<Value> = Vec::new();
        assert(seq_view(vs@) =~= Seq::<ValModel>::empty());
        Ok((vs, pos))
    } else {
        match lift_at(t, s, pos) {
            Ok((v, p2)) => {
                assert(tail.skip(p2 - pos) =~= s@.skip(p2 as int));
                match lift_elems(t, m - 1, s, p2) {
                    Ok((vs2, end)) => {
                        let ghost old_vs2 = vs2@;
                        let mut vs2 = vs2;
                        vs2.insert(0, v);
                        proof {
                            assert(vs2@ =~= seq![v] + old_vs2);
                            crate::value::lemma_seq_view_cons(v, old_vs2);
                        }
                        Ok((vs2, end))
                    },
                    Err(e) => Err(e),
                }
            },
            Err(e) => Err(e),
        }
    }
}

/// Lifts a value of shape `t` from the whole of `s`.
///
/// Succeeds exactly when `s` is a well-formed wire form of shape `t` with
/// nothing left over; otherwise reports the first defect found, reading the
/// data strictly left to right.
pub fn lift(t: &Shape, s: &Vec<u8>) -> (r: Result<Value, DecodeError>)
    ensures
        match dec(*t, s@) {
            Ok(p) => if p.1 == s@.len() {
                r matches Ok(v) && v@ == p.0
            } else {
                r == Err::<Value, DecodeError>(DecodeError::Trailing)
            },
            Err(e) => r == Err::<Value, DecodeError>(e),
        },
{
    assert(s@.skip(0) =~= s@);
    match lift_at(t, s, 0) {
        Ok((v, end)) => {
            if end == s.len() {
                Ok(v)
            } else {
                Err(DecodeError::Trailing)
            }
        },
        Err(e) => Err(e),
    }
}

} // verus!
