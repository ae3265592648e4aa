//! The closed set of value shapes that cross the boundary, the typed values
//! themselves, and the well-formedness relation between a value and a shape.
//!
//! Flag and field names identify positions in a fixed, declared order; the
//! wire never carries names, so the model keeps positions only.

use vstd::prelude::*;
use crate::wire::valid_utf8;

verus! {

/// A shape descriptor: the type of a datum crossing the boundary.
///
/// Floating-point payloads travel as their IEEE-754 bit patterns (`F32` /
/// `F64`), so equality of lifted floats is bit-pattern equality; every NaN
/// round-trips to the same NaN bits.
#[derive(Debug, PartialEq)]
pub enum Shape {
    U8,
    S8,
    U16,
    S16,
    U32,
    S32,
    U64,
    S64,
    F32,
    F64,
    Bool,
    Unit,
    /// Present-or-absent wrapper.
    Optional(Box<Shape>),
    /// Success-or-failure wrapper: ok shape, then error shape.
    Fallible(Box<Shape>, Box<Shape>),
    /// Closed tagged union: one payload shape per case, in declared order.
    /// A case that carries nothing declares the `Unit` shape.
    Variant(Vec<Shape>),
    /// A bit-set over the declared number of named flags (at most 64).
    FlagSet(usize),
    /// Ordered named product; fields are identified by position.
    Record(Vec<Shape>),
    /// Ordered unnamed product.
    Tuple(Vec<Shape>),
    /// Ordered list of one element shape.
    List(Box<Shape>),
    /// UTF-8 text.
    Text,
}

/// A typed value, as executable data.
#[derive(Debug, PartialEq)]
pub enum Value {
    U8(u8),
    S8(i8),
    U16(u16),
    S16(i16),
    U32(u32),
    S32(i32),
    U64(u64),
    S64(i64),
    /// A 32-bit float, carried as its bit pattern.
    F32(u32),
    /// A 64-bit float, carried as its bit pattern.
    F64(u64),
    Bool(bool),
    Unit,
    OptNone,
    OptSome(Box<Value>),
    ResOk(Box<Value>),
    ResErr(Box<Value>),
    /// A variant case: tag and that case's payload.
    Case(u32, Box<Value>),
    /// One presence bit per declared flag, in declared order.
    FlagSet(Vec<bool>),
    Record(Vec<Value>),
    Tuple(Vec<Value>),
    List(Vec<Value>),
    /// UTF-8 bytes.
    Text(Vec<u8>),
}

/// The mathematical model of a `Value`.
#[verifier::ext_equal]
pub enum ValModel {
    U8(u8),
    S8(i8),
    U16(u16),
    S16(i16),
    U32(u32),
    S32(i32),
    U64(u64),
    S64(i64),
    F32(u32),
    F64(u64),
    Bool(bool),
    Unit,
    OptNone,
    OptSome(Box<ValModel>),
    ResOk(Box<ValModel>),
    ResErr(Box<ValModel>),
    Case(u32, Box<ValModel>),
    FlagSet(Seq<bool>),
    Record(Seq<ValModel>),
    Tuple(Seq<ValModel>),
    List(Seq<ValModel>),
    Text(Seq<u8>),
}

impl View for Value {
    type V = ValModel;

    open spec fn view(&self) -> ValModel
        decreases self,
    {
        match self {
            Value::U8(x) => ValModel::U8(*x),
            Value::S8(x) => ValModel::S8(*x),
            Value::U16(x) => ValModel::U16(*x),
            Value::S16(x) => ValModel::S16(*x),
            Value::U32(x) => ValModel::U32(*x),
            Value::S32(x) => ValModel::S32(*x),
            Value::U64(x) => ValModel::U64(*x),
            Value::S64(x) => ValModel::S64(*x),
            Value::F32(x) => ValModel::F32(*x),
            Value::F64(x) => ValModel::F64(*x),
            Value::Bool(x) => ValModel::Bool(*x),
            Value::Unit => ValModel::Unit,
            Value::OptNone => ValModel::OptNone,
            Value::OptSome(b) => ValModel::OptSome(Box::new((**b)@)),
            Value::ResOk(b) => ValModel::ResOk(Box::new((**b)@)),
            Value::ResErr(b) => ValModel::ResErr(Box::new((**b)@)),
            Value::Case(tag, b) => ValModel::Case(*tag, Box::new((**b)@)),
            Value::FlagSet(bs) => ValModel::FlagSet(bs@),
            Value::Record(vs) => ValModel::Record(seq_view(vs@)),
            Value::Tuple(vs) => ValModel::Tuple(seq_view(vs@)),
            Value::List(vs) => ValModel::List(seq_view(vs@)),
            Value::Text(bs) => ValModel::Text(bs@),
        }
    }
}

/// The elementwise model of a sequence of values.
pub open spec fn seq_view(s: Seq<Value>) -> Seq<ValModel>
    decreases s,
{
    if s.len() == 0 {
        Seq::empty()
    } else {
        seq![s[0]@] + seq_view(s.subrange(1, s.len() as int))
    }
}

/// `seq_view` maps each element to its model.
pub proof fn lemma_seq_view(s: Seq<Value>)
    ensures
        seq_view(s).len() == s.len(),
        forall|i: int| 0 <= i < s.len() ==> seq_view(s)[i] == #[trigger] s[i]@,
    decreases s.len(),
{
    if s.len() > 0 {
        let rest = s.subrange(1, s.len() as int);
        lemma_seq_view(rest);
        assert(seq_view(s) == seq![s[0]@] + seq_view(rest));
        assert(seq_view(s).len() == 1 + seq_view(rest).len());
        assert forall|i: int| 0 <= i < s.len() implies seq_view(s)[i] == #[trigger] s[i]@ by {
            if i > 0 {
                assert(rest[i - 1] == s[i]);
                assert(seq_view(rest)[i - 1] == rest[i - 1]@);
                assert(seq_view(s)[i] == (seq![s[0]@] + seq_view(rest))[i]);
            }
        }
    }
}

/// Prepending a value prepends its model.
pub proof fn lemma_seq_view_cons(x: Value, s: Seq<Value>)
    ensures
        seq_view(seq![x] + s) == seq![x@] + seq_view(s),
{
    let c = seq![x] + s;
    assert(c[0] == x);
    assert(c.subrange(1, c.len() as int) =~= s);
    assert(seq_view(c) == seq![c[0]@] + seq_view(c.subrange(1, c.len() as int)));
}

/// Does value `v` inhabit shape `t`?
///
/// Besides the shape discipline this carries the machine limits the wire
/// format forces: list and text lengths must fit the 32-bit length prefix,
/// a flag set holds at most 64 flags, and text is well-formed UTF-8.
pub open spec fn wf(t: Shape, v: ValModel) -> bool
    decreases t, 0int,
{
    match t {
        Shape::U8 => v is U8,
        Shape::S8 => v is S8,
        Shape::U16 => v is U16,
        Shape::S16 => v is S16,
        Shape::U32 => v is U32,
        Shape::S32 => v is S32,
        Shape::U64 => v is U64,
        Shape::S64 => v is S64,
        Shape::F32 => v is F32,
        Shape::F64 => v is F64,
        Shape::Bool => v is Bool,
        Shape::Unit => v is Unit,
        Shape::Optional(t1) => match v {
            ValModel::OptNone => true,
            ValModel::OptSome(b) => wf(*t1, *b),
            _ => false,
        },
        Shape::Fallible(to, te) => match v {
            ValModel::ResOk(b) => wf(*to, *b),
            ValModel::ResErr(b) => wf(*te, *b),
            _ => false,
        },
        Shape::Variant(cs) => match v {
            ValModel::Case(tag, b) => (tag as int) < cs@.len() && wf(cs@[tag as int], *b),
            _ => false,
        },
        Shape::FlagSet(n) => match v {
            ValModel::FlagSet(bs) => bs.len() == n && n <= 64,
            _ => false,
        },
        Shape::Record(ts) => match v {
            ValModel::Record(vs) => vs.len() == ts@.len() && wf_fields(ts@, vs, 0),
            _ => false,
        },
        Shape::Tuple(ts) => match v {
            ValModel::Tuple(vs) => vs.len() == ts@.len() && wf_fields(ts@, vs, 0),
            _ => false,
        },
        Shape::List(et) => match v {
            ValModel::List(vs) => vs.len() < 0x1_0000_0000 && wf_elems(*et, vs, 0),
            _ => false,
        },
        Shape::Text => match v {
            ValModel::Text(bs) => bs.len() < 0x1_0000_0000 && valid_utf8(bs),
            _ => false,
        },
    }
}

/// Fields from position `k` on each inhabit the matching field shape.
pub open spec fn wf_fields(ts: Seq<Shape>, vs: Seq<ValModel>, k: int) -> bool
    decreases ts, ts.len() - k,
{
    if k < 0 || k >= ts.len() || vs.len() != ts.len() {
        true
    } else {
        wf(ts[k], vs[k]) && wf_fields(ts, vs, k + 1)
    }
}

/// Elements from position `k` on each inhabit the element shape.
pub open spec fn wf_elems(t: Shape, vs: Seq<ValModel>, k: int) -> bool
    decreases t, vs.len() - k,
{
    if k < 0 || k >= vs.len() {
        true
    } else {
        wf(t, vs[k]) && wf_elems(t, vs, k + 1)
    }
}


} // verus!
