//! Records and shapes, and the leaf model the contracts are stated over.
//!
//! A [`Value`] is an in-memory record: double, int64 and bool leaves nested
//! in records and tuples. A [`Shape`] describes such a record without its
//! leaf values; decoding is driven by one. The spec functions here give the
//! columnar model: the per-kind leaf sequences of a value in pre-order, the
//! per-kind leaf counts of a shape, and which out-of-bounds error (if any) a
//! shape-driven traversal hits against given column budgets.

use vstd::prelude::*;

use crate::error::Error;

verus! {

/// An in-memory record value with double, int64 and bool leaves.
///
/// A double is carried as its IEEE-754 bit pattern; the codec moves the
/// bits but never interprets them. Records and tuples contribute no leaf of
/// their own: only their members' leaves count, in declaration order.
#[derive(Debug, PartialEq, Eq)]
pub enum Value {
    /// A double leaf, as its IEEE-754 bit pattern.
    Double(u64),
    /// An int64 leaf.
    Int64(i64),
    /// A bool leaf.
    Bool(bool),
    /// A record with the given members, in declaration order.
    Record(Vec<Value>),
    /// A tuple with the given members, in order.
    Tuple(Vec<Value>),
}

/// The shape of a [`Value`]: its structure without its leaf values.
#[derive(Debug, PartialEq, Eq)]
pub enum Shape {
    /// A double leaf.
    Double,
    /// An int64 leaf.
    Int64,
    /// A bool leaf.
    Bool,
    /// A record whose members have the given shapes, in declaration order.
    Record(Vec<Shape>),
    /// A tuple whose members have the given shapes, in order.
    Tuple(Vec<Shape>),
}

/// The double leaves of `v`, in pre-order, as bit patterns.
pub open spec fn float_leaves(v: Value) -> Seq<u64>
    decreases v,
{
    match v {
        Value::Double(x) => seq![x],
        Value::Int64(_) => Seq::empty(),
        Value::Bool(_) => Seq::empty(),
        Value::Record(ms) => float_leaves_seq(ms@),
        Value::Tuple(ms) => float_leaves_seq(ms@),
    }
}

/// The double leaves of the members `ms`, concatenated in order.
pub open spec fn float_leaves_seq(ms: Seq<Value>) -> Seq<u64>
    decreases ms,
{
    if ms.len() == 0 {
        Seq::empty()
    } else {
        float_leaves(ms[0]) + float_leaves_seq(ms.drop_first())
    }
}

/// The int64 leaves of `v`, in pre-order.
pub open spec fn int_leaves(v: Value) -> Seq<i64>
    decreases v,
{
    match v {
        Value::Double(_) => Seq::empty(),
        Value::Int64(x) => seq![x],
        Value::Bool(_) => Seq::empty(),
        Value::Record(ms) => int_leaves_seq(ms@),
        Value::Tuple(ms) => int_leaves_seq(ms@),
    }
}

/// The int64 leaves of the members `ms`, concatenated in order.
pub open spec fn int_leaves_seq(ms: Seq<Value>) -> Seq<i64>
    decreases ms,
{
    if ms.len() == 0 {
        Seq::empty()
    } else {
        int_leaves(ms[0]) + int_leaves_seq(ms.drop_first())
    }
}

/// The bool leaves of `v`, in pre-order.
pub open spec fn bool_leaves(v: Value) -> Seq<bool>
    decreases v,
{
    match v {
        Value::Double(_) => Seq::empty(),
        Value::Int64(_) => Seq::empty(),
        Value::Bool(x) => seq![x],
        Value::Record(ms) => bool_leaves_seq(ms@),
        Value::Tuple(ms) => bool_leaves_seq(ms@),
    }
}

/// The bool leaves of the members `ms`, concatenated in order.
pub open spec fn bool_leaves_seq(ms: Seq<Value>) -> Seq<bool>
    decreases ms,
{
    if ms.len() == 0 {
        Seq::empty()
    } else {
        bool_leaves(ms[0]) + bool_leaves_seq(ms.drop_first())
    }
}

/// How many double leaves a value of shape `s` has.
pub open spec fn float_count(s: Shape) -> nat
    decreases s,
{
    match s {
        Shape::Double => 1,
        Shape::Int64 => 0,
        Shape::Bool => 0,
        Shape::Record(ss) => float_count_seq(ss@),
        Shape::Tuple(ss) => float_count_seq(ss@),
    }
}

/// The double leaves of members of shapes `ss`, counted together.
pub open spec fn float_count_seq(ss: Seq<Shape>) -> nat
    decreases ss,
{
    if ss.len() == 0 {
        0
    } else {
        float_count(ss[0]) + float_count_seq(ss.drop_first())
    }
}

/// How many int64 leaves a value of shape `s` has.
pub open spec fn int_count(s: Shape) -> nat
    decreases s,
{
    match s {
        Shape::Double => 0,
        Shape::Int64 => 1,
        Shape::Bool => 0,
        Shape::Record(ss) => int_count_seq(ss@),
        Shape::Tuple(ss) => int_count_seq(ss@),
    }
}

/// The int64 leaves of members of shapes `ss`, counted together.
pub open spec fn int_count_seq(ss: Seq<Shape>) -> nat
    decreases ss,
{
    if ss.len() == 0 {
        0
    } else {
        int_count(ss[0]) + int_count_seq(ss.drop_first())
    }
}

/// How many bool leaves a value of shape `s` has.
pub open spec fn bool_count(s: Shape) -> nat
    decreases s,
{
    match s {
        Shape::Double => 0,
        Shape::Int64 => 0,
        Shape::Bool => 1,
        Shape::Record(ss) => bool_count_seq(ss@),
        Shape::Tuple(ss) => bool_count_seq(ss@),
    }
}

/// The bool leaves of members of shapes `ss`, counted together.
pub open spec fn bool_count_seq(ss: Seq<Shape>) -> nat
    decreases ss,
{
    if ss.len() == 0 {
        0
    } else {
        bool_count(ss[0]) + bool_count_seq(ss.drop_first())
    }
}

/// Whether value `v` has shape `s`.
pub open spec fn has_shape(v: Value, s: Shape) -> bool
    decreases v,
{
    match (v, s) {
        (Value::Double(_), Shape::Double) => true,
        (Value::Int64(_), Shape::Int64) => true,
        (Value::Bool(_), Shape::Bool) => true,
        (Value::Record(ms), Shape::Record(ss)) => has_shape_seq(ms@, ss@),
        (Value::Tuple(ms), Shape::Tuple(ss)) => has_shape_seq(ms@, ss@),
        _ => false,
    }
}

/// Whether the members `ms` have the shapes `ss`, pointwise.
pub open spec fn has_shape_seq(ms: Seq<Value>, ss: Seq<Shape>) -> bool
    decreases ms,
{
    &&& ms.len() == ss.len()
    &&& ms.len() > 0 ==> has_shape(ms[0], ss[0]) && has_shape_seq(
        ms.drop_first(),
        ss.drop_first(),
    )
}

/// The error a shape-driven traversal of `s` hits, pulling against columns
/// with `fb` doubles, `ib` int64s and `bb` bools left, or `None` if every
/// pull lands in bounds. The traversal visits leaves in pre-order; the first
/// pull whose column budget is already spent names the error.
pub open spec fn first_exhaustion(s: Shape, fb: int, ib: int, bb: int) -> Option<Error>
    decreases s,
{
    match s {
        Shape::Double => if fb <= 0 {
            Some(Error::FloatIndexOutOfBounds)
        } else {
            None
        },
        Shape::Int64 => if ib <= 0 {
            Some(Error::IntIndexOutOfBounds)
        } else {
            None
        },
        Shape::Bool => if bb <= 0 {
            Some(Error::BoolIndexOutOfBounds)
        } else {
            None
        },
        Shape::Record(ss) => first_exhaustion_seq(ss@, fb, ib, bb),
        Shape::Tuple(ss) => first_exhaustion_seq(ss@, fb, ib, bb),
    }
}

/// [`first_exhaustion`] over members traversed left to right: a member that
/// succeeds consumes exactly its leaf counts from the budgets.
pub open spec fn first_exhaustion_seq(ss: Seq<Shape>, fb: int, ib: int, bb: int) -> Option<
    Error,
>
    decreases ss,
{
    if ss.len() == 0 {
        None
    } else {
        match first_exhaustion(ss[0], fb, ib, bb) {
            Some(e) => Some(e),
            None => first_exhaustion_seq(
                ss.drop_first(),
                fb - float_count(ss[0]),
                ib - int_count(ss[0]),
                bb - bool_count(ss[0]),
            ),
        }
    }
}

impl Value {
    /// The shape of this value: the one a decode must be driven by to
    /// reconstruct it from its encoding.
    pub fn shape(&self) -> (s: Shape)
        ensures
            has_shape(*self, s),
        decreases *self,
    {
        match self {
            Value::Double(_) => Shape::Double,
            Value::Int64(_) => Shape::Int64,
            Value::Bool(_) => Shape::Bool,
            Value::Record(ms) => Shape::Record(shapes_of(ms)),
            Value::Tuple(ms) => Shape::Tuple(shapes_of(ms)),
        }
    }
}

/// The shapes of the given members, in order.
fn shapes_of(members: &Vec<Value>) -> (ss: Vec<Shape>)
    ensures
        has_shape_seq(members@, ss@),
    decreases *members,
{
    let n = members.len();
    let mut ss: Vec<Shape> = Vec::new();
    let mut j: usize = 0;
    proof {
        assert(members@.take(0int) =~= Seq::<Value>::empty());
    }
    while j < n
        invariant
            j <= n,
            n == members@.len(),
            ss@.len() == j,
            has_shape_seq(members@.take(j as int), ss@),
        decreases n - j,
    {
        let s = members[j].shape();
        proof {
            assert(members@.take(j + 1 as int) =~= members@.take(j as int).push(
                members@[j as int],
            ));
            lemma_has_shape_seq_push(members@.take(j as int), ss@, members@[j as int], s);
        }
        ss.push(s);
        j = j + 1;
    }
    proof {
        assert(members@.take(n as int) =~= members@);
    }
    ss
}

/// Structural equality of two values: the same constructors with the same
/// leaf values throughout. This is the equality the derived `PartialEq`
/// tests at run time; it identifies values regardless of how their member
/// vectors were allocated.
pub open spec fn alike(v: Value, w: Value) -> bool
    decreases v,
{
    match (v, w) {
        (Value::Double(x), Value::Double(y)) => x == y,
        (Value::Int64(x), Value::Int64(y)) => x == y,
        (Value::Bool(x), Value::Bool(y)) => x == y,
        (Value::Record(ms), Value::Record(ws)) => alike_seq(ms@, ws@),
        (Value::Tuple(ms), Value::Tuple(ws)) => alike_seq(ms@, ws@),
        _ => false,
    }
}

/// [`alike`], pointwise over two member sequences.
pub open spec fn alike_seq(ms: Seq<Value>, ws: Seq<Value>) -> bool
    decreases ms,
{
    &&& ms.len() == ws.len()
    &&& ms.len() > 0 ==> alike(ms[0], ws[0]) && alike_seq(ms.drop_first(), ws.drop_first())
}

/// Leaf sequences distribute over concatenation of members: the columns of
/// `a + b` are the columns of `a` followed by the columns of `b`.
pub proof fn lemma_leaves_seq_concat(a: Seq<Value>, b: Seq<Value>)
    ensures
        float_leaves_seq(a + b) == float_leaves_seq(a) + float_leaves_seq(b),
        int_leaves_seq(a + b) == int_leaves_seq(a) + int_leaves_seq(b),
        bool_leaves_seq(a + b) == bool_leaves_seq(a) + bool_leaves_seq(b),
    decreases a,
{
    if a.len() == 0 {
        assert(a + b =~= b);
        assert(float_leaves_seq(a) + float_leaves_seq(b) =~= float_leaves_seq(b));
        assert(int_leaves_seq(a) + int_leaves_seq(b) =~= int_leaves_seq(b));
        assert(bool_leaves_seq(a) + bool_leaves_seq(b) =~= bool_leaves_seq(b));
    } else {
        assert((a + b).len() > 0);
        assert((a + b)[0] == a[0]);
        assert((a + b).drop_first() =~= a.drop_first() + b);
        lemma_leaves_seq_concat(a.drop_first(), b);
        assert(float_leaves(a[0]) + (float_leaves_seq(a.drop_first()) + float_leaves_seq(b))
            =~= (float_leaves(a[0]) + float_leaves_seq(a.drop_first())) + float_leaves_seq(b));
        assert(int_leaves(a[0]) + (int_leaves_seq(a.drop_first()) + int_leaves_seq(b)) =~= (
        int_leaves(a[0]) + int_leaves_seq(a.drop_first())) + int_leaves_seq(b));
        assert(bool_leaves(a[0]) + (bool_leaves_seq(a.drop_first()) + bool_leaves_seq(b)) =~= (
        bool_leaves(a[0]) + bool_leaves_seq(a.drop_first())) + bool_leaves_seq(b));
    }
}

/// Appending one member appends exactly its leaves to each column.
pub proof fn lemma_leaves_seq_push(ms: Seq<Value>, v: Value)
    ensures
        float_leaves_seq(ms.push(v)) == float_leaves_seq(ms) + float_leaves(v),
        int_leaves_seq(ms.push(v)) == int_leaves_seq(ms) + int_leaves(v),
        bool_leaves_seq(ms.push(v)) == bool_leaves_seq(ms) + bool_leaves(v),
{
    let single = seq![v];
    assert(ms.push(v) =~= ms + single);
    lemma_leaves_seq_concat(ms, single);
    assert(single.drop_first() =~= Seq::<Value>::empty());
    assert(float_leaves_seq(Seq::<Value>::empty()) == Seq::<u64>::empty());
    assert(int_leaves_seq(Seq::<Value>::empty()) == Seq::<i64>::empty());
    assert(bool_leaves_seq(Seq::<Value>::empty()) == Seq::<bool>::empty());
    assert(float_leaves_seq(single) =~= float_leaves(v));
    assert(int_leaves_seq(single) =~= int_leaves(v));
    assert(bool_leaves_seq(single) =~= bool_leaves(v));
}

/// Appending one member shape adds exactly its counts.
pub proof fn lemma_count_seq_push(ss: Seq<Shape>, s: Shape)
    ensures
        float_count_seq(ss.push(s)) == float_count_seq(ss) + float_count(s),
        int_count_seq(ss.push(s)) == int_count_seq(ss) + int_count(s),
        bool_count_seq(ss.push(s)) == bool_count_seq(ss) + bool_count(s),
    decreases ss,
{
    if ss.len() == 0 {
        assert(ss.push(s)[0] == s);
        assert(ss.push(s).drop_first() =~= Seq::<Shape>::empty());
        assert(float_count_seq(Seq::<Shape>::empty()) == 0);
        assert(int_count_seq(Seq::<Shape>::empty()) == 0);
        assert(bool_count_seq(Seq::<Shape>::empty()) == 0);
    } else {
        assert(ss.push(s)[0] == ss[0]);
        assert(ss.push(s).drop_first() =~= ss.drop_first().push(s));
        lemma_count_seq_push(ss.drop_first(), s);
    }
}

/// Appending a member of the right shape extends a pointwise shape match.
pub proof fn lemma_has_shape_seq_push(ms: Seq<Value>, ss: Seq<Shape>, v: Value, s: Shape)
    requires
        has_shape_seq(ms, ss),
        has_shape(v, s),
    ensures
        has_shape_seq(ms.push(v), ss.push(s)),
    decreases ms,
{
    if ms.len() == 0 {
        assert(ms.push(v)[0] == v);
        assert(ss.push(s)[0] == s);
        assert(ms.push(v).drop_first() =~= Seq::<Value>::empty());
        assert(ss.push(s).drop_first() =~= Seq::<Shape>::empty());
        assert(has_shape_seq(Seq::<Value>::empty(), Seq::<Shape>::empty()));
    } else {
        assert(ms.push(v)[0] == ms[0]);
        assert(ss.push(s)[0] == ss[0]);
        assert(ms.push(v).drop_first() =~= ms.drop_first().push(v));
        assert(ss.push(s).drop_first() =~= ss.drop_first().push(s));
        lemma_has_shape_seq_push(ms.drop_first(), ss.drop_first(), v, s);
    }
}

/// A value has as many leaves of each kind as its shape counts.
pub proof fn lemma_has_shape_counts(v: Value, s: Shape)
    requires
        has_shape(v, s),
    ensures
        float_leaves(v).len() == float_count(s),
        int_leaves(v).len() == int_count(s),
        bool_leaves(v).len() == bool_count(s),
    decreases v,
{
    match v {
        Value::Record(ms) => {
            lemma_has_shape_seq_counts(ms@, s->Record_0@);
        },
        Value::Tuple(ms) => {
            lemma_has_shape_seq_counts(ms@, s->Tuple_0@);
        },
        _ => {},
    }
}

/// Members matching shapes pointwise have as many leaves of each kind as
/// the shapes count together.
pub proof fn lemma_has_shape_seq_counts(ms: Seq<Value>, ss: Seq<Shape>)
    requires
        has_shape_seq(ms, ss),
    ensures
        float_leaves_seq(ms).len() == float_count_seq(ss),
        int_leaves_seq(ms).len() == int_count_seq(ss),
        bool_leaves_seq(ms).len() == bool_count_seq(ss),
    decreases ms,
{
    if ms.len() == 0 {
    } else {
        lemma_has_shape_counts(ms[0], ss[0]);
        lemma_has_shape_seq_counts(ms.drop_first(), ss.drop_first());
    }
}

/// A traversal whose per-kind demands all fit within the budgets never
/// exhausts a column.
pub proof fn lemma_fit_no_exhaustion(s: Shape, fb: int, ib: int, bb: int)
    requires
        float_count(s) <= fb,
        int_count(s) <= ib,
        bool_count(s) <= bb,
    ensures
        first_exhaustion(s, fb, ib, bb) is None,
    decreases s,
{
    match s {
        Shape::Record(ss) => {
            lemma_fit_no_exhaustion_seq(ss@, fb, ib, bb);
        },
        Shape::Tuple(ss) => {
            lemma_fit_no_exhaustion_seq(ss@, fb, ib, bb);
        },
        _ => {},
    }
}

/// [`lemma_fit_no_exhaustion`], over a sequence of member shapes.
pub proof fn lemma_fit_no_exhaustion_seq(ss: Seq<Shape>, fb: int, ib: int, bb: int)
    requires
        float_count_seq(ss) <= fb,
        int_count_seq(ss) <= ib,
        bool_count_seq(ss) <= bb,
    ensures
        first_exhaustion_seq(ss, fb, ib, bb) is None,
    decreases ss,
{
    if ss.len() == 0 {
    } else {
        lemma_fit_no_exhaustion(ss[0], fb, ib, bb);
        lemma_fit_no_exhaustion_seq(
            ss.drop_first(),
            fb - float_count(ss[0]),
            ib - int_count(ss[0]),
            bb - bool_count(ss[0]),
        );
    }
}

} // verus!
