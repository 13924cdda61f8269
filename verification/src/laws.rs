//! The laws the codec obeys, stated over the leaf model and proved once for
//! all inputs.

use vstd::prelude::*;

use crate::error::Error;
use crate::value::alike;
use crate::value::alike_seq;
use crate::value::bool_count;
use crate::value::bool_count_seq;
use crate::value::bool_leaves;
use crate::value::bool_leaves_seq;
use crate::value::first_exhaustion;
use crate::value::first_exhaustion_seq;
use crate::value::float_count;
use crate::value::float_count_seq;
use crate::value::float_leaves;
use crate::value::float_leaves_seq;
use crate::value::has_shape;
use crate::value::has_shape_seq;
use crate::value::int_count;
use crate::value::int_count_seq;
use crate::value::int_leaves;
use crate::value::int_leaves_seq;
use crate::value::lemma_fit_no_exhaustion;
use crate::value::lemma_has_shape_counts;
use crate::value::lemma_leaves_seq_concat;
use crate::value::Shape;
use crate::value::Value;

verus! {

/// Round-trip law: a value's shape and per-kind leaf columns determine it.
///
/// By [`crate::encode`]'s contract the encoding of `v` has `v`'s leaves as
/// its columns, and by [`crate::decode`]'s contract any value decoded from
/// it at a shape of `v` has that shape and those columns as its leaves; this
/// lemma then says the decoded value is `v` itself, leaf for leaf.
pub proof fn lemma_round_trip(v: Value, w: Value, s: Shape)
    requires
        has_shape(v, s),
        has_shape(w, s),
        float_leaves(w) == float_leaves(v),
        int_leaves(w) == int_leaves(v),
        bool_leaves(w) == bool_leaves(v),
    ensures
        alike(v, w),
    decreases v,
{
    match v {
        Value::Double(x) => {
            assert(float_leaves(v)[0] == x);
        },
        Value::Int64(x) => {
            assert(int_leaves(v)[0] == x);
        },
        Value::Bool(x) => {
            assert(bool_leaves(v)[0] == x);
        },
        Value::Record(ms) => {
            lemma_round_trip_members(ms@, w->Record_0@, s->Record_0@);
        },
        Value::Tuple(ms) => {
            lemma_round_trip_members(ms@, w->Tuple_0@, s->Tuple_0@);
        },
    }
}

/// [`lemma_round_trip`], pointwise over the members of a record or tuple.
pub proof fn lemma_round_trip_members(ms: Seq<Value>, ws: Seq<Value>, ss: Seq<Shape>)
    requires
        has_shape_seq(ms, ss),
        has_shape_seq(ws, ss),
        float_leaves_seq(ws) == float_leaves_seq(ms),
        int_leaves_seq(ws) == int_leaves_seq(ms),
        bool_leaves_seq(ws) == bool_leaves_seq(ms),
    ensures
        alike_seq(ms, ws),
    decreases ms,
{
    if ms.len() == 0 {
    } else {
        lemma_has_shape_counts(ms[0], ss[0]);
        lemma_has_shape_counts(ws[0], ss[0]);
        let fc = float_count(ss[0]) as int;
        let ic = int_count(ss[0]) as int;
        let bc = bool_count(ss[0]) as int;
        // Equal concatenations with equally long first parts split equally:
        // each member's leaves are a fixed-length prefix of the columns.
        assert(float_leaves(ms[0]) =~= float_leaves_seq(ms).subrange(0, fc));
        assert(float_leaves(ws[0]) =~= float_leaves_seq(ws).subrange(0, fc));
        assert(float_leaves_seq(ms.drop_first()) =~= float_leaves_seq(ms).subrange(
            fc,
            float_leaves_seq(ms).len() as int,
        ));
        assert(float_leaves_seq(ws.drop_first()) =~= float_leaves_seq(ws).subrange(
            fc,
            float_leaves_seq(ws).len() as int,
        ));
        assert(int_leaves(ms[0]) =~= int_leaves_seq(ms).subrange(0, ic));
        assert(int_leaves(ws[0]) =~= int_leaves_seq(ws).subrange(0, ic));
        assert(int_leaves_seq(ms.drop_first()) =~= int_leaves_seq(ms).subrange(
            ic,
            int_leaves_seq(ms).len() as int,
        ));
        assert(int_leaves_seq(ws.drop_first()) =~= int_leaves_seq(ws).subrange(
            ic,
            int_leaves_seq(ws).len() as int,
        ));
        assert(bool_leaves(ms[0]) =~= bool_leaves_seq(ms).subrange(0, bc));
        assert(bool_leaves(ws[0]) =~= bool_leaves_seq(ws).subrange(0, bc));
        assert(bool_leaves_seq(ms.drop_first()) =~= bool_leaves_seq(ms).subrange(
            bc,
            bool_leaves_seq(ms).len() as int,
        ));
        assert(bool_leaves_seq(ws.drop_first()) =~= bool_leaves_seq(ws).subrange(
            bc,
            bool_leaves_seq(ws).len() as int,
        ));
        lemma_round_trip(ms[0], ws[0], ss[0]);
        lemma_round_trip_members(ms.drop_first(), ws.drop_first(), ss.drop_first());
    }
}

/// Encoding stability: structurally equal values have identical encodings,
/// so re-encoding a round-tripped value reproduces the columns it was
/// decoded from.
pub proof fn lemma_encoding_stability(v: Value, w: Value)
    requires
        alike(v, w),
    ensures
        float_leaves(w) == float_leaves(v),
        int_leaves(w) == int_leaves(v),
        bool_leaves(w) == bool_leaves(v),
    decreases v,
{
    match v {
        Value::Record(ms) => {
            lemma_encoding_stability_members(ms@, w->Record_0@);
        },
        Value::Tuple(ms) => {
            lemma_encoding_stability_members(ms@, w->Tuple_0@);
        },
        _ => {},
    }
}

/// [`lemma_encoding_stability`], pointwise over members.
pub proof fn lemma_encoding_stability_members(ms: Seq<Value>, ws: Seq<Value>)
    requires
        alike_seq(ms, ws),
    ensures
        float_leaves_seq(ws) == float_leaves_seq(ms),
        int_leaves_seq(ws) == int_leaves_seq(ms),
        bool_leaves_seq(ws) == bool_leaves_seq(ms),
    decreases ms,
{
    if ms.len() == 0 {
    } else {
        lemma_encoding_stability(ms[0], ws[0]);
        lemma_encoding_stability_members(ms.drop_first(), ws.drop_first());
    }
}

/// Order preservation: swapping two adjacent int64 members swaps exactly
/// their two entries in the ints column and leaves the other columns
/// untouched. Declared field order is thus visible in the encoding.
pub proof fn lemma_order_preservation(ms: Seq<Value>, ws: Seq<Value>, k: int, a: i64, b: i64)
    requires
        0 <= k,
        k + 1 < ms.len(),
        ms[k] == Value::Int64(a),
        ms[k + 1] == Value::Int64(b),
        ws == ms.update(k, Value::Int64(b)).update(k + 1, Value::Int64(a)),
    ensures
        int_leaves_seq(ms) == int_leaves_seq(ms.take(k)) + seq![a, b] + int_leaves_seq(
            ms.skip(k + 2),
        ),
        int_leaves_seq(ws) == int_leaves_seq(ms.take(k)) + seq![b, a] + int_leaves_seq(
            ms.skip(k + 2),
        ),
        float_leaves_seq(ws) == float_leaves_seq(ms),
        bool_leaves_seq(ws) == bool_leaves_seq(ms),
{
    let fwd = seq![Value::Int64(a), Value::Int64(b)];
    let rev = seq![Value::Int64(b), Value::Int64(a)];
    assert(ms =~= ms.take(k) + fwd + ms.skip(k + 2));
    assert(ws =~= ms.take(k) + rev + ms.skip(k + 2));
    lemma_leaves_seq_concat(ms.take(k), fwd);
    lemma_leaves_seq_concat(ms.take(k) + fwd, ms.skip(k + 2));
    lemma_leaves_seq_concat(ms.take(k), rev);
    lemma_leaves_seq_concat(ms.take(k) + rev, ms.skip(k + 2));
    lemma_leaves_pair(a, b);
    lemma_leaves_pair(b, a);
    assert(int_leaves_seq(ms) =~= int_leaves_seq(ms.take(k)) + seq![a, b] + int_leaves_seq(
        ms.skip(k + 2),
    ));
    assert(int_leaves_seq(ws) =~= int_leaves_seq(ms.take(k)) + seq![b, a] + int_leaves_seq(
        ms.skip(k + 2),
    ));
    assert(float_leaves_seq(ws) =~= float_leaves_seq(ms));
    assert(bool_leaves_seq(ws) =~= bool_leaves_seq(ms));
}

/// The leaf columns of two adjacent int64 members.
proof fn lemma_leaves_pair(a: i64, b: i64)
    ensures
        int_leaves_seq(seq![Value::Int64(a), Value::Int64(b)]) == seq![a, b],
        float_leaves_seq(seq![Value::Int64(a), Value::Int64(b)]) == Seq::<u64>::empty(),
        bool_leaves_seq(seq![Value::Int64(a), Value::Int64(b)]) == Seq::<bool>::empty(),
{
    let pair = seq![Value::Int64(a), Value::Int64(b)];
    assert(pair.drop_first() =~= seq![Value::Int64(b)]);
    assert(seq![Value::Int64(b)].drop_first() =~= Seq::<Value>::empty());
    assert(int_leaves_seq(Seq::<Value>::empty()) == Seq::<i64>::empty());
    assert(float_leaves_seq(Seq::<Value>::empty()) == Seq::<u64>::empty());
    assert(bool_leaves_seq(Seq::<Value>::empty()) == Seq::<bool>::empty());
    assert(pair[0] == Value::Int64(a));
    assert(seq![Value::Int64(b)][0] == Value::Int64(b));
    assert(int_leaves(Value::Int64(a)) =~= seq![a]);
    assert(int_leaves(Value::Int64(b)) =~= seq![b]);
    assert(float_leaves(Value::Int64(a)) =~= Seq::<u64>::empty());
    assert(float_leaves(Value::Int64(b)) =~= Seq::<u64>::empty());
    assert(bool_leaves(Value::Int64(a)) =~= Seq::<bool>::empty());
    assert(bool_leaves(Value::Int64(b)) =~= Seq::<bool>::empty());
    assert(int_leaves_seq(seq![Value::Int64(b)]) =~= seq![b]);
    assert(float_leaves_seq(seq![Value::Int64(b)]) =~= Seq::<u64>::empty());
    assert(bool_leaves_seq(seq![Value::Int64(b)]) =~= Seq::<bool>::empty());
    assert(int_leaves_seq(pair) =~= seq![a, b]);
    assert(float_leaves_seq(pair) =~= Seq::<u64>::empty());
    assert(bool_leaves_seq(pair) =~= Seq::<bool>::empty());
}

/// Column independence: a member interleaves only into the columns of the
/// kinds it contains. Inserting it anywhere splices its leaves into each
/// column between those of the members before and after it; a column of a
/// kind the member lacks is unchanged, entry for entry.
pub proof fn lemma_column_independence(ms: Seq<Value>, k: int, x: Value)
    requires
        0 <= k <= ms.len(),
    ensures
        float_leaves_seq(ms.insert(k, x)) == float_leaves_seq(ms.take(k)) + float_leaves(x)
            + float_leaves_seq(ms.skip(k)),
        int_leaves_seq(ms.insert(k, x)) == int_leaves_seq(ms.take(k)) + int_leaves(x)
            + int_leaves_seq(ms.skip(k)),
        bool_leaves_seq(ms.insert(k, x)) == bool_leaves_seq(ms.take(k)) + bool_leaves(x)
            + bool_leaves_seq(ms.skip(k)),
        float_leaves(x) == Seq::<u64>::empty() ==> float_leaves_seq(ms.insert(k, x))
            == float_leaves_seq(ms),
        int_leaves(x) == Seq::<i64>::empty() ==> int_leaves_seq(ms.insert(k, x))
            == int_leaves_seq(ms),
        bool_leaves(x) == Seq::<bool>::empty() ==> bool_leaves_seq(ms.insert(k, x))
            == bool_leaves_seq(ms),
{
    let single = seq![x];
    assert(single.drop_first() =~= Seq::<Value>::empty());
    assert(float_leaves_seq(Seq::<Value>::empty()) == Seq::<u64>::empty());
    assert(int_leaves_seq(Seq::<Value>::empty()) == Seq::<i64>::empty());
    assert(bool_leaves_seq(Seq::<Value>::empty()) == Seq::<bool>::empty());
    assert(float_leaves_seq(single) =~= float_leaves(x));
    assert(int_leaves_seq(single) =~= int_leaves(x));
    assert(bool_leaves_seq(single) =~= bool_leaves(x));
    assert(ms.insert(k, x) =~= ms.take(k) + single + ms.skip(k));
    assert(ms =~= ms.take(k) + ms.skip(k));
    lemma_leaves_seq_concat(ms.take(k), single);
    lemma_leaves_seq_concat(ms.take(k) + single, ms.skip(k));
    lemma_leaves_seq_concat(ms.take(k), ms.skip(k));
    assert(float_leaves_seq(ms.insert(k, x)) =~= float_leaves_seq(ms.take(k)) + float_leaves(x)
        + float_leaves_seq(ms.skip(k)));
    assert(int_leaves_seq(ms.insert(k, x)) =~= int_leaves_seq(ms.take(k)) + int_leaves(x)
        + int_leaves_seq(ms.skip(k)));
    assert(bool_leaves_seq(ms.insert(k, x)) =~= bool_leaves_seq(ms.take(k)) + bool_leaves(x)
        + bool_leaves_seq(ms.skip(k)));
    if float_leaves(x) == Seq::<u64>::empty() {
        assert(float_leaves_seq(ms.insert(k, x)) =~= float_leaves_seq(ms));
    }
    if int_leaves(x) == Seq::<i64>::empty() {
        assert(int_leaves_seq(ms.insert(k, x)) =~= int_leaves_seq(ms));
    }
    if bool_leaves(x) == Seq::<bool>::empty() {
        assert(bool_leaves_seq(ms.insert(k, x)) =~= bool_leaves_seq(ms));
    }
}

/// Exhaustion boundary: a shape that demands more leaves of exactly one
/// kind than its column holds exhausts that column, and the traversal's
/// first failing pull reports that kind's out-of-bounds error.
pub proof fn lemma_exhaustion_boundary(s: Shape, fb: int, ib: int, bb: int)
    requires
        0 <= fb,
        0 <= ib,
        0 <= bb,
    ensures
        float_count(s) > fb && int_count(s) <= ib && bool_count(s) <= bb ==> first_exhaustion(
            s,
            fb,
            ib,
            bb,
        ) == Some(Error::FloatIndexOutOfBounds),
        int_count(s) > ib && float_count(s) <= fb && bool_count(s) <= bb ==> first_exhaustion(
            s,
            fb,
            ib,
            bb,
        ) == Some(Error::IntIndexOutOfBounds),
        bool_count(s) > bb && float_count(s) <= fb && int_count(s) <= ib ==> first_exhaustion(
            s,
            fb,
            ib,
            bb,
        ) == Some(Error::BoolIndexOutOfBounds),
    decreases s,
{
    match s {
        Shape::Record(ss) => {
            lemma_exhaustion_boundary_seq(ss@, fb, ib, bb);
        },
        Shape::Tuple(ss) => {
            lemma_exhaustion_boundary_seq(ss@, fb, ib, bb);
        },
        _ => {},
    }
}

/// [`lemma_exhaustion_boundary`], over a sequence of member shapes.
pub proof fn lemma_exhaustion_boundary_seq(ss: Seq<Shape>, fb: int, ib: int, bb: int)
    requires
        0 <= fb,
        0 <= ib,
        0 <= bb,
    ensures
        float_count_seq(ss) > fb && int_count_seq(ss) <= ib && bool_count_seq(ss) <= bb
            ==> first_exhaustion_seq(ss, fb, ib, bb) == Some(Error::FloatIndexOutOfBounds),
        int_count_seq(ss) > ib && float_count_seq(ss) <= fb && bool_count_seq(ss) <= bb
            ==> first_exhaustion_seq(ss, fb, ib, bb) == Some(Error::IntIndexOutOfBounds),
        bool_count_seq(ss) > bb && float_count_seq(ss) <= fb && int_count_seq(ss) <= ib
            ==> first_exhaustion_seq(ss, fb, ib, bb) == Some(Error::BoolIndexOutOfBounds),
    decreases ss,
{
    if ss.len() == 0 {
    } else {
        let s0 = ss[0];
        let rest = ss.drop_first();
        if float_count_seq(ss) > fb && int_count_seq(ss) <= ib && bool_count_seq(ss) <= bb {
            if float_count(s0) > fb {
                lemma_exhaustion_boundary(s0, fb, ib, bb);
            } else {
                lemma_fit_no_exhaustion(s0, fb, ib, bb);
                lemma_exhaustion_boundary_seq(
                    rest,
                    fb - float_count(s0),
                    ib - int_count(s0),
                    bb - bool_count(s0),
                );
            }
        }
        if int_count_seq(ss) > ib && float_count_seq(ss) <= fb && bool_count_seq(ss) <= bb {
            if int_count(s0) > ib {
                lemma_exhaustion_boundary(s0, fb, ib, bb);
            } else {
                lemma_fit_no_exhaustion(s0, fb, ib, bb);
                lemma_exhaustion_boundary_seq(
                    rest,
                    fb - float_count(s0),
                    ib - int_count(s0),
                    bb - bool_count(s0),
                );
            }
        }
        if bool_count_seq(ss) > bb && float_count_seq(ss) <= fb && int_count_seq(ss) <= ib {
            if bool_count(s0) > bb {
                lemma_exhaustion_boundary(s0, fb, ib, bb);
            } else {
                lemma_fit_no_exhaustion(s0, fb, ib, bb);
                lemma_exhaustion_boundary_seq(
                    rest,
                    fb - float_count(s0),
                    ib - int_count(s0),
                    bb - bool_count(s0),
                );
            }
        }
    }
}

} // verus!
