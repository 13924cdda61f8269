//! The field-consuming side: walks a target shape and pulls each requested
//! leaf from the column of its kind, advancing independent per-kind cursors.

use vstd::prelude::*;

use crate::error::Error;
use crate::value::bool_count;
use crate::value::bool_count_seq;
use crate::value::bool_leaves;
use crate::value::bool_leaves_seq;
use crate::value::first_exhaustion;
use crate::value::first_exhaustion_seq;
use crate::value::float_count;
use crate::value::float_count_seq;
use crate::value::float_leaves;
use crate::value::float_leaves_seq;
use crate::value::has_shape;
use crate::value::has_shape_seq;
use crate::value::int_count;
use crate::value::int_count_seq;
use crate::value::int_leaves;
use crate::value::int_leaves_seq;
use crate::value::lemma_count_seq_push;
use crate::value::lemma_has_shape_seq_push;
use crate::value::lemma_leaves_seq_push;
use crate::value::Shape;
use crate::value::Value;
use crate::Encoding;

verus! {

/// Reads one [`Encoding`] through three independent cursors, one per
/// column. Each successful pull of a kind advances only that kind's cursor,
/// by one; no cursor ever moves back.
#[derive(Debug)]
pub struct Deserializer<'de> {
    encoding: &'de Encoding,
    f_i: usize,
    i_i: usize,
    b_i: usize,
}

impl<'de> Deserializer<'de> {
    /// The floats column being read.
    pub closed spec fn floats(&self) -> Seq<u64> {
        self.encoding.f@
    }

    /// The ints column being read.
    pub closed spec fn ints(&self) -> Seq<i64> {
        self.encoding.i@
    }

    /// The bools column being read.
    pub closed spec fn bools(&self) -> Seq<bool> {
        self.encoding.b@
    }

    /// How many doubles have been pulled.
    pub closed spec fn float_cursor(&self) -> int {
        self.f_i as int
    }

    /// How many int64s have been pulled.
    pub closed spec fn int_cursor(&self) -> int {
        self.i_i as int
    }

    /// How many bools have been pulled.
    pub closed spec fn bool_cursor(&self) -> int {
        self.b_i as int
    }

    /// Each cursor lies between zero and its column's length.
    pub open spec fn wf(&self) -> bool {
        &&& 0 <= self.float_cursor() <= self.floats().len()
        &&& 0 <= self.int_cursor() <= self.ints().len()
        &&& 0 <= self.bool_cursor() <= self.bools().len()
    }

    /// A deserializer borrowing `encoding`, with all three cursors at the
    /// start of their columns.
    pub fn from_encoding(encoding: &'de Encoding) -> (r: Self)
        ensures
            r.wf(),
            r.floats() == encoding.f@,
            r.ints() == encoding.i@,
            r.bools() == encoding.b@,
            r.float_cursor() == 0,
            r.int_cursor() == 0,
            r.bool_cursor() == 0,
    {
        Deserializer { encoding, f_i: 0, i_i: 0, b_i: 0 }
    }

    /// Whether every cursor has reached the end of its column, i.e. the
    /// whole encoding has been consumed.
    pub fn completed(&self) -> (r: bool)
        ensures
            r == {
                &&& self.float_cursor() == self.floats().len()
                &&& self.int_cursor() == self.ints().len()
                &&& self.bool_cursor() == self.bools().len()
            },
    {
        self.f_i == self.encoding.f.len() && self.i_i == self.encoding.i.len() && self.b_i
            == self.encoding.b.len()
    }

    /// Pulls the next double (as its bit pattern) from the floats column,
    /// advancing the float cursor; fails if and only if that cursor has
    /// already reached the column's end, leaving the state unchanged.
    pub fn next_float(&mut self) -> (r: Result<u64, Error>)
        requires
            old(self).wf(),
        ensures
            final(self).wf(),
            final(self).floats() == old(self).floats(),
            final(self).ints() == old(self).ints(),
            final(self).bools() == old(self).bools(),
            final(self).int_cursor() == old(self).int_cursor(),
            final(self).bool_cursor() == old(self).bool_cursor(),
            old(self).float_cursor() < old(self).floats().len() ==> {
                &&& final(self).float_cursor() == old(self).float_cursor() + 1
                &&& r == Ok::<u64, Error>(old(self).floats()[old(self).float_cursor()])
            },
            old(self).float_cursor() == old(self).floats().len() ==> {
                &&& final(self).float_cursor() == old(self).float_cursor()
                &&& r == Err::<u64, Error>(Error::FloatIndexOutOfBounds)
            },
    {
        if self.f_i < self.encoding.f.len() {
            let v = self.encoding.f[self.f_i];
            self.f_i = self.f_i + 1;
            Ok(v)
        } else {
            Err(Error::FloatIndexOutOfBounds)
        }
    }

    /// Pulls the next int64 from the ints column, advancing the int cursor;
    /// fails if and only if that cursor has already reached the column's
    /// end, leaving the state unchanged.
    pub fn next_int(&mut self) -> (r: Result<i64, Error>)
        requires
            old(self).wf(),
        ensures
            final(self).wf(),
            final(self).floats() == old(self).floats(),
            final(self).ints() == old(self).ints(),
            final(self).bools() == old(self).bools(),
            final(self).float_cursor() == old(self).float_cursor(),
            final(self).bool_cursor() == old(self).bool_cursor(),
            old(self).int_cursor() < old(self).ints().len() ==> {
                &&& final(self).int_cursor() == old(self).int_cursor() + 1
                &&& r == Ok::<i64, Error>(old(self).ints()[old(self).int_cursor()])
            },
            old(self).int_cursor() == old(self).ints().len() ==> {
                &&& final(self).int_cursor() == old(self).int_cursor()
                &&& r == Err::<i64, Error>(Error::IntIndexOutOfBounds)
            },
    {
        if self.i_i < self.encoding.i.len() {
            let v = self.encoding.i[self.i_i];
            self.i_i = self.i_i + 1;
            Ok(v)
        } else {
            Err(Error::IntIndexOutOfBounds)
        }
    }

    /// Pulls the next bool from the bools column, advancing the bool cursor;
    /// fails if and only if that cursor has already reached the column's
    /// end, leaving the state unchanged.
    pub fn next_bool(&mut self) -> (r: Result<bool, Error>)
        requires
            old(self).wf(),
        ensures
            final(self).wf(),
            final(self).floats() == old(self).floats(),
            final(self).ints() == old(self).ints(),
            final(self).bools() == old(self).bools(),
            final(self).float_cursor() == old(self).float_cursor(),
            final(self).int_cursor() == old(self).int_cursor(),
            old(self).bool_cursor() < old(self).bools().len() ==> {
                &&& final(self).bool_cursor() == old(self).bool_cursor() + 1
                &&& r == Ok::<bool, Error>(old(self).bools()[old(self).bool_cursor()])
            },
            old(self).bool_cursor() == old(self).bools().len() ==> {
                &&& final(self).bool_cursor() == old(self).bool_cursor()
                &&& r == Err::<bool, Error>(Error::BoolIndexOutOfBounds)
            },
    {
        if self.b_i < self.encoding.b.len() {
            let v = self.encoding.b[self.b_i];
            self.b_i = self.b_i + 1;
            Ok(v)
        } else {
            Err(Error::BoolIndexOutOfBounds)
        }
    }

    /// Reconstructs one value of shape `shape`, pulling each requested leaf
    /// from the column of its kind.
    ///
    /// On success the value has shape `shape`, each cursor has advanced by
    /// exactly the shape's count of that kind, and each kind's leaves are
    /// the column entries the cursor moved over. It fails if and only if
    /// some pull lands past its column's end, and then with the error of the
    /// first such pull.
    pub fn deserialize_shape(&mut self, shape: &Shape) -> (r: Result<Value, Error>)
        requires
            old(self).wf(),
        ensures
            final(self).wf(),
            final(self).floats() == old(self).floats(),
            final(self).ints() == old(self).ints(),
            final(self).bools() == old(self).bools(),
            match r {
                Ok(v) => {
                    &&& has_shape(v, *shape)
                    &&& final(self).float_cursor() == old(self).float_cursor() + float_count(
                        *shape,
                    )
                    &&& final(self).int_cursor() == old(self).int_cursor() + int_count(*shape)
                    &&& final(self).bool_cursor() == old(self).bool_cursor() + bool_count(*shape)
                    &&& float_leaves(v) == old(self).floats().subrange(
                        old(self).float_cursor(),
                        old(self).float_cursor() + float_count(*shape),
                    )
                    &&& int_leaves(v) == old(self).ints().subrange(
                        old(self).int_cursor(),
                        old(self).int_cursor() + int_count(*shape),
                    )
                    &&& bool_leaves(v) == old(self).bools().subrange(
                        old(self).bool_cursor(),
                        old(self).bool_cursor() + bool_count(*shape),
                    )
                },
                Err(e) => first_exhaustion(
                    *shape,
                    old(self).floats().len() - old(self).float_cursor(),
                    old(self).ints().len() - old(self).int_cursor(),
                    old(self).bools().len() - old(self).bool_cursor(),
                ) == Some(e),
            },
            r is Ok <==> first_exhaustion(
                *shape,
                old(self).floats().len() - old(self).float_cursor(),
                old(self).ints().len() - old(self).int_cursor(),
                old(self).bools().len() - old(self).bool_cursor(),
            ) is None,
        decreases *shape,
    {
        match shape {
            Shape::Double => match self.next_float() {
                Ok(bits) => {
                    let v = Value::Double(bits);
                    Ok(v)
                },
                Err(e) => Err(e),
            },
            Shape::Int64 => match self.next_int() {
                Ok(x) => {
                    let v = Value::Int64(x);
                    Ok(v)
                },
                Err(e) => Err(e),
            },
            Shape::Bool => match self.next_bool() {
                Ok(x) => {
                    let v = Value::Bool(x);
                    Ok(v)
                },
                Err(e) => Err(e),
            },
            Shape::Record(members) => match self.deserialize_members(members) {
                Ok(vs) => Ok(Value::Record(vs)),
                Err(e) => Err(e),
            },
            Shape::Tuple(members) => match self.deserialize_members(members) {
                Ok(vs) => Ok(Value::Tuple(vs)),
                Err(e) => Err(e),
            },
        }
    }

    /// Reconstructs the members of a record or tuple, left to right: exactly
    /// one value per member shape, each pulled by [`Self::deserialize_shape`].
    /// The aggregate bounds the walk — no value is produced beyond the given
    /// member shapes, whatever remains in the columns.
    pub fn deserialize_members(&mut self, shapes: &Vec<Shape>) -> (r: Result<Vec<Value>, Error>)
        requires
            old(self).wf(),
        ensures
            final(self).wf(),
            final(self).floats() == old(self).floats(),
            final(self).ints() == old(self).ints(),
            final(self).bools() == old(self).bools(),
            match r {
                Ok(vs) => {
                    &&& has_shape_seq(vs@, shapes@)
                    &&& final(self).float_cursor() == old(self).float_cursor() + float_count_seq(
                        shapes@,
                    )
                    &&& final(self).int_cursor() == old(self).int_cursor() + int_count_seq(shapes@)
                    &&& final(self).bool_cursor() == old(self).bool_cursor() + bool_count_seq(
                        shapes@,
                    )
                    &&& float_leaves_seq(vs@) == old(self).floats().subrange(
                        old(self).float_cursor(),
                        old(self).float_cursor() + float_count_seq(shapes@),
                    )
                    &&& int_leaves_seq(vs@) == old(self).ints().subrange(
                        old(self).int_cursor(),
                        old(self).int_cursor() + int_count_seq(shapes@),
                    )
                    &&& bool_leaves_seq(vs@) == old(self).bools().subrange(
                        old(self).bool_cursor(),
                        old(self).bool_cursor() + bool_count_seq(shapes@),
                    )
                },
                Err(e) => first_exhaustion_seq(
                    shapes@,
                    old(self).floats().len() - old(self).float_cursor(),
                    old(self).ints().len() - old(self).int_cursor(),
                    old(self).bools().len() - old(self).bool_cursor(),
                ) == Some(e),
            },
            r is Ok <==> first_exhaustion_seq(
                shapes@,
                old(self).floats().len() - old(self).float_cursor(),
                old(self).ints().len() - old(self).int_cursor(),
                old(self).bools().len() - old(self).bool_cursor(),
            ) is None,
        decreases *shapes,
    {
        let ghost fb0 = old(self).floats().len() - old(self).float_cursor();
        let ghost ib0 = old(self).ints().len() - old(self).int_cursor();
        let ghost bb0 = old(self).bools().len() - old(self).bool_cursor();
        let n = shapes.len();
        let mut values: Vec<Value> = Vec::new();
        let mut j: usize = 0;
        proof {
            assert(shapes@.skip(0) =~= shapes@);
            assert(values@.take(0int) =~= Seq::<Value>::empty());
        }
        while j < n
            invariant
                fb0 == old(self).floats().len() - old(self).float_cursor(),
                ib0 == old(self).ints().len() - old(self).int_cursor(),
                bb0 == old(self).bools().len() - old(self).bool_cursor(),
                self.wf(),
                j <= n,
                n == shapes@.len(),
                values@.len() == j,
                self.floats() == old(self).floats(),
                self.ints() == old(self).ints(),
                self.bools() == old(self).bools(),
                has_shape_seq(values@, shapes@.take(j as int)),
                self.float_cursor() == old(self).float_cursor() + float_count_seq(
                    shapes@.take(j as int),
                ),
                self.int_cursor() == old(self).int_cursor() + int_count_seq(
                    shapes@.take(j as int),
                ),
                self.bool_cursor() == old(self).bool_cursor() + bool_count_seq(
                    shapes@.take(j as int),
                ),
                float_leaves_seq(values@) == old(self).floats().subrange(
                    old(self).float_cursor(),
                    self.float_cursor(),
                ),
                int_leaves_seq(values@) == old(self).ints().subrange(
                    old(self).int_cursor(),
                    self.int_cursor(),
                ),
                bool_leaves_seq(values@) == old(self).bools().subrange(
                    old(self).bool_cursor(),
                    self.bool_cursor(),
                ),
                first_exhaustion_seq(
                    shapes@.skip(j as int),
                    self.floats().len() - self.float_cursor(),
                    self.ints().len() - self.int_cursor(),
                    self.bools().len() - self.bool_cursor(),
                ) == first_exhaustion_seq(shapes@, fb0, ib0, bb0),
            decreases n - j,
        {
            let ghost pre = *self;
            let ghost taken = shapes@.take(j as int);
            match self.deserialize_shape(&shapes[j]) {
                Ok(v) => {
                    proof {
                        // The member that succeeded is the head of the
                        // remaining shapes; peeling it keeps the pending
                        // exhaustion outcome unchanged.
                        assert(shapes@.skip(j as int)[0] == shapes@[j as int]);
                        assert(shapes@.skip(j as int).drop_first() =~= shapes@.skip(j + 1 as int));
                        assert(shapes@.take(j + 1 as int) =~= taken.push(shapes@[j as int]));
                        lemma_count_seq_push(taken, shapes@[j as int]);
                        lemma_has_shape_seq_push(values@, taken, v, shapes@[j as int]);
                        lemma_leaves_seq_push(values@, v);
                    }
                    values.push(v);
                },
                Err(e) => {
                    proof {
                        // The failing member is the head of the remaining
                        // shapes, so its error is the whole walk's error.
                        assert(shapes@.skip(j as int)[0] == shapes@[j as int]);
                        assert(first_exhaustion_seq(
                            shapes@.skip(j as int),
                            pre.floats().len() - pre.float_cursor(),
                            pre.ints().len() - pre.int_cursor(),
                            pre.bools().len() - pre.bool_cursor(),
                        ) == Some(e));
                    }
                    return Err(e);
                },
            }
            j = j + 1;
        }
        proof {
            assert(shapes@.take(n as int) =~= shapes@);
            assert(shapes@.skip(n as int) =~= Seq::<Shape>::empty());
        }
        Ok(values)
    }
}

} // verus!
