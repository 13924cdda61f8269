//! The field-producing side: walks a record and appends each leaf to the
//! column of its kind.

use vstd::prelude::*;

use crate::value::bool_leaves;
use crate::value::bool_leaves_seq;
use crate::value::float_leaves;
use crate::value::float_leaves_seq;
use crate::value::int_leaves;
use crate::value::int_leaves_seq;
use crate::value::lemma_leaves_seq_push;
use crate::value::Value;
use crate::Encoding;

verus! {

/// Owns one [`Encoding`] under construction; each leaf visited appends one
/// value to exactly one column. Finalized by [`Serializer::consume`].
#[derive(Debug)]
pub struct Serializer {
    encoding: Encoding,
}

impl Serializer {
    /// The floats column built so far.
    pub closed spec fn floats(&self) -> Seq<u64> {
        self.encoding.f@
    }

    /// The ints column built so far.
    pub closed spec fn ints(&self) -> Seq<i64> {
        self.encoding.i@
    }

    /// The bools column built so far.
    pub closed spec fn bools(&self) -> Seq<bool> {
        self.encoding.b@
    }

    /// Appends a double leaf, given as its IEEE-754 bit pattern, to the
    /// floats column.
    pub fn serialize_f64(&mut self, bits: u64)
        ensures
            final(self).floats() == old(self).floats().push(bits),
            final(self).ints() == old(self).ints(),
            final(self).bools() == old(self).bools(),
    {
        self.encoding.f.push(bits);
    }

    /// Appends an int64 leaf to the ints column.
    pub fn serialize_i64(&mut self, v: i64)
        ensures
            final(self).floats() == old(self).floats(),
            final(self).ints() == old(self).ints().push(v),
            final(self).bools() == old(self).bools(),
    {
        self.encoding.i.push(v);
    }

    /// Appends a bool leaf to the bools column.
    pub fn serialize_bool(&mut self, v: bool)
        ensures
            final(self).floats() == old(self).floats(),
            final(self).ints() == old(self).ints(),
            final(self).bools() == old(self).bools().push(v),
    {
        self.encoding.b.push(v);
    }

    /// Walks `value` in pre-order and appends each leaf to the column of its
    /// kind: each column grows by exactly the value's leaves of that kind,
    /// in visitation order.
    pub fn serialize_value(&mut self, value: &Value)
        ensures
            final(self).floats() == old(self).floats() + float_leaves(*value),
            final(self).ints() == old(self).ints() + int_leaves(*value),
            final(self).bools() == old(self).bools() + bool_leaves(*value),
        decreases *value,
    {
        match value {
            Value::Double(bits) => {
                self.serialize_f64(*bits);
            },
            Value::Int64(v) => {
                self.serialize_i64(*v);
            },
            Value::Bool(v) => {
                self.serialize_bool(*v);
            },
            Value::Record(ms) => {
                self.serialize_members(ms);
            },
            Value::Tuple(ms) => {
                self.serialize_members(ms);
            },
        }
    }

    /// Walks the members of a record or tuple in declaration order; the
    /// aggregate itself contributes no value.
    pub fn serialize_members(&mut self, members: &Vec<Value>)
        ensures
            final(self).floats() == old(self).floats() + float_leaves_seq(members@),
            final(self).ints() == old(self).ints() + int_leaves_seq(members@),
            final(self).bools() == old(self).bools() + bool_leaves_seq(members@),
        decreases *members,
    {
        let n = members.len();
        let mut j: usize = 0;
        while j < n
            invariant
                j <= n,
                n == members@.len(),
                self.floats() == old(self).floats() + float_leaves_seq(members@.take(j as int)),
                self.ints() == old(self).ints() + int_leaves_seq(members@.take(j as int)),
                self.bools() == old(self).bools() + bool_leaves_seq(members@.take(j as int)),
            decreases n - j,
        {
            self.serialize_value(&members[j]);
            proof {
                assert(members@.take(j + 1 as int) =~= members@.take(j as int).push(members@[j as int]));
                lemma_leaves_seq_push(members@.take(j as int), members@[j as int]);
            }
            j = j + 1;
        }
        proof {
            assert(members@.take(n as int) =~= members@);
        }
    }

    /// Finalizes the serializer, yielding the completed encoding.
    pub fn consume(self) -> (r: Encoding)
        ensures
            r.f@ == self.floats(),
            r.i@ == self.ints(),
            r.b@ == self.bools(),
    {
        self.encoding
    }
}

impl Default for Serializer {
    /// A serializer whose encoding under construction is empty.
    fn default() -> (r: Self)
        ensures
            r.floats() == Seq::<u64>::empty(),
            r.ints() == Seq::<i64>::empty(),
            r.bools() == Seq::<bool>::empty(),
    {
        Serializer { encoding: Encoding::default() }
    }
}

} // verus!
