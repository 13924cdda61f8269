//! A columnar encoding of structured records.
//!
//! A record made of double, int64 and bool leaves, nested records and tuples
//! is flattened into an [`Encoding`]: three ordered columns, one per leaf
//! kind, holding the leaves in pre-order. No names, tags or structural
//! metadata are stored; decoding is driven by a [`Shape`] that must match the
//! shape the encoding was produced from.
//!
//! Doubles are carried as their IEEE-754 bit patterns (`u64`), which the
//! codec moves but never interprets.

use vstd::prelude::*;

pub mod deserializer;
pub mod error;
pub mod laws;
pub mod serializer;
pub mod value;

pub use crate::deserializer::Deserializer;
pub use crate::error::Error;
pub use crate::serializer::Serializer;
pub use crate::value::Shape;
pub use crate::value::Value;

verus! {

/// An encoding of a record: three ordered columns, one per leaf kind.
///
/// `f` holds the IEEE-754 bit patterns of the double leaves, `i` the int64
/// leaves and `b` the bool leaves, each in the order the leaves are visited.
#[derive(Debug, PartialEq, Eq)]
pub struct Encoding {
    pub f: Vec<u64>,
    pub i: Vec<i64>,
    pub b: Vec<bool>,
}

impl Default for Encoding {
    /// An encoding with all three columns empty.
    fn default() -> (r: Self)
        ensures
            r.f@ == Seq::<u64>::empty(),
            r.i@ == Seq::<i64>::empty(),
            r.b@ == Seq::<bool>::empty(),
    {
        Encoding { f: Vec::new(), i: Vec::new(), b: Vec::new() }
    }
}

/// Encodes a record into its columnar form.
///
/// Every record a [`Value`] can express is supported, so encoding always
/// succeeds: each column of the result holds exactly the record's leaves of
/// that kind, in pre-order.
pub fn encode(value: &Value) -> (r: Result<Encoding, Error>)
    ensures
        r is Ok,
        r matches Ok(enc) ==> {
            &&& enc.f@ == value::float_leaves(*value)
            &&& enc.i@ == value::int_leaves(*value)
            &&& enc.b@ == value::bool_leaves(*value)
        },
{
    let mut serializer = Serializer::default();
    serializer.serialize_value(value);
    Ok(serializer.consume())
}

/// Decodes an encoding back into a record of shape `shape`.
///
/// Succeeds if and only if each column holds exactly as many values as the
/// shape has leaves of that kind; the decoded record then has shape `shape`
/// and its per-kind leaves are exactly the columns. If some pull lands past
/// a column's end, the error of the first such pull is returned; if the
/// traversal succeeds but leaves values unconsumed in some column, the
/// decode fails with [`Error::Incomplete`].
pub fn decode(encoding: &Encoding, shape: &Shape) -> (r: Result<Value, Error>)
    ensures
        value::first_exhaustion(
            *shape,
            encoding.f@.len() as int,
            encoding.i@.len() as int,
            encoding.b@.len() as int,
        ) matches Some(e) ==> r == Err::<Value, Error>(e),
        value::first_exhaustion(
            *shape,
            encoding.f@.len() as int,
            encoding.i@.len() as int,
            encoding.b@.len() as int,
        ) is None && !(value::float_count(*shape) == encoding.f@.len() && value::int_count(*shape)
            == encoding.i@.len() && value::bool_count(*shape) == encoding.b@.len()) ==> r
            == Err::<Value, Error>(Error::Incomplete),
        r matches Ok(v) ==> {
            &&& value::has_shape(v, *shape)
            &&& value::float_leaves(v) == encoding.f@
            &&& value::int_leaves(v) == encoding.i@
            &&& value::bool_leaves(v) == encoding.b@
        },
        r is Ok <==> (value::float_count(*shape) == encoding.f@.len() && value::int_count(*shape)
            == encoding.i@.len() && value::bool_count(*shape) == encoding.b@.len()),
{
    let mut deserializer = Deserializer::from_encoding(encoding);
    let res = deserializer.deserialize_shape(shape);
    match res {
        Err(e) => {
            proof {
                if value::float_count(*shape) == encoding.f@.len() && value::int_count(*shape)
                    == encoding.i@.len() && value::bool_count(*shape) == encoding.b@.len() {
                    value::lemma_fit_no_exhaustion(
                        *shape,
                        encoding.f@.len() as int,
                        encoding.i@.len() as int,
                        encoding.b@.len() as int,
                    );
                }
            }
            Err(e)
        },
        Ok(v) => {
            if deserializer.completed() {
                Ok(v)
            } else {
                Err(Error::Incomplete)
            }
        },
    }
}

impl Clone for Encoding {
    /// The clone has the same three columns.
    fn clone(&self) -> (r: Self)
        ensures
            r.f@ == self.f@,
            r.i@ == self.i@,
            r.b@ == self.b@,
    {
        Encoding { f: self.f.clone(), i: self.i.clone(), b: self.b.clone() }
    }
}

} // verus!
