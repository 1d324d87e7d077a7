//! Loosely typed values, as a raw record holds them, and what can go
//! wrong when a typed value is asked of them.

use vstd::prelude::*;
use crate::str_map::StrMap;

verus! {

/// Why a raw record cannot be read.
#[derive(Clone, Copy, Debug, PartialEq, Eq)]
pub enum ParseError {
    /// An object lacks a field that is required.
    MissingField,
    /// A value is not of the kind that is required.
    WrongType,
    /// A cost entry has a negative quantity.
    NegativeQuantity,
    /// The quantities of one resource add up to more than 64 bits hold.
    QuantityOverflow,
}

/// A loosely typed value.
#[derive(Debug, PartialEq)]
pub enum Json {
    Null,
    Bool(bool),
    /// A number that is an integer of 64 bits.
    Int(i64),
    /// Any other number.
    Real,
    Str(String),
    Array(Vec<Json>),
    Object(StrMap<Json>),
}

/// The text of `j`, required to be a string.
pub open spec fn as_text(j: Json) -> Result<Seq<char>, ParseError> {
    match j {
        Json::Str(s) => Ok(s@),
        _ => Err(ParseError::WrongType),
    }
}

/// The number `j`, required to be an integer.
pub open spec fn as_int(j: Json) -> Result<i64, ParseError> {
    match j {
        Json::Int(i) => Ok(i),
        _ => Err(ParseError::WrongType),
    }
}

/// The items of `j`, required to be an array.
pub open spec fn as_list(j: Json) -> Result<Seq<Json>, ParseError> {
    match j {
        Json::Array(v) => Ok(v@),
        _ => Err(ParseError::WrongType),
    }
}

/// The fields of `j`, required to be an object.
pub open spec fn as_fields(j: Json) -> Result<StrMap<Json>, ParseError> {
    match j {
        Json::Object(m) => Ok(m),
        _ => Err(ParseError::WrongType),
    }
}

/// The field `key` of `obj`, required to be there.
pub open spec fn need(obj: StrMap<Json>, key: Seq<char>) -> Result<Json, ParseError> {
    match obj.value_of(key) {
        Some(j) => Ok(j),
        None => Err(ParseError::MissingField),
    }
}

/// The field `key` of `obj`, required to be a string.
pub open spec fn need_text(obj: StrMap<Json>, key: Seq<char>) -> Result<Seq<char>, ParseError> {
    match need(obj, key) {
        Ok(j) => as_text(j),
        Err(e) => Err(e),
    }
}

/// The field `key` of `obj`, required to be an integer.
pub open spec fn need_int(obj: StrMap<Json>, key: Seq<char>) -> Result<i64, ParseError> {
    match need(obj, key) {
        Ok(j) => as_int(j),
        Err(e) => Err(e),
    }
}

/// The field `key` of `obj`, required to be an array.
pub open spec fn need_list(obj: StrMap<Json>, key: Seq<char>) -> Result<Seq<Json>, ParseError> {
    match need(obj, key) {
        Ok(j) => as_list(j),
        Err(e) => Err(e),
    }
}

/// The field `key` of `obj`, required to be an object.
pub open spec fn need_fields(obj: StrMap<Json>, key: Seq<char>) -> Result<
    StrMap<Json>,
    ParseError,
> {
    match need(obj, key) {
        Ok(j) => as_fields(j),
        Err(e) => Err(e),
    }
}

/// The first error among `rs`, or all their values in order.
pub open spec fn collected<T>(rs: Seq<Result<T, ParseError>>) -> Result<Seq<T>, ParseError>
    decreases rs.len(),
{
    if rs.len() == 0 {
        Ok(Seq::empty())
    } else {
        match collected(rs.drop_last()) {
            Err(e) => Err(e),
            Ok(v) => match rs.last() {
                Err(e) => Err(e),
                Ok(x) => Ok(v.push(x)),
            },
        }
    }
}

/// What `collected` gives for one result more.
pub proof fn lemma_collected_step<T>(rs: Seq<Result<T, ParseError>>, n: int)
    requires
        0 <= n < rs.len(),
    ensures
        collected(rs.take(n + 1)) == match collected(rs.take(n)) {
            Err(e) => Err::<Seq<T>, ParseError>(e),
            Ok(v) => match rs[n] {
                Err(e) => Err(e),
                Ok(x) => Ok(v.push(x)),
            },
        },
{
    assert(rs.take(n + 1).drop_last() == rs.take(n));
    assert(rs.take(n + 1).last() == rs[n]);
}

/// An error among the first results is the error of all.
pub proof fn lemma_collected_fails<T>(rs: Seq<Result<T, ParseError>>, n: int)
    requires
        0 <= n <= rs.len(),
        collected(rs.take(n)) is Err,
    ensures
        collected(rs) == collected(rs.take(n)),
    decreases rs.len() - n,
{
    if n < rs.len() {
        lemma_collected_step(rs, n);
        lemma_collected_fails(rs, n + 1);
    } else {
        assert(rs.take(n) == rs);
    }
}

/// Nothing collected is the empty list.
pub proof fn lemma_collected_none<T>(rs: Seq<Result<T, ParseError>>)
    ensures
        collected(rs.take(0)) == Ok::<Seq<T>, ParseError>(Seq::empty()),
{
    assert(rs.take(0).len() == 0);
}

impl Json {
    /// The string that this value is.
    pub fn as_str(&self) -> (r: Result<&String, ParseError>)
        ensures
            match r {
                Ok(s) => as_text(*self) == Ok::<Seq<char>, ParseError>(s@),
                Err(e) => as_text(*self) == Err::<Seq<char>, ParseError>(e),
            },
    {
        match self {
            Json::Str(s) => Ok(s),
            _ => Err(ParseError::WrongType),
        }
    }

    /// The integer that this value is.
    pub fn as_i64(&self) -> (r: Result<i64, ParseError>)
        ensures
            r == as_int(*self),
    {
        match self {
            Json::Int(i) => Ok(*i),
            _ => Err(ParseError::WrongType),
        }
    }

    /// The array that this value is.
    pub fn as_array(&self) -> (r: Result<&Vec<Json>, ParseError>)
        ensures
            match r {
                Ok(v) => as_list(*self) == Ok::<Seq<Json>, ParseError>(v@),
                Err(e) => as_list(*self) == Err::<Seq<Json>, ParseError>(e),
            },
    {
        match self {
            Json::Array(v) => Ok(v),
            _ => Err(ParseError::WrongType),
        }
    }

    /// The object that this value is.
    pub fn as_object(&self) -> (r: Result<&StrMap<Json>, ParseError>)
        ensures
            match r {
                Ok(m) => as_fields(*self) == Ok::<StrMap<Json>, ParseError>(*m),
                Err(e) => as_fields(*self) == Err::<StrMap<Json>, ParseError>(e),
            },
    {
        match self {
            Json::Object(m) => Ok(m),
            _ => Err(ParseError::WrongType),
        }
    }
}

/// The field `key` of `obj`.
pub fn field<'a>(obj: &'a StrMap<Json>, key: &str) -> (r: Result<&'a Json, ParseError>)
    ensures
        match r {
            Ok(j) => need(*obj, key@) == Ok::<Json, ParseError>(*j),
            Err(e) => need(*obj, key@) == Err::<Json, ParseError>(e),
        },
{
    match obj.get(key) {
        Some(j) => Ok(j),
        None => Err(ParseError::MissingField),
    }
}

/// The string in the field `key` of `obj`.
pub fn text_field<'a>(obj: &'a StrMap<Json>, key: &str) -> (r: Result<&'a String, ParseError>)
    ensures
        match r {
            Ok(s) => need_text(*obj, key@) == Ok::<Seq<char>, ParseError>(s@),
            Err(e) => need_text(*obj, key@) == Err::<Seq<char>, ParseError>(e),
        },
{
    match field(obj, key) {
        Ok(j) => j.as_str(),
        Err(e) => Err(e),
    }
}

/// The integer in the field `key` of `obj`.
pub fn int_field(obj: &StrMap<Json>, key: &str) -> (r: Result<i64, ParseError>)
    ensures
        r == need_int(*obj, key@),
{
    match field(obj, key) {
        Ok(j) => j.as_i64(),
        Err(e) => Err(e),
    }
}

/// The array in the field `key` of `obj`.
pub fn list_field<'a>(obj: &'a StrMap<Json>, key: &str) -> (r: Result<&'a Vec<Json>, ParseError>)
    ensures
        match r {
            Ok(v) => need_list(*obj, key@) == Ok::<Seq<Json>, ParseError>(v@),
            Err(e) => need_list(*obj, key@) == Err::<Seq<Json>, ParseError>(e),
        },
{
    match field(obj, key) {
        Ok(j) => j.as_array(),
        Err(e) => Err(e),
    }
}

/// The object in the field `key` of `obj`.
pub fn object_field<'a>(obj: &'a StrMap<Json>, key: &str) -> (r: Result<
    &'a StrMap<Json>,
    ParseError,
>)
    ensures
        match r {
            Ok(m) => need_fields(*obj, key@) == Ok::<StrMap<Json>, ParseError>(*m),
            Err(e) => need_fields(*obj, key@) == Err::<StrMap<Json>, ParseError>(e),
        },
{
    match field(obj, key) {
        Ok(j) => j.as_object(),
        Err(e) => Err(e),
    }
}

} // verus!
