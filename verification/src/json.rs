//! A plain model of JSON values, holding what the traffic pipeline reads:
//! scalars as machine values (numbers that fit no integer keep their text),
//! arrays, and objects as association lists in document order.

use vstd::prelude::*;

verus! {

#[derive(Debug)]
pub enum Json {
    Null,
    Bool(bool),
    Int(i64),
    UInt(u64),
    Num(String),
    Str(String),
    Array(Vec<Json>),
    Object(Vec<(String, Json)>),
}

/// The first binding of `k` in an object.
/// The unsigned value a JSON scalar denotes: an unsigned integer itself, a
/// non-negative signed one, or a string of decimal digits in range.
pub open spec fn spec_u64_like(v: Json) -> Option<u64> {
    match v {
        Json::UInt(n) => Some(n),
        Json::Int(i) => if i >= 0 {
            Some(i as u64)
        } else {
            None
        },
        Json::Str(s) => if s@.len() > 0 && crate::strings::all_digits(s@)
            && crate::strings::dec_value(s@) <= u64::MAX {
            Some(crate::strings::dec_value(s@) as u64)
        } else {
            None
        },
        _ => None,
    }
}

pub open spec fn obj_get(m: Seq<(String, Json)>, k: Seq<char>) -> Option<Json>
    decreases m.len(),
{
    if m.len() == 0 {
        None
    } else if m[0].0@ == k {
        Some(m[0].1)
    } else {
        obj_get(m.drop_first(), k)
    }
}

pub fn object_get<'a>(m: &'a Vec<(String, Json)>, k: &str) -> (r: Option<&'a Json>)
    ensures
        match r {
            Some(v) => obj_get(m@, k@) == Some(*v),
            None => obj_get(m@, k@) is None,
        },
{
    let mut i: usize = 0;
    proof {
        assert(m@.subrange(0, m@.len() as int) =~= m@);
    }
    while i < m.len()
        invariant
            i <= m@.len(),
            obj_get(m@, k@) == obj_get(m@.subrange(i as int, m@.len() as int), k@),
        decreases m@.len() - i,
    {
        proof {
            let cur = m@.subrange(i as int, m@.len() as int);
            assert(cur.drop_first() =~= m@.subrange(i + 1, m@.len() as int));
            assert(cur[0] == m@[i as int]);
        }
        if crate::strings::str_eq(m[i].0.as_str(), k) {
            return Some(&m[i].1);
        }
        i = i + 1;
    }
    None
}

/// Looks `snake` up, falling back to `camel`: the two spellings trace
/// records arrive in.
pub fn object_get2<'a>(m: &'a Vec<(String, Json)>, snake: &str, camel: &str) -> (r: Option<
    &'a Json,
>)
    ensures
        match r {
            Some(v) => obj_get(m@, snake@) == Some(*v) || (obj_get(m@, snake@) is None && obj_get(
                m@,
                camel@,
            ) == Some(*v)),
            None => obj_get(m@, snake@) is None && obj_get(m@, camel@) is None,
        },
{
    match object_get(m, snake) {
        Some(v) => Some(v),
        None => object_get(m, camel),
    }
}

impl Json {
    pub fn as_object(&self) -> (r: Option<&Vec<(String, Json)>>)
        ensures
            match r {
                Some(m) => *self == Json::Object(*m),
                None => !(*self matches Json::Object(_)),
            },
    {
        match self {
            Json::Object(m) => Some(m),
            _ => None,
        }
    }

    pub fn as_array(&self) -> (r: Option<&Vec<Json>>)
        ensures
            match r {
                Some(a) => *self == Json::Array(*a),
                None => !(*self matches Json::Array(_)),
            },
    {
        match self {
            Json::Array(a) => Some(a),
            _ => None,
        }
    }

    pub fn as_str(&self) -> (r: Option<&String>)
        ensures
            match r {
                Some(s) => *self == Json::Str(*s),
                None => !(*self matches Json::Str(_)),
            },
    {
        match self {
            Json::Str(s) => Some(s),
            _ => None,
        }
    }

    pub fn as_bool(&self) -> (r: Option<bool>)
        ensures
            match r {
                Some(b) => *self == Json::Bool(b),
                None => !(*self matches Json::Bool(_)),
            },
    {
        match self {
            Json::Bool(b) => Some(*b),
            _ => None,
        }
    }

    /// The value as a `u64`: a non-negative integer, or a digit string.
    pub fn as_u64_like(&self) -> (r: Option<u64>)
        ensures
            r == spec_u64_like(*self),
            r is Some ==> (*self matches Json::Int(_) || *self matches Json::UInt(_) || *self
                matches Json::Str(_)),
    {
        match self {
            Json::UInt(n) => Some(*n),
            Json::Int(i) => if *i >= 0 {
                Some(*i as u64)
            } else {
                None
            },
            Json::Str(s) => {
                let sv = crate::strings::str_chars(s.as_str());
                crate::strings::parse_u64_digits(&sv)
            },
            _ => None,
        }
    }

    /// The value as an `i64`, a digit string allowed.
    pub fn as_i64_like(&self) -> (r: Option<i64>)
    {
        match self {
            Json::Int(i) => Some(*i),
            Json::UInt(n) => if *n <= i64::MAX as u64 {
                Some(*n as i64)
            } else {
                None
            },
            Json::Str(s) => {
                let sv = crate::strings::str_chars(s.as_str());
                match crate::strings::parse_u64_digits(&sv) {
                    Some(n) => if n <= i64::MAX as u64 {
                        Some(n as i64)
                    } else {
                        None
                    },
                    None => None,
                }
            },
            _ => None,
        }
    }
}

} // verus!
