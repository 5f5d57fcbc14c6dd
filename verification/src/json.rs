//! A JSON document as plain values, with the lookups that the gateway's wire formats use.
use vstd::prelude::*;
use crate::text::{owned, str_eq};

verus! {

/// A JSON value. Numbers are kept as integers: `Int` holds every integer in the `i64`
/// range, `UInt` the integers above it, and `Float` stands for any other number (the
/// gateway never reads one).
#[derive(Debug)]
pub enum Json {
    Null,
    Bool(bool),
    Int(i64),
    UInt(u64),
    Float,
    Str(String),
    Array(Vec<Json>),
    Object(Vec<(String, Json)>),
}

/// The value of the first field named `k`.
pub open spec fn field_in(fields: Seq<(String, Json)>, k: Seq<char>) -> Option<Json>
    decreases fields.len(),
{
    if fields.len() == 0 {
        None
    } else if fields[0].0@ == k {
        Some(fields[0].1)
    } else {
        field_in(fields.skip(1), k)
    }
}

impl Json {
    /// `value.get(k)`: the member `k` of an object.
    pub open spec fn get_spec(self, k: Seq<char>) -> Option<Json> {
        match self {
            Json::Object(fields) => field_in(fields@, k),
            _ => None,
        }
    }

    /// `value[k]`: the member `k` of an object, `Null` when there is none.
    pub open spec fn at(self, k: Seq<char>) -> Json {
        match self.get_spec(k) {
            Some(v) => v,
            None => Json::Null,
        }
    }

    pub open spec fn i64_of(self) -> Option<i64> {
        match self {
            Json::Int(n) => Some(n),
            _ => None,
        }
    }

    pub open spec fn u64_of(self) -> Option<u64> {
        match self {
            Json::Int(n) => if n >= 0 {
                Some(n as u64)
            } else {
                None
            },
            Json::UInt(n) => Some(n),
            _ => None,
        }
    }

    pub open spec fn str_of(self) -> Option<Seq<char>> {
        match self {
            Json::Str(s) => Some(s@),
            _ => None,
        }
    }

    pub open spec fn bool_of(self) -> Option<bool> {
        match self {
            Json::Bool(b) => Some(b),
            _ => None,
        }
    }

    pub open spec fn is_true(self) -> bool {
        self == Json::Bool(true)
    }

    pub fn get(&self, k: &str) -> (r: Option<&Json>)
        ensures
            match r {
                Some(v) => self.get_spec(k@) == Some(*v),
                None => self.get_spec(k@) is None,
            },
    {
        match self {
            Json::Object(fields) => {
                let n = fields.len();
                assert(fields@.skip(0) == fields@);
                for i in 0..n
                    invariant
                        n == fields@.len(),
                        self.get_spec(k@) == field_in(fields@, k@),
                        field_in(fields@, k@) == field_in(fields@.skip(i as int), k@),
                {
                    let ghost rest = fields@.skip(i as int);
                    assert(rest.skip(1) == fields@.skip(i + 1));
                    assert(rest[0] == fields@[i as int]);
                    if str_eq(fields[i].0.as_str(), k) {
                        return Some(&fields[i].1);
                    }
                }
                assert(fields@.skip(n as int).len() == 0);
                None
            },
            _ => None,
        }
    }

    pub fn as_i64(&self) -> (r: Option<i64>)
        ensures
            r == self.i64_of(),
    {
        match self {
            Json::Int(n) => Some(*n),
            _ => None,
        }
    }

    pub fn as_u64(&self) -> (r: Option<u64>)
        ensures
            r == self.u64_of(),
    {
        match self {
            Json::Int(n) => if *n >= 0 {
                Some(*n as u64)
            } else {
                None
            },
            Json::UInt(n) => Some(*n),
            _ => None,
        }
    }

    pub fn as_str(&self) -> (r: Option<&str>)
        ensures
            match r {
                Some(s) => self.str_of() == Some(s@),
                None => self.str_of() is None,
            },
    {
        match self {
            Json::Str(s) => Some(s.as_str()),
            _ => None,
        }
    }

    pub fn as_bool(&self) -> (r: Option<bool>)
        ensures
            r == self.bool_of(),
    {
        match self {
            Json::Bool(b) => Some(*b),
            _ => None,
        }
    }

    pub fn is_null(&self) -> (r: bool)
        ensures
            r == (*self is Null),
    {
        match self {
            Json::Null => true,
            _ => false,
        }
    }

    pub fn true_value(&self) -> (r: bool)
        ensures
            r == self.is_true(),
    {
        match self {
            Json::Bool(b) => *b,
            _ => false,
        }
    }

    /// `value[k].as_i64()`.
    pub fn i64_at(&self, k: &str) -> (r: Option<i64>)
        ensures
            r == self.at(k@).i64_of(),
    {
        match self.get(k) {
            Some(v) => v.as_i64(),
            None => None,
        }
    }

    /// `value[k].as_str()`, copied.
    pub fn str_at(&self, k: &str) -> (r: Option<String>)
        ensures
            match r {
                Some(s) => self.at(k@).str_of() == Some(s@),
                None => self.at(k@).str_of() is None,
            },
    {
        match self.get(k) {
            Some(v) => match v.as_str() {
                Some(s) => Some(owned(s)),
                None => None,
            },
            None => None,
        }
    }

    /// `value[k].as_bool()`.
    pub fn bool_at(&self, k: &str) -> (r: Option<bool>)
        ensures
            r == self.at(k@).bool_of(),
    {
        match self.get(k) {
            Some(v) => v.as_bool(),
            None => None,
        }
    }

    /// `value.get(k).is_some()`.
    pub fn has(&self, k: &str) -> (r: bool)
        ensures
            r == self.get_spec(k@) is Some,
    {
        self.get(k).is_some()
    }

    /// `value[k]`, taken out of the value.
    pub fn take(self, k: &str) -> (r: Json)
        ensures
            r == self.at(k@),
    {
        let ghost whole = self;
        match self {
            Json::Object(mut fields) => {
                let n = fields.len();
                let ghost f0 = fields@;
                assert(f0.skip(0) == f0);
                let mut i: usize = 0;
                while i < n
                    invariant
                        whole == self,
                        fields@ == f0,
                        n == f0.len(),
                        i <= n,
                        whole.get_spec(k@) == field_in(f0, k@),
                        field_in(f0, k@) == field_in(f0.skip(i as int), k@),
                    decreases n - i,
                {
                    let ghost rest = f0.skip(i as int);
                    assert(rest.skip(1) == f0.skip(i + 1));
                    assert(rest[0] == f0[i as int]);
                    if str_eq(fields[i].0.as_str(), k) {
                        assert(field_in(rest, k@) == Some(rest[0].1));
                        let (_, v) = fields.remove(i);
                        assert(v == f0[i as int].1);
                        return v;
                    }
                    i = i + 1;
                }
                assert(f0.skip(n as int).len() == 0);
                Json::Null
            },
            _ => Json::Null,
        }
    }

    /// `value[k]`, or `Null` when absent.
    pub fn member(&self, k: &str) -> (r: &Json)
        ensures
            *r == self.at(k@),
    {
        match self.get(k) {
            Some(v) => v,
            None => &Json::Null,
        }
    }
}

/// `json!(s)` for a string.
pub fn text_value(s: &str) -> (v: Json)
    ensures
        v.str_of() == Some(s@),
{
    Json::Str(owned(s))
}

} // verus!

verus! {

/// One member of an object.
pub fn member_of(k: &str, v: Json) -> (m: (String, Json))
    ensures
        m.0@ == k@,
        m.1 == v,
{
    (owned(k), v)
}

/// `json!(n)` for an integer.
pub fn int_value(n: i64) -> (v: Json)
    ensures
        v == Json::Int(n),
{
    Json::Int(n)
}

/// Lookups in an object of up to four members.
pub proof fn lemma_members(fields: Seq<(String, Json)>, k: Seq<char>)
    requires
        fields.len() <= 4,
    ensures
        field_in(fields, k) == if fields.len() > 0 && fields[0].0@ == k {
            Some(fields[0].1)
        } else if fields.len() > 1 && fields[1].0@ == k {
            Some(fields[1].1)
        } else if fields.len() > 2 && fields[2].0@ == k {
            Some(fields[2].1)
        } else if fields.len() > 3 && fields[3].0@ == k {
            Some(fields[3].1)
        } else {
            None
        },
{
    reveal_with_fuel(field_in, 5);
    if fields.len() > 0 {
        let s1 = fields.skip(1);
        if s1.len() > 0 {
            assert(s1[0] == fields[1]);
            let s2 = s1.skip(1);
            if s2.len() > 0 {
                assert(s2[0] == fields[2]);
                let s3 = s2.skip(1);
                if s3.len() > 0 {
                    assert(s3[0] == fields[3]);
                    assert(s3.skip(1).len() == 0);
                }
            }
        }
    }
}

/// A member that lookup finds is one of the object's members, with that key.
pub proof fn lemma_field_in_index(fields: Seq<(String, Json)>, k: Seq<char>)
    requires
        field_in(fields, k) is Some,
    ensures
        exists|i: int| 0 <= i < fields.len() && fields[i].0@ == k && field_in(fields, k) == Some(fields[i].1),
    decreases fields.len(),
{
    if fields[0].0@ == k {
        assert(fields[0].0@ == k && field_in(fields, k) == Some(fields[0].1));
    } else {
        lemma_field_in_index(fields.skip(1), k);
        let j = choose|j: int| 0 <= j < fields.skip(1).len() && fields.skip(1)[j].0@ == k && field_in(fields.skip(1), k)
            == Some(fields.skip(1)[j].1);
        assert(fields[j + 1] == fields.skip(1)[j]);
    }
}

/// Lookup finds a member whenever the object has one with that key.
pub proof fn lemma_field_in_present(fields: Seq<(String, Json)>, k: Seq<char>, i: int)
    requires
        0 <= i < fields.len(),
        fields[i].0@ == k,
    ensures
        field_in(fields, k) is Some,
    decreases fields.len(),
{
    if fields[0].0@ != k {
        assert(fields.skip(1)[i - 1] == fields[i]);
        lemma_field_in_present(fields.skip(1), k, i - 1);
    }
}

/// Lookup in joined member lists looks in the first list, then in the second.
pub proof fn lemma_field_in_append(a: Seq<(String, Json)>, b: Seq<(String, Json)>, k: Seq<char>)
    ensures
        field_in(a + b, k) == match field_in(a, k) {
            Some(v) => Some(v),
            None => field_in(b, k),
        },
    decreases a.len(),
{
    if a.len() > 0 {
        assert((a + b).skip(1) == a.skip(1) + b);
        assert((a + b)[0] == a[0]);
        lemma_field_in_append(a.skip(1), b, k);
    } else {
        assert(a + b == b);
    }
}

/// Lookup finds nothing when no member has the key.
pub proof fn lemma_field_in_absent(a: Seq<(String, Json)>, k: Seq<char>)
    requires
        forall|i: int| 0 <= i < a.len() ==> (#[trigger] a[i]).0@ != k,
    ensures
        field_in(a, k) is None,
    decreases a.len(),
{
    if a.len() > 0 {
        assert forall|i: int| 0 <= i < a.skip(1).len() implies (#[trigger] a.skip(1)[i]).0@ != k by {
            assert(a.skip(1)[i] == a[i + 1]);
        }
        lemma_field_in_absent(a.skip(1), k);
    }
}

} // verus!
