use vstd::prelude::*;

verus! {

/// A dynamic JSON value, as the matcher kit reads events.
///
/// Numbers that do not fit an `i64`, and floating-point numbers, carry no
/// payload here: the matchers only inspect strings, objects and arrays.
#[derive(Debug)]
pub enum JsonValue {
    Null,
    Bool(bool),
    Num(i64),
    Str(String),
    Arr(Vec<JsonValue>),
    Obj(Vec<(String, JsonValue)>),
    Other,
}

/// The value of the first field named `key`, if any.
pub open spec fn spec_obj_get(fields: Seq<(String, JsonValue)>, key: Seq<char>) -> Option<
    JsonValue,
>
    decreases fields.len(),
{
    if fields.len() == 0 {
        None
    } else if fields[0].0@ == key {
        Some(fields[0].1)
    } else {
        spec_obj_get(fields.drop_first(), key)
    }
}

/// The field `key` of `v`, when `v` is an object that has it.
pub open spec fn spec_get(v: JsonValue, key: Seq<char>) -> Option<JsonValue> {
    match v {
        JsonValue::Obj(fields) => spec_obj_get(fields@, key),
        _ => None,
    }
}

/// The characters of `v`, when `v` is a string.
pub open spec fn spec_as_str(v: Option<JsonValue>) -> Option<Seq<char>> {
    match v {
        Some(JsonValue::Str(s)) => Some(s@),
        _ => None,
    }
}

impl JsonValue {
    /// Look a field up on an object; `None` on every other kind of value.
    #[verifier::loop_isolation(false)]
    pub fn get<'a>(&'a self, key: &str) -> (r: Option<&'a JsonValue>)
        ensures
            match r {
                Some(v) => spec_get(*self, key@) == Some(*v),
                None => spec_get(*self, key@) is None,
            },
    {
        match self {
            JsonValue::Obj(fields) => {
                proof {
                    assert(fields@.subrange(0, fields@.len() as int) =~= fields@);
                }
                let mut i: usize = 0;
                while i < fields.len()
                    invariant
                        0 <= i <= fields@.len(),
                        spec_obj_get(fields@, key@) == spec_obj_get(
                            fields@.subrange(i as int, fields@.len() as int),
                            key@,
                        ),
                    decreases fields@.len() - i,
                {
                    proof {
                        let tail = fields@.subrange(i as int, fields@.len() as int);
                        assert(tail[0] == fields@[i as int]);
                        assert(tail.drop_first() =~= fields@.subrange(
                            i + 1,
                            fields@.len() as int,
                        ));
                    }
                    if crate::strutil::str_eq(fields[i].0.as_str(), key) {
                        proof {
                            let tail = fields@.subrange(i as int, fields@.len() as int);
                            assert(tail[0] == fields@[i as int]);
                            assert(spec_obj_get(tail, key@) == Some(fields@[i as int].1));
                        }
                        return Some(&fields[i].1);
                    }
                    i += 1;
                }
                proof {
                    assert(fields@.subrange(fields@.len() as int, fields@.len() as int).len()
                        == 0);
                }
                None
            },
            _ => None,
        }
    }

    /// The string slice held by a string value.
    pub fn as_str<'a>(&'a self) -> (r: Option<&'a String>)
        ensures
            match r {
                Some(s) => (*self) matches JsonValue::Str(t) && t == *s,
                None => !((*self) is Str),
            },
    {
        match self {
            JsonValue::Str(s) => Some(s),
            _ => None,
        }
    }
}

} // verus!
