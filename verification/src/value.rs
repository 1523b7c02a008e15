//! The generic decoded payload value and field access over it.

use vstd::prelude::*;

verus! {

/// A decoded payload: a nested tagged union of null, boolean, number,
/// string, sequence and string-keyed mapping.
///
/// A number carries the integer it denotes, when it denotes one that fits
/// an `i64`, together with the text it was read from; coercion to a string
/// uses the text, so non-integral numbers still stringify faithfully.
pub enum Value {
    Null,
    Bool(bool),
    Num { int_val: Option<i64>, text: String },
    Str(String),
    Arr(Vec<Value>),
    Obj(Vec<(String, Value)>),
}

/// The value under `key` in an association list: the first pair whose key
/// matches, or `None`.
pub open spec fn assoc_get(entries: Seq<(String, Value)>, key: Seq<char>) -> Option<Value>
    decreases entries.len(),
{
    if entries.len() == 0 {
        None
    } else if entries[0].0@ == key {
        Some(entries[0].1)
    } else {
        assoc_get(entries.drop_first(), key)
    }
}

/// The value under `key` in a mapping; `None` on any other kind of value.
pub open spec fn field(v: Value, key: Seq<char>) -> Option<Value> {
    match v {
        Value::Obj(entries) => assoc_get(entries@, key),
        _ => None,
    }
}

/// Chains `field` through an optional value, so that a missing step of a
/// path yields `None` for the whole path.
pub open spec fn field_opt(o: Option<Value>, key: Seq<char>) -> Option<Value> {
    match o {
        Some(v) => field(v, key),
        None => None,
    }
}

/// The value an `Option<&Value>` refers to, as an `Option<Value>`.
pub open spec fn opt_val(o: Option<&Value>) -> Option<Value> {
    match o {
        Some(v) => Some(*v),
        None => None,
    }
}

/// The permissive textual coercion of an optional value: a string is taken
/// as it is, a number by its text, a boolean is spelled out, and anything
/// absent or structured becomes the empty string.
pub open spec fn coerce_text(o: Option<Value>) -> Seq<char> {
    match o {
        Some(Value::Str(s)) => s@,
        Some(Value::Num { int_val, text }) => text@,
        Some(Value::Bool(b)) => if b {
            "true"@
        } else {
            "false"@
        },
        _ => Seq::<char>::empty(),
    }
}

proof fn lemma_assoc_step(s: Seq<(String, Value)>, key: Seq<char>, i: int)
    requires
        0 <= i < s.len(),
        s[i].0@ != key,
        assoc_get(s, key) == assoc_get(s.skip(i), key),
    ensures
        assoc_get(s, key) == assoc_get(s.skip(i + 1), key),
{
    assert(s.skip(i)[0] == s[i]);
    assert(s.skip(i).drop_first() =~= s.skip(i + 1));
}

/// Looks `key` up in `v`, when `v` is a mapping: the first entry with that
/// key, as `field` describes.
#[verifier::loop_isolation(false)]
pub fn obj_lookup<'a>(v: &'a Value, key: &String) -> (r: Option<&'a Value>)
    ensures
        (r is Some) == (field(*v, key@) is Some),
        r matches Some(x) ==> field(*v, key@) == Some(*x),
{
    match v {
        Value::Obj(entries) => {
            let n: usize = entries.len();
            let mut i: usize = 0;
            proof {
                assert(entries@.skip(0) =~= entries@);
            }
            while i < n
                invariant
                    n == entries@.len(),
                    0 <= i <= n,
                    assoc_get(entries@, key@) == assoc_get(entries@.skip(i as int), key@),
                decreases n - i,
            {
                if entries[i].0 == *key {
                    proof {
                        assert(entries@.skip(i as int)[0] == entries@[i as int]);
                        assert(assoc_get(entries@.skip(i as int), key@)
                            == Some(entries@[i as int].1));
                        assert(field(*v, key@) == Some(entries@[i as int].1));
                    }
                    return Some(&entries[i].1);
                }
                proof {
                    lemma_assoc_step(entries@, key@, i as int);
                }
                i += 1;
            }
            proof {
                assert(entries@.skip(n as int) =~= Seq::<(String, Value)>::empty());
            }
            None
        },
        _ => None,
    }
}

/// Looks `key` up one step further down an already optional value, as
/// `field_opt` describes.
pub fn lookup_in<'a>(o: Option<&'a Value>, key: &String) -> (r: Option<&'a Value>)
    ensures
        (r is Some) == (field_opt(opt_val(o), key@) is Some),
        r matches Some(x) ==> field_opt(opt_val(o), key@) == Some(*x),
{
    match o {
        Some(v) => obj_lookup(v, key),
        None => None,
    }
}

/// Coerces an optional value to its textual representation, as
/// `coerce_text` describes.
pub fn coerce_string(o: Option<&Value>) -> (r: String)
    ensures
        r@ == coerce_text(opt_val(o)),
{
    match o {
        Some(v) => match v {
            Value::Str(s) => s.clone(),
            Value::Num { int_val: _, text } => text.clone(),
            Value::Bool(b) => if *b {
                String::from_str("true")
            } else {
                String::from_str("false")
            },
            _ => String::new(),
        },
        None => String::new(),
    }
}

} // verus!
