use vstd::prelude::*;

verus! {

/// Mathematical model of a data value: the JSON-shaped tagged union
/// that templates are rendered against, with every text as a sequence
/// of characters.
pub enum Val {
    Null,
    Bool(bool),
    Number(Seq<char>),
    Str(Seq<char>),
    Array(Seq<Val>),
    Object(Seq<(Seq<char>, Val)>),
}

/// A data value: the JSON-shaped tagged union that templates are
/// rendered against. A number carries its decimal text exactly as it
/// would appear in a JSON document (for example `123`, `-0.5`, `1e3`);
/// rendering emits that text verbatim, and truthiness reads it.
#[derive(Debug, PartialEq)]
pub enum Value {
    Null,
    Bool(bool),
    Number(String),
    Str(String),
    Array(Vec<Value>),
    Object(Vec<(String, Value)>),
}

/// The model of a value: every `String` replaced by its character
/// sequence, recursively.
pub open spec fn val_of(v: Value) -> Val
    decreases v,
    via val_of_dec
{
    match v {
        Value::Null => Val::Null,
        Value::Bool(b) => Val::Bool(b),
        Value::Number(s) => Val::Number(s@),
        Value::Str(s) => Val::Str(s@),
        Value::Array(items) => Val::Array(
            Seq::new(
                items@.len(),
                |i: int|
                    if 0 <= i < items@.len() {
                        val_of(items@[i])
                    } else {
                        Val::Null
                    },
            ),
        ),
        Value::Object(pairs) => Val::Object(
            Seq::new(
                pairs@.len(),
                |i: int|
                    if 0 <= i < pairs@.len() {
                        (pairs@[i].0@, val_of(pairs@[i].1))
                    } else {
                        (Seq::empty(), Val::Null)
                    },
            ),
        ),
    }
}

#[via_fn]
proof fn val_of_dec(v: Value) {
    broadcast use vstd::std_specs::vec::axiom_vec_index_decreases;

    match v {
        Value::Array(items) => {
            assert forall|i: int| 0 <= i < items@.len() implies decreases_to!(v => items@[i]) by {
                assert(decreases_to!(v => items));
                assert(decreases_to!(items => items@[i]));
            }
        },
        Value::Object(pairs) => {
            assert forall|i: int| 0 <= i < pairs@.len() implies decreases_to!(
                v => pairs@[i].1,
            ) by {
                assert(decreases_to!(v => pairs));
                assert(decreases_to!(pairs => pairs@[i]));
                assert(decreases_to!(pairs@[i] => pairs@[i].1));
            }
        },
        _ => {
        },
    }
}

impl View for Value {
    type V = Val;

    open spec fn view(&self) -> Val {
        val_of(*self)
    }
}

impl Value {
    /// An exact copy of this value: the copy's model equals the
    /// original's.
    #[verifier::loop_isolation(false)]
    pub fn duplicate(&self) -> (r: Value)
        ensures
            r@ == self@,
        decreases *self,
    {
        match self {
            Value::Null => Value::Null,
            Value::Bool(b) => Value::Bool(*b),
            Value::Number(s) => Value::Number(s.clone()),
            Value::Str(s) => Value::Str(s.clone()),
            Value::Array(items) => {
                let mut out: Vec<Value> = Vec::new();
                let mut j: usize = 0;
                while j < items.len()
                    invariant
                        j == out@.len(),
                        j <= items@.len(),
                        forall|k: int| 0 <= k < j ==> out@[k]@ == items@[k]@,
                    decreases items@.len() - j,
                {
                    proof {
                        broadcast use vstd::std_specs::vec::axiom_vec_index_decreases;

                        assert(decreases_to!(*self => *items));
                        assert(decreases_to!(*items => items@[j as int]));
                    }
                    let e = items[j].duplicate();
                    out.push(e);
                    j = j + 1;
                }
                proof {
                    assert(val_of(Value::Array(out)) is Array);
                    assert(val_of(Value::Array(out))->Array_0 =~= val_of(*self)->Array_0);
                }
                Value::Array(out)
            },
            Value::Object(pairs) => {
                let mut out: Vec<(String, Value)> = Vec::new();
                let mut j: usize = 0;
                while j < pairs.len()
                    invariant
                        j == out@.len(),
                        j <= pairs@.len(),
                        forall|k: int|
                            0 <= k < j ==> out@[k].0@ == pairs@[k].0@ && out@[k].1@ == pairs@[k].1@,
                    decreases pairs@.len() - j,
                {
                    proof {
                        broadcast use vstd::std_specs::vec::axiom_vec_index_decreases;

                        assert(decreases_to!(*self => *pairs));
                        assert(decreases_to!(*pairs => pairs@[j as int]));
                        assert(decreases_to!(pairs@[j as int] => pairs@[j as int].1));
                    }
                    let k = pairs[j].0.clone();
                    let e = pairs[j].1.duplicate();
                    out.push((k, e));
                    j = j + 1;
                }
                proof {
                    assert(val_of(Value::Object(out)) is Object);
                    assert(val_of(Value::Object(out))->Object_0 =~= val_of(*self)->Object_0);
                }
                Value::Object(out)
            },
        }
    }
}

/// A decimal digit other than zero.
pub open spec fn spec_nonzero_digit(c: char) -> bool {
    c == '1' || c == '2' || c == '3' || c == '4' || c == '5' || c == '6' || c == '7' || c == '8'
        || c == '9'
}

/// Whether a number's decimal text denotes zero: no digit other than
/// zero may appear before the exponent marker. This makes `0`, `-0`,
/// `0.00` and `0e10` zero, while `10e-2` is not.
pub open spec fn spec_num_is_zero(s: Seq<char>) -> bool
    decreases s.len(),
{
    if s.len() == 0 {
        true
    } else if s[0] == 'e' || s[0] == 'E' {
        true
    } else if spec_nonzero_digit(s[0]) {
        false
    } else {
        spec_num_is_zero(s.skip(1))
    }
}

/// Truthiness of a value, as sections and inverted sections read it:
/// null and false are false; a number is true unless it denotes zero;
/// a string, array or object is true unless empty.
pub open spec fn spec_truthy(v: Val) -> bool {
    match v {
        Val::Null => false,
        Val::Bool(b) => b,
        Val::Number(s) => !spec_num_is_zero(s),
        Val::Str(s) => s.len() > 0,
        Val::Array(items) => items.len() > 0,
        Val::Object(pairs) => pairs.len() > 0,
    }
}

fn nonzero_digit(c: char) -> (r: bool)
    ensures
        r == spec_nonzero_digit(c),
{
    c == '1' || c == '2' || c == '3' || c == '4' || c == '5' || c == '6' || c == '7' || c == '8'
        || c == '9'
}

/// Whether a number's decimal text denotes zero.
fn num_is_zero(s: &str) -> (r: bool)
    ensures
        r == spec_num_is_zero(s@),
{
    let len = s.unicode_len();
    let mut i: usize = 0;
    assert(s@.skip(0) =~= s@);
    loop
        invariant
            i <= len,
            len == s@.len(),
            spec_num_is_zero(s@) == spec_num_is_zero(s@.skip(i as int)),
        decreases len - i,
    {
        if i == len {
            assert(s@.skip(i as int).len() == 0);
            return true;
        }
        let c = s.get_char(i);
        assert(s@.skip(i as int)[0] == s@[i as int]);
        if c == 'e' || c == 'E' {
            return true;
        }
        if nonzero_digit(c) {
            return false;
        }
        assert(s@.skip(i as int).skip(1) =~= s@.skip(i + 1));
        i = i + 1;
    }
}

/// Truthiness of a value, as sections and inverted sections read it.
pub fn is_truthy(value: &Value) -> (r: bool)
    ensures
        r == spec_truthy(value@),
{
    match value {
        Value::Null => false,
        Value::Bool(b) => *b,
        Value::Number(s) => !num_is_zero(s.as_str()),
        Value::Str(s) => s.as_str().unicode_len() != 0,
        Value::Array(items) => items.len() != 0,
        Value::Object(pairs) => pairs.len() != 0,
    }
}

} // verus!
