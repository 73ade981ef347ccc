use crate::value::{val_of, Val, Value};
use vstd::prelude::*;

verus! {

/// What one character becomes under HTML escaping: the five
/// characters special to HTML turn into entities, every other
/// character passes through.
pub open spec fn spec_escape_char(c: char) -> Seq<char> {
    if c == '&' {
        seq!['&', 'a', 'm', 'p', ';']
    } else if c == '<' {
        seq!['&', 'l', 't', ';']
    } else if c == '>' {
        seq!['&', 'g', 't', ';']
    } else if c == '"' {
        seq!['&', 'q', 'u', 'o', 't', ';']
    } else if c == '\'' {
        seq!['&', '#', 'x', '2', '7', ';']
    } else {
        seq![c]
    }
}

/// A text with `&`, `<`, `>`, `"` and `'` replaced by their HTML
/// entities.
pub open spec fn spec_escape(s: Seq<char>) -> Seq<char>
    decreases s.len(),
{
    if s.len() == 0 {
        Seq::empty()
    } else {
        spec_escape_char(s[0]) + spec_escape(s.skip(1))
    }
}

/// Appends the HTML-escaped text to `out`.
#[verifier::loop_isolation(false)]
pub fn escape_into(s: &str, out: &mut String)
    ensures
        final(out)@ == old(out)@ + spec_escape(s@),
{
    let len = s.unicode_len();
    let mut i: usize = 0;
    proof {
        assert(s@.skip(0) =~= s@);
    }
    while i < len
        invariant
            i <= len,
            out@ + spec_escape(s@.skip(i as int)) == old(out)@ + spec_escape(s@),
        decreases len - i,
    {
        let c = s.get_char(i);
        proof {
            assert(s@.skip(i as int)[0] == c);
            assert(s@.skip(i as int).skip(1) =~= s@.skip(i + 1));
        }
        if c == '&' {
            out.append("&amp;");
            proof {
                reveal_strlit("&amp;");
                assert("&amp;"@ =~= spec_escape_char(c));
            }
        } else if c == '<' {
            out.append("&lt;");
            proof {
                reveal_strlit("&lt;");
                assert("&lt;"@ =~= spec_escape_char(c));
            }
        } else if c == '>' {
            out.append("&gt;");
            proof {
                reveal_strlit("&gt;");
                assert("&gt;"@ =~= spec_escape_char(c));
            }
        } else if c == '"' {
            out.append("&quot;");
            proof {
                reveal_strlit("&quot;");
                assert("&quot;"@ =~= spec_escape_char(c));
            }
        } else if c == '\'' {
            out.append("&#x27;");
            proof {
                reveal_strlit("&#x27;");
                assert("&#x27;"@ =~= spec_escape_char(c));
            }
        } else {
            let piece = s.substring_char(i, i + 1);
            out.append(piece);
            proof {
                assert(piece@ =~= spec_escape_char(c));
            }
        }
        proof {
            assert(out@ + spec_escape(s@.skip(i + 1)) =~= old(out)@ + spec_escape(s@));
        }
        i = i + 1;
    }
    proof {
        assert(s@.skip(len as int) =~= Seq::<char>::empty());
        assert(out@ =~= out@ + spec_escape(s@.skip(len as int)));
    }
}

/// The lowercase hexadecimal digit for a value below sixteen.
pub open spec fn spec_hex_digit(n: int) -> char {
    if n == 0 {
        '0'
    } else if n == 1 {
        '1'
    } else if n == 2 {
        '2'
    } else if n == 3 {
        '3'
    } else if n == 4 {
        '4'
    } else if n == 5 {
        '5'
    } else if n == 6 {
        '6'
    } else if n == 7 {
        '7'
    } else if n == 8 {
        '8'
    } else if n == 9 {
        '9'
    } else if n == 10 {
        'a'
    } else if n == 11 {
        'b'
    } else if n == 12 {
        'c'
    } else if n == 13 {
        'd'
    } else if n == 14 {
        'e'
    } else {
        'f'
    }
}

/// What one character becomes inside a JSON string literal: quote and
/// backslash take a backslash, the named control characters take
/// their short escapes, other control characters take `\u00` and two
/// hex digits, and everything else passes through.
pub open spec fn spec_json_escape_char(c: char) -> Seq<char> {
    if c == '"' {
        seq!['\\', '"']
    } else if c == '\\' {
        seq!['\\', '\\']
    } else if c == '\u{8}' {
        seq!['\\', 'b']
    } else if c == '\t' {
        seq!['\\', 't']
    } else if c == '\n' {
        seq!['\\', 'n']
    } else if c == '\u{c}' {
        seq!['\\', 'f']
    } else if c == '\r' {
        seq!['\\', 'r']
    } else if (c as u32) < 0x20 {
        seq!['\\', 'u', '0', '0', spec_hex_digit((c as u32 / 16) as int), spec_hex_digit(
            (c as u32 % 16) as int,
        )]
    } else {
        seq![c]
    }
}

/// A text escaped for the inside of a JSON string literal.
pub open spec fn spec_json_escape(s: Seq<char>) -> Seq<char>
    decreases s.len(),
{
    if s.len() == 0 {
        Seq::empty()
    } else {
        spec_json_escape_char(s[0]) + spec_json_escape(s.skip(1))
    }
}

/// A JSON string literal: quotes around the escaped text.
pub open spec fn spec_json_str(s: Seq<char>) -> Seq<char> {
    seq!['"'] + spec_json_escape(s) + seq!['"']
}

/// A value serialized as JSON text: `null`, `true` or `false`, a
/// number's own text, a quoted string, and arrays and objects with
/// their elements serialized in order, comma-separated.
pub open spec fn spec_json_of(v: Val) -> Seq<char>
    decreases v, 0int, 0int,
{
    match v {
        Val::Null => seq!['n', 'u', 'l', 'l'],
        Val::Bool(b) => if b {
            seq!['t', 'r', 'u', 'e']
        } else {
            seq!['f', 'a', 'l', 's', 'e']
        },
        Val::Number(t) => t,
        Val::Str(s) => spec_json_str(s),
        Val::Array(items) => seq!['['] + spec_json_items(items, 0) + seq![']'],
        Val::Object(pairs) => seq!['{'] + spec_json_pairs(pairs, 0) + seq!['}'],
    }
}

/// The elements of an array from index `k` on, serialized and
/// comma-separated, with a leading comma for every element after the
/// first.
pub open spec fn spec_json_items(items: Seq<Val>, k: int) -> Seq<char>
    decreases items, 1int, items.len() - k,
{
    if !(0 <= k < items.len()) {
        Seq::empty()
    } else {
        (if k > 0 {
            seq![',']
        } else {
            Seq::empty()
        }) + spec_json_of(items[k]) + spec_json_items(items, k + 1)
    }
}

/// The fields of an object from index `k` on, serialized as
/// `"key":value` and comma-separated.
pub open spec fn spec_json_pairs(pairs: Seq<(Seq<char>, Val)>, k: int) -> Seq<char>
    decreases pairs, 1int, pairs.len() - k,
{
    if !(0 <= k < pairs.len()) {
        Seq::empty()
    } else {
        (if k > 0 {
            seq![',']
        } else {
            Seq::empty()
        }) + spec_json_str(pairs[k].0) + seq![':'] + spec_json_of(pairs[k].1) + spec_json_pairs(
            pairs,
            k + 1,
        )
    }
}

/// A resolved value written as template output: null becomes
/// nothing, a string its raw text, and every other value its JSON
/// serialization.
pub open spec fn spec_value_text(v: Val) -> Seq<char> {
    match v {
        Val::Null => Seq::empty(),
        Val::Str(s) => s,
        _ => spec_json_of(v),
    }
}

/// Appends the text escaped for a JSON string literal to `out`.
#[verifier::loop_isolation(false)]
fn json_escape_into(s: &str, out: &mut String)
    ensures
        final(out)@ == old(out)@ + spec_json_escape(s@),
{
    let len = s.unicode_len();
    let mut i: usize = 0;
    proof {
        assert(s@.skip(0) =~= s@);
    }
    while i < len
        invariant
            i <= len,
            out@ + spec_json_escape(s@.skip(i as int)) == old(out)@ + spec_json_escape(s@),
        decreases len - i,
    {
        let c = s.get_char(i);
        proof {
            assert(s@.skip(i as int)[0] == c);
            assert(s@.skip(i as int).skip(1) =~= s@.skip(i + 1));
        }
        if c == '"' {
            out.append("\\\"");
            proof {
                reveal_strlit("\\\"");
                assert("\\\""@ =~= spec_json_escape_char(c));
            }
        } else if c == '\\' {
            out.append("\\\\");
            proof {
                reveal_strlit("\\\\");
                assert("\\\\"@ =~= spec_json_escape_char(c));
            }
        } else if c == '\u{8}' {
            out.append("\\b");
            proof {
                reveal_strlit("\\b");
                assert("\\b"@ =~= spec_json_escape_char(c));
            }
        } else if c == '\t' {
            out.append("\\t");
            proof {
                reveal_strlit("\\t");
                assert("\\t"@ =~= spec_json_escape_char(c));
            }
        } else if c == '\n' {
            out.append("\\n");
            proof {
                reveal_strlit("\\n");
                assert("\\n"@ =~= spec_json_escape_char(c));
            }
        } else if c == '\u{c}' {
            out.append("\\f");
            proof {
                reveal_strlit("\\f");
                assert("\\f"@ =~= spec_json_escape_char(c));
            }
        } else if c == '\r' {
            out.append("\\r");
            proof {
                reveal_strlit("\\r");
                assert("\\r"@ =~= spec_json_escape_char(c));
            }
        } else if (c as u32) < 0x20 {
            out.append("\\u00");
            let u = c as u32;
            let digits = "0123456789abcdef";
            proof {
                reveal_strlit("0123456789abcdef");
            }
            let d1 = (u / 16) as usize;
            let d2 = (u % 16) as usize;
            let piece1 = digits.substring_char(d1, d1 + 1);
            let piece2 = digits.substring_char(d2, d2 + 1);
            out.append(piece1);
            out.append(piece2);
            proof {
                reveal_strlit("\\u00");
                assert(digits@[d1 as int] == spec_hex_digit(d1 as int));
                assert(digits@[d2 as int] == spec_hex_digit(d2 as int));
                assert(piece1@ =~= seq![spec_hex_digit(d1 as int)]);
                assert(piece2@ =~= seq![spec_hex_digit(d2 as int)]);
                assert("\\u00"@ + piece1@ + piece2@ =~= spec_json_escape_char(c));
            }
        } else {
            let piece = s.substring_char(i, i + 1);
            out.append(piece);
            proof {
                assert(piece@ =~= spec_json_escape_char(c));
            }
        }
        proof {
            assert(out@ + spec_json_escape(s@.skip(i + 1)) =~= old(out)@ + spec_json_escape(s@));
        }
        i = i + 1;
    }
    proof {
        assert(s@.skip(len as int) =~= Seq::<char>::empty());
        assert(out@ =~= out@ + spec_json_escape(s@.skip(len as int)));
    }
}

/// Appends a value's JSON serialization to `out`.
#[verifier::loop_isolation(false)]
pub fn write_json(value: &Value, out: &mut String)
    ensures
        final(out)@ == old(out)@ + spec_json_of(value@),
    decreases *value, 0int, 0int,
{
    match value {
        Value::Null => {
            out.append("null");
            proof {
                reveal_strlit("null");
                assert("null"@ =~= spec_json_of(value@));
            }
        },
        Value::Bool(b) => {
            if *b {
                out.append("true");
                proof {
                    reveal_strlit("true");
                    assert("true"@ =~= spec_json_of(value@));
                }
            } else {
                out.append("false");
                proof {
                    reveal_strlit("false");
                    assert("false"@ =~= spec_json_of(value@));
                }
            }
        },
        Value::Number(t) => {
            out.append(t.as_str());
        },
        Value::Str(s) => {
            out.append("\"");
            json_escape_into(s.as_str(), out);
            out.append("\"");
            proof {
                reveal_strlit("\"");
                assert("\""@ =~= seq!['"']);
                assert(out@ =~= old(out)@ + spec_json_of(value@));
            }
        },
        Value::Array(items) => {
            out.append("[");
            proof {
                reveal_strlit("[");
                assert("["@ =~= seq!['[']);
            }
            let ghost iv = value@->Array_0;
            let mut k: usize = 0;
            while k < items.len()
                invariant
                    k <= items@.len(),
                    iv == val_of(*value)->Array_0,
                    value is Array ==> value->Array_0 == items,
                    iv.len() == items@.len(),
                    forall|m: int| 0 <= m < items@.len() ==> iv[m] == val_of(items@[m]),
                    out@ + spec_json_items(iv, k as int) == old(out)@ + seq!['[']
                        + spec_json_items(iv, 0),
                decreases items@.len() - k,
            {
                if k > 0 {
                    out.append(",");
                    proof {
                        reveal_strlit(",");
                        assert(","@ =~= seq![',']);
                    }
                }
                proof {
                    broadcast use vstd::std_specs::vec::axiom_vec_index_decreases;

                    assert(decreases_to!(*value => *items));
                    assert(decreases_to!(*items => items@[k as int]));
                }
                write_json(&items[k], out);
                k = k + 1;
            }
            out.append("]");
            proof {
                reveal_strlit("]");
                assert("]"@ =~= seq![']']);
                assert(out@ =~= old(out)@ + spec_json_of(value@));
            }
        },
        Value::Object(pairs) => {
            out.append("{");
            proof {
                reveal_strlit("{");
                assert("{"@ =~= seq!['{']);
            }
            let ghost pv = value@->Object_0;
            let mut k: usize = 0;
            while k < pairs.len()
                invariant
                    k <= pairs@.len(),
                    pv == val_of(*value)->Object_0,
                    value is Object ==> value->Object_0 == pairs,
                    pv.len() == pairs@.len(),
                    forall|m: int|
                        0 <= m < pairs@.len() ==> #[trigger] pv[m] == (
                        pairs@[m].0@,
                        val_of(pairs@[m].1),
                        ),
                    out@ + spec_json_pairs(pv, k as int) == old(out)@ + seq!['{']
                        + spec_json_pairs(pv, 0),
                decreases pairs@.len() - k,
            {
                if k > 0 {
                    out.append(",");
                    proof {
                        reveal_strlit(",");
                        assert(","@ =~= seq![',']);
                    }
                }
                out.append("\"");
                json_escape_into(pairs[k].0.as_str(), out);
                out.append("\":");
                proof {
                    reveal_strlit("\"");
                    reveal_strlit("\":");
                    assert("\""@ =~= seq!['"']);
                    assert("\":"@ =~= seq!['"', ':']);
                }
                proof {
                    broadcast use vstd::std_specs::vec::axiom_vec_index_decreases;

                    assert(decreases_to!(*value => *pairs));
                    assert(decreases_to!(*pairs => pairs@[k as int]));
                    assert(decreases_to!(pairs@[k as int] => pairs@[k as int].1));
                }
                write_json(&pairs[k].1, out);
                k = k + 1;
            }
            out.append("}");
            proof {
                reveal_strlit("}");
                assert("}"@ =~= seq!['}']);
                assert(out@ =~= old(out)@ + spec_json_of(value@));
            }
        },
    }
}

/// Appends a resolved value's template output to `out`: nothing for
/// null, the raw text for a string, the JSON serialization for
/// everything else.
pub fn write_value(value: &Value, out: &mut String)
    ensures
        final(out)@ == old(out)@ + spec_value_text(value@),
{
    match value {
        Value::Null => {
            proof {
                assert(out@ =~= out@ + spec_value_text(value@));
            }
        },
        Value::Str(s) => {
            out.append(s.as_str());
        },
        _ => {
            write_json(value, out);
        },
    }
}

} // verus!
