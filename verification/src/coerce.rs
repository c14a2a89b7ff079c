//! Value coercion: converting a loosely-typed input into a declared target
//! scalar type. String inputs are always trimmed of surrounding white space
//! first, even when no target type is given.
use vstd::prelude::*;
use vstd::string::StringExecFns;

use crate::digits::int_dec_chars;
use crate::digits::numeric_rounded;
use crate::digits::round_numeric_chars;
use crate::digits::wf_numeric;
use crate::digits::lemma_int_text_rounds;
use crate::digits::lemma_scan_digits;
use crate::digits::num_sign_len;
use crate::digits::num_ip_end;
use crate::digits::num_has_dot;
use crate::digits::num_has_exp;
use crate::digits::num_exp_start;
use crate::value::is_ws;
use crate::value::lemma_ws_end;
use crate::value::lemma_ws_start;
use crate::errors::Error;
use crate::strutil::chars_of;
use crate::strutil::string_from_chars;
use crate::value::json_text;
use crate::value::trim_spec;
use crate::value::trim_string;
use crate::value::value_to_json_string;
use crate::value::vw;
use crate::value::Value;
use crate::value::Vw;

verus! {

/// The coercion target types.
#[derive(Clone, Copy, PartialEq, Eq, Structural)]
pub enum Coerce {
    Json,
    Str,
    Int,
    Float,
    Bool,
}

/// What a JSON parser accepts of the text `s`: the canonical (compact)
/// rendering of the parsed document, or `None` when `s` is not valid JSON
/// text. The result depends on the text alone.
pub uninterp spec fn canon_json_of(s: Seq<char>) -> Option<Seq<char>>;

/// Relies on `serde_json::from_str::<serde_json::Value>` and the `Display`
/// rendering of `serde_json::Value`: parsing succeeds exactly on valid JSON
/// text, the compact rendering of the parsed document is a function of the
/// text alone, and the error text describes the failure.
#[verifier::external_body]
fn parse_json_canonical(s: &str) -> (r: Result<String, String>)
    ensures
        r matches Ok(t) ==> canon_json_of(s@) == Some(t@),
        (r is Ok) == (canon_json_of(s@) is Some),
{
    match serde_json::from_str::<serde_json::Value>(s) {
        Ok(v) => Ok(v.to_string()),
        Err(e) => Err(e.to_string()),
    }
}

pub open spec fn ascii_lower(c: char) -> char {
    if 'A' <= c && c <= 'Z' {
        (c as u8 + 32) as char
    } else {
        c
    }
}

/// The boolean a text stands for: `true`/`y`/`1` and `false`/`n`/`0`, case
/// insensitively; anything else is no boolean.
pub open spec fn bool_of_text(t: Seq<char>) -> Option<bool> {
    let l = t.map_values(|c: char| ascii_lower(c));
    if l == seq!['1'] || l == seq!['t', 'r', 'u', 'e'] || l == seq!['y'] {
        Some(true)
    } else if l == seq!['0'] || l == seq!['f', 'a', 'l', 's', 'e'] || l == seq!['n'] {
        Some(false)
    } else {
        None
    }
}

/// A string input with surrounding white space removed; other inputs
/// unchanged.
pub open spec fn trimmed(v: Vw) -> Vw {
    match v {
        Vw::Str(t) => Vw::Str(trim_spec(t)),
        _ => v,
    }
}

/// The full meaning of coercion: the value `coerce` returns on input view
/// `v` and target `c`, or `None` where coercion fails.
pub open spec fn coerce_spec(v0: Vw, c: Option<Coerce>) -> Option<Vw> {
    let v = trimmed(v0);
    match c {
        None => Some(v),
        Some(Coerce::Json) => match v {
            Vw::Str(t) => match canon_json_of(t) {
                Some(canon) => Some(Vw::Tree(canon)),
                None => None,
            },
            _ => None,
        },
        Some(Coerce::Str) => match v {
            Vw::Str(_) => Some(v),
            _ => Some(Vw::Str(json_text(v))),
        },
        Some(Coerce::Int) => match v {
            Vw::Int(i) => Some(Vw::Int(i)),
            Vw::Float(t) => if wf_numeric(t) {
                Some(Vw::Int(numeric_rounded(t) as int))
            } else {
                None
            },
            Vw::Str(t) => if wf_numeric(t) {
                Some(Vw::Int(numeric_rounded(t) as int))
            } else {
                None
            },
            _ => None,
        },
        Some(Coerce::Float) => match v {
            Vw::Int(i) => Some(Vw::Int(i)),
            Vw::Float(t) => Some(Vw::Float(t)),
            Vw::Str(t) => if wf_numeric(t) {
                Some(Vw::Float(t))
            } else {
                None
            },
            _ => None,
        },
        Some(Coerce::Bool) => match v {
            Vw::Bool(b) => Some(Vw::Bool(b)),
            Vw::Int(i) => if i == 0 {
                Some(Vw::Bool(false))
            } else if i == 1 {
                Some(Vw::Bool(true))
            } else {
                None
            },
            Vw::Str(t) => match bool_of_text(t) {
                Some(b) => Some(Vw::Bool(b)),
                None => None,
            },
            _ => None,
        },
    }
}

/// The name a coercion failure reports for its target type.
pub open spec fn coerce_kind_text(c: Coerce) -> Seq<char> {
    match c {
        Coerce::Json => "json"@,
        Coerce::Str => "str"@,
        Coerce::Int => "int"@,
        Coerce::Float => "float"@,
        Coerce::Bool => "bool"@,
    }
}

/// Bounded representation of a rejected input: at most 300 characters, with
/// a trailing ellipsis when truncated.
pub open spec fn truncate300(s: Seq<char>) -> Seq<char> {
    if s.len() <= 300 {
        s
    } else {
        s.take(300) + seq!['.', '.', '.']
    }
}

fn truncated_repr(s: &String) -> (r: String)
    ensures
        r@ == truncate300(s@),
{
    let cs = chars_of(s.as_str());
    if cs.len() <= 300 {
        s.clone()
    } else {
        let mut out: Vec<char> = Vec::new();
        let mut i: usize = 0;
        while i < 300
            invariant
                i <= 300,
                cs@.len() > 300,
                cs@ == s@,
                out@ == s@.take(i as int),
            decreases 300 - i,
        {
            out.push(cs[i]);
            i = i + 1;
            proof {
                assert(out@ =~= s@.take(i as int));
            }
        }
        out.push('.');
        out.push('.');
        out.push('.');
        proof {
            assert(out@ =~= truncate300(s@));
        }
        string_from_chars(&out)
    }
}

/// Builds a coercion failure message naming the target type and showing a
/// bounded representation of the rejected input.
fn coercion_error(kind: &str, input_repr: String, detail: &str) -> (r: Error)
    ensures
        r is Coercion,
        r.msg() == "Failed to coerce to type '"@ + kind@ + "'. Input: "@ + truncate300(
            input_repr@,
        ) + ". "@ + detail@,
{
    let shown = truncated_repr(&input_repr);
    let mut m = String::new();
    m.append("Failed to coerce to type '");
    m.append(kind);
    m.append("'. Input: ");
    m.append(shown.as_str());
    m.append(". ");
    m.append(detail);
    Error::Coercion(m)
}

/// Builds a coercion failure whose message matches the shape `coerce`
/// promises for the named target type.
fn coercion_failure(Ghost(ct): Ghost<Coerce>, kind: &str, input_repr: String, detail: &str) -> (r:
    Error)
    requires
        kind@ == coerce_kind_text(ct),
    ensures
        r is Coercion,
        exists|d: Seq<char>|
            r.msg() == "Failed to coerce to type '"@ + coerce_kind_text(ct) + "'. Input: "@
                + truncate300(input_repr@) + ". "@ + d,
{
    let ghost grepr = input_repr@;
    let e = coercion_error(kind, input_repr, detail);
    proof {
        assert(e.msg() == "Failed to coerce to type '"@ + coerce_kind_text(ct) + "'. Input: "@
            + truncate300(grepr) + ". "@ + detail@);
    }
    e
}

fn lower_chars(s: &Vec<char>) -> (r: Vec<char>)
    ensures
        r@ == s@.map_values(|c: char| ascii_lower(c)),
{
    let n = s.len();
    let mut r: Vec<char> = Vec::new();
    let mut i: usize = 0;
    while i < n
        invariant
            i <= n,
            n == s@.len(),
            r@.len() == i,
            forall|j: int| 0 <= j < i ==> r@[j] == ascii_lower(s@[j]),
        decreases n - i,
    {
        let c = s[i];
        if 'A' <= c && c <= 'Z' {
            r.push(((c as u8) + 32) as char);
        } else {
            r.push(c);
        }
        i = i + 1;
    }
    proof {
        assert(r@ =~= s@.map_values(|c: char| ascii_lower(c)));
    }
    r
}

/// Converts a loosely-typed value into the declared target type. String
/// inputs are first trimmed of surrounding white space, unconditionally.
/// Succeeds exactly where `coerce_spec` yields a value, and returns that
/// value; every failure is a `Coercion` error.
pub fn coerce(value: Value, c_type: Option<Coerce>) -> (r: Result<Value, Error>)
    ensures
        r matches Ok(out) ==> coerce_spec(vw(value), c_type) == Some(vw(out)),
        (r is Err) <==> (coerce_spec(vw(value), c_type) is None),
        r matches Err(e) ==> e is Coercion && (c_type matches Some(ct) && (exists|
            detail: Seq<char>,
        |
            e.msg() == "Failed to coerce to type '"@ + coerce_kind_text(ct) + "'. Input: "@
                + truncate300(json_text(trimmed(vw(value)))) + ". "@ + detail)),
{
    let ghost gv = vw(value);
    let v = match value {
        Value::Str(s) => {
            let t = trim_string(s.as_str());
            Value::Str(t)
        },
        other => other,
    };
    proof {
        assert(vw(v) == trimmed(gv));
    }
    match c_type {
        None => Ok(v),
        Some(Coerce::Json) => match v {
            Value::Str(s) => match parse_json_canonical(s.as_str()) {
                Ok(t) => Ok(Value::Tree(t)),
                Err(detail) => {
                    let repr = value_to_json_string(&Value::Str(s));
                    Err(coercion_failure(Ghost(Coerce::Json), "json", repr, detail.as_str()))
                },
            },
            other => {
                let repr = value_to_json_string(&other);
                Err(coercion_failure(Ghost(Coerce::Json), "json", repr, "a string input is required"))
            },
        },
        Some(Coerce::Str) => match v {
            Value::Str(s) => Ok(Value::Str(s)),
            other => {
                let t = value_to_json_string(&other);
                Ok(Value::Str(t))
            },
        },
        Some(Coerce::Int) => match v {
            Value::Int(i) => Ok(Value::Int(i)),
            Value::Float(t) => {
                let cs = chars_of(t.as_str());
                match round_numeric_chars(&cs) {
                    Some(i) => Ok(Value::Int(i)),
                    None => {
                        let repr = value_to_json_string(&Value::Float(t));
                        Err(coercion_failure(Ghost(Coerce::Int), "int", repr, "the text is not a numeric value"))
                    },
                }
            },
            Value::Str(t) => {
                let cs = chars_of(t.as_str());
                match round_numeric_chars(&cs) {
                    Some(i) => Ok(Value::Int(i)),
                    None => {
                        let repr = value_to_json_string(&Value::Str(t));
                        Err(coercion_failure(Ghost(Coerce::Int), "int", repr, "the text is not a numeric value"))
                    },
                }
            },
            other => {
                let repr = value_to_json_string(&other);
                Err(
                    coercion_failure(
                        Ghost(Coerce::Int),
                        "int",
                        repr,
                        "ints can only be coerced from numbers and strings",
                    ),
                )
            },
        },
        Some(Coerce::Float) => match v {
            Value::Int(i) => Ok(Value::Int(i)),
            Value::Float(t) => Ok(Value::Float(t)),
            Value::Str(t) => {
                let cs = chars_of(t.as_str());
                if round_numeric_chars(&cs).is_some() {
                    Ok(Value::Float(t))
                } else {
                    let repr = value_to_json_string(&Value::Str(t));
                    Err(coercion_failure(Ghost(Coerce::Float), "float", repr, "the text is not a numeric value"))
                }
            },
            other => {
                let repr = value_to_json_string(&other);
                Err(
                    coercion_failure(
                        Ghost(Coerce::Float),
                        "float",
                        repr,
                        "floats can only be coerced from numbers and strings",
                    ),
                )
            },
        },
        Some(Coerce::Bool) => match v {
            Value::Bool(b) => Ok(Value::Bool(b)),
            Value::Int(i) => {
                if i == 0 {
                    Ok(Value::Bool(false))
                } else if i == 1 {
                    Ok(Value::Bool(true))
                } else {
                    let repr = value_to_json_string(&Value::Int(i));
                    Err(coercion_failure(Ghost(Coerce::Bool), "bool", repr, "bools can only be coerced from 0 or 1"))
                }
            },
            Value::Str(t) => {
                let cs = chars_of(t.as_str());
                let lc = lower_chars(&cs);
                let n = lc.len();
                let one = n == 1 && lc[0] == '1';
                let tru = n == 4 && lc[0] == 't' && lc[1] == 'r' && lc[2] == 'u' && lc[3] == 'e';
                let yes = n == 1 && lc[0] == 'y';
                let zero = n == 1 && lc[0] == '0';
                let fal = n == 5 && lc[0] == 'f' && lc[1] == 'a' && lc[2] == 'l' && lc[3] == 's'
                    && lc[4] == 'e';
                let no = n == 1 && lc[0] == 'n';
                proof {
                    let l = t@.map_values(|c: char| ascii_lower(c));
                    assert(lc@ == l);
                    assert(one == (l == seq!['1'])) by {
                        if one {
                            assert(l =~= seq!['1']);
                        }
                    }
                    assert(tru == (l == seq!['t', 'r', 'u', 'e'])) by {
                        if tru {
                            assert(l =~= seq!['t', 'r', 'u', 'e']);
                        }
                    }
                    assert(yes == (l == seq!['y'])) by {
                        if yes {
                            assert(l =~= seq!['y']);
                        }
                    }
                    assert(zero == (l == seq!['0'])) by {
                        if zero {
                            assert(l =~= seq!['0']);
                        }
                    }
                    assert(fal == (l == seq!['f', 'a', 'l', 's', 'e'])) by {
                        if fal {
                            assert(l =~= seq!['f', 'a', 'l', 's', 'e']);
                        }
                    }
                    assert(no == (l == seq!['n'])) by {
                        if no {
                            assert(l =~= seq!['n']);
                        }
                    }
                }
                if one || tru || yes {
                    Ok(Value::Bool(true))
                } else if zero || fal || no {
                    Ok(Value::Bool(false))
                } else {
                    let repr = value_to_json_string(&Value::Str(t));
                    Err(
                        coercion_failure(
                            Ghost(Coerce::Bool),
                            "bool",
                            repr,
                            "bools can only be coerced from true/false/y/n/1/0 strings",
                        ),
                    )
                }
            },
            other => {
                let repr = value_to_json_string(&other);
                Err(
                    coercion_failure(
                        Ghost(Coerce::Bool),
                        "bool",
                        repr,
                        "bools can only be coerced from bools, 0/1 ints and strings",
                    ),
                )
            },
        },
    }
}

/// Coercion round trip for integers: the decimal text of any 64-bit integer
/// coerced to `int` yields that integer back.
pub proof fn lemma_coerce_int_round_trip(i: i64)
    ensures
        coerce_spec(Vw::Str(int_dec_chars(i as int)), Some(Coerce::Int)) == Some(
            Vw::Int(i as int),
        ),
{
    let s = int_dec_chars(i as int);
    lemma_int_text_rounds(i as int);
    lemma_numeric_text_trim_stable(s);
}

/// Coercion round trip for floats: any well-formed numeric text coerced to
/// `float` yields exactly that text as the float's value.
pub proof fn lemma_coerce_float_round_trip(t: Seq<char>)
    requires
        wf_numeric(t),
    ensures
        coerce_spec(Vw::Str(t), Some(Coerce::Float)) == Some(Vw::Float(t)),
{
    lemma_numeric_text_trim_stable(t);
}

/// Coercion round trip for booleans: the canonical text of a boolean coerced
/// to `bool` yields that boolean back.
pub proof fn lemma_coerce_bool_round_trip(b: bool)
    ensures
        coerce_spec(Vw::Str(json_text(Vw::Bool(b))), Some(Coerce::Bool)) == Some(Vw::Bool(b)),
{
    let t = json_text(Vw::Bool(b));
    let l = t.map_values(|c: char| ascii_lower(c));
    lemma_ws_end(t);
    lemma_ws_start(t, 0);
    assert(!is_ws(t[0]));
    assert(trim_spec(t) =~= t);
    if b {
        assert(l =~= seq!['t', 'r', 'u', 'e']);
    } else {
        assert(l =~= seq!['f', 'a', 'l', 's', 'e']);
    }
}

/// A well-formed numeric text carries no surrounding white space, so
/// trimming leaves it unchanged.
pub proof fn lemma_numeric_text_trim_stable(t: Seq<char>)
    requires
        wf_numeric(t),
    ensures
        trim_spec(t) == t,
{
    lemma_ws_end(t);
    lemma_ws_start(t, 0);
    lemma_scan_digits(t, num_sign_len(t));
    if num_has_dot(t) {
        lemma_scan_digits(t, num_ip_end(t) + 1);
    }
    if num_has_exp(t) {
        lemma_scan_digits(t, num_exp_start(t));
    }
    assert(t.len() > 0);
    assert(!is_ws(t[0]));
    assert(!is_ws(t[t.len() - 1]));
    assert(trim_spec(t) =~= t);
}

} // verus!
