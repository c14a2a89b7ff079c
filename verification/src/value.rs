//! The JSON-like value model that context entries, configuration documents
//! and coercion work on, together with its character-level JSON rendering.
use vstd::prelude::*;

use crate::digits::digit_char;
use crate::digits::int_dec_chars;
use crate::digits::i64_to_string;
use crate::strutil::chars_of;
use crate::strutil::string_from_chars;

verus! {

broadcast use
    vstd::std_specs::vec::axiom_vec_index_decreases,
    vstd::std_specs::vec::axiom_vec_decreases_to_view,
    vstd::seq::axiom_seq_index_decreases,
;

/// A JSON-like value: scalars, ordered lists, ordered maps, and `Tree`, an
/// arbitrary document held as its canonical JSON text, which the library
/// passes through without inspecting. Floating-point numbers are held as
/// their numeric text.
#[derive(Debug)]
pub enum Value {
    Null,
    Bool(bool),
    Int(i64),
    Float(String),
    Str(String),
    List(Vec<Value>),
    Table(Vec<(String, Value)>),
    Tree(String),
}

/// The mathematical shape of a `Value`: the same tree over sequences.
pub enum Vw {
    Null,
    Bool(bool),
    Int(int),
    Float(Seq<char>),
    Str(Seq<char>),
    List(Seq<Vw>),
    Table(Seq<(Seq<char>, Vw)>),
    Tree(Seq<char>),
}

pub open spec fn vw(v: Value) -> Vw
    decreases v, 1int,
{
    match v {
        Value::Null => Vw::Null,
        Value::Bool(b) => Vw::Bool(b),
        Value::Int(i) => Vw::Int(i as int),
        Value::Float(t) => Vw::Float(t@),
        Value::Str(t) => Vw::Str(t@),
        Value::List(items) => Vw::List(vw_items(items@, 0)),
        Value::Table(entries) => Vw::Table(vw_entries(entries@, 0)),
        Value::Tree(t) => Vw::Tree(t@),
    }
}

/// Views of the items of `items` from position `i` on.
pub open spec fn vw_items(items: Seq<Value>, i: int) -> Seq<Vw>
    decreases items, 0int, items.len() - i,
{
    if 0 <= i < items.len() {
        seq![vw(items[i])] + vw_items(items, i + 1)
    } else {
        Seq::<Vw>::empty()
    }
}

/// Views of the entries of `entries` from position `i` on.
pub open spec fn vw_entries(entries: Seq<(String, Value)>, i: int) -> Seq<(Seq<char>, Vw)>
    decreases entries, 0int, entries.len() - i,
{
    if 0 <= i < entries.len() {
        seq![(entries[i].0@, vw(entries[i].1))] + vw_entries(entries, i + 1)
    } else {
        Seq::<(Seq<char>, Vw)>::empty()
    }
}

pub proof fn lemma_vw_items(items: Seq<Value>, i: int)
    requires
        0 <= i <= items.len(),
    ensures
        vw_items(items, i).len() == items.len() - i,
        forall|k: int|
            i <= k < items.len() ==> vw_items(items, i)[k - i] == vw(#[trigger] items[k]),
    decreases items.len() - i,
{
    if i < items.len() {
        lemma_vw_items(items, i + 1);
    }
}

pub proof fn lemma_vw_entries(entries: Seq<(String, Value)>, i: int)
    requires
        0 <= i <= entries.len(),
    ensures
        vw_entries(entries, i).len() == entries.len() - i,
        forall|k: int|
            i <= k < entries.len() ==> vw_entries(entries, i)[k - i] == (
            #[trigger] entries[k].0@,
            vw(entries[k].1),
            ),
    decreases entries.len() - i,
{
    if i < entries.len() {
        lemma_vw_entries(entries, i + 1);
    }
}

impl Value {
    /// A structurally identical copy of the value.
    #[verifier::loop_isolation(false)]
    pub fn dup(&self) -> (r: Value)
        ensures
            vw(r) == vw(*self),
        decreases *self,
    {
        match self {
            Value::Null => Value::Null,
            Value::Bool(b) => Value::Bool(*b),
            Value::Int(i) => Value::Int(*i),
            Value::Float(t) => Value::Float(t.clone()),
            Value::Str(t) => Value::Str(t.clone()),
            Value::Tree(t) => Value::Tree(t.clone()),
            Value::List(items) => {
                let n = items.len();
                let mut out: Vec<Value> = Vec::new();
                let mut i: usize = 0;
                while i < n
                    invariant
                        i <= n,
                        out@.len() == i,
                        forall|j: int| 0 <= j < i ==> vw(#[trigger] out@[j]) == vw(items@[j]),
                    decreases n - i,
                {
                    proof {
                        assert(decreases_to!(*self => v_list_field(*self)));
                        assert(decreases_to!(*items => items@));
                        assert(decreases_to!(items@ => items@[i as int]));
                        assert(decreases_to!(*self => items@[i as int]));
                    }
                    let d = items[i].dup();
                    out.push(d);
                    i = i + 1;
                }
                proof {
                    lemma_vw_items(out@, 0);
                    lemma_vw_items(items@, 0);
                    assert forall|j: int| 0 <= j < n implies vw_items(out@, 0)[j] == vw_items(
                        items@,
                        0,
                    )[j] by {
                        assert(vw_items(out@, 0)[j] == vw(out@[j]));
                        assert(vw_items(items@, 0)[j] == vw(items@[j]));
                    }
                    assert(vw_items(out@, 0) =~= vw_items(items@, 0));
                }
                Value::List(out)
            },
            Value::Table(entries) => {
                let n = entries.len();
                let mut out: Vec<(String, Value)> = Vec::new();
                let mut i: usize = 0;
                while i < n
                    invariant
                        i <= n,
                        out@.len() == i,
                        forall|j: int|
                            0 <= j < i ==> (#[trigger] out@[j]).0@ == entries@[j].0@ && vw(
                                out@[j].1,
                            ) == vw(entries@[j].1),
                    decreases n - i,
                {
                    proof {
                        assert(decreases_to!(*self => v_table_field(*self)));
                        assert(decreases_to!(*entries => entries@));
                        assert(decreases_to!(entries@ => entries@[i as int]));
                        assert(decreases_to!(entries@[i as int] => entries@[i as int].1));
                        assert(decreases_to!(*self => entries@[i as int].1));
                    }
                    let k = entries[i].0.clone();
                    let d = entries[i].1.dup();
                    out.push((k, d));
                    i = i + 1;
                }
                proof {
                    lemma_vw_entries(out@, 0);
                    lemma_vw_entries(entries@, 0);
                    assert forall|j: int| 0 <= j < n implies vw_entries(out@, 0)[j] == vw_entries(
                        entries@,
                        0,
                    )[j] by {
                        assert(vw_entries(out@, 0)[j] == (out@[j].0@, vw(out@[j].1)));
                        assert(vw_entries(entries@, 0)[j] == (entries@[j].0@, vw(entries@[j].1)));
                    }
                    assert(vw_entries(out@, 0) =~= vw_entries(entries@, 0));
                }
                Value::Table(out)
            },
        }
    }
}

/// The items of a list value (used only to state termination).
pub open spec fn v_list_field(v: Value) -> Vec<Value> {
    v->List_0
}

/// The entries of a table value (used only to state termination).
pub open spec fn v_table_field(v: Value) -> Vec<(String, Value)> {
    v->Table_0
}

/// The white-space characters that surrounding-trim removes (the Unicode
/// `White_Space` set).
pub open spec fn is_ws(c: char) -> bool {
    ||| c == ' '
    ||| c == '\t'
    ||| c == '\n'
    ||| c == '\r'
    ||| c == '\u{b}'
    ||| c == '\u{c}'
    ||| c == '\u{85}'
    ||| c == '\u{a0}'
    ||| c == '\u{1680}'
    ||| ('\u{2000}' <= c && c <= '\u{200a}')
    ||| c == '\u{2028}'
    ||| c == '\u{2029}'
    ||| c == '\u{202f}'
    ||| c == '\u{205f}'
    ||| c == '\u{3000}'
}

pub fn is_ws_char(c: char) -> (r: bool)
    ensures
        r == is_ws(c),
{
    c == ' ' || c == '\t' || c == '\n' || c == '\r' || c == '\u{b}' || c == '\u{c}' || c == '\u{85}'
        || c == '\u{a0}' || c == '\u{1680}' || ('\u{2000}' <= c && c <= '\u{200a}') || c
        == '\u{2028}' || c == '\u{2029}' || c == '\u{202f}' || c == '\u{205f}' || c == '\u{3000}'
}

/// First position that does not hold white space.
pub open spec fn ws_start(s: Seq<char>, from: int) -> int
    decreases s.len() - from when from <= s.len()
{
    if from < s.len() && is_ws(s[from]) {
        ws_start(s, from + 1)
    } else {
        from
    }
}

/// Length of `s` once trailing white space is dropped.
pub open spec fn ws_end(s: Seq<char>) -> int
    decreases s.len(),
{
    if s.len() > 0 && is_ws(s.last()) {
        ws_end(s.drop_last())
    } else {
        s.len() as int
    }
}

/// `s` with surrounding white space removed.
pub open spec fn trim_spec(s: Seq<char>) -> Seq<char> {
    if ws_start(s, 0) <= ws_end(s) {
        s.subrange(ws_start(s, 0), ws_end(s))
    } else {
        Seq::<char>::empty()
    }
}

pub proof fn lemma_ws_end(s: Seq<char>)
    ensures
        0 <= ws_end(s) <= s.len(),
        forall|k: int| ws_end(s) <= k < s.len() ==> is_ws(s[k]),
        ws_end(s) > 0 ==> !is_ws(s[ws_end(s) - 1]),
    decreases s.len(),
{
    if s.len() > 0 && is_ws(s.last()) {
        lemma_ws_end(s.drop_last());
        assert forall|k: int| ws_end(s) <= k < s.len() implies is_ws(s[k]) by {
            if k < s.len() - 1 {
                assert(s[k] == s.drop_last()[k]);
            }
        }
    }
}

pub proof fn lemma_ws_start(s: Seq<char>, from: int)
    requires
        0 <= from <= s.len(),
    ensures
        from <= ws_start(s, from) <= s.len(),
        forall|j: int| from <= j < ws_start(s, from) ==> is_ws(s[j]),
        ws_start(s, from) < s.len() ==> !is_ws(s[ws_start(s, from)]),
    decreases s.len() - from,
{
    if from < s.len() && is_ws(s[from]) {
        lemma_ws_start(s, from + 1);
    }
}

/// Removes surrounding white space from a character vector.
#[verifier::loop_isolation(false)]
pub fn trim_chars(s: &Vec<char>) -> (r: Vec<char>)
    ensures
        r@ == trim_spec(s@),
{
    let n = s.len();
    let mut a: usize = 0;
    while a < n && is_ws_char(s[a])
        invariant
            a <= n,
            ws_start(s@, 0) == ws_start(s@, a as int),
        decreases n - a,
    {
        a = a + 1;
    }
    proof {
        assert(ws_start(s@, 0) == a as int);
        lemma_ws_end(s@);
    }
    if a == n {
        let r: Vec<char> = Vec::new();
        proof {
            lemma_ws_start(s@, 0);
            assert(ws_end(s@) == 0 || is_ws(s@[ws_end(s@) - 1]) == false);
            if ws_start(s@, 0) <= ws_end(s@) {
                assert(trim_spec(s@) =~= r@);
            }
        }
        return r;
    }
    let mut b: usize = n;
    proof {
        assert(s@.take(n as int) =~= s@);
    }
    while b > 0 && is_ws_char(s[b - 1])
        invariant
            b <= n,
            ws_end(s@) == ws_end(s@.take(b as int)),
        decreases b,
    {
        proof {
            assert(s@.take(b as int).drop_last() =~= s@.take(b - 1));
        }
        b = b - 1;
    }
    proof {
        assert(s@.take(n as int) =~= s@);
        if b > 0 {
            assert(s@.take(b as int).last() == s@[b - 1]);
        }
        assert(ws_end(s@) == b as int);
        assert(a < b);
    }
    let mut r: Vec<char> = Vec::new();
    let mut i = a;
    while i < b
        invariant
            a <= i <= b,
            r@ == s@.subrange(a as int, i as int),
        decreases b - i,
    {
        r.push(s[i]);
        i = i + 1;
        proof {
            assert(r@ =~= s@.subrange(a as int, i as int));
        }
    }
    proof {
        assert(r@ =~= trim_spec(s@));
    }
    r
}

/// Trims surrounding white space from a string.
pub fn trim_string(s: &str) -> (r: String)
    ensures
        r@ == trim_spec(s@),
{
    let cs = chars_of(s);
    let t = trim_chars(&cs);
    string_from_chars(&t)
}

// Canonical JSON text of a value, as a compact JSON serializer emits it:
// strings quoted with minimal escapes, list and map items joined by commas.
pub open spec fn hex_char(d: int) -> char {
    if d < 10 {
        digit_char(d)
    } else {
        ((d + 87) as u8) as char
    }
}

pub open spec fn esc_char(c: char) -> Seq<char> {
    if c == '"' {
        seq!['\\', '"']
    } else if c == '\\' {
        seq!['\\', '\\']
    } else if c == '\u{8}' {
        seq!['\\', 'b']
    } else if c == '\u{c}' {
        seq!['\\', 'f']
    } else if c == '\n' {
        seq!['\\', 'n']
    } else if c == '\r' {
        seq!['\\', 'r']
    } else if c == '\t' {
        seq!['\\', 't']
    } else if (c as int) < 32 {
        seq!['\\', 'u', '0', '0', hex_char(c as int / 16), hex_char(c as int % 16)]
    } else {
        seq![c]
    }
}

/// Escaped form of the first `i` characters of `s`.
pub open spec fn esc_str(s: Seq<char>, i: int) -> Seq<char>
    decreases i,
{
    if 0 < i <= s.len() {
        esc_str(s, i - 1) + esc_char(s[i - 1])
    } else {
        Seq::<char>::empty()
    }
}

pub open spec fn json_quote(s: Seq<char>) -> Seq<char> {
    seq!['"'] + esc_str(s, s.len() as int) + seq!['"']
}

pub open spec fn json_text(v: Vw) -> Seq<char>
    decreases v, 1int,
{
    match v {
        Vw::Null => seq!['n', 'u', 'l', 'l'],
        Vw::Bool(b) => if b {
            seq!['t', 'r', 'u', 'e']
        } else {
            seq!['f', 'a', 'l', 's', 'e']
        },
        Vw::Int(i) => int_dec_chars(i),
        Vw::Float(t) => t,
        Vw::Str(t) => json_quote(t),
        Vw::List(items) => seq!['['] + json_items(items, items.len() as int) + seq![']'],
        Vw::Table(entries) => seq!['{'] + json_entries(entries, entries.len() as int) + seq!['}'],
        Vw::Tree(t) => t,
    }
}

/// JSON text of the first `i` items, comma separated.
pub open spec fn json_items(items: Seq<Vw>, i: int) -> Seq<char>
    decreases items, 0int, i,
{
    if 0 < i <= items.len() {
        json_items(items, i - 1) + (if i > 1 {
            seq![',']
        } else {
            Seq::<char>::empty()
        }) + json_text(items[i - 1])
    } else {
        Seq::<char>::empty()
    }
}

/// JSON text of the first `i` entries, comma separated, keys quoted.
pub open spec fn json_entries(entries: Seq<(Seq<char>, Vw)>, i: int) -> Seq<char>
    decreases entries, 0int, i,
{
    if 0 < i <= entries.len() {
        json_entries(entries, i - 1) + (if i > 1 {
            seq![',']
        } else {
            Seq::<char>::empty()
        }) + json_quote(entries[i - 1].0) + seq![':'] + json_text(entries[i - 1].1)
    } else {
        Seq::<char>::empty()
    }
}

/// Emits the `\u00XX` escape for a control character that has no short
/// escape of its own.
fn push_ctl_hex(out: &mut Vec<char>, c: char)
    requires
        (c as int) < 32,
        c != '\u{8}' && c != '\u{9}' && c != '\u{a}' && c != '\u{c}' && c != '\u{d}',
    ensures
        final(out)@ == old(out)@ + esc_char(c),
{
    out.push('\\');
    out.push('u');
    out.push('0');
    out.push('0');
    let lo: char = if c == '\u{0}' {
        '0'
    } else if c == '\u{1}' {
        '1'
    } else if c == '\u{2}' {
        '2'
    } else if c == '\u{3}' {
        '3'
    } else if c == '\u{4}' {
        '4'
    } else if c == '\u{5}' {
        '5'
    } else if c == '\u{6}' {
        '6'
    } else if c == '\u{7}' {
        '7'
    } else if c == '\u{b}' {
        'b'
    } else if c == '\u{e}' {
        'e'
    } else if c == '\u{f}' {
        'f'
    } else if c == '\u{10}' {
        '0'
    } else if c == '\u{11}' {
        '1'
    } else if c == '\u{12}' {
        '2'
    } else if c == '\u{13}' {
        '3'
    } else if c == '\u{14}' {
        '4'
    } else if c == '\u{15}' {
        '5'
    } else if c == '\u{16}' {
        '6'
    } else if c == '\u{17}' {
        '7'
    } else if c == '\u{18}' {
        '8'
    } else if c == '\u{19}' {
        '9'
    } else if c == '\u{1a}' {
        'a'
    } else if c == '\u{1b}' {
        'b'
    } else if c == '\u{1c}' {
        'c'
    } else if c == '\u{1d}' {
        'd'
    } else if c == '\u{1e}' {
        'e'
    } else {
        'f'
    };
    let hi: char = if c >= '\u{10}' {
        '1'
    } else {
        '0'
    };
    out.push(hi);
    out.push(lo);
    proof {
        assert(out@ =~= old(out)@ + esc_char(c));
    }
}

/// Appends the escaped, quoted JSON form of the characters `s`.
#[verifier::loop_isolation(false)]
pub fn push_json_quoted(out: &mut Vec<char>, s: &Vec<char>)
    ensures
        final(out)@ == old(out)@ + json_quote(s@),
{
    out.push('"');
    let n = s.len();
    let mut i: usize = 0;
    while i < n
        invariant
            i <= n,
            out@ == old(out)@ + seq!['"'] + esc_str(s@, i as int),
        decreases n - i,
    {
        let c = s[i];
        if c == '"' {
            out.push('\\');
            out.push('"');
        } else if c == '\\' {
            out.push('\\');
            out.push('\\');
        } else if c == '\u{8}' {
            out.push('\\');
            out.push('b');
        } else if c == '\u{c}' {
            out.push('\\');
            out.push('f');
        } else if c == '\n' {
            out.push('\\');
            out.push('n');
        } else if c == '\r' {
            out.push('\\');
            out.push('r');
        } else if c == '\t' {
            out.push('\\');
            out.push('t');
        } else if ' ' > c {
            push_ctl_hex(out, c);
        } else {
            out.push(c);
        }
        i = i + 1;
        proof {
            assert(esc_str(s@, i as int) == esc_str(s@, i - 1) + esc_char(s@[i - 1]));
            assert(out@ =~= old(out)@ + seq!['"'] + esc_str(s@, i as int));
        }
    }
    out.push('"');
    proof {
        assert(out@ =~= old(out)@ + json_quote(s@));
    }
}

/// Appends the canonical JSON text of `v`.
#[verifier::loop_isolation(false)]
#[verifier::rlimit(60)]
pub fn push_json(v: &Value, out: &mut Vec<char>)
    ensures
        final(out)@ == old(out)@ + json_text(vw(*v)),
    decreases *v,
{
    match v {
        Value::Null => {
            out.push('n');
            out.push('u');
            out.push('l');
            out.push('l');
            proof {
                assert(out@ =~= old(out)@ + json_text(vw(*v)));
            }
        },
        Value::Bool(b) => {
            if *b {
                out.push('t');
                out.push('r');
                out.push('u');
                out.push('e');
            } else {
                out.push('f');
                out.push('a');
                out.push('l');
                out.push('s');
                out.push('e');
            }
            proof {
                assert(out@ =~= old(out)@ + json_text(vw(*v)));
            }
        },
        Value::Int(i) => {
            let t = i64_to_string(*i);
            let cs = chars_of(t.as_str());
            push_all(out, &cs);
            proof {
                assert(out@ =~= old(out)@ + json_text(vw(*v)));
            }
        },
        Value::Float(t) => {
            let cs = chars_of(t.as_str());
            push_all(out, &cs);
            proof {
                assert(out@ =~= old(out)@ + json_text(vw(*v)));
            }
        },
        Value::Str(t) => {
            let cs = chars_of(t.as_str());
            push_json_quoted(out, &cs);
            proof {
                assert(out@ =~= old(out)@ + json_text(vw(*v)));
            }
        },
        Value::Tree(t) => {
            let cs = chars_of(t.as_str());
            push_all(out, &cs);
            proof {
                assert(out@ =~= old(out)@ + json_text(vw(*v)));
            }
        },
        Value::List(items) => {
            proof {
                lemma_vw_items(items@, 0);
            }
            let ghost ivs = vw_items(items@, 0);
            out.push('[');
            let n = items.len();
            let mut i: usize = 0;
            while i < n
                invariant
                    i <= n,
                    out@ == old(out)@ + seq!['['] + json_items(ivs, i as int),
                decreases n - i,
            {
                if i > 0 {
                    out.push(',');
                }
                proof {
                    assert(decreases_to!(*v => v->List_0));
                    assert(decreases_to!(*items => items@));
                    assert(decreases_to!(items@ => items@[i as int]));
                    assert(decreases_to!(*v => items@[i as int]));
                }
                push_json(&items[i], out);
                i = i + 1;
                proof {
                    assert(out@ =~= old(out)@ + seq!['['] + json_items(ivs, i as int));
                }
            }
            out.push(']');
            proof {
                assert(out@ =~= old(out)@ + json_text(vw(*v)));
            }
        },
        Value::Table(entries) => {
            proof {
                lemma_vw_entries(entries@, 0);
            }
            let ghost evs = vw_entries(entries@, 0);
            out.push('{');
            let n = entries.len();
            let mut i: usize = 0;
            while i < n
                invariant
                    i <= n,
                    out@ == old(out)@ + seq!['{'] + json_entries(evs, i as int),
                decreases n - i,
            {
                if i > 0 {
                    out.push(',');
                }
                let ks = chars_of(entries[i].0.as_str());
                push_json_quoted(out, &ks);
                out.push(':');
                proof {
                    assert(decreases_to!(*v => v->Table_0));
                    assert(decreases_to!(*entries => entries@));
                    assert(decreases_to!(entries@ => entries@[i as int]));
                    assert(decreases_to!(entries@[i as int] => entries@[i as int].1));
                    assert(decreases_to!(*v => entries@[i as int].1));
                }
                push_json(&entries[i].1, out);
                i = i + 1;
                proof {
                    assert(out@ =~= old(out)@ + seq!['{'] + json_entries(evs, i as int));
                }
            }
            out.push('}');
            proof {
                assert(out@ =~= old(out)@ + json_text(vw(*v)));
            }
        },
    }
}

fn push_all(out: &mut Vec<char>, s: &Vec<char>)
    ensures
        final(out)@ == old(out)@ + s@,
{
    let n = s.len();
    let mut i: usize = 0;
    while i < n
        invariant
            i <= n,
            n == s@.len(),
            out@ == old(out)@ + s@.take(i as int),
        decreases n - i,
    {
        out.push(s[i]);
        i = i + 1;
        proof {
            assert(out@ =~= old(out)@ + s@.take(i as int));
        }
    }
    proof {
        assert(s@.take(n as int) =~= s@);
    }
}

/// The canonical JSON text of a value, as a `String`.
pub fn value_to_json_string(v: &Value) -> (r: String)
    ensures
        r@ == json_text(vw(*v)),
{
    let mut out: Vec<char> = Vec::new();
    push_json(v, &mut out);
    string_from_chars(&out)
}

} // verus!
