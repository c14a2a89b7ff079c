//! The configuration loader: a decoded configuration document (a value
//! tree) is validated against the schema and bound into typed settings.
//! Unknown or malformed fields produce errors naming a path within the
//! document.
use vstd::prelude::*;
use vstd::string::StringExecFns;

use crate::coerce::Coerce;
use crate::context::Context;
use crate::context::CtxCliVar;
use crate::context::CtxEnvVar;
use crate::context::CtxStaticVar;
use crate::errors::Error;
use crate::strutil::str_eq;
use crate::value::lemma_vw_entries;
use crate::value::lemma_vw_items;
use crate::value::vw;
use crate::value::vw_entries;
use crate::value::vw_items;
use crate::value::Value;
use crate::value::Vw;

verus! {

/// Templating-engine settings: delimiter pairs, white-space and
/// undefined-variable policy, and the extension references to load.
pub struct Engine {
    pub block_start: String,
    pub block_end: String,
    pub variable_start: String,
    pub variable_end: String,
    pub comment_start: String,
    pub comment_end: String,
    pub keep_trailing_newline: bool,
    pub allow_undefined: bool,
    pub custom_extensions: Vec<String>,
}

impl Engine {
    /// The defaults mirror the common templating syntax, and never trim a
    /// user's trailing newline.
    pub fn default() -> (r: Engine)
        ensures
            r.block_start@ == "{%"@,
            r.block_end@ == "%}"@,
            r.variable_start@ == "{{"@,
            r.variable_end@ == "}}"@,
            r.comment_start@ == "{#"@,
            r.comment_end@ == "#}"@,
            r.keep_trailing_newline == true,
            r.allow_undefined == false,
            r.custom_extensions@.len() == 0,
    {
        Engine {
            block_start: "{%".to_owned(),
            block_end: "%}".to_owned(),
            variable_start: "{{".to_owned(),
            variable_end: "}}".to_owned(),
            comment_start: "{#".to_owned(),
            comment_end: "#}".to_owned(),
            keep_trailing_newline: true,
            allow_undefined: false,
            custom_extensions: Vec::new(),
        }
    }
}

/// Resolved settings for one render run.
pub struct RawConfig {
    pub context: Context,
    pub exclude: Vec<String>,
    pub engine: Engine,
    pub ignore_files: Vec<String>,
    pub setup_commands: Vec<String>,
}

// The schema, as spec functions over value views.
pub open spec fn doc_table(w: Vw) -> Option<Seq<(Seq<char>, Vw)>> {
    match w {
        Vw::Table(es) => Some(es),
        _ => None,
    }
}

/// First entry with the given key.
pub open spec fn tbl_get(es: Seq<(Seq<char>, Vw)>, k: Seq<char>) -> Option<Vw>
    decreases es.len(),
{
    if es.len() == 0 {
        None
    } else if es[0].0 == k {
        Some(es[0].1)
    } else {
        tbl_get(es.drop_first(), k)
    }
}

pub open spec fn keys_in(es: Seq<(Seq<char>, Vw)>, allowed: Seq<Seq<char>>) -> bool {
    forall|i: int| 0 <= i < es.len() ==> allowed.contains((#[trigger] es[i]).0)
}

/// The texts of a sequence of string views; `None` when one is no string.
pub open spec fn texts_of(items: Seq<Vw>) -> Option<Seq<Seq<char>>>
    decreases items.len(),
{
    if items.len() == 0 {
        Some(Seq::<Seq<char>>::empty())
    } else {
        match texts_of(items.drop_last()) {
            Some(ts) => match items.last() {
                Vw::Str(t) => Some(ts.push(t)),
                _ => None,
            },
            None => None,
        }
    }
}

pub open spec fn string_list_of(w: Vw) -> Option<Seq<Seq<char>>> {
    match w {
        Vw::List(items) => texts_of(items),
        _ => None,
    }
}

/// An absent list field is an empty list.
pub open spec fn list_field(es: Seq<(Seq<char>, Vw)>, k: Seq<char>) -> Option<Seq<Seq<char>>> {
    match tbl_get(es, k) {
        None => Some(Seq::<Seq<char>>::empty()),
        Some(w) => string_list_of(w),
    }
}

pub open spec fn coerce_of_text(t: Seq<char>) -> Option<Coerce> {
    if t == "json"@ {
        Some(Coerce::Json)
    } else if t == "str"@ {
        Some(Coerce::Str)
    } else if t == "int"@ {
        Some(Coerce::Int)
    } else if t == "float"@ {
        Some(Coerce::Float)
    } else if t == "bool"@ {
        Some(Coerce::Bool)
    } else {
        None
    }
}

/// An optional `coerce` field: absent means no coercion.
pub open spec fn coerce_field(es: Seq<(Seq<char>, Vw)>) -> Option<Option<Coerce>> {
    match tbl_get(es, "coerce"@) {
        None => Some(None),
        Some(Vw::Str(t)) => match coerce_of_text(t) {
            Some(c) => Some(Some(c)),
            None => None,
        },
        Some(_) => None,
    }
}

pub open spec fn str_field(es: Seq<(Seq<char>, Vw)>, k: Seq<char>, d: Seq<char>) -> Option<
    Seq<char>,
> {
    match tbl_get(es, k) {
        None => Some(d),
        Some(Vw::Str(t)) => Some(t),
        Some(_) => None,
    }
}

pub open spec fn bool_field(es: Seq<(Seq<char>, Vw)>, k: Seq<char>, d: bool) -> Option<bool> {
    match tbl_get(es, k) {
        None => Some(d),
        Some(Vw::Bool(b)) => Some(b),
        Some(_) => None,
    }
}

/// A declared static source: a required `value` and an optional `coerce`.
pub open spec fn static_of(w: Vw) -> Option<(Vw, Option<Coerce>)> {
    match doc_table(w) {
        Some(es) => if keys_in(es, seq!["value"@, "coerce"@]) {
            match (tbl_get(es, "value"@), coerce_field(es)) {
                (Some(v), Some(c)) => Some((v, c)),
                _ => None,
            }
        } else {
            None
        },
        None => None,
    }
}

/// A declared environment source: optional `env_name`, `default`, `coerce`.
pub open spec fn env_of(w: Vw) -> Option<(Option<Seq<char>>, Option<Vw>, Option<Coerce>)> {
    match doc_table(w) {
        Some(es) => if keys_in(es, seq!["env_name"@, "default"@, "coerce"@]) {
            let name = match tbl_get(es, "env_name"@) {
                None => Some(None),
                Some(Vw::Str(t)) => Some(Some(t)),
                Some(_) => None,
            };
            match (name, coerce_field(es)) {
                (Some(nm), Some(c)) => Some((nm, tbl_get(es, "default"@), c)),
                _ => None,
            }
        } else {
            None
        },
        None => None,
    }
}

/// A declared command source: a non-empty `commands` list and an optional
/// `coerce`.
pub open spec fn cli_of(w: Vw) -> Option<(Seq<Seq<char>>, Option<Coerce>)> {
    match doc_table(w) {
        Some(es) => if keys_in(es, seq!["commands"@, "coerce"@]) {
            match (tbl_get(es, "commands"@), coerce_field(es)) {
                (Some(cw), Some(c)) => match string_list_of(cw) {
                    Some(cmds) => if cmds.len() >= 1 {
                        Some((cmds, c))
                    } else {
                        None
                    },
                    None => None,
                },
                _ => None,
            }
        } else {
            None
        },
        None => None,
    }
}

/// An absent section is an empty table.
pub open spec fn section(es: Seq<(Seq<char>, Vw)>, k: Seq<char>) -> Option<
    Seq<(Seq<char>, Vw)>,
> {
    match tbl_get(es, k) {
        None => Some(Seq::<(Seq<char>, Vw)>::empty()),
        Some(w) => doc_table(w),
    }
}

pub proof fn lemma_tbl_get_at(es: Seq<(Seq<char>, Vw)>, k: Seq<char>, i: int)
    requires
        0 <= i < es.len(),
        es[i].0 == k,
        forall|j: int| 0 <= j < i ==> (#[trigger] es[j]).0 != k,
    ensures
        tbl_get(es, k) == Some(es[i].1),
    decreases i,
{
    if i > 0 {
        assert forall|j: int| 0 <= j < i - 1 implies (#[trigger] es.drop_first()[j]).0 != k by {
            assert(es.drop_first()[j] == es[j + 1]);
        }
        assert(es.drop_first()[i - 1] == es[i]);
        lemma_tbl_get_at(es.drop_first(), k, i - 1);
    }
}

pub proof fn lemma_tbl_get_none(es: Seq<(Seq<char>, Vw)>, k: Seq<char>)
    requires
        forall|j: int| 0 <= j < es.len() ==> (#[trigger] es[j]).0 != k,
    ensures
        tbl_get(es, k) is None,
    decreases es.len(),
{
    if es.len() > 0 {
        assert forall|j: int| 0 <= j < es.len() - 1 implies (#[trigger] es.drop_first()[j]).0
            != k by {
            assert(es.drop_first()[j] == es[j + 1]);
        }
        lemma_tbl_get_none(es.drop_first(), k);
    }
}

/// First entry of the table with the given key, if any.
#[verifier::loop_isolation(false)]
fn table_get<'a>(entries: &'a Vec<(String, Value)>, key: &str) -> (r: Option<&'a Value>)
    ensures
        match r {
            Some(v) => tbl_get(vw_entries(entries@, 0), key@) == Some(vw(*v)),
            None => tbl_get(vw_entries(entries@, 0), key@) is None,
        },
{
    proof {
        lemma_vw_entries(entries@, 0);
    }
    let n = entries.len();
    let mut i: usize = 0;
    while i < n
        invariant
            i <= n,
            forall|j: int| 0 <= j < i ==> (#[trigger] vw_entries(entries@, 0)[j]).0 != key@,
        decreases n - i,
    {
        if str_eq(entries[i].0.as_str(), key) {
            proof {
                assert((#[trigger] vw_entries(entries@, 0)[i as int]).0 == key@);
                lemma_tbl_get_at(vw_entries(entries@, 0), key@, i as int);
            }
            return Some(&entries[i].1);
        }
        proof {
            assert((#[trigger] vw_entries(entries@, 0)[i as int]).0 == entries@[i as int].0@);
        }
        i = i + 1;
    }
    proof {
        lemma_tbl_get_none(vw_entries(entries@, 0), key@);
    }
    None
}

fn config_err(path: &str, what: &str) -> (r: Error)
    ensures
        r is Config,
{
    let mut m = String::new();
    m.append("Config field '");
    m.append(path);
    m.append("': ");
    m.append(what);
    Error::Config(m)
}

proof fn lemma_texts_of_prefix(ivs: Seq<Vw>, i: int)
    requires
        0 <= i < ivs.len(),
        !(ivs[i] is Str),
    ensures
        texts_of(ivs.take(ivs.len() as int)) is None ==> texts_of(ivs) is None,
        texts_of(ivs) is None || i >= ivs.len(),
    decreases ivs.len() - i,
{
    assert(ivs.take(ivs.len() as int) =~= ivs);
    if i == ivs.len() - 1 {
        assert(ivs.last() == ivs[i]);
    } else {
        assert forall|j: int| 0 <= j < ivs.len() - 1 implies ivs.drop_last()[j] == ivs[j] by {}
        lemma_texts_of_prefix(ivs.drop_last(), i);
    }
}

/// Binds a list-of-strings field.
#[verifier::loop_isolation(false)]
fn string_list(v: &Value, path: &str) -> (r: Result<Vec<String>, Error>)
    ensures
        (r is Ok) == (string_list_of(vw(*v)) is Some),
        r matches Ok(xs) ==> string_list_of(vw(*v)) == Some(
            xs@.map_values(|s: String| s@),
        ),
        r matches Err(e) ==> e is Config,
{
    match v {
        Value::List(items) => {
            proof {
                lemma_vw_items(items@, 0);
            }
            let ghost ivs = vw_items(items@, 0);
            let n = items.len();
            let mut out: Vec<String> = Vec::new();
            let mut i: usize = 0;
            proof {
                assert(ivs.take(0) =~= Seq::<Vw>::empty());
            }
            while i < n
                invariant
                    i <= n,
                    out@.len() == i,
                    texts_of(ivs.take(i as int)) == Some(out@.map_values(|s: String| s@)),
                decreases n - i,
            {
                match &items[i] {
                    Value::Str(s) => {
                        out.push(s.clone());
                    },
                    _ => {
                        proof {
                            assert(!(ivs[i as int] is Str));
                            lemma_texts_of_prefix(ivs, i as int);
                        }
                        return Err(config_err(path, "must be a list of strings"));
                    },
                }
                i = i + 1;
                proof {
                    assert(ivs.take(i as int).drop_last() =~= ivs.take(i - 1));
                    assert(ivs.take(i as int).last() == ivs[i - 1]);
                    assert(out@.map_values(|s: String| s@) =~= out@.drop_last().map_values(
                        |s: String| s@,
                    ).push(out@.last()@));
                }
            }
            proof {
                assert(ivs.take(n as int) =~= ivs);
            }
            Ok(out)
        },
        _ => Err(config_err(path, "must be a list of strings")),
    }
}

/// Binds an optional `coerce` field of a source table.
fn coerce_from(entries: &Vec<(String, Value)>, path: &str) -> (r: Result<Option<Coerce>, Error>)
    ensures
        (r is Ok) == (coerce_field(vw_entries(entries@, 0)) is Some),
        r matches Ok(c) ==> coerce_field(vw_entries(entries@, 0)) == Some(c),
        r matches Err(e) ==> e is Config,
{
    match table_get(entries, "coerce") {
        None => Ok(None),
        Some(v) => match v {
            Value::Str(t) => {
                if str_eq(t.as_str(), "json") {
                    Ok(Some(Coerce::Json))
                } else if str_eq(t.as_str(), "str") {
                    Ok(Some(Coerce::Str))
                } else if str_eq(t.as_str(), "int") {
                    Ok(Some(Coerce::Int))
                } else if str_eq(t.as_str(), "float") {
                    Ok(Some(Coerce::Float))
                } else if str_eq(t.as_str(), "bool") {
                    Ok(Some(Coerce::Bool))
                } else {
                    Err(config_err(path, "coerce must be json, str, int, float or bool"))
                }
            },
            _ => Err(config_err(path, "coerce must be json, str, int, float or bool")),
        },
    }
}

/// Binds one declared static source.
#[verifier::loop_isolation(false)]
fn static_from(v: &Value, path: &str) -> (r: Result<CtxStaticVar, Error>)
    ensures
        (r is Ok) == (static_of(vw(*v)) is Some),
        r matches Ok(s) ==> static_of(vw(*v)) == Some((vw(s.value), s.coerce)),
        r matches Err(e) ==> e is Config,
{
    match v {
        Value::Table(entries) => {
            proof {
                lemma_vw_entries(entries@, 0);
            }
            let ghost es = vw_entries(entries@, 0);
            let n = entries.len();
            let mut i: usize = 0;
            while i < n
                invariant
                    i <= n,
                    forall|j: int|
                        0 <= j < i ==> seq!["value"@, "coerce"@].contains((#[trigger] es[j]).0),
                decreases n - i,
            {
                let k = entries[i].0.as_str();
                if !(str_eq(k, "value") || str_eq(k, "coerce")) {
                    proof {
                        assert(!seq!["value"@, "coerce"@].contains((#[trigger] es[i as int]).0));
                    }
                    return Err(config_err(path, "holds an unknown field (value, coerce)"));
                }
                proof {
                    if k@ == "value"@ {
                        assert(seq!["value"@, "coerce"@][0] == (#[trigger] es[i as int]).0);
                    } else {
                        assert(seq!["value"@, "coerce"@][1] == (#[trigger] es[i as int]).0);
                    }
                }
                i = i + 1;
            }
            let c = match coerce_from(entries, path) {
                Ok(c) => c,
                Err(e) => {
                    return Err(e);
                },
            };
            match table_get(entries, "value") {
                Some(val) => Ok(CtxStaticVar { value: val.dup(), coerce: c }),
                None => Err(config_err(path, "requires a value field")),
            }
        },
        _ => Err(config_err(path, "must be a table")),
    }
}

/// Binds one declared environment source.
#[verifier::loop_isolation(false)]
fn env_from(v: &Value, path: &str) -> (r: Result<CtxEnvVar, Error>)
    ensures
        (r is Ok) == (env_of(vw(*v)) is Some),
        r matches Ok(s) ==> env_of(vw(*v)) == Some(
            (
                match s.env_name {
                    Some(n) => Some(n@),
                    None => None,
                },
                match s.default {
                    Some(d) => Some(vw(d)),
                    None => None,
                },
                s.coerce,
            ),
        ),
        r matches Err(e) ==> e is Config,
{
    match v {
        Value::Table(entries) => {
            proof {
                lemma_vw_entries(entries@, 0);
            }
            let ghost es = vw_entries(entries@, 0);
            let n = entries.len();
            let mut i: usize = 0;
            while i < n
                invariant
                    i <= n,
                    forall|j: int|
                        0 <= j < i ==> seq!["env_name"@, "default"@, "coerce"@].contains(
                            (#[trigger] es[j]).0,
                        ),
                decreases n - i,
            {
                let k = entries[i].0.as_str();
                if !(str_eq(k, "env_name") || str_eq(k, "default") || str_eq(k, "coerce")) {
                    proof {
                        assert(!seq!["env_name"@, "default"@, "coerce"@].contains(
                            (#[trigger] es[i as int]).0,
                        ));
                    }
                    return Err(
                        config_err(path, "holds an unknown field (env_name, default, coerce)"),
                    );
                }
                proof {
                    let allowed = seq!["env_name"@, "default"@, "coerce"@];
                    if k@ == "env_name"@ {
                        assert(allowed[0] == (#[trigger] es[i as int]).0);
                    } else if k@ == "default"@ {
                        assert(allowed[1] == (#[trigger] es[i as int]).0);
                    } else {
                        assert(allowed[2] == (#[trigger] es[i as int]).0);
                    }
                }
                i = i + 1;
            }
            let c = match coerce_from(entries, path) {
                Ok(c) => c,
                Err(e) => {
                    return Err(e);
                },
            };
            let name: Option<String> = match table_get(entries, "env_name") {
                None => None,
                Some(nv) => match nv {
                    Value::Str(t) => Some(t.clone()),
                    _ => {
                        return Err(config_err(path, "env_name must be a string"));
                    },
                },
            };
            let default: Option<Value> = match table_get(entries, "default") {
                None => None,
                Some(d) => Some(d.dup()),
            };
            Ok(CtxEnvVar { env_name: name, default, coerce: c })
        },
        _ => Err(config_err(path, "must be a table")),
    }
}

/// Binds one declared command source.
#[verifier::loop_isolation(false)]
fn cli_from(v: &Value, path: &str) -> (r: Result<CtxCliVar, Error>)
    ensures
        (r is Ok) == (cli_of(vw(*v)) is Some),
        r matches Ok(s) ==> cli_of(vw(*v)) == Some(
            (s.commands@.map_values(|t: String| t@), s.coerce),
        ) && s.commands@.len() >= 1,
        r matches Err(e) ==> e is Config,
{
    match v {
        Value::Table(entries) => {
            proof {
                lemma_vw_entries(entries@, 0);
            }
            let ghost es = vw_entries(entries@, 0);
            let n = entries.len();
            let mut i: usize = 0;
            while i < n
                invariant
                    i <= n,
                    forall|j: int|
                        0 <= j < i ==> seq!["commands"@, "coerce"@].contains((#[trigger] es[j]).0),
                decreases n - i,
            {
                let k = entries[i].0.as_str();
                if !(str_eq(k, "commands") || str_eq(k, "coerce")) {
                    proof {
                        assert(!seq!["commands"@, "coerce"@].contains((#[trigger] es[i as int]).0));
                    }
                    return Err(config_err(path, "holds an unknown field (commands, coerce)"));
                }
                proof {
                    if k@ == "commands"@ {
                        assert(seq!["commands"@, "coerce"@][0] == (#[trigger] es[i as int]).0);
                    } else {
                        assert(seq!["commands"@, "coerce"@][1] == (#[trigger] es[i as int]).0);
                    }
                }
                i = i + 1;
            }
            let c = match coerce_from(entries, path) {
                Ok(c) => c,
                Err(e) => {
                    return Err(e);
                },
            };
            match table_get(entries, "commands") {
                Some(cv) => {
                    let cmds = match string_list(cv, path) {
                        Ok(cmds) => cmds,
                        Err(e) => {
                            return Err(e);
                        },
                    };
                    if cmds.len() == 0 {
                        return Err(config_err(path, "commands must not be empty"));
                    }
                    Ok(CtxCliVar { commands: cmds, coerce: c })
                },
                None => Err(config_err(path, "requires a commands field")),
            }
        },
        _ => Err(config_err(path, "must be a table")),
    }
}

pub open spec fn engine_keys() -> Seq<Seq<char>> {
    seq![
        "block_start"@,
        "block_end"@,
        "variable_start"@,
        "variable_end"@,
        "comment_start"@,
        "comment_end"@,
        "keep_trailing_newline"@,
        "allow_undefined"@,
        "custom_extensions"@,
    ]
}

/// The engine table's shape: known keys, strings, booleans and a string
/// list, all optional.
pub open spec fn engine_wf(es: Seq<(Seq<char>, Vw)>) -> bool {
    &&& keys_in(es, engine_keys())
    &&& str_field(es, "block_start"@, "{%"@) is Some
    &&& str_field(es, "block_end"@, "%}"@) is Some
    &&& str_field(es, "variable_start"@, "{{"@) is Some
    &&& str_field(es, "variable_end"@, "}}"@) is Some
    &&& str_field(es, "comment_start"@, "{#"@) is Some
    &&& str_field(es, "comment_end"@, "#}"@) is Some
    &&& bool_field(es, "keep_trailing_newline"@, true) is Some
    &&& bool_field(es, "allow_undefined"@, false) is Some
    &&& list_field(es, "custom_extensions"@) is Some
}

/// Each engine setting is the declared field or its default.
pub open spec fn engine_view_matches(es: Seq<(Seq<char>, Vw)>, e: Engine) -> bool {
    &&& str_field(es, "block_start"@, "{%"@) == Some(e.block_start@)
    &&& str_field(es, "block_end"@, "%}"@) == Some(e.block_end@)
    &&& str_field(es, "variable_start"@, "{{"@) == Some(e.variable_start@)
    &&& str_field(es, "variable_end"@, "}}"@) == Some(e.variable_end@)
    &&& str_field(es, "comment_start"@, "{#"@) == Some(e.comment_start@)
    &&& str_field(es, "comment_end"@, "#}"@) == Some(e.comment_end@)
    &&& bool_field(es, "keep_trailing_newline"@, true) == Some(e.keep_trailing_newline)
    &&& bool_field(es, "allow_undefined"@, false) == Some(e.allow_undefined)
    &&& list_field(es, "custom_extensions"@) == Some(
        e.custom_extensions@.map_values(|s: String| s@),
    )
}

fn get_str_field(entries: &Vec<(String, Value)>, key: &str, default: &str) -> (r: Result<
    String,
    Error,
>)
    ensures
        (r is Ok) == (str_field(vw_entries(entries@, 0), key@, default@) is Some),
        r matches Ok(s) ==> str_field(vw_entries(entries@, 0), key@, default@) == Some(s@),
        r matches Err(e) ==> e is Config,
{
    match table_get(entries, key) {
        None => Ok(default.to_owned()),
        Some(v) => match v {
            Value::Str(t) => Ok(t.clone()),
            _ => Err(config_err(key, "must be a string")),
        },
    }
}

fn get_bool_field(entries: &Vec<(String, Value)>, key: &str, default: bool) -> (r: Result<
    bool,
    Error,
>)
    ensures
        (r is Ok) == (bool_field(vw_entries(entries@, 0), key@, default) is Some),
        r matches Ok(b) ==> bool_field(vw_entries(entries@, 0), key@, default) == Some(b),
        r matches Err(e) ==> e is Config,
{
    match table_get(entries, key) {
        None => Ok(default),
        Some(v) => match v {
            Value::Bool(b) => Ok(*b),
            _ => Err(config_err(key, "must be a boolean")),
        },
    }
}

/// Binds the engine table into settings, defaults filling absent fields.
#[verifier::loop_isolation(false)]
fn engine_from(entries: &Vec<(String, Value)>) -> (r: Result<Engine, Error>)
    ensures
        (r is Ok) == engine_wf(vw_entries(entries@, 0)),
        r matches Ok(e) ==> engine_view_matches(vw_entries(entries@, 0), e),
        r matches Err(e) ==> e is Config,
{
    proof {
        lemma_vw_entries(entries@, 0);
    }
    let ghost es = vw_entries(entries@, 0);
    let n = entries.len();
    let mut i: usize = 0;
    while i < n
        invariant
            i <= n,
            forall|j: int| 0 <= j < i ==> engine_keys().contains((#[trigger] es[j]).0),
        decreases n - i,
    {
        let k = entries[i].0.as_str();
        if str_eq(k, "block_start") {
            proof {
                assert(engine_keys()[0] == (#[trigger] es[i as int]).0);
            }
        } else if str_eq(k, "block_end") {
            proof {
                assert(engine_keys()[1] == (#[trigger] es[i as int]).0);
            }
        } else if str_eq(k, "variable_start") {
            proof {
                assert(engine_keys()[2] == (#[trigger] es[i as int]).0);
            }
        } else if str_eq(k, "variable_end") {
            proof {
                assert(engine_keys()[3] == (#[trigger] es[i as int]).0);
            }
        } else if str_eq(k, "comment_start") {
            proof {
                assert(engine_keys()[4] == (#[trigger] es[i as int]).0);
            }
        } else if str_eq(k, "comment_end") {
            proof {
                assert(engine_keys()[5] == (#[trigger] es[i as int]).0);
            }
        } else if str_eq(k, "keep_trailing_newline") {
            proof {
                assert(engine_keys()[6] == (#[trigger] es[i as int]).0);
            }
        } else if str_eq(k, "allow_undefined") {
            proof {
                assert(engine_keys()[7] == (#[trigger] es[i as int]).0);
            }
        } else if str_eq(k, "custom_extensions") {
            proof {
                assert(engine_keys()[8] == (#[trigger] es[i as int]).0);
            }
        } else {
            proof {
                assert(!engine_keys().contains((#[trigger] es[i as int]).0));
            }
            return Err(config_err("engine", "holds an unknown field"));
        }
        i = i + 1;
    }
    let block_start = match get_str_field(entries, "block_start", "{%") {
        Ok(v) => v,
        Err(e) => {
            return Err(e);
        },
    };
    let block_end = match get_str_field(entries, "block_end", "%}") {
        Ok(v) => v,
        Err(e) => {
            return Err(e);
        },
    };
    let variable_start = match get_str_field(entries, "variable_start", "{{") {
        Ok(v) => v,
        Err(e) => {
            return Err(e);
        },
    };
    let variable_end = match get_str_field(entries, "variable_end", "}}") {
        Ok(v) => v,
        Err(e) => {
            return Err(e);
        },
    };
    let comment_start = match get_str_field(entries, "comment_start", "{#") {
        Ok(v) => v,
        Err(e) => {
            return Err(e);
        },
    };
    let comment_end = match get_str_field(entries, "comment_end", "#}") {
        Ok(v) => v,
        Err(e) => {
            return Err(e);
        },
    };
    let keep_trailing_newline = match get_bool_field(entries, "keep_trailing_newline", true) {
        Ok(v) => v,
        Err(e) => {
            return Err(e);
        },
    };
    let allow_undefined = match get_bool_field(entries, "allow_undefined", false) {
        Ok(v) => v,
        Err(e) => {
            return Err(e);
        },
    };
    let custom_extensions = match table_get(entries, "custom_extensions") {
        None => {
            let v: Vec<String> = Vec::new();
            proof {
                assert(v@.map_values(|s: String| s@) =~= Seq::<Seq<char>>::empty());
            }
            v
        },
        Some(v) => match string_list(v, "engine.custom_extensions") {
            Ok(xs) => xs,
            Err(e) => {
                return Err(e);
            },
        },
    };
    Ok(
        Engine {
            block_start,
            block_end,
            variable_start,
            variable_end,
            comment_start,
            comment_end,
            keep_trailing_newline,
            allow_undefined,
            custom_extensions,
        },
    )
}

// Correspondence between the context section's tables and the bound sources.
pub open spec fn statics_match(es: Seq<(Seq<char>, Vw)>, out: Seq<(String, CtxStaticVar)>) -> bool {
    &&& out.len() == es.len()
    &&& forall|i: int|
        0 <= i < es.len() ==> (#[trigger] out[i]).0@ == es[i].0 && static_of(es[i].1) == Some(
            (vw(out[i].1.value), out[i].1.coerce),
        )
}

pub open spec fn envs_match(es: Seq<(Seq<char>, Vw)>, out: Seq<(String, CtxEnvVar)>) -> bool {
    &&& out.len() == es.len()
    &&& forall|i: int|
        0 <= i < es.len() ==> (#[trigger] out[i]).0@ == es[i].0 && env_of(es[i].1) == Some(
            (
                match out[i].1.env_name {
                    Some(n) => Some(n@),
                    None => None,
                },
                match out[i].1.default {
                    Some(d) => Some(vw(d)),
                    None => None,
                },
                out[i].1.coerce,
            ),
        )
}

pub open spec fn clis_match(es: Seq<(Seq<char>, Vw)>, out: Seq<(String, CtxCliVar)>) -> bool {
    &&& out.len() == es.len()
    &&& forall|i: int|
        0 <= i < es.len() ==> (#[trigger] out[i]).0@ == es[i].0 && cli_of(es[i].1) == Some(
            (out[i].1.commands@.map_values(|t: String| t@), out[i].1.coerce),
        ) && out[i].1.commands@.len() >= 1
}

pub open spec fn context_wf(w: Vw) -> bool {
    match doc_table(w) {
        Some(ces) => {
            &&& keys_in(ces, seq!["static"@, "env"@, "cli"@])
            &&& match section(ces, "static"@) {
                Some(ses) => forall|i: int|
                    0 <= i < ses.len() ==> static_of((#[trigger] ses[i]).1) is Some,
                None => false,
            }
            &&& match section(ces, "env"@) {
                Some(ses) => forall|i: int|
                    0 <= i < ses.len() ==> env_of((#[trigger] ses[i]).1) is Some,
                None => false,
            }
            &&& match section(ces, "cli"@) {
                Some(ses) => forall|i: int|
                    0 <= i < ses.len() ==> cli_of((#[trigger] ses[i]).1) is Some,
                None => false,
            }
        },
        None => false,
    }
}

pub open spec fn context_matches(w: Vw, c: Context) -> bool {
    match doc_table(w) {
        Some(ces) => {
            &&& match section(ces, "static"@) {
                Some(ses) => statics_match(ses, c.stat@),
                None => false,
            }
            &&& match section(ces, "env"@) {
                Some(ses) => envs_match(ses, c.env@),
                None => false,
            }
            &&& match section(ces, "cli"@) {
                Some(ses) => clis_match(ses, c.cli@),
                None => false,
            }
        },
        None => false,
    }
}

/// Builds "context.<kind>.<name>" for an error path.
fn source_path(kind: &str, name: &str) -> (r: String)
    ensures
        r@ == "context."@ + kind@ + "."@ + name@,
{
    let mut m = String::new();
    m.append("context.");
    m.append(kind);
    m.append(".");
    m.append(name);
    m
}

/// Binds the context section: three optional tables of declared sources.
#[verifier::loop_isolation(false)]
fn context_from(v: &Value) -> (r: Result<Context, Error>)
    ensures
        (r is Ok) == context_wf(vw(*v)),
        r matches Ok(c) ==> context_matches(vw(*v), c),
        r matches Err(e) ==> e is Config,
{
    let entries = match v {
        Value::Table(entries) => entries,
        _ => {
            return Err(config_err("context", "must be a table"));
        },
    };
    proof {
        lemma_vw_entries(entries@, 0);
    }
    let ghost ces = vw_entries(entries@, 0);
    let n = entries.len();
    let mut i: usize = 0;
    while i < n
        invariant
            i <= n,
            forall|j: int|
                0 <= j < i ==> seq!["static"@, "env"@, "cli"@].contains((#[trigger] ces[j]).0),
        decreases n - i,
    {
        let k = entries[i].0.as_str();
        if str_eq(k, "static") {
            proof {
                assert(seq!["static"@, "env"@, "cli"@][0] == (#[trigger] ces[i as int]).0);
            }
        } else if str_eq(k, "env") {
            proof {
                assert(seq!["static"@, "env"@, "cli"@][1] == (#[trigger] ces[i as int]).0);
            }
        } else if str_eq(k, "cli") {
            proof {
                assert(seq!["static"@, "env"@, "cli"@][2] == (#[trigger] ces[i as int]).0);
            }
        } else {
            proof {
                assert(!seq!["static"@, "env"@, "cli"@].contains((#[trigger] ces[i as int]).0));
            }
            return Err(config_err("context", "holds an unknown section (static, env, cli)"));
        }
        i = i + 1;
    }
    // static sources
    let mut stat: Vec<(String, CtxStaticVar)> = Vec::new();
    match table_get(entries, "static") {
        None => {
            proof {
                assert(section(ces, "static"@) == Some(Seq::<(Seq<char>, Vw)>::empty()));
                assert(statics_match(Seq::<(Seq<char>, Vw)>::empty(), stat@));
            }
        },
        Some(sv) => match sv {
            Value::Table(ses) => {
                proof {
                    lemma_vw_entries(ses@, 0);
                }
                let ghost sev = vw_entries(ses@, 0);
                let m = ses.len();
                let mut j: usize = 0;
                while j < m
                    invariant
                        j <= m,
                        stat@.len() == j,
                        forall|q: int|
                            0 <= q < j ==> (#[trigger] stat@[q]).0@ == sev[q].0 && static_of(
                                sev[q].1,
                            ) == Some((vw(stat@[q].1.value), stat@[q].1.coerce)),
                    decreases m - j,
                {
                    let path = source_path("static", ses[j].0.as_str());
                    match static_from(&ses[j].1, path.as_str()) {
                        Ok(s) => {
                            stat.push((ses[j].0.clone(), s));
                        },
                        Err(e) => {
                            return Err(e);
                        },
                    }
                    j = j + 1;
                }
                proof {
                    assert(section(ces, "static"@) == Some(sev));
                    assert(statics_match(sev, stat@));
                    assert forall|q: int| 0 <= q < sev.len() implies static_of(
                        (#[trigger] sev[q]).1,
                    ) is Some by {
                        assert((#[trigger] stat@[q]).0@ == sev[q].0);
                    }
                }
            },
            _ => {
                return Err(config_err("context.static", "must be a table"));
            },
        },
    }
    // env sources
    let mut env: Vec<(String, CtxEnvVar)> = Vec::new();
    match table_get(entries, "env") {
        None => {
            proof {
                assert(section(ces, "env"@) == Some(Seq::<(Seq<char>, Vw)>::empty()));
                assert(envs_match(Seq::<(Seq<char>, Vw)>::empty(), env@));
            }
        },
        Some(sv) => match sv {
            Value::Table(ses) => {
                proof {
                    lemma_vw_entries(ses@, 0);
                }
                let ghost sev = vw_entries(ses@, 0);
                let m = ses.len();
                let mut j: usize = 0;
                while j < m
                    invariant
                        j <= m,
                        env@.len() == j,
                        forall|q: int|
                            0 <= q < j ==> (#[trigger] env@[q]).0@ == sev[q].0 && env_of(sev[q].1)
                                == Some(
                                (
                                    match env@[q].1.env_name {
                                        Some(nm) => Some(nm@),
                                        None => None,
                                    },
                                    match env@[q].1.default {
                                        Some(d) => Some(vw(d)),
                                        None => None,
                                    },
                                    env@[q].1.coerce,
                                ),
                            ),
                    decreases m - j,
                {
                    let path = source_path("env", ses[j].0.as_str());
                    match env_from(&ses[j].1, path.as_str()) {
                        Ok(s) => {
                            env.push((ses[j].0.clone(), s));
                        },
                        Err(e) => {
                            return Err(e);
                        },
                    }
                    j = j + 1;
                }
                proof {
                    assert(section(ces, "env"@) == Some(sev));
                    assert(envs_match(sev, env@));
                    assert forall|q: int| 0 <= q < sev.len() implies env_of(
                        (#[trigger] sev[q]).1,
                    ) is Some by {
                        assert((#[trigger] env@[q]).0@ == sev[q].0);
                    }
                }
            },
            _ => {
                return Err(config_err("context.env", "must be a table"));
            },
        },
    }
    // cli sources
    let mut cli: Vec<(String, CtxCliVar)> = Vec::new();
    match table_get(entries, "cli") {
        None => {
            proof {
                assert(section(ces, "cli"@) == Some(Seq::<(Seq<char>, Vw)>::empty()));
                assert(clis_match(Seq::<(Seq<char>, Vw)>::empty(), cli@));
            }
        },
        Some(sv) => match sv {
            Value::Table(ses) => {
                proof {
                    lemma_vw_entries(ses@, 0);
                }
                let ghost sev = vw_entries(ses@, 0);
                let m = ses.len();
                let mut j: usize = 0;
                while j < m
                    invariant
                        j <= m,
                        cli@.len() == j,
                        forall|q: int|
                            0 <= q < j ==> (#[trigger] cli@[q]).0@ == sev[q].0 && cli_of(sev[q].1)
                                == Some(
                                (
                                    cli@[q].1.commands@.map_values(|t: String| t@),
                                    cli@[q].1.coerce,
                                ),
                            ) && cli@[q].1.commands@.len() >= 1,
                    decreases m - j,
                {
                    let path = source_path("cli", ses[j].0.as_str());
                    match cli_from(&ses[j].1, path.as_str()) {
                        Ok(s) => {
                            cli.push((ses[j].0.clone(), s));
                        },
                        Err(e) => {
                            return Err(e);
                        },
                    }
                    j = j + 1;
                }
                proof {
                    assert(section(ces, "cli"@) == Some(sev));
                    assert(clis_match(sev, cli@));
                    assert forall|q: int| 0 <= q < sev.len() implies cli_of(
                        (#[trigger] sev[q]).1,
                    ) is Some by {
                        assert((#[trigger] cli@[q]).0@ == sev[q].0);
                    }
                }
            },
            _ => {
                return Err(config_err("context.cli", "must be a table"));
            },
        },
    }
    Ok(Context { stat, env, cli })
}

/// The whole document's shape.
pub open spec fn config_wf(w: Vw) -> bool {
    match doc_table(w) {
        Some(es) => {
            &&& keys_in(
                es,
                seq!["context"@, "exclude"@, "engine"@, "ignore_files"@, "setup_commands"@],
            )
            &&& list_field(es, "exclude"@) is Some
            &&& list_field(es, "ignore_files"@) is Some
            &&& list_field(es, "setup_commands"@) is Some
            &&& match section(es, "engine"@) {
                Some(ees) => engine_wf(ees),
                None => false,
            }
            &&& match tbl_get(es, "context"@) {
                None => true,
                Some(cw) => context_wf(cw),
            }
        },
        None => false,
    }
}

/// What the bound settings say, field by field, about the document.
pub open spec fn config_matches(w: Vw, c: RawConfig) -> bool {
    match doc_table(w) {
        Some(es) => {
            &&& list_field(es, "exclude"@) == Some(c.exclude@.map_values(|s: String| s@))
            &&& list_field(es, "ignore_files"@) == Some(
                c.ignore_files@.map_values(|s: String| s@),
            )
            &&& list_field(es, "setup_commands"@) == Some(
                c.setup_commands@.map_values(|s: String| s@),
            )
            &&& match section(es, "engine"@) {
                Some(ees) => engine_view_matches(ees, c.engine),
                None => false,
            }
            &&& match tbl_get(es, "context"@) {
                None => c.context.stat@.len() == 0 && c.context.env@.len() == 0
                    && c.context.cli@.len() == 0,
                Some(cw) => context_matches(cw, c.context),
            }
        },
        None => false,
    }
}

/// Validates a decoded configuration document against the schema and binds
/// it into typed settings. Succeeds exactly on well-shaped documents; every
/// absent section falls back to its default.
#[verifier::loop_isolation(false)]
pub fn from_doc(doc: &Value) -> (r: Result<RawConfig, Error>)
    ensures
        (r is Ok) == config_wf(vw(*doc)),
        r matches Ok(c) ==> config_matches(vw(*doc), c),
        r matches Err(e) ==> e is Config,
{
    let entries = match doc {
        Value::Table(entries) => entries,
        _ => {
            return Err(
                config_err("document", "the configuration document must be a table at top level"),
            );
        },
    };
    proof {
        lemma_vw_entries(entries@, 0);
    }
    let ghost es = vw_entries(entries@, 0);
    let ghost top = seq!["context"@, "exclude"@, "engine"@, "ignore_files"@, "setup_commands"@];
    let n = entries.len();
    let mut i: usize = 0;
    while i < n
        invariant
            i <= n,
            forall|j: int| 0 <= j < i ==> top.contains((#[trigger] es[j]).0),
        decreases n - i,
    {
        let k = entries[i].0.as_str();
        if str_eq(k, "context") {
            proof {
                assert(top[0] == (#[trigger] es[i as int]).0);
            }
        } else if str_eq(k, "exclude") {
            proof {
                assert(top[1] == (#[trigger] es[i as int]).0);
            }
        } else if str_eq(k, "engine") {
            proof {
                assert(top[2] == (#[trigger] es[i as int]).0);
            }
        } else if str_eq(k, "ignore_files") {
            proof {
                assert(top[3] == (#[trigger] es[i as int]).0);
            }
        } else if str_eq(k, "setup_commands") {
            proof {
                assert(top[4] == (#[trigger] es[i as int]).0);
            }
        } else {
            proof {
                assert(!top.contains((#[trigger] es[i as int]).0));
            }
            return Err(config_err("document", "holds an unknown top-level field"));
        }
        i = i + 1;
    }
    let exclude = match table_get(entries, "exclude") {
        None => {
            let v: Vec<String> = Vec::new();
            proof {
                assert(v@.map_values(|s: String| s@) =~= Seq::<Seq<char>>::empty());
            }
            v
        },
        Some(v) => match string_list(v, "exclude") {
            Ok(xs) => xs,
            Err(e) => {
                return Err(e);
            },
        },
    };
    let ignore_files = match table_get(entries, "ignore_files") {
        None => {
            let v: Vec<String> = Vec::new();
            proof {
                assert(v@.map_values(|s: String| s@) =~= Seq::<Seq<char>>::empty());
            }
            v
        },
        Some(v) => match string_list(v, "ignore_files") {
            Ok(xs) => xs,
            Err(e) => {
                return Err(e);
            },
        },
    };
    let setup_commands = match table_get(entries, "setup_commands") {
        None => {
            let v: Vec<String> = Vec::new();
            proof {
                assert(v@.map_values(|s: String| s@) =~= Seq::<Seq<char>>::empty());
            }
            v
        },
        Some(v) => match string_list(v, "setup_commands") {
            Ok(xs) => xs,
            Err(e) => {
                return Err(e);
            },
        },
    };
    let engine = match table_get(entries, "engine") {
        None => {
            let e = Engine::default();
            proof {
                assert(section(es, "engine"@) == Some(Seq::<(Seq<char>, Vw)>::empty()));
                assert(e.custom_extensions@.map_values(|s: String| s@) =~= Seq::<
                    Seq<char>,
                >::empty());
                assert(engine_wf(Seq::<(Seq<char>, Vw)>::empty()));
                assert(engine_view_matches(Seq::<(Seq<char>, Vw)>::empty(), e));
            }
            e
        },
        Some(v) => match v {
            Value::Table(ees) => match engine_from(ees) {
                Ok(e) => e,
                Err(e) => {
                    return Err(e);
                },
            },
            _ => {
                return Err(config_err("engine", "must be a table"));
            },
        },
    };
    let context = match table_get(entries, "context") {
        None => Context::default(),
        Some(v) => match context_from(v) {
            Ok(c) => c,
            Err(e) => {
                return Err(e);
            },
        },
    };
    Ok(RawConfig { context, exclude, engine, ignore_files, setup_commands })
}

} // verus!
