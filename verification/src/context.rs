//! Context resolution: each declared source yields exactly one value or
//! fails. Environment lookups and command execution happen at the caller's
//! side; every decision about their outcomes is made here.
use vstd::prelude::*;
use vstd::string::StringExecFns;

use crate::coerce::coerce;
use crate::coerce::coerce_spec;
use crate::coerce::Coerce;
use crate::digits::int_dec_chars;
use crate::digits::i32_to_string;
use crate::errors::Error;
use crate::value::trim_spec;
use crate::value::trim_string;
use crate::value::vw;
use crate::value::Value;
use crate::value::Vw;

verus! {

/// A static context source: its declared value is coerced directly.
pub struct CtxStaticVar {
    pub value: Value,
    pub coerce: Option<Coerce>,
}

impl CtxStaticVar {
    pub fn consume(self) -> (r: Result<Value, Error>)
        ensures
            r matches Ok(out) ==> coerce_spec(vw(self.value), self.coerce) == Some(vw(out)),
            (r is Err) <==> (coerce_spec(vw(self.value), self.coerce) is None),
            r matches Err(e) ==> e is Coercion,
    {
        coerce(self.value, self.coerce)
    }
}

/// An environment context source: the named variable's value, or a declared
/// default, coerced.
pub struct CtxEnvVar {
    pub env_name: Option<String>,
    pub default: Option<Value>,
    pub coerce: Option<Coerce>,
}

impl CtxEnvVar {
    /// The variable this source reads: the declared name, or the context
    /// key's own name when none is declared.
    pub fn lookup_name(&self, key_name: &str) -> (r: String)
        ensures
            r@ == match self.env_name {
                Some(n) => n@,
                None => key_name@,
            },
    {
        match &self.env_name {
            Some(n) => n.clone(),
            None => key_name.to_owned(),
        }
    }

    /// Turns the lookup's outcome into this source's value: a found value is
    /// coerced; an absent variable falls back to the declared default,
    /// coerced, and fails with an error naming the variable when there is no
    /// default.
    pub fn consume(self, key_name: &str, env_value: Option<String>) -> (r: Result<Value, Error>)
        ensures
            ({
                let input = match env_value {
                    Some(s) => Some(Vw::Str(s@)),
                    None => match self.default {
                        Some(d) => Some(vw(d)),
                        None => None,
                    },
                };
                match input {
                    Some(v) => {
                        &&& (r matches Ok(out) ==> coerce_spec(v, self.coerce) == Some(vw(out)))
                        &&& ((r is Err) <==> (coerce_spec(v, self.coerce) is None))
                    },
                    None => r matches Err(e) && e is ContextResolution && e.msg()
                        == "Could not find environment variable '"@ + (match self.env_name {
                        Some(n) => n@,
                        None => key_name@,
                    }) + "' and no default provided."@,
                }
            }),
    {
        let name = self.lookup_name(key_name);
        match env_value {
            Some(s) => coerce(Value::Str(s), self.coerce),
            None => match self.default {
                Some(d) => coerce(d, self.coerce),
                None => {
                    let mut m = String::new();
                    m.append("Could not find environment variable '");
                    m.append(name.as_str());
                    m.append("' and no default provided.");
                    Err(Error::ContextResolution(m))
                },
            },
        }
    }
}

/// An external-command context source: an ordered list of shell commands;
/// the last one's standard output becomes the value.
pub struct CtxCliVar {
    pub commands: Vec<String>,
    pub coerce: Option<Coerce>,
}

/// Judges one command's exit status: any non-zero exit is a hard failure
/// whose message names the command and the code.
pub fn check_command_exit(command: &str, code: i32) -> (r: Result<(), Error>)
    ensures
        (r is Ok) <==> code == 0,
        r matches Err(e) ==> e is ContextResolution && e.msg() == "Command '"@ + command@
            + "' returned non zero exit code: "@ + int_dec_chars(code as int),
{
    if code == 0 {
        Ok(())
    } else {
        let mut m = String::new();
        m.append("Command '");
        m.append(command);
        m.append("' returned non zero exit code: ");
        let t = i32_to_string(code);
        m.append(t.as_str());
        Err(Error::ContextResolution(m))
    }
}

/// Judges one setup command's exit status, before any context resolution.
pub fn check_setup_exit(command: &str, code: i32) -> (r: Result<(), Error>)
    ensures
        (r is Ok) <==> code == 0,
        r matches Err(e) ==> e is ContextResolution && e.msg() == "Setup command '"@ + command@
            + "' returned non zero exit code: "@ + int_dec_chars(code as int),
{
    if code == 0 {
        Ok(())
    } else {
        let mut m = String::new();
        m.append("Setup command '");
        m.append(command);
        m.append("' returned non zero exit code: ");
        let t = i32_to_string(code);
        m.append(t.as_str());
        Err(Error::ContextResolution(m))
    }
}

impl CtxCliVar {
    /// Turns the last command's standard output into this source's value.
    /// Output that is empty once trimmed is an explicit failure, not a
    /// silent empty string; otherwise the raw output is coerced.
    pub fn consume(self, command: &str, stdout: String) -> (r: Result<Value, Error>)
        ensures
            trim_spec(stdout@).len() == 0 ==> (r matches Err(e) && e is ContextResolution
                && e.msg() == "Implicit None. Final cli script returned nothing. Command '"@
                + command@ + "'."@),
            trim_spec(stdout@).len() > 0 ==> {
                &&& (r matches Ok(out) ==> coerce_spec(Vw::Str(stdout@), self.coerce) == Some(
                    vw(out),
                ))
                &&& ((r is Err) <==> (coerce_spec(Vw::Str(stdout@), self.coerce) is None))
            },
    {
        let t = trim_string(stdout.as_str());
        if t.unicode_len() == 0 {
            let mut m = String::new();
            m.append("Implicit None. Final cli script returned nothing. Command '");
            m.append(command);
            m.append("'.");
            Err(Error::ContextResolution(m))
        } else {
            coerce(Value::Str(stdout), self.coerce)
        }
    }
}

/// The declared context sources, by kind; each entry is one context key.
pub struct Context {
    pub stat: Vec<(String, CtxStaticVar)>,
    pub env: Vec<(String, CtxEnvVar)>,
    pub cli: Vec<(String, CtxCliVar)>,
}

impl Context {
    pub fn default() -> (r: Context)
        ensures
            r.stat@.len() == 0,
            r.env@.len() == 0,
            r.cli@.len() == 0,
    {
        Context { stat: Vec::new(), env: Vec::new(), cli: Vec::new() }
    }
}

/// The resolved context as a map from key to value view.
pub open spec fn ctx_map(entries: Seq<(String, Value)>) -> Map<Seq<char>, Vw>
    decreases entries.len(),
{
    if entries.len() == 0 {
        Map::<Seq<char>, Vw>::empty()
    } else {
        ctx_map(entries.drop_last()).insert(entries.last().0@, vw(entries.last().1))
    }
}

pub open spec fn ctx_keys_unique(entries: Seq<(String, Value)>) -> bool {
    forall|i: int, j: int|
        0 <= i < j < entries.len() ==> (#[trigger] entries[i]).0@ != (#[trigger] entries[j]).0@
}

pub open spec fn ctx_has_key(entries: Seq<(String, Value)>, k: Seq<char>) -> bool {
    exists|i: int| 0 <= i < entries.len() && (#[trigger] entries[i]).0@ == k
}

/// Adds one resolved entry to the context. A key defined twice is rejected:
/// an ambiguous configuration fails fast rather than letting one source
/// shadow another.
#[verifier::loop_isolation(false)]
pub fn insert_unique(ctx: &mut Vec<(String, Value)>, key: String, value: Value) -> (r: Result<
    (),
    Error,
>)
    requires
        ctx_keys_unique(old(ctx)@),
    ensures
        ctx_keys_unique(final(ctx)@),
        (r is Ok) <==> !ctx_has_key(old(ctx)@, key@),
        r is Ok ==> final(ctx)@ == old(ctx)@.push((key, value)),
        r is Err ==> *final(ctx) == *old(ctx),
        r matches Err(e) ==> e is Config && e.msg() == "Duplicate context key '"@ + key@
            + "': a context key may be defined by exactly one source."@,
{
    let n = ctx.len();
    let mut i: usize = 0;
    while i < n
        invariant
            i <= n,
            n == ctx@.len(),
            ctx == old(ctx),
            forall|j: int| 0 <= j < i ==> (#[trigger] ctx@[j]).0@ != key@,
        decreases n - i,
    {
        if ctx[i].0.eq(&key) {
            proof {
                assert((#[trigger] ctx@[i as int]).0@ == key@);
            }
            let mut m = String::new();
            m.append("Duplicate context key '");
            m.append(key.as_str());
            m.append("': a context key may be defined by exactly one source.");
            return Err(Error::Config(m));
        }
        i = i + 1;
    }
    let ghost before = ctx@;
    ctx.push((key, value));
    proof {
        assert forall|i2: int, j2: int| 0 <= i2 < j2 < ctx@.len() implies (
        #[trigger] ctx@[i2]).0@ != (#[trigger] ctx@[j2]).0@ by {
            if j2 < ctx@.len() - 1 {
                assert(before[i2] == ctx@[i2]);
                assert(before[j2] == ctx@[j2]);
            } else {
                assert(before[i2] == ctx@[i2]);
            }
        }
    }
    Ok(())
}

/// Whether the context already defines the key.
#[verifier::loop_isolation(false)]
fn has_ctx_key(ctx: &Vec<(String, Value)>, key: &str) -> (r: bool)
    ensures
        r == ctx_has_key(ctx@, key@),
{
    let n = ctx.len();
    let mut i: usize = 0;
    while i < n
        invariant
            i <= n,
            n == ctx@.len(),
            forall|j: int| 0 <= j < i ==> (#[trigger] ctx@[j]).0@ != key@,
        decreases n - i,
    {
        if crate::strutil::str_eq(ctx[i].0.as_str(), key) {
            proof {
                assert((#[trigger] ctx@[i as int]).0@ == key@);
            }
            return true;
        }
        i = i + 1;
    }
    false
}

/// Joins concurrently resolved command-sourced entries into the context, in
/// whatever order they arrived. It succeeds exactly when no key repeats —
/// neither among the results nor against the context — and then the context
/// holds exactly its old pairs and the results' pairs; a rejected join
/// leaves the context untouched.
#[verifier::loop_isolation(false)]
#[verifier::rlimit(60)]
pub fn merge_results(ctx: &mut Vec<(String, Value)>, results: Vec<(String, Value)>) -> (r: Result<
    (),
    Error,
>)
    requires
        ctx_keys_unique(old(ctx)@),
    ensures
        ctx_keys_unique(final(ctx)@),
        (r is Ok) <==> ctx_keys_unique(old(ctx)@ + results@),
        r is Ok ==> ctx_pairs(final(ctx)@).to_multiset() == ctx_pairs(old(ctx)@).to_multiset().add(
            ctx_pairs(results@).to_multiset(),
        ),
        r is Err ==> *final(ctx) == *old(ctx),
        r matches Err(e) ==> e is Config && (exists|k: Seq<char>|
            e.msg() == "Duplicate context key '"@ + k
                + "': a context key may be defined by exactly one source."@),
{
    broadcast use vstd::seq_lib::group_to_multiset_ensures;

    let ghost all = old(ctx)@ + results@;
    let ghost ol = old(ctx)@.len() as int;
    // First pass: reject any repeated key before touching the context.
    let n = results.len();
    let mut i: usize = 0;
    while i < n
        invariant
            i <= n,
            n == results@.len(),
            *ctx == *old(ctx),
            forall|p: int| 0 <= p < i ==> !ctx_has_key(ctx@, (#[trigger] results@[p]).0@),
            forall|p: int, q: int|
                0 <= p < q < i ==> (#[trigger] results@[p]).0@ != (#[trigger] results@[q]).0@,
        decreases n - i,
    {
        if has_ctx_key(ctx, results[i].0.as_str()) {
            proof {
                let j = choose|j: int| 0 <= j < ctx@.len() && (#[trigger] ctx@[j]).0@ == results@[
                    i as int
                ].0@;
                assert((#[trigger] all[j]).0@ == ((#[trigger] all[ol + i]).0@));
                assert(!ctx_keys_unique(all));
            }
            return Err(duplicate_key_error(results[i].0.as_str()));
        }
        let mut j: usize = 0;
        while j < i
            invariant
                j <= i < n,
                forall|q: int| 0 <= q < j ==> (#[trigger] results@[q]).0@ != results@[i as int].0@,
            decreases i - j,
        {
            if results[j].0.eq(&results[i].0) {
                proof {
                    assert((#[trigger] results@[j as int]).0@ == results@[i as int].0@);
                    assert((#[trigger] all[ol + j]).0@ == ((#[trigger] all[ol + i]).0@));
                    assert(!ctx_keys_unique(all));
                }
                return Err(duplicate_key_error(results[i].0.as_str()));
            }
            j = j + 1;
        }
        i = i + 1;
    }
    proof {
        assert forall|p: int, q: int| 0 <= p < q < all.len() implies (#[trigger] all[p]).0@ != (
        #[trigger] all[q]).0@ by {
            if q < ol {
                assert(all[p] == old(ctx)@[p]);
                assert(all[q] == old(ctx)@[q]);
            } else if p < ol {
                assert(all[p] == old(ctx)@[p]);
                assert(all[q] == results@[q - ol]);
                if all[p].0@ == all[q].0@ {
                    assert(ctx_has_key(old(ctx)@, (#[trigger] results@[q - ol]).0@));
                }
            } else {
                assert(all[p] == results@[p - ol]);
                assert(all[q] == results@[q - ol]);
                assert((#[trigger] results@[p - ol]).0@ != (#[trigger] results@[q - ol]).0@);
            }
        }
        assert(ctx_keys_unique(all));
    }
    // Second pass: every entry is now fresh, so each insertion succeeds.
    let mut rest = results;
    loop
        invariant
            ctx_keys_unique(ctx@),
            rest@.len() <= results@.len(),
            rest@ == results@.take(rest@.len() as int),
            forall|p: int| 0 <= p < results@.len() ==> !ctx_has_key(
                old(ctx)@,
                (#[trigger] results@[p]).0@,
            ),
            forall|p: int, q: int|
                0 <= p < q < results@.len() ==> (#[trigger] results@[p]).0@ != (
                #[trigger] results@[q]).0@,
            forall|k: Seq<char>|
                #[trigger] ctx_has_key(ctx@, k) <==> ctx_has_key(old(ctx)@, k) || (exists|p: int|
                    rest@.len() <= p < results@.len() && (#[trigger] results@[p]).0@ == k),
            ctx_pairs(ctx@).to_multiset().add(ctx_pairs(rest@).to_multiset()) == ctx_pairs(
                old(ctx)@,
            ).to_multiset().add(ctx_pairs(results@).to_multiset()),
        decreases rest@.len(),
    {
        let ghost rest0 = rest@;
        let ghost ctx0 = ctx@;
        match rest.pop() {
            Some((k, v)) => {
                let ghost pair = (k@, vw(v));
                let ghost m = rest0.len() as int;
                proof {
                    assert(rest0.drop_last().push(rest0.last()) =~= rest0);
                    assert(ctx_pairs(rest0) =~= ctx_pairs(rest0.drop_last()).push(pair));
                    assert(ctx_pairs(rest0).to_multiset() == ctx_pairs(
                        rest0.drop_last(),
                    ).to_multiset().insert(pair));
                    assert(1 <= m <= results@.len());
                    assert(rest0 =~= results@.take(m));
                    assert(rest@ =~= results@.take(m - 1));
                    assert(rest0.last() == results@.take(m)[m - 1]);
                    assert(rest0.last() == results@[m - 1]);
                    assert(k@ == (#[trigger] results@[m - 1]).0@);
                    assert(!ctx_has_key(old(ctx)@, (#[trigger] results@[m - 1]).0@));
                    // The key is fresh: not a key of the old context, and no
                    // later entry shares it.
                    assert(!ctx_has_key(ctx0, k@)) by {
                        if exists|p: int|
                            m <= p < results@.len() && (#[trigger] results@[p]).0@ == k@ {
                            let p = choose|p: int|
                                m <= p < results@.len() && (#[trigger] results@[p]).0@ == k@;
                            assert((#[trigger] results@[m - 1]).0@ != results@[p].0@);
                        }
                    }
                }
                let res = insert_unique(ctx, k, v);
                match res {
                    Err(e) => {
                        proof {
                            assert(false);
                        }
                        return Err(e);
                    },
                    Ok(()) => {
                        proof {
                            assert(ctx@ == ctx0.push((rest0.last().0, rest0.last().1)));
                            assert(ctx_pairs(ctx@) =~= ctx_pairs(ctx0).push(pair));
                            assert(ctx_pairs(ctx@).to_multiset() == ctx_pairs(
                                ctx0,
                            ).to_multiset().insert(pair));
                            assert(ctx_pairs(ctx@).to_multiset().add(
                                ctx_pairs(rest@).to_multiset(),
                            ) =~= ctx_pairs(old(ctx)@).to_multiset().add(
                                ctx_pairs(results@).to_multiset(),
                            ));
                            assert forall|kk: Seq<char>| #[trigger] ctx_has_key(ctx@, kk) implies
                            ctx_has_key(old(ctx)@, kk) || (exists|p: int|
                                rest@.len() <= p < results@.len() && (#[trigger] results@[p]).0@
                                    == kk) by {
                                let w = choose|w: int|
                                    0 <= w < ctx@.len() && (#[trigger] ctx@[w]).0@ == kk;
                                if w < ctx@.len() - 1 {
                                    assert((#[trigger] ctx0[w]).0@ == kk);
                                    assert(ctx_has_key(ctx0, kk));
                                } else {
                                    assert((#[trigger] results@[m - 1]).0@ == kk);
                                }
                            }
                            assert forall|kk: Seq<char>|
                                ctx_has_key(old(ctx)@, kk) || (exists|p: int|
                                    rest@.len() <= p < results@.len() && (
                                    #[trigger] results@[p]).0@ == kk) implies #[trigger] ctx_has_key(
                                ctx@,
                                kk,
                            ) by {
                                if ctx_has_key(ctx0, kk) {
                                    let w = choose|w: int|
                                        0 <= w < ctx0.len() && (#[trigger] ctx0[w]).0@ == kk;
                                    assert((#[trigger] ctx@[w]).0@ == kk);
                                } else if !ctx_has_key(old(ctx)@, kk) {
                                    let p = choose|p: int|
                                        rest@.len() <= p < results@.len() && (
                                        #[trigger] results@[p]).0@ == kk;
                                    if p != m - 1 {
                                        assert(exists|p2: int|
                                            rest0.len() <= p2 < results@.len() && (
                                            #[trigger] results@[p2]).0@ == kk);
                                        assert(ctx_has_key(ctx0, kk));
                                    } else {
                                        assert((#[trigger] ctx@[ctx@.len() - 1]).0@ == kk);
                                    }
                                } else {
                                    assert(ctx_has_key(ctx0, kk));
                                    let w = choose|w: int|
                                        0 <= w < ctx0.len() && (#[trigger] ctx0[w]).0@ == kk;
                                    assert((#[trigger] ctx@[w]).0@ == kk);
                                }
                            }
                        }
                    },
                }
            },
            None => {
                proof {
                    assert(ctx_pairs(rest@) =~= Seq::<(Seq<char>, Vw)>::empty());
                    assert(ctx_pairs(ctx@).to_multiset() =~= ctx_pairs(
                        old(ctx)@,
                    ).to_multiset().add(ctx_pairs(results@).to_multiset()));
                }
                return Ok(());
            },
        }
    }
}

/// The rejection for an ambiguously defined context key.
fn duplicate_key_error(key: &str) -> (r: Error)
    ensures
        r is Config,
        r.msg() == "Duplicate context key '"@ + key@
            + "': a context key may be defined by exactly one source."@,
{
    let mut m = String::new();
    m.append("Duplicate context key '");
    m.append(key);
    m.append("': a context key may be defined by exactly one source.");
    Error::Config(m)
}

/// The resolved value of the unique entry with key `k`, looked up in the
/// context map: with unique keys, the map holds exactly the declared pairs.
pub proof fn lemma_ctx_map_lookup(entries: Seq<(String, Value)>)
    requires
        ctx_keys_unique(entries),
    ensures
        forall|k: Seq<char>|
            #[trigger] ctx_map(entries).dom().contains(k) <==> ctx_has_key(entries, k),
        forall|i: int|
            0 <= i < entries.len() ==> ctx_map(entries).dom().contains((#[trigger] entries[i]).0@)
                && ctx_map(entries)[entries[i].0@] == vw(entries[i].1),
    decreases entries.len(),
{
    if entries.len() > 0 {
        let prefix = entries.drop_last();
        assert forall|i: int, j: int| 0 <= i < j < prefix.len() implies (
        #[trigger] prefix[i]).0@ != (#[trigger] prefix[j]).0@ by {
            assert(prefix[i] == entries[i]);
            assert(prefix[j] == entries[j]);
        }
        lemma_ctx_map_lookup(prefix);
        assert forall|k: Seq<char>| #[trigger] ctx_map(entries).dom().contains(k) implies
        ctx_has_key(entries, k) by {
            if k == entries.last().0@ {
                assert((#[trigger] entries[entries.len() - 1]).0@ == k);
            } else {
                assert(ctx_map(prefix).dom().contains(k));
                let i = choose|i: int| 0 <= i < prefix.len() && (#[trigger] prefix[i]).0@ == k;
                assert(prefix[i] == entries[i]);
                assert((#[trigger] entries[i]).0@ == k);
            }
        }
        assert forall|k: Seq<char>| ctx_has_key(entries, k) implies ctx_map(
            entries,
        ).dom().contains(k) by {
            let i = choose|i: int| 0 <= i < entries.len() && (#[trigger] entries[i]).0@ == k;
            if i < entries.len() - 1 {
                assert(prefix[i] == entries[i]);
                assert(ctx_has_key(prefix, k));
            }
        }
        assert forall|i: int| 0 <= i < entries.len() implies ctx_map(entries).dom().contains(
            (#[trigger] entries[i]).0@,
        ) && ctx_map(entries)[entries[i].0@] == vw(entries[i].1) by {
            if i < entries.len() - 1 {
                assert(prefix[i] == entries[i]);
                assert(entries[i].0@ != entries.last().0@);
            }
        }
    }
}

/// The view-level content of a resolved context: key views paired with value
/// views, in arrival order.
pub open spec fn ctx_pairs(entries: Seq<(String, Value)>) -> Seq<(Seq<char>, Vw)> {
    entries.map_values(|e: (String, Value)| (e.0@, vw(e.1)))
}

/// Order independence of context assembly: two resolved-entry sequences that
/// hold the same key-value pairs — in any order — with unique keys yield the
/// same context map. Command-sourced keys may therefore be joined in
/// whatever order their tasks finish.
pub proof fn lemma_ctx_map_order_irrelevant(
    xs: Seq<(String, Value)>,
    ys: Seq<(String, Value)>,
)
    requires
        ctx_keys_unique(xs),
        ctx_keys_unique(ys),
        ctx_pairs(xs).to_multiset() == ctx_pairs(ys).to_multiset(),
    ensures
        ctx_map(xs) == ctx_map(ys),
{
    broadcast use vstd::seq_lib::group_to_multiset_ensures;

    lemma_ctx_map_lookup(xs);
    lemma_ctx_map_lookup(ys);
    assert forall|k: Seq<char>|
        ctx_map(xs).dom().contains(k) == ctx_map(ys).dom().contains(k) && (ctx_map(
            xs,
        ).dom().contains(k) ==> ctx_map(xs)[k] == ctx_map(ys)[k]) by {
        lemma_pairs_transfer(xs, ys, k);
        lemma_pairs_transfer(ys, xs, k);
    }
    assert(ctx_map(xs) =~= ctx_map(ys));
}

proof fn lemma_pairs_transfer(xs: Seq<(String, Value)>, ys: Seq<(String, Value)>, k: Seq<char>)
    requires
        ctx_keys_unique(xs),
        ctx_keys_unique(ys),
        ctx_pairs(xs).to_multiset() == ctx_pairs(ys).to_multiset(),
    ensures
        ctx_map(xs).dom().contains(k) ==> ctx_map(ys).dom().contains(k) && ctx_map(ys)[k]
            == ctx_map(xs)[k],
{
    broadcast use vstd::seq_lib::group_to_multiset_ensures;

    lemma_ctx_map_lookup(xs);
    lemma_ctx_map_lookup(ys);
    if ctx_map(xs).dom().contains(k) {
        let i = choose|i: int| 0 <= i < xs.len() && (#[trigger] xs[i]).0@ == k;
        let p = (k, vw(xs[i].1));
        assert(ctx_pairs(xs)[i] == p);
        assert(ctx_pairs(xs).contains(p));
        assert(ctx_pairs(xs).to_multiset().contains(p));
        assert(ctx_pairs(ys).to_multiset().contains(p));
        assert(ctx_pairs(ys).contains(p));
        let j = choose|j: int| 0 <= j < ctx_pairs(ys).len() && ctx_pairs(ys)[j] == p;
        assert((#[trigger] ys[j]).0@ == k);
        assert(ctx_map(ys)[k] == vw(ys[j].1));
    }
}

} // verus!
