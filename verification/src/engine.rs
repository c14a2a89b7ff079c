//! The extension-function surface: a registry of names with fail-fast
//! collision rules, and the separation of a template call's arguments into
//! positional values and named values. Loading extension code and calling
//! into it is the caller's side.
use vstd::prelude::*;
use vstd::string::StringExecFns;

use crate::context::ctx_has_key;
use crate::errors::Error;
use crate::strutil::str_eq;
use crate::value::lemma_vw_entries;
use crate::value::vw;
use crate::value::vw_entries;
use crate::value::vw_items;
use crate::value::lemma_vw_items;
use crate::value::Value;
use crate::value::Vw;

verus! {

pub open spec fn has_name(names: Seq<String>, n: Seq<char>) -> bool {
    exists|i: int| 0 <= i < names.len() && (#[trigger] names[i])@ == n
}

/// The registry of extension functions known by name. A name registers at
/// most once.
pub struct FuncRegistry {
    pub names: Vec<String>,
}

impl FuncRegistry {
    pub fn new() -> (r: FuncRegistry)
        ensures
            r.names@.len() == 0,
    {
        FuncRegistry { names: Vec::new() }
    }

    /// Registers an extension function under its own name; a name that is
    /// already registered is rejected.
    #[verifier::loop_isolation(false)]
    pub fn register(&mut self, module_name: &str, fn_name: String) -> (r: Result<(), Error>)
        ensures
            (r is Ok) <==> !has_name(old(self).names@, fn_name@),
            r is Ok ==> final(self).names@ == old(self).names@.push(fn_name),
            r is Err ==> *final(self) == *old(self),
            r matches Err(e) ==> e is EngineConstruction && e.msg()
                == "Failed to register custom function: '"@ + module_name@ + "."@ + fn_name@
                + "' as '"@ + fn_name@ + "' is already registered."@,
    {
        let n = self.names.len();
        let mut i: usize = 0;
        while i < n
            invariant
                i <= n,
                n == self.names@.len(),
                *self == *old(self),
                forall|j: int| 0 <= j < i ==> (#[trigger] self.names@[j])@ != fn_name@,
            decreases n - i,
        {
            if self.names[i].eq(&fn_name) {
                proof {
                    assert((#[trigger] self.names@[i as int])@ == fn_name@);
                }
                let mut m = String::new();
                m.append("Failed to register custom function: '");
                m.append(module_name);
                m.append(".");
                m.append(fn_name.as_str());
                m.append("' as '");
                m.append(fn_name.as_str());
                m.append("' is already registered.");
                return Err(Error::EngineConstruction(m));
            }
            i = i + 1;
        }
        self.names.push(fn_name);
        Ok(())
    }
}

/// Binding an extension function into the engine fails fast when its name
/// collides with a context key, so a template reference stays unambiguous.
#[verifier::loop_isolation(false)]
pub fn check_context_clash(ctx: &Vec<(String, Value)>, fn_name: &str) -> (r: Result<(), Error>)
    ensures
        (r is Ok) <==> !ctx_has_key(ctx@, fn_name@),
        r matches Err(e) ==> e is EngineConstruction && e.msg()
            == "Failed to register custom function '"@ + fn_name@
            + "' as it clashes with a context key."@,
{
    let n = ctx.len();
    let mut i: usize = 0;
    while i < n
        invariant
            i <= n,
            n == ctx@.len(),
            forall|j: int| 0 <= j < i ==> (#[trigger] ctx@[j]).0@ != fn_name@,
        decreases n - i,
    {
        if str_eq(ctx[i].0.as_str(), fn_name) {
            proof {
                assert((#[trigger] ctx@[i as int]).0@ == fn_name@);
            }
            let mut m = String::new();
            m.append("Failed to register custom function '");
            m.append(fn_name);
            m.append("' as it clashes with a context key.");
            return Err(Error::EngineConstruction(m));
        }
        i = i + 1;
    }
    Ok(())
}

/// One argument of a template call: a positional value, or a bundle of
/// named values to be unpacked key by key.
pub enum CallArg {
    Positional(Value),
    Named(Vec<(String, Value)>),
}

/// The positional values among the first `i` arguments, in order.
pub open spec fn split_pos(args: Seq<CallArg>, i: int) -> Seq<Vw>
    decreases i,
{
    if 0 < i <= args.len() {
        split_pos(args, i - 1) + (match args[i - 1] {
            CallArg::Positional(v) => seq![vw(v)],
            CallArg::Named(_) => Seq::<Vw>::empty(),
        })
    } else {
        Seq::<Vw>::empty()
    }
}

/// The named values among the first `i` arguments, each bundle unpacked in
/// order.
pub open spec fn split_named(args: Seq<CallArg>, i: int) -> Seq<(Seq<char>, Vw)>
    decreases i,
{
    if 0 < i <= args.len() {
        split_named(args, i - 1) + (match args[i - 1] {
            CallArg::Positional(_) => Seq::<(Seq<char>, Vw)>::empty(),
            CallArg::Named(b) => vw_entries(b@, 0),
        })
    } else {
        Seq::<(Seq<char>, Vw)>::empty()
    }
}

/// Separates a template call's arguments: positional values in order, and
/// every named bundle unpacked key by key, for dispatch to an extension
/// function.
#[verifier::loop_isolation(false)]
#[verifier::rlimit(60)]
pub fn split_call_args(args: Vec<CallArg>) -> (r: (Vec<Value>, Vec<(String, Value)>))
    ensures
        vw_items(r.0@, 0) == split_pos(args@, args@.len() as int),
        vw_entries(r.1@, 0) == split_named(args@, args@.len() as int),
{
    let n = args.len();
    let mut pos: Vec<Value> = Vec::new();
    let mut named: Vec<(String, Value)> = Vec::new();
    let mut i: usize = 0;
    proof {
        lemma_vw_items(pos@, 0);
        lemma_vw_entries(named@, 0);
        assert(vw_items(pos@, 0) =~= split_pos(args@, 0));
        assert(vw_entries(named@, 0) =~= split_named(args@, 0));
    }
    while i < n
        invariant
            i <= n,
            vw_items(pos@, 0) == split_pos(args@, i as int),
            vw_entries(named@, 0) == split_named(args@, i as int),
        decreases n - i,
    {
        let ghost p0 = vw_items(pos@, 0);
        let ghost n0 = vw_entries(named@, 0);
        match &args[i] {
            CallArg::Positional(v) => {
                let ghost pre = pos@;
                pos.push(v.dup());
                proof {
                    lemma_vw_items(pos@, 0);
                    lemma_vw_items(pre, 0);
                    assert forall|q: int| 0 <= q < pos@.len() - 1 implies vw_items(pos@, 0)[q]
                        == p0[q] by {
                        assert(vw_items(pos@, 0)[q] == vw(pos@[q]));
                        assert(pos@[q] == pre[q]);
                        assert(vw_items(pre, 0)[q] == vw(pre[q]));
                    }
                    assert(vw_items(pos@, 0)[pos@.len() - 1] == vw(pos@.last()));
                    assert(vw_items(pos@, 0) =~= split_pos(args@, i + 1));
                }
            },
            CallArg::Named(b) => {
                let ghost bv = vw_entries(b@, 0);
                proof {
                    lemma_vw_entries(b@, 0);
                }
                let m = b.len();
                let mut j: usize = 0;
                while j < m
                    invariant
                        j <= m,
                        m == b@.len(),
                        args@[i as int] matches CallArg::Named(bb) && bb@ == b@,
                        vw_entries(named@, 0) == n0 + bv.take(j as int),
                    decreases m - j,
                {
                    let ghost pre = named@;
                    let k = b[j].0.clone();
                    let v = b[j].1.dup();
                    named.push((k, v));
                    j = j + 1;
                    proof {
                        lemma_vw_entries(named@, 0);
                        lemma_vw_entries(pre, 0);
                        lemma_vw_entries(b@, 0);
                        assert forall|q: int| 0 <= q < named@.len() - 1 implies vw_entries(
                            named@,
                            0,
                        )[q] == (n0 + bv.take(j - 1))[q] by {
                            assert(vw_entries(named@, 0)[q] == (named@[q].0@, vw(named@[q].1)));
                            assert(named@[q] == pre[q]);
                            assert(vw_entries(pre, 0)[q] == (pre[q].0@, vw(pre[q].1)));
                        }
                        assert(vw_entries(named@, 0)[named@.len() - 1] == (
                            named@.last().0@,
                            vw(named@.last().1),
                        ));
                        assert(bv[j - 1] == (b@[j - 1].0@, vw(b@[j - 1].1)));
                        assert(vw_entries(named@, 0) =~= n0 + bv.take(j as int));
                    }
                }
                proof {
                    assert(bv.take(m as int) =~= bv);
                    assert(vw_entries(named@, 0) =~= split_named(args@, i + 1));
                }
            },
        }
        i = i + 1;
        proof {
            assert(vw_items(pos@, 0) =~= split_pos(args@, i as int));
            assert(vw_entries(named@, 0) =~= split_named(args@, i as int));
        }
    }
    (pos, named)
}

} // verus!
