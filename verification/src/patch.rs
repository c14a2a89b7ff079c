//! Structured-document editing: a JSON merge patch (a patch table's entries
//! overwrite or, when null, remove the target's entries, recursively), and
//! removal of entries by key path.
use vstd::prelude::*;

use crate::config::tbl_get;
use crate::config::lemma_tbl_get_at;
use crate::config::lemma_tbl_get_none;
use crate::value::lemma_vw_entries;
use crate::value::vw;
use crate::value::vw_entries;
use crate::value::Value;
use crate::value::Vw;

verus! {

/// The table without any entry keyed `k`.
pub open spec fn tbl_remove(es: Seq<(Seq<char>, Vw)>, k: Seq<char>) -> Seq<(Seq<char>, Vw)> {
    es.filter(|e: (Seq<char>, Vw)| e.0 != k)
}

/// The table with the first entry keyed `k` replaced by `v`, or with
/// `(k, v)` appended when no entry has that key.
pub open spec fn tbl_set(es: Seq<(Seq<char>, Vw)>, k: Seq<char>, v: Vw) -> Seq<(Seq<char>, Vw)>
    decreases es.len(),
{
    if es.len() == 0 {
        seq![(k, v)]
    } else if es[0].0 == k {
        seq![(k, v)] + es.drop_first()
    } else {
        seq![es[0]] + tbl_set(es.drop_first(), k, v)
    }
}

/// The merge of `patch` into `doc`: a non-table patch replaces the document;
/// a table patch merges entry by entry into the document (made a table
/// first), null entries removing keys and others merged recursively.
pub open spec fn merge_spec(doc: Vw, patch: Vw) -> Vw
    decreases patch, 0int,
{
    match patch {
        Vw::Table(pes) => {
            let base = match doc {
                Vw::Table(des) => des,
                _ => Seq::<(Seq<char>, Vw)>::empty(),
            };
            Vw::Table(merge_entries(base, pes, pes.len() as int))
        },
        _ => patch,
    }
}

/// The document's entries after merging the first `i` patch entries.
pub open spec fn merge_entries(
    des: Seq<(Seq<char>, Vw)>,
    pes: Seq<(Seq<char>, Vw)>,
    i: int,
) -> Seq<(Seq<char>, Vw)>
    decreases pes, i,
{
    if 0 < i <= pes.len() {
        let prev = merge_entries(des, pes, i - 1);
        let k = pes[i - 1].0;
        let v = pes[i - 1].1;
        if v is Null {
            tbl_remove(prev, k)
        } else {
            let cur = match tbl_get(prev, k) {
                Some(x) => x,
                None => Vw::Null,
            };
            tbl_set(prev, k, merge_spec(cur, v))
        }
    } else {
        des
    }
}

proof fn lemma_tbl_set_at(es: Seq<(Seq<char>, Vw)>, k: Seq<char>, v: Vw, i: int)
    requires
        0 <= i < es.len(),
        es[i].0 == k,
        forall|j: int| 0 <= j < i ==> (#[trigger] es[j]).0 != k,
    ensures
        tbl_set(es, k, v) == es.update(i, (k, v)),
    decreases i,
{
    if i == 0 {
        assert(tbl_set(es, k, v) =~= es.update(0, (k, v)));
    } else {
        assert forall|j: int| 0 <= j < i - 1 implies (#[trigger] es.drop_first()[j]).0 != k by {
            assert(es.drop_first()[j] == es[j + 1]);
        }
        assert(es.drop_first()[i - 1] == es[i]);
        lemma_tbl_set_at(es.drop_first(), k, v, i - 1);
        assert(tbl_set(es, k, v) =~= es.update(i, (k, v)));
    }
}

proof fn lemma_tbl_set_append(es: Seq<(Seq<char>, Vw)>, k: Seq<char>, v: Vw)
    requires
        forall|j: int| 0 <= j < es.len() ==> (#[trigger] es[j]).0 != k,
    ensures
        tbl_set(es, k, v) == es.push((k, v)),
    decreases es.len(),
{
    if es.len() == 0 {
        assert(tbl_set(es, k, v) =~= es.push((k, v)));
    } else {
        assert forall|j: int| 0 <= j < es.len() - 1 implies (#[trigger] es.drop_first()[j]).0
            != k by {
            assert(es.drop_first()[j] == es[j + 1]);
        }
        lemma_tbl_set_append(es.drop_first(), k, v);
        assert(tbl_set(es, k, v) =~= es.push((k, v)));
    }
}

/// Removes every entry keyed `k` from the table.
#[verifier::loop_isolation(false)]
fn remove_key(des: &mut Vec<(String, Value)>, k: &str)
    ensures
        vw_entries(final(des)@, 0) == tbl_remove(vw_entries(old(des)@, 0), k@),
{
    proof {
        lemma_vw_entries(des@, 0);
    }
    let ghost es = vw_entries(des@, 0);
    let ghost pred = |e: (Seq<char>, Vw)| e.0 != k@;
    let n = des.len();
    let mut out: Vec<(String, Value)> = Vec::new();
    let mut i: usize = 0;
    proof {
        reveal(Seq::filter);
        assert(es.take(0) =~= Seq::<(Seq<char>, Vw)>::empty());
        assert(vw_entries(out@, 0) =~= es.take(0).filter(pred));
    }
    while i < n
        invariant
            i <= n,
            vw_entries(out@, 0) == es.take(i as int).filter(pred),
        decreases n - i,
    {
        let ghost before = vw_entries(out@, 0);
        let ghost pre = out@;
        if !crate::strutil::str_eq(des[i].0.as_str(), k) {
            let kk = des[i].0.clone();
            let vv = des[i].1.dup();
            out.push((kk, vv));
            proof {
                lemma_vw_entries(out@, 0);
                lemma_vw_entries(pre, 0);
                assert forall|q: int| 0 <= q < out@.len() - 1 implies vw_entries(out@, 0)[q]
                    == before[q] by {
                    assert(vw_entries(out@, 0)[q] == (out@[q].0@, vw(out@[q].1)));
                    assert(out@[q] == pre[q]);
                    assert(vw_entries(pre, 0)[q] == (pre[q].0@, vw(pre[q].1)));
                }
                assert(es[i as int] == (des@[i as int].0@, vw(des@[i as int].1)));
                assert(vw_entries(out@, 0)[out@.len() - 1] == (out@.last().0@, vw(
                    out@.last().1,
                )));
                assert(vw_entries(out@, 0) =~= before.push((es[i as int].0, es[i as int].1)));
            }
        }
        i = i + 1;
        proof {
            reveal(Seq::filter);
            assert(es.take(i as int).drop_last() =~= es.take(i - 1));
            assert(es.take(i as int).last() == es[i - 1]);
            assert(vw_entries(out@, 0) =~= es.take(i as int).filter(pred));
        }
    }
    proof {
        assert(es.take(n as int) =~= es);
    }
    *des = out;
}

/// First entry with the given key, by position.
#[verifier::loop_isolation(false)]
fn find_key(des: &Vec<(String, Value)>, k: &str) -> (r: Option<usize>)
    ensures
        match r {
            Some(j) => j < des@.len() && vw_entries(des@, 0)[j as int].0 == k@ && (forall|q: int|
                0 <= q < j ==> (#[trigger] vw_entries(des@, 0)[q]).0 != k@),
            None => forall|q: int|
                0 <= q < des@.len() ==> (#[trigger] vw_entries(des@, 0)[q]).0 != k@,
        },
{
    proof {
        lemma_vw_entries(des@, 0);
    }
    let n = des.len();
    let mut j: usize = 0;
    while j < n
        invariant
            j <= n,
            forall|q: int| 0 <= q < j ==> (#[trigger] vw_entries(des@, 0)[q]).0 != k@,
        decreases n - j,
    {
        if crate::strutil::str_eq(des[j].0.as_str(), k) {
            proof {
                assert((#[trigger] vw_entries(des@, 0)[j as int]).0 == k@);
            }
            return Some(j);
        }
        proof {
            assert((#[trigger] vw_entries(des@, 0)[j as int]).0 == des@[j as int].0@);
        }
        j = j + 1;
    }
    None
}

/// Merges `patch` into `doc` and returns the result.
#[verifier::loop_isolation(false)]
#[verifier::rlimit(60)]
pub fn merge(doc: Value, patch: &Value) -> (r: Value)
    ensures
        vw(r) == merge_spec(vw(doc), vw(*patch)),
    decreases *patch,
{
    let ghost gdoc = vw(doc);
    match patch {
        Value::Table(pes) => {
            proof {
                lemma_vw_entries(pes@, 0);
            }
            let ghost pvs = vw_entries(pes@, 0);
            let mut des: Vec<(String, Value)> = match doc {
                Value::Table(d) => d,
                _ => Vec::new(),
            };
            let ghost base = vw_entries(des@, 0);
            proof {
                if !(gdoc is Table) {
                    assert(base =~= Seq::<(Seq<char>, Vw)>::empty());
                }
            }
            let n = pes.len();
            let mut i: usize = 0;
            while i < n
                invariant
                    i <= n,
                    vw_entries(des@, 0) == merge_entries(base, pvs, i as int),
                decreases n - i,
            {
                let ghost prev = vw_entries(des@, 0);
                proof {
                    lemma_vw_entries(des@, 0);
                    lemma_vw_entries(pes@, 0);
                }
                let k = &pes[i].0;
                let pv = &pes[i].1;
                if matches!(pv, Value::Null) {
                    remove_key(&mut des, k.as_str());
                } else {
                    let found = find_key(&des, k.as_str());
                    proof {
                        assert(decreases_to!(*patch => patch->Table_0));
                        assert(decreases_to!(*pes => pes@));
                        assert(decreases_to!(pes@ => pes@[i as int]));
                        assert(decreases_to!(pes@[i as int] => pes@[i as int].1));
                        assert(decreases_to!(*patch => pes@[i as int].1));
                    }
                    if let Some(j) = found {
                        proof {
                            lemma_tbl_get_at(prev, k@, j as int);
                        }
                        let old_v = des[j].1.dup();
                        let merged = merge(old_v, &pes[i].1);
                        let ghost before = des@;
                        des[j].1 = merged;
                        proof {
                            lemma_tbl_set_at(prev, k@, merge_spec(prev[j as int].1, pvs[i as int].1), j as int);
                            lemma_vw_entries(des@, 0);
                            lemma_vw_entries(before, 0);
                            assert forall|q: int| 0 <= q < des@.len() implies vw_entries(des@, 0)[q]
                                == prev.update(j as int, (k@, merge_spec(prev[j as int].1, pvs[i as int].1)))[q] by {
                                assert(vw_entries(des@, 0)[q] == (des@[q].0@, vw(des@[q].1)));
                                if q != j as int {
                                    assert(des@[q] == before[q]);
                                    assert(vw_entries(before, 0)[q] == (before[q].0@, vw(before[q].1)));
                                }
                            }
                            assert(vw_entries(des@, 0) =~= tbl_set(prev, k@, merge_spec(prev[j as int].1, pvs[i as int].1)));
                        }
                    } else {
                        proof {
                            lemma_tbl_get_none(prev, k@);
                        }
                        let merged = merge(Value::Null, &pes[i].1);
                        let kk = k.clone();
                        let ghost before = des@;
                        des.push((kk, merged));
                        proof {
                            lemma_tbl_set_append(prev, k@, merge_spec(Vw::Null, pvs[i as int].1));
                            lemma_vw_entries(des@, 0);
                            lemma_vw_entries(before, 0);
                            assert forall|q: int| 0 <= q < des@.len() - 1 implies vw_entries(des@, 0)[q]
                                == prev[q] by {
                                assert(vw_entries(des@, 0)[q] == (des@[q].0@, vw(des@[q].1)));
                                assert(des@[q] == before[q]);
                                assert(vw_entries(before, 0)[q] == (before[q].0@, vw(before[q].1)));
                            }
                            assert(pvs[i as int] == (pes@[i as int].0@, vw(pes@[i as int].1)));
                            assert(vw_entries(des@, 0)[des@.len() - 1] == (des@.last().0@, vw(
                                des@.last().1,
                            )));
                            assert(vw_entries(des@, 0) =~= tbl_set(prev, k@, merge_spec(Vw::Null, pvs[i as int].1)));
                        }
                    }
                }
                i = i + 1;
                proof {
                    assert(pvs[i - 1] == (pes@[i - 1].0@, vw(pes@[i - 1].1)));
                    assert(vw_entries(des@, 0) =~= merge_entries(base, pvs, i as int));
                }
            }
            proof {
                lemma_vw_entries(des@, 0);
            }
            Value::Table(des)
        },
        _ => {
            let r = patch.dup();
            r
        },
    }
}

/// The document after removing the entry the key path names, from `i` on:
/// the walk descends through tables only, and stops silently where a key is
/// absent or a non-table stands in the way.
pub open spec fn remove_path_spec(w: Vw, path: Seq<Seq<char>>, i: int) -> Vw
    decreases path.len() - i when 0 <= i <= path.len()
{
    if i >= path.len() {
        w
    } else {
        match w {
            Vw::Table(es) => if i == path.len() - 1 {
                Vw::Table(tbl_remove(es, path[i]))
            } else {
                match tbl_get(es, path[i]) {
                    Some(x) => Vw::Table(tbl_set(es, path[i], remove_path_spec(x, path, i + 1))),
                    None => w,
                }
            },
            _ => w,
        }
    }
}

/// The document after applying every non-empty key path, in order.
pub open spec fn remove_paths_spec(w: Vw, paths: Seq<Seq<Seq<char>>>, i: int) -> Vw
    decreases paths.len() - i when 0 <= i <= paths.len()
{
    if i >= paths.len() {
        w
    } else {
        let next = if paths[i].len() > 0 {
            remove_path_spec(w, paths[i], 0)
        } else {
            w
        };
        remove_paths_spec(next, paths, i + 1)
    }
}

/// Removes the entry one key path names.
#[verifier::loop_isolation(false)]
#[verifier::rlimit(60)]
pub fn remove_path(doc: Value, path: &Vec<String>, i: usize) -> (r: Value)
    requires
        i <= path@.len(),
    ensures
        vw(r) == remove_path_spec(vw(doc), path@.map_values(|s: String| s@), i as int),
    decreases path@.len() - i,
{
    let ghost p = path@.map_values(|s: String| s@);
    if i >= path.len() {
        return doc;
    }
    match doc {
        Value::Table(es) => {
            let mut es = es;
            let ghost prev = vw_entries(es@, 0);
            if i == path.len() - 1 {
                remove_key(&mut es, path[i].as_str());
                Value::Table(es)
            } else {
                match find_key(&es, path[i].as_str()) {
                    Some(j) => {
                        proof {
                            lemma_vw_entries(es@, 0);
                            lemma_tbl_get_at(prev, p[i as int], j as int);
                        }
                        let sub = es[j].1.dup();
                        let newsub = remove_path(sub, path, i + 1);
                        let ghost before = es@;
                        es[j].1 = newsub;
                        proof {
                            lemma_tbl_set_at(
                                prev,
                                p[i as int],
                                remove_path_spec(prev[j as int].1, p, i + 1),
                                j as int,
                            );
                            lemma_vw_entries(es@, 0);
                            lemma_vw_entries(before, 0);
                            assert forall|q: int| 0 <= q < es@.len() implies vw_entries(es@, 0)[q]
                                == prev.update(
                                j as int,
                                (p[i as int], remove_path_spec(prev[j as int].1, p, i + 1)),
                            )[q] by {
                                assert(vw_entries(es@, 0)[q] == (es@[q].0@, vw(es@[q].1)));
                                if q != j as int {
                                    assert(es@[q] == before[q]);
                                    assert(vw_entries(before, 0)[q] == (before[q].0@, vw(
                                        before[q].1,
                                    )));
                                }
                            }
                            assert(vw_entries(es@, 0) =~= tbl_set(
                                prev,
                                p[i as int],
                                remove_path_spec(prev[j as int].1, p, i + 1),
                            ));
                        }
                        Value::Table(es)
                    },
                    None => {
                        proof {
                            lemma_vw_entries(es@, 0);
                            assert(p[i as int] == path@[i as int]@);
                            lemma_tbl_get_none(prev, p[i as int]);
                        }
                        Value::Table(es)
                    },
                }
            }
        },
        other => other,
    }
}

/// Applies a merge patch, then removes the named key paths: the whole
/// structured-document update, on the value model. Reading the document in
/// and writing it back out is the caller's side.
#[verifier::loop_isolation(false)]
pub fn update(doc: Value, patch: Option<&Value>, remove: Option<&Vec<Vec<String>>>) -> (r: Value)
    ensures
        ({
            let merged = match patch {
                Some(pv) => merge_spec(vw(doc), vw(*pv)),
                None => vw(doc),
            };
            vw(r) == match remove {
                Some(paths) => remove_paths_spec(
                    merged,
                    paths@.map_values(|pp: Vec<String>| pp@.map_values(|s: String| s@)),
                    0,
                ),
                None => merged,
            }
        }),
{
    let merged = match patch {
        Some(pv) => merge(doc, pv),
        None => doc,
    };
    match remove {
        None => merged,
        Some(paths) => {
            let ghost pw = paths@.map_values(|pp: Vec<String>| pp@.map_values(|s: String| s@));
            let n = paths.len();
            let mut cur = merged;
            let mut i: usize = 0;
            while i < n
                invariant
                    i <= n,
                    n == paths@.len(),
                    remove_paths_spec(vw(cur), pw, i as int) == remove_paths_spec(
                        vw(merged),
                        pw,
                        0,
                    ),
                decreases n - i,
            {
                if paths[i].len() > 0 {
                    cur = remove_path(cur, &paths[i], 0);
                    proof {
                        assert(pw[i as int] == paths@[i as int]@.map_values(|s: String| s@));
                    }
                } else {
                    proof {
                        assert(pw[i as int] == paths@[i as int]@.map_values(|s: String| s@));
                        assert(pw[i as int].len() == 0);
                    }
                }
                i = i + 1;
            }
            cur
        },
    }
}

} // verus!
