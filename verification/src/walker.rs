//! Template discovery: the filename tag convention, the inversion of exclude
//! patterns into override rules, and the template descriptors the render
//! pipeline consumes.
use vstd::prelude::*;

use crate::strutil::chars_of;
use crate::strutil::string_from_chars;
use crate::value::trim_chars;
use crate::value::trim_spec;

verus! {

/// One discovered unit of work: the lockfile and loader key, the tagged
/// source file, and the output path the render is written to.
pub struct Template {
    pub rel_path: String,
    pub src_path: String,
    pub out_path: String,
}

/// The mid-name tag: the marker `.etch.` inside a filename.
pub open spec fn tag_marker() -> Seq<char> {
    seq!['.', 'e', 't', 'c', 'h', '.']
}

/// The suffix tag: a filename ending in `.etch`.
pub open spec fn tag_suffix() -> Seq<char> {
    seq!['.', 'e', 't', 'c', 'h']
}

pub open spec fn marker_at(s: Seq<char>, i: int) -> bool {
    0 <= i && i + 6 <= s.len() && s.subrange(i, i + 6) == tag_marker()
}

/// The highest marker position at or below `i`, or -1 when there is none.
pub open spec fn last_marker_from(s: Seq<char>, i: int) -> int
    decreases i + 1 when i >= -1
{
    if i < 0 {
        -1
    } else if marker_at(s, i) {
        i
    } else {
        last_marker_from(s, i - 1)
    }
}

pub open spec fn last_marker(s: Seq<char>) -> int {
    if s.len() >= 6 {
        last_marker_from(s, s.len() - 6)
    } else {
        -1
    }
}

/// The output name of a tagged filename: the mid-name tag is removed and the
/// parts joined with a single '.', a suffix tag is dropped; an untagged name
/// has no output name. A greedy mid-name match uses the last marker.
pub open spec fn template_out_name(s: Seq<char>) -> Option<Seq<char>> {
    if last_marker(s) >= 0 {
        let i = last_marker(s);
        Some(s.take(i) + seq!['.'] + s.skip(i + 6))
    } else if s.len() >= 5 && s.subrange(s.len() - 5, s.len() as int) == tag_suffix() {
        Some(s.take(s.len() - 5))
    } else {
        None
    }
}

pub proof fn lemma_last_marker_from(s: Seq<char>, i: int)
    requires
        -1 <= i,
    ensures
        last_marker_from(s, i) == -1 || (0 <= last_marker_from(s, i) <= i && marker_at(
            s,
            last_marker_from(s, i),
        )),
        forall|j: int| last_marker_from(s, i) < j <= i ==> !marker_at(s, j),
    decreases i + 1,
{
    if i >= 0 && !marker_at(s, i) {
        lemma_last_marker_from(s, i - 1);
    }
}

fn marker_at_exec(s: &Vec<char>, i: usize) -> (r: bool)
    requires
        i + 6 <= s.len(),
    ensures
        r == marker_at(s@, i as int),
{
    let r = s[i] == '.' && s[i + 1] == 'e' && s[i + 2] == 't' && s[i + 3] == 'c' && s[i + 4] == 'h'
        && s[i + 5] == '.';
    proof {
        if r {
            assert(s@.subrange(i as int, i + 6) =~= tag_marker());
        } else {
            assert(s@.subrange(i as int, i + 6) != tag_marker());
        }
    }
    r
}

/// Position of the last mid-name tag in the name, if any.
#[verifier::loop_isolation(false)]
fn find_last_marker(s: &Vec<char>) -> (r: Option<usize>)
    ensures
        r matches Some(i) ==> i as int == last_marker(s@),
        (r is Some) == (last_marker(s@) >= 0),
{
    let n = s.len();
    if n < 6 {
        return None;
    }
    let mut i: usize = n - 6;
    loop
        invariant
            0 <= i <= n - 6,
            n == s@.len(),
            n >= 6,
            last_marker(s@) == last_marker_from(s@, i as int),
        decreases i,
    {
        if marker_at_exec(s, i) {
            return Some(i);
        }
        if i == 0 {
            proof {
                assert(last_marker_from(s@, 0) == last_marker_from(s@, -1));
                assert(last_marker_from(s@, -1) == -1);
            }
            return None;
        }
        i = i - 1;
    }
}

/// Recognizes a template filename and yields its output name: a name holding
/// the mid-name tag `.etch.` has the tag removed and the two parts joined
/// with '.', a name ending in `.etch` has the suffix dropped, and any other
/// name is not a template.
#[verifier::loop_isolation(false)]
pub fn try_regexes_get_match(filename: &str) -> (r: Option<String>)
    ensures
        (r is Some) == (template_out_name(filename@) is Some),
        r matches Some(n) ==> Some(n@) == template_out_name(filename@),
{
    let s = chars_of(filename);
    let n = s.len();
    proof {
        if n >= 6 {
            lemma_last_marker_from(s@, n - 6);
        }
    }
    if let Some(i) = find_last_marker(&s) {
        // Join the part before the marker and the part after it.
        let mut out: Vec<char> = Vec::new();
        let mut j: usize = 0;
        while j < i
            invariant
                j <= i,
                i + 6 <= n,
                out@ == s@.take(j as int),
            decreases i - j,
        {
            out.push(s[j]);
            j = j + 1;
            proof {
                assert(out@ =~= s@.take(j as int));
            }
        }
        out.push('.');
        let mut k: usize = i + 6;
        while k < n
            invariant
                i + 6 <= k <= n,
                out@ == s@.take(i as int) + seq!['.'] + s@.subrange(i + 6, k as int),
            decreases n - k,
        {
            out.push(s[k]);
            k = k + 1;
            proof {
                assert(out@ =~= s@.take(i as int) + seq!['.'] + s@.subrange(i + 6, k as int));
            }
        }
        proof {
            assert(out@ =~= s@.take(i as int) + seq!['.'] + s@.subrange(i + 6, k as int));
            assert(out@ =~= s@.take(i as int) + seq!['.'] + s@.skip(i + 6));
        }
        return Some(string_from_chars(&out));
    }
    proof {
        assert(last_marker(s@) == -1);
    }
    // No mid-name tag: try the suffix tag.
    if n >= 5 {
        let sfx = s[n - 5] == '.' && s[n - 4] == 'e' && s[n - 3] == 't' && s[n - 2] == 'c' && s[n
            - 1] == 'h';
        proof {
            if sfx {
                assert(s@.subrange(n - 5, n as int) =~= tag_suffix());
            } else {
                assert(s@.subrange(n - 5, n as int) != tag_suffix());
            }
        }
        if sfx {
            let mut out: Vec<char> = Vec::new();
            let mut j: usize = 0;
            while j < n - 5
                invariant
                    j <= n - 5,
                    n == s@.len(),
                    n >= 5,
                    out@ == s@.take(j as int),
                decreases n - 5 - j,
            {
                out.push(s[j]);
                j = j + 1;
                proof {
                    assert(out@ =~= s@.take(j as int));
                }
            }
            return Some(string_from_chars(&out));
        }
    }
    None
}

/// Joins a directory and a name with '/'; an empty directory yields the name
/// alone.
pub open spec fn path_join(dir: Seq<char>, name: Seq<char>) -> Seq<char> {
    if dir.len() == 0 {
        name
    } else {
        dir + seq!['/'] + name
    }
}

pub fn join_path(dir: &str, name: &str) -> (r: String)
    ensures
        r@ == path_join(dir@, name@),
{
    let d = chars_of(dir);
    let nm = chars_of(name);
    if d.len() == 0 {
        return string_from_chars(&nm);
    }
    let mut out = d;
    out.push('/');
    let mut k: usize = 0;
    while k < nm.len()
        invariant
            k <= nm@.len(),
            nm@ == name@,
            out@ == dir@ + seq!['/'] + nm@.take(k as int),
        decreases nm@.len() - k,
    {
        out.push(nm[k]);
        k = k + 1;
        proof {
            assert(out@ =~= dir@ + seq!['/'] + nm@.take(k as int));
        }
    }
    proof {
        assert(out@ =~= path_join(dir@, name@));
    }
    string_from_chars(&out)
}

/// Decides whether one directory entry is a template, and builds its
/// descriptor: only a regular file whose name carries the tag is one.
/// `dir` is the entry's parent directory, `rel_dir` the same directory
/// relative to the render root (empty at the root).
pub fn plan_template(is_file: bool, dir: &str, rel_dir: &str, filename: &str) -> (r: Option<
    Template,
>)
    ensures
        (r is Some) == (is_file && template_out_name(filename@) is Some),
        r matches Some(t) ==> {
            &&& t.rel_path@ == path_join(rel_dir@, filename@)
            &&& t.src_path@ == path_join(dir@, filename@)
            &&& Some(t.out_path@) == match template_out_name(filename@) {
                Some(o) => Some(path_join(dir@, o)),
                None => None,
            }
        },
{
    if !is_file {
        return None;
    }
    match try_regexes_get_match(filename) {
        Some(out_name) => Some(
            Template {
                rel_path: join_path(rel_dir, filename),
                src_path: join_path(dir, filename),
                out_path: join_path(dir, out_name.as_str()),
            },
        ),
        None => None,
    }
}

/// Inverts one exclude pattern into an override rule: the trimmed pattern
/// gains a leading '!', or loses the one it has.
pub fn invert_exclude(pattern: &str) -> (r: String)
    ensures
        r@ == (if trim_spec(pattern@).len() > 0 && trim_spec(pattern@)[0] == '!' {
            trim_spec(pattern@).skip(1)
        } else {
            seq!['!'] + trim_spec(pattern@)
        }),
{
    let cs = chars_of(pattern);
    let t = trim_chars(&cs);
    if t.len() > 0 && t[0] == '!' {
        let mut out: Vec<char> = Vec::new();
        let mut j: usize = 1;
        while j < t.len()
            invariant
                1 <= j <= t@.len(),
                t@ == trim_spec(pattern@),
                out@ == t@.subrange(1, j as int),
            decreases t@.len() - j,
        {
            out.push(t[j]);
            j = j + 1;
            proof {
                assert(out@ =~= t@.subrange(1, j as int));
            }
        }
        proof {
            assert(out@ =~= trim_spec(pattern@).skip(1));
        }
        string_from_chars(&out)
    } else {
        let mut out: Vec<char> = Vec::new();
        out.push('!');
        let mut j: usize = 0;
        while j < t.len()
            invariant
                j <= t@.len(),
                t@ == trim_spec(pattern@),
                out@ == seq!['!'] + t@.take(j as int),
            decreases t@.len() - j,
        {
            out.push(t[j]);
            j = j + 1;
            proof {
                assert(out@ =~= seq!['!'] + t@.take(j as int));
            }
        }
        proof {
            assert(out@ =~= seq!['!'] + trim_spec(pattern@));
        }
        string_from_chars(&out)
    }
}

/// The full exclude list for one run: the configuration file path and the
/// lockfile name come first, so the tool never treats its own control files
/// as templates, then the configured excludes.
pub fn walker_excludes(config_path: String, exclude: &Vec<String>) -> (r: Vec<String>)
    ensures
        r@.len() == 2 + exclude@.len(),
        r@[0] == config_path,
        r@[1]@ == ".etch.lock"@,
        forall|i: int| 0 <= i < exclude@.len() ==> r@[2 + i]@ == #[trigger] exclude@[i]@,
{
    let mut r: Vec<String> = Vec::new();
    r.push(config_path);
    r.push(crate::lockfile_name().to_owned());
    let mut i: usize = 0;
    while i < exclude.len()
        invariant
            i <= exclude@.len(),
            r@.len() == 2 + i,
            r@[0] == config_path,
            r@[1]@ == ".etch.lock"@,
            forall|j: int| 0 <= j < i ==> r@[2 + j]@ == #[trigger] exclude@[j]@,
        decreases exclude@.len() - i,
    {
        r.push(exclude[i].clone());
        i = i + 1;
    }
    r
}

} // verus!
