//! The lockfile manager: per-template content hashes across runs, deciding
//! which rendered outputs need writing, and pruning entries for templates no
//! longer present. Reading and writing the manifest file is the caller's
//! side; every decision is made here.
use vstd::prelude::*;
use vstd::string::StringExecFns;
use vstd::string::StringSliceAdditionalSpecFns;

use crate::digits::dec_chars;
use crate::digits::u64_to_string;
use crate::walker::Template;

verus! {

/// The tool version a manifest is stamped with.
pub fn tool_version() -> (r: &'static str)
    ensures
        r@ == "0.1.0"@,
{
    "0.1.0"
}

// FNV-1a, 64 bit: a fast non-cryptographic content hash. Collision
// resistance is not required here, only change detection.
pub open spec fn fnv1a_step(h: u64, b: u8) -> u64 {
    ((((h ^ (b as u64)) as int) * 0x100000001b3) % 0x10000000000000000) as u64
}

pub open spec fn fnv1a_spec(bytes: Seq<u8>) -> u64
    decreases bytes.len(),
{
    if bytes.len() == 0 {
        0xcbf29ce484222325u64
    } else {
        fnv1a_step(fnv1a_spec(bytes.drop_last()), bytes.last())
    }
}

/// The FNV-1a hash of a byte string.
#[verifier::loop_isolation(false)]
pub fn fnv1a(bytes: &[u8]) -> (r: u64)
    ensures
        r == fnv1a_spec(bytes@),
{
    let n = bytes.len();
    let mut h: u64 = 0xcbf29ce484222325;
    let mut i: usize = 0;
    proof {
        assert(bytes@.take(0) =~= Seq::<u8>::empty());
    }
    while i < n
        invariant
            i <= n,
            h == fnv1a_spec(bytes@.take(i as int)),
        decreases n - i,
    {
        let x = h ^ (bytes[i] as u64);
        h = x.wrapping_mul(0x100000001b3);
        i = i + 1;
        proof {
            assert(bytes@.take(i as int).drop_last() =~= bytes@.take(i - 1));
            assert(bytes@.take(i as int).last() == bytes@[i - 1]);
        }
    }
    proof {
        assert(bytes@.take(n as int) =~= bytes@);
    }
    h
}

/// The stored hash text for rendered content: the decimal text of its
/// FNV-1a hash over the content's UTF-8 bytes.
pub open spec fn hash_text(content: Seq<u8>) -> Seq<char> {
    dec_chars(fnv1a_spec(content) as nat)
}

/// The manifest: the stamped tool version, and one content hash per
/// template, keyed by the template's relative path. Keys are unique.
pub struct Contents {
    pub version: String,
    pub files: Vec<(String, String)>,
}

/// The manifest's file table as a map from path to hash text.
pub open spec fn files_map(entries: Seq<(String, String)>) -> Map<Seq<char>, Seq<char>>
    decreases entries.len(),
{
    if entries.len() == 0 {
        Map::<Seq<char>, Seq<char>>::empty()
    } else {
        files_map(entries.drop_last()).insert(entries.last().0@, entries.last().1@)
    }
}

pub open spec fn keys_unique(entries: Seq<(String, String)>) -> bool {
    forall|i: int, j: int|
        0 <= i < j < entries.len() ==> (#[trigger] entries[i]).0@ != (#[trigger] entries[j]).0@
}

impl Contents {
    pub open spec fn wf(self) -> bool {
        keys_unique(self.files@)
    }

    pub open spec fn map(self) -> Map<Seq<char>, Seq<char>> {
        files_map(self.files@)
    }

    /// An empty manifest stamped with the running tool's version.
    pub fn default() -> (r: Contents)
        ensures
            r.version@ == "0.1.0"@,
            r.files@.len() == 0,
            r.map() == Map::<Seq<char>, Seq<char>>::empty(),
            r.wf(),
    {
        Contents { version: tool_version().to_owned(), files: Vec::new() }
    }
}

pub proof fn lemma_files_map(entries: Seq<(String, String)>)
    requires
        keys_unique(entries),
    ensures
        forall|k: Seq<char>|
            #[trigger] files_map(entries).dom().contains(k) <==> exists|i: int|
                0 <= i < entries.len() && (#[trigger] entries[i]).0@ == k,
        forall|i: int|
            0 <= i < entries.len() ==> files_map(entries).dom().contains(
                (#[trigger] entries[i]).0@,
            ) && files_map(entries)[entries[i].0@] == entries[i].1@,
    decreases entries.len(),
{
    if entries.len() > 0 {
        let prefix = entries.drop_last();
        let last = entries.last();
        assert forall|i: int, j: int| 0 <= i < j < prefix.len() implies (
        #[trigger] prefix[i]).0@ != (#[trigger] prefix[j]).0@ by {
            assert(prefix[i] == entries[i]);
            assert(prefix[j] == entries[j]);
        }
        lemma_files_map(prefix);
        assert forall|k: Seq<char>| #[trigger] files_map(entries).dom().contains(k) implies (
        exists|i: int| 0 <= i < entries.len() && (#[trigger] entries[i]).0@ == k) by {
            if k == last.0@ {
                assert((#[trigger] entries[entries.len() - 1]).0@ == k);
            } else {
                assert(files_map(prefix).dom().contains(k));
                let i = choose|i: int| 0 <= i < prefix.len() && (#[trigger] prefix[i]).0@ == k;
                assert(prefix[i] == entries[i]);
                assert((#[trigger] entries[i]).0@ == k);
            }
        }
        assert forall|i: int| 0 <= i < entries.len() implies files_map(entries).dom().contains(
            (#[trigger] entries[i]).0@,
        ) && files_map(entries)[entries[i].0@] == entries[i].1@ by {
            if i < entries.len() - 1 {
                assert(prefix[i] == entries[i]);
                assert(entries[i].0@ != last.0@);
            }
        }
    }
}

/// The lockfile for one run: where it lives, what was seen so far, the
/// manifest being accumulated, and whether anything made this run dirty.
pub struct Lockfile {
    pub filepath: String,
    pub seen_template_paths: Vec<String>,
    pub contents: Contents,
    pub modified: bool,
}

/// The set of relative paths seen so far.
pub open spec fn seen_set(seen: Seq<String>) -> Set<Seq<char>> {
    Set::new(|k: Seq<char>| exists|j: int| 0 <= j < seen.len() && (#[trigger] seen[j])@ == k)
}

impl Lockfile {
    pub open spec fn wf(self) -> bool {
        self.contents.wf()
    }

    /// Accepts a prior manifest only when nothing forces a reset: a forced
    /// run, a missing or unreadable prior, or a version stamp that does not
    /// match the running tool starts afresh and marks the run dirty.
    pub fn load(root: String, force: bool, prior: Option<Contents>) -> (r: Lockfile)
        requires
            prior matches Some(c) ==> c.wf(),
        ensures
            r.wf(),
            r.filepath@ == root@ + "/"@ + ".etch.lock"@,
            r.seen_template_paths@.len() == 0,
            match prior {
                Some(c) => {
                    if !force && c.version@ == "0.1.0"@ {
                        r.contents == c && !r.modified
                    } else {
                        r.contents.map().is_empty() && r.contents.version@ == "0.1.0"@
                            && r.modified
                    }
                },
                None => r.contents.map().is_empty() && r.contents.version@ == "0.1.0"@
                    && r.modified,
            },
    {
        let mut filepath = root;
        filepath.append("/");
        filepath.append(".etch.lock");
        let (contents, modified): (Contents, bool) = if force {
            (Contents::default(), true)
        } else {
            match prior {
                Some(c) => {
                    if c.version == String::from_str(tool_version()) {
                        (c, false)
                    } else {
                        (Contents::default(), true)
                    }
                },
                None => (Contents::default(), true),
            }
        };
        Lockfile { filepath, seen_template_paths: Vec::new(), contents, modified }
    }

    /// Records one rendered template: computes the content hash of the
    /// rendered text, compares it with the stored one, and updates the
    /// manifest. Returns true when the caller must write the rendered
    /// content to disk (the hash was absent or different); on an identical
    /// hash nothing changes and the disk write is skipped.
    #[verifier::loop_isolation(false)]
    pub fn add_template(&mut self, template: &Template, compiled: &str) -> (is_new: bool)
        requires
            old(self).wf(),
        ensures
            final(self).wf(),
            is_new == !(old(self).contents.map().dom().contains(template.rel_path@)
                && old(self).contents.map()[template.rel_path@] == hash_text(
                compiled.spec_bytes(),
            )),
            final(self).contents.map() == old(self).contents.map().insert(
                template.rel_path@,
                hash_text(compiled.spec_bytes()),
            ),
            final(self).seen_template_paths@ == old(self).seen_template_paths@.push(
                template.rel_path,
            ),
            final(self).modified == (old(self).modified || is_new),
            final(self).filepath == old(self).filepath,
            final(self).contents.version == old(self).contents.version,
    {
        let hashed = u64_to_string(fnv1a(compiled.as_bytes()));
        proof {
            lemma_files_map(self.contents.files@);
        }
        let n = self.contents.files.len();
        let mut i: usize = 0;
        let mut found: bool = false;
        let mut identical: bool = false;
        while i < n
            invariant
                i <= n,
                n == self.contents.files@.len(),
                found <==> exists|j: int|
                    0 <= j < i && (#[trigger] self.contents.files@[j]).0@ == template.rel_path@,
                found ==> exists|j: int|
                    0 <= j < i && (#[trigger] self.contents.files@[j]).0@ == template.rel_path@
                        && (identical <==> self.contents.files@[j].1@ == hashed@),
            decreases n - i,
        {
            if self.contents.files[i].0 == template.rel_path {
                found = true;
                identical = self.contents.files[i].1 == hashed;
                proof {
                    assert((#[trigger] self.contents.files@[i as int]).0@ == template.rel_path@);
                }
            }
            i = i + 1;
        }
        let is_new = !(found && identical);
        if is_new {
            self.modified = true;
            self.upsert(template.rel_path.clone(), hashed);
        } else {
            proof {
                let fs = self.contents.files@;
                let j = choose|j: int|
                    0 <= j < fs.len() && (#[trigger] fs[j]).0@ == template.rel_path@ && (identical
                        <==> fs[j].1@ == hashed@);
                assert(self.contents.map()[template.rel_path@] == fs[j].1@);
                assert(self.contents.map().insert(template.rel_path@, hashed@)
                    =~= self.contents.map());
            }
        }
        self.seen_template_paths.push(template.rel_path.clone());
        is_new
    }

    /// Inserts or replaces one manifest entry.
    #[verifier::loop_isolation(false)]
    fn upsert(&mut self, key: String, value: String)
        requires
            old(self).wf(),
        ensures
            final(self).wf(),
            final(self).contents.map() == old(self).contents.map().insert(key@, value@),
            final(self).seen_template_paths == old(self).seen_template_paths,
            final(self).modified == old(self).modified,
            final(self).filepath == old(self).filepath,
            final(self).contents.version == old(self).contents.version,
    {
        proof {
            lemma_files_map(self.contents.files@);
        }
        let n = self.contents.files.len();
        let mut i: usize = 0;
        while i < n
            invariant
                i <= n,
                n == self.contents.files@.len(),
                *self == *old(self),
                forall|j: int| 0 <= j < i ==> (#[trigger] self.contents.files@[j]).0@ != key@,
            decreases n - i,
        {
            if self.contents.files[i].0 == key {
                let ghost before = self.contents.files@;
                self.contents.files[i].1 = value;
                proof {
                    let after = self.contents.files@;
                    assert(after =~= before.update(i as int, (before[i as int].0, value)));
                    lemma_files_map_update(before, i as int, value);
                    assert(keys_unique(after));
                }
                return ;
            }
            i = i + 1;
        }
        let ghost before = self.contents.files@;
        self.contents.files.push((key, value));
        proof {
            let after = self.contents.files@;
            assert(after.drop_last() =~= before);
            assert(keys_unique(after));
        }
    }

    /// Prunes manifest entries whose template was not seen in this run, and
    /// says whether the manifest must be persisted: it must exactly when the
    /// run was dirty or pruning removed something.
    #[verifier::loop_isolation(false)]
    pub fn sync(&mut self) -> (should_write: bool)
        requires
            old(self).wf(),
        ensures
            final(self).wf(),
            final(self).contents.map() == old(self).contents.map().restrict(
                seen_set(old(self).seen_template_paths@),
            ),
            final(self).modified == (old(self).modified || final(self).contents.files@.len()
                != old(self).contents.files@.len()),
            should_write == final(self).modified,
            final(self).filepath == old(self).filepath,
            final(self).contents.version == old(self).contents.version,
            final(self).seen_template_paths == old(self).seen_template_paths,
    {
        let ghost before = self.contents.files@;
        let ghost seen = seen_set(self.seen_template_paths@);
        let mut kept: Vec<(String, String)> = Vec::new();
        let n = self.contents.files.len();
        let mut i: usize = 0;
        while i < n
            invariant
                i <= n,
                n == before.len(),
                self.contents.files@ == before,
                kept@ == before.take(i as int).filter(
                    |e: (String, String)| seen_set(self.seen_template_paths@).contains(e.0@),
                ),
            decreases n - i,
        {
            let ghost prefix = before.take(i as int);
            let e_key_seen = contains_string(&self.seen_template_paths, &self.contents.files[i].0);
            if e_key_seen {
                let k = self.contents.files[i].0.clone();
                let v = self.contents.files[i].1.clone();
                kept.push((k, v));
            }
            i = i + 1;
            proof {
                assert(before.take(i as int).drop_last() =~= prefix);
                reveal(Seq::filter);
                assert(kept@ =~= before.take(i as int).filter(
                    |e: (String, String)| seen_set(self.seen_template_paths@).contains(e.0@),
                ));
            }
        }
        proof {
            assert(before.take(n as int) =~= before);
        }
        let removed_any = kept.len() != n;
        let ghost kept_view = kept@;
        self.contents.files = kept;
        if removed_any {
            self.modified = true;
        }
        proof {
            lemma_filter_files(before, seen);
            assert(self.contents.map() =~= files_map(before).restrict(seen));
        }
        self.modified
    }
}

/// Whether a vector of strings holds one with the given characters.
fn contains_string(v: &Vec<String>, s: &String) -> (r: bool)
    ensures
        r == seen_set(v@).contains(s@),
{
    let n = v.len();
    let mut i: usize = 0;
    while i < n
        invariant
            i <= n,
            n == v@.len(),
            forall|j: int| 0 <= j < i ==> (#[trigger] v@[j])@ != s@,
        decreases n - i,
    {
        if v[i].eq(s) {
            proof {
                assert((#[trigger] v@[i as int])@ == s@);
            }
            return true;
        }
        i = i + 1;
    }
    false
}

proof fn lemma_files_map_update(entries: Seq<(String, String)>, i: int, value: String)
    requires
        keys_unique(entries),
        0 <= i < entries.len(),
    ensures
        files_map(entries.update(i, (entries[i].0, value))) == files_map(entries).insert(
            entries[i].0@,
            value@,
        ),
    decreases entries.len(),
{
    let updated = entries.update(i, (entries[i].0, value));
    if i == entries.len() - 1 {
        assert(updated.drop_last() =~= entries.drop_last());
        assert(files_map(updated) =~= files_map(entries).insert(entries[i].0@, value@));
    } else {
        assert(updated.drop_last() =~= entries.drop_last().update(i, (entries[i].0, value)));
        lemma_files_map_update(entries.drop_last(), i, value);
        lemma_files_map(entries.drop_last());
        assert(entries[i].0@ != entries.last().0@);
        assert(files_map(updated) =~= files_map(entries).insert(entries[i].0@, value@));
    }
}

proof fn lemma_filter_files(entries: Seq<(String, String)>, seen: Set<Seq<char>>)
    requires
        keys_unique(entries),
    ensures
        keys_unique(entries.filter(|e: (String, String)| seen.contains(e.0@))),
        files_map(entries.filter(|e: (String, String)| seen.contains(e.0@))) == files_map(
            entries,
        ).restrict(seen),
    decreases entries.len(),
{
    reveal(Seq::filter);
    let pred = |e: (String, String)| seen.contains(e.0@);
    let filtered = entries.filter(pred);
    if entries.len() == 0 {
        assert(files_map(filtered) =~= files_map(entries).restrict(seen));
    } else {
        let prefix = entries.drop_last();
        lemma_filter_files(prefix, seen);
        lemma_files_map(prefix);
        lemma_filter_contains(prefix, pred);
        if pred(entries.last()) {
            assert(filtered == prefix.filter(pred).push(entries.last()));
            assert(filtered.drop_last() =~= prefix.filter(pred));
            assert(keys_unique(filtered));
            assert(files_map(filtered) =~= files_map(entries).restrict(seen));
        } else {
            assert(filtered == prefix.filter(pred));
            assert(!seen.contains(entries.last().0@));
            assert(files_map(filtered) =~= files_map(entries).restrict(seen));
        }
    }
}

// A run over the manifest, in the abstract: `accumulate` is the manifest map
// after recording each rendered template with its content hash (exactly what
// one `add_template` call per template does to `Contents::map`), and
// `run_dirty` whether any recording found its stored hash absent or
// different (exactly when some `add_template` returned true).
pub open spec fn accumulate(
    files: Map<Seq<char>, Seq<char>>,
    ts: Seq<(Seq<char>, Seq<char>)>,
) -> Map<Seq<char>, Seq<char>>
    decreases ts.len(),
{
    if ts.len() == 0 {
        files
    } else {
        accumulate(files, ts.drop_last()).insert(ts.last().0, ts.last().1)
    }
}

pub open spec fn run_dirty(files: Map<Seq<char>, Seq<char>>, ts: Seq<(Seq<char>, Seq<char>)>) -> bool
    decreases ts.len(),
{
    if ts.len() == 0 {
        false
    } else {
        let before = accumulate(files, ts.drop_last());
        run_dirty(files, ts.drop_last()) || !(before.dom().contains(ts.last().0)
            && before[ts.last().0] == ts.last().1)
    }
}

/// The relative paths a run's walk discovered.
pub open spec fn rel_set(ts: Seq<(Seq<char>, Seq<char>)>) -> Set<Seq<char>> {
    Set::new(|k: Seq<char>| exists|j: int| 0 <= j < ts.len() && (#[trigger] ts[j]).0 == k)
}

pub proof fn lemma_accumulate_lookup(
    files: Map<Seq<char>, Seq<char>>,
    ts: Seq<(Seq<char>, Seq<char>)>,
)
    requires
        forall|i: int, j: int| 0 <= i < j < ts.len() ==> (#[trigger] ts[i]).0 != (#[trigger] ts[j]).0,
    ensures
        forall|i: int|
            0 <= i < ts.len() ==> accumulate(files, ts).dom().contains((#[trigger] ts[i]).0)
                && accumulate(files, ts)[ts[i].0] == ts[i].1,
        forall|k: Seq<char>|
            !rel_set(ts).contains(k) ==> (#[trigger] accumulate(files, ts).dom().contains(k)
                == files.dom().contains(k) && (files.dom().contains(k) ==> accumulate(files, ts)[k]
                == files[k])),
    decreases ts.len(),
{
    if ts.len() > 0 {
        let prefix = ts.drop_last();
        assert forall|i: int, j: int| 0 <= i < j < prefix.len() implies (#[trigger] prefix[i]).0
            != (#[trigger] prefix[j]).0 by {
            assert(prefix[i] == ts[i]);
            assert(prefix[j] == ts[j]);
        }
        lemma_accumulate_lookup(files, prefix);
        assert forall|i: int| 0 <= i < ts.len() implies accumulate(files, ts).dom().contains(
            (#[trigger] ts[i]).0,
        ) && accumulate(files, ts)[ts[i].0] == ts[i].1 by {
            if i < ts.len() - 1 {
                assert(prefix[i] == ts[i]);
                assert(ts[i].0 != ts.last().0);
            }
        }
        assert forall|k: Seq<char>| !rel_set(ts).contains(k) implies (
        #[trigger] accumulate(files, ts).dom().contains(k) == files.dom().contains(k) && (
        files.dom().contains(k) ==> accumulate(files, ts)[k] == files[k])) by {
            if rel_set(prefix).contains(k) {
                let j = choose|j: int| 0 <= j < prefix.len() && (#[trigger] prefix[j]).0 == k;
                assert(prefix[j] == ts[j]);
                assert((#[trigger] ts[j]).0 == k);
            }
            assert(!rel_set(prefix).contains(k));
            assert((#[trigger] ts[ts.len() - 1]).0 == ts.last().0);
            assert(k != ts.last().0);
            assert(accumulate(files, prefix).dom().contains(k) == files.dom().contains(k));
            assert(accumulate(files, ts) == accumulate(files, prefix).insert(
                ts.last().0,
                ts.last().1,
            ));
        }
    }
}

pub proof fn lemma_accumulate_noop(files: Map<Seq<char>, Seq<char>>, ts: Seq<(Seq<char>, Seq<char>)>)
    requires
        forall|i: int|
            0 <= i < ts.len() ==> files.dom().contains((#[trigger] ts[i]).0) && files[ts[i].0]
                == ts[i].1,
    ensures
        accumulate(files, ts) == files,
        !run_dirty(files, ts),
    decreases ts.len(),
{
    if ts.len() > 0 {
        let prefix = ts.drop_last();
        assert forall|i: int| 0 <= i < prefix.len() implies files.dom().contains(
            (#[trigger] prefix[i]).0,
        ) && files[prefix[i].0] == prefix[i].1 by {
            assert(prefix[i] == ts[i]);
        }
        lemma_accumulate_noop(files, prefix);
        assert((#[trigger] ts[ts.len() - 1]) == ts.last());
        assert(accumulate(files, ts) =~= files);
    }
}

/// Idempotence of the lockfile protocol: after one run over templates with
/// pairwise distinct relative paths has accumulated and synced the manifest,
/// a second run over the same templates with the same rendered hashes finds
/// every stored hash identical — it is not dirty, rewrites nothing, and
/// leaves the manifest exactly as it was.
pub proof fn lemma_second_run_unchanged(
    m0: Map<Seq<char>, Seq<char>>,
    ts: Seq<(Seq<char>, Seq<char>)>,
)
    requires
        forall|i: int, j: int| 0 <= i < j < ts.len() ==> (#[trigger] ts[i]).0 != (#[trigger] ts[j]).0,
    ensures
        !run_dirty(accumulate(m0, ts).restrict(rel_set(ts)), ts),
        accumulate(accumulate(m0, ts).restrict(rel_set(ts)), ts).restrict(rel_set(ts))
            == accumulate(m0, ts).restrict(rel_set(ts)),
{
    let m1 = accumulate(m0, ts).restrict(rel_set(ts));
    lemma_accumulate_lookup(m0, ts);
    assert forall|i: int| 0 <= i < ts.len() implies m1.dom().contains((#[trigger] ts[i]).0)
        && m1[ts[i].0] == ts[i].1 by {
        assert(rel_set(ts).contains(ts[i].0));
    }
    lemma_accumulate_noop(m1, ts);
    assert(m1.restrict(rel_set(ts)) =~= m1);
}

proof fn lemma_filter_contains<A>(s: Seq<A>, pred: spec_fn(A) -> bool)
    ensures
        forall|i: int|
            0 <= i < s.filter(pred).len() ==> exists|j: int|
                0 <= j < s.len() && s[j] == #[trigger] s.filter(pred)[i],
    decreases s.len(),
{
    reveal(Seq::filter);
    if s.len() > 0 {
        lemma_filter_contains(s.drop_last(), pred);
        assert forall|i: int| 0 <= i < s.filter(pred).len() implies exists|j: int|
            0 <= j < s.len() && s[j] == #[trigger] s.filter(pred)[i] by {
            let f = s.filter(pred);
            let fp = s.drop_last().filter(pred);
            if i < fp.len() {
                let j = choose|j: int| 0 <= j < s.drop_last().len() && s.drop_last()[j] == fp[i];
                assert(s[j] == f[i]);
            } else {
                assert(s[s.len() - 1] == f[i]);
            }
        }
    }
}

} // verus!
