use etch::digits::u64_to_string;
use etch::lockfile::{fnv1a, Contents, Lockfile};
use etch::walker::{invert_exclude, plan_template, try_regexes_get_match, walker_excludes, Template};

#[test]
fn tag_stripping_mid_name() {
    assert_eq!(try_regexes_get_match("config.etch.yaml").unwrap(), "config.yaml");
}

#[test]
fn tag_stripping_suffix() {
    assert_eq!(try_regexes_get_match("script.sh.etch").unwrap(), "script.sh");
}

#[test]
fn untagged_name_is_no_template() {
    assert!(try_regexes_get_match("plain.txt").is_none());
    assert!(try_regexes_get_match("etchy.txt").is_none());
}

#[test]
fn mid_name_tag_matches_greedily() {
    // The last marker wins, as a greedy leading group does.
    assert_eq!(try_regexes_get_match("a.etch.b.etch.c").unwrap(), "a.etch.b.c");
}

#[test]
fn plan_template_builds_paths() {
    let t = plan_template(true, "/root/sub", "sub", "app.etch.json").unwrap();
    assert_eq!(t.rel_path, "sub/app.etch.json");
    assert_eq!(t.src_path, "/root/sub/app.etch.json");
    assert_eq!(t.out_path, "/root/sub/app.json");
    assert!(plan_template(false, "/root", "", "app.etch.json").is_none());
    let at_root = plan_template(true, "/root", "", "run.sh.etch").unwrap();
    assert_eq!(at_root.rel_path, "run.sh.etch");
    assert_eq!(at_root.out_path, "/root/run.sh");
}

#[test]
fn exclude_inversion() {
    assert_eq!(invert_exclude("target/"), "!target/");
    assert_eq!(invert_exclude("!keep.txt"), "keep.txt");
    assert_eq!(invert_exclude("  spaced  "), "!spaced");
}

#[test]
fn excludes_cover_control_files() {
    let ex = walker_excludes("etch.config.toml".to_string(), &vec!["a".to_string()]);
    assert_eq!(ex.len(), 3);
    assert_eq!(ex[0], "etch.config.toml");
    assert_eq!(ex[1], ".etch.lock");
    assert_eq!(ex[2], "a");
}

#[test]
fn fnv1a_known_vectors() {
    assert_eq!(fnv1a(b""), 14695981039346656037);
    assert_eq!(fnv1a(b"a"), 12638187200555641996);
    assert_eq!(fnv1a(b"foobar"), 9625390261332436968);
    assert_eq!(u64_to_string(fnv1a(b"")), "14695981039346656037");
}

fn tpl(rel: &str) -> Template {
    Template {
        rel_path: rel.to_string(),
        src_path: format!("/r/{rel}"),
        out_path: format!("/r/{rel}.out"),
    }
}

fn stored(lf: &Lockfile, key: &str) -> Option<String> {
    lf.contents
        .files
        .iter()
        .find(|e| e.0 == key)
        .map(|e| e.1.clone())
}

#[test]
fn force_resets_and_rewrites() {
    let prior = Contents {
        version: "0.1.0".to_string(),
        files: vec![("a.txt".to_string(), u64_to_string(fnv1a(b"same")))],
    };
    let mut lf = Lockfile::load("/r".to_string(), true, Some(prior));
    assert!(lf.modified);
    assert!(lf.contents.files.is_empty());
    // Identical content is still rewritten after a forced reset.
    assert!(lf.add_template(&tpl("a.txt"), "same"));
}

#[test]
fn version_mismatch_resets() {
    let prior = Contents {
        version: "0.0.9".to_string(),
        files: vec![("a.txt".to_string(), "1".to_string())],
    };
    let lf = Lockfile::load("/r".to_string(), false, Some(prior));
    assert!(lf.modified);
    assert!(lf.contents.files.is_empty());
}

#[test]
fn missing_prior_starts_fresh() {
    let lf = Lockfile::load("/r".to_string(), false, None);
    assert!(lf.modified);
    assert!(lf.contents.files.is_empty());
    assert_eq!(lf.filepath, "/r/.etch.lock");
}

#[test]
fn manifest_pruning() {
    let prior = Contents {
        version: "0.1.0".to_string(),
        files: vec![("old.txt".to_string(), "123".to_string())],
    };
    let mut lf = Lockfile::load("/r".to_string(), false, Some(prior));
    assert!(!lf.modified);
    let wrote = lf.add_template(&tpl("new.txt"), "fresh");
    assert!(wrote);
    let should_write = lf.sync();
    assert!(should_write);
    assert!(lf.modified);
    assert!(stored(&lf, "old.txt").is_none());
    assert!(stored(&lf, "new.txt").is_some());
}

#[test]
fn second_run_is_idempotent() {
    // First run, from nothing.
    let mut first = Lockfile::load("/r".to_string(), false, None);
    assert!(first.add_template(&tpl("a.txt"), "alpha"));
    assert!(first.add_template(&tpl("b/c.txt"), "beta"));
    assert!(first.sync());

    // Second run over the same rendered content.
    let carried = Contents {
        version: first.contents.version.clone(),
        files: first.contents.files.clone(),
    };
    let mut second = Lockfile::load("/r".to_string(), false, Some(carried));
    assert!(!second.modified);
    assert!(!second.add_template(&tpl("a.txt"), "alpha"));
    assert!(!second.add_template(&tpl("b/c.txt"), "beta"));
    let should_write = second.sync();
    assert!(!should_write);
    assert!(!second.modified);
    assert_eq!(second.contents.files.len(), 2);
}

#[test]
fn changed_content_is_rewritten() {
    let mut lf = Lockfile::load("/r".to_string(), false, None);
    assert!(lf.add_template(&tpl("a.txt"), "one"));
    let hash_one = stored(&lf, "a.txt").unwrap();
    assert!(lf.add_template(&tpl("a.txt"), "two"));
    let hash_two = stored(&lf, "a.txt").unwrap();
    assert_ne!(hash_one, hash_two);
}
