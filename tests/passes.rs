use mirrorman::digest::content_digest;
use mirrorman::filter::FilterSearch;
use mirrorman::pass::{sweep_targets, FileAction, KeptPaths, Pass};
use mirrorman::state::{Database, DigestMap};

fn parts(items: &[&str]) -> Vec<String> {
    items.iter().map(|s| s.to_string()).collect()
}

/// Runs one pass over `files` (path, contents) and `dirs`, with no filters,
/// where `existing` lists the destinations already on disk; returns the
/// actions taken and the destinations kept.
fn run_pass(
    db: &mut Database,
    dirs: &[Vec<String>],
    files: &[(Vec<String>, &[u8])],
    existing: &[Vec<String>],
) -> (Vec<FileAction>, KeptPaths) {
    let mut pass = Pass::new();
    for d in dirs {
        let dest = db.destination(d, None);
        pass.keep(&dest);
    }
    let mut actions = Vec::new();
    for (path, contents) in files {
        let dest = db.destination(path, None);
        pass.keep(&dest);
        let digest = content_digest(contents);
        let exists = existing.contains(&dest);
        let action = db.plan_file(path, &digest, exists, None);
        actions.push(action);
        pass.complete_file(path, digest, true);
    }
    let kept = pass.finish(db);
    (actions, kept)
}

#[test]
fn new_database_is_empty() {
    let db = Database::new(parts(&["src"]), parts(&["out"]), vec!["f".to_string()]);
    assert_eq!(db.hashes().len(), 0);
    assert_eq!(db.source_path(), &parts(&["src"]));
    assert_eq!(db.mirror_path(), &parts(&["out"]));
    assert_eq!(db.filters(), &vec!["f".to_string()]);
}

#[test]
fn digest_map_replaces_and_lists_keys() {
    let mut m = DigestMap::new();
    m.insert("a".to_string(), "1".to_string());
    m.insert("b".to_string(), "2".to_string());
    m.insert("a".to_string(), "3".to_string());
    assert_eq!(m.len(), 2);
    assert_eq!(m.key(0), "a");
    assert_eq!(m.key(1), "b");
    assert_eq!(m.get("a"), Some(&"3".to_string()));
    assert_eq!(m.get("c"), None);
}

#[test]
fn second_pass_over_unchanged_tree_is_idle() {
    let mut db = Database::new(parts(&["src"]), parts(&["out"]), vec![]);
    let dirs = vec![parts(&["src"])];
    let files: Vec<(Vec<String>, &[u8])> = vec![(parts(&["src", "a.txt"]), b"hi")];
    let (first, _) = run_pass(&mut db, &dirs, &files, &[]);
    assert_eq!(first, vec![FileAction::Copy]);
    let before = db.hashes().get("src/a.txt").cloned();
    let existing = vec![parts(&["out"]), parts(&["out", "a.txt"])];
    let (second, kept) = run_pass(&mut db, &dirs, &files, &existing);
    assert_eq!(second, vec![FileAction::Unchanged]);
    assert_eq!(db.hashes().get("src/a.txt").cloned(), before);
    assert_eq!(db.hashes().len(), 1);
    assert!(sweep_targets(&existing, &kept).is_empty());
}

#[test]
fn changed_file_alone_is_regenerated() {
    let mut db = Database::new(parts(&["src"]), parts(&["out"]), vec![]);
    let files: Vec<(Vec<String>, &[u8])> =
        vec![(parts(&["src", "a.txt"]), b"hi"), (parts(&["src", "b.txt"]), b"yo")];
    run_pass(&mut db, &[], &files, &[]);
    let existing = vec![parts(&["out", "a.txt"]), parts(&["out", "b.txt"])];
    let changed: Vec<(Vec<String>, &[u8])> =
        vec![(parts(&["src", "a.txt"]), b"bye"), (parts(&["src", "b.txt"]), b"yo")];
    let (actions, _) = run_pass(&mut db, &[], &changed, &existing);
    assert_eq!(actions, vec![FileAction::Copy, FileAction::Unchanged]);
    assert_eq!(db.hashes().get("src/a.txt"), Some(&content_digest(b"bye")));
}

#[test]
fn removed_source_is_forgotten_and_swept() {
    let mut db = Database::new(parts(&["src"]), parts(&["out"]), vec![]);
    let files: Vec<(Vec<String>, &[u8])> =
        vec![(parts(&["src", "a.txt"]), b"hi"), (parts(&["src", "b.txt"]), b"yo")];
    run_pass(&mut db, &[parts(&["src"])], &files, &[]);
    let remaining: Vec<(Vec<String>, &[u8])> = vec![(parts(&["src", "a.txt"]), b"hi")];
    let listing = vec![parts(&["out"]), parts(&["out", "a.txt"]), parts(&["out", "b.txt"])];
    let (_, kept) = run_pass(&mut db, &[parts(&["src"])], &remaining, &listing);
    assert_eq!(db.hashes().get("src/b.txt"), None);
    assert_eq!(db.hashes().len(), 1);
    assert_eq!(sweep_targets(&listing, &kept), vec![parts(&["out", "b.txt"])]);
}

#[test]
fn missing_destination_is_regenerated() {
    let mut db = Database::new(parts(&["src"]), parts(&["out"]), vec![]);
    let files: Vec<(Vec<String>, &[u8])> = vec![(parts(&["src", "a.txt"]), b"hi")];
    run_pass(&mut db, &[], &files, &[]);
    let (actions, _) = run_pass(&mut db, &[], &files, &[]);
    assert_eq!(actions, vec![FileAction::Copy]);
    let digest = content_digest(b"hi");
    assert_eq!(db.plan_file(&parts(&["src", "a.txt"]), &digest, false, Some(1)), FileAction::RunFilter(1));
    assert_eq!(db.plan_file(&parts(&["src", "a.txt"]), &digest, true, Some(1)), FileAction::Unchanged);
}

#[test]
fn matching_digest_ignores_case() {
    let mut db = Database::new(parts(&["src"]), parts(&["out"]), vec![]);
    let files: Vec<(Vec<String>, &[u8])> = vec![(parts(&["src", "a.txt"]), b"hi")];
    run_pass(&mut db, &[], &files, &[]);
    let lower = content_digest(b"hi").to_lowercase();
    assert_eq!(db.plan_file(&parts(&["src", "a.txt"]), &lower, true, None), FileAction::Unchanged);
}

#[test]
fn failed_file_is_left_out_of_the_map() {
    let mut db = Database::new(parts(&["src"]), parts(&["out"]), vec![]);
    let mut pass = Pass::new();
    pass.complete_file(&parts(&["src", "a.txt"]), content_digest(b"hi"), false);
    pass.complete_file(&parts(&["src", "b.txt"]), content_digest(b"yo"), true);
    pass.finish(&mut db);
    assert_eq!(db.hashes().get("src/a.txt"), None);
    assert_eq!(db.hashes().len(), 1);
}

#[test]
fn only_the_first_claiming_filter_transforms() {
    let db = Database::new(parts(&["src"]), parts(&["out"]), vec!["a".to_string(), "b".to_string()]);
    let entry = parts(&["src", "page.x"]);
    let mut search = FilterSearch::start("page.x", true, db.filters().len());
    search.record(Some("x".to_string()));
    assert_eq!(search.next_query(), None);
    let index = search.choice().map(|c| c.index);
    assert_eq!(index, Some(0));
    let digest = content_digest(b"body");
    assert_eq!(db.plan_file(&entry, &digest, false, index), FileAction::RunFilter(0));
}

#[test]
fn end_to_end_init_then_sync() {
    let mut db = Database::new(parts(&["src"]), parts(&["out"]), vec![]);
    let dirs = vec![parts(&["src"]), parts(&["src", "sub"])];
    let files: Vec<(Vec<String>, &[u8])> =
        vec![(parts(&["src", "a.txt"]), b"hi"), (parts(&["src", "sub", "b.txt"]), b"yo")];
    let (first, kept) = run_pass(&mut db, &dirs, &files, &[]);
    assert_eq!(first, vec![FileAction::Copy, FileAction::Copy]);
    assert_eq!(db.hashes().len(), 2);
    assert_eq!(db.hashes().get("src/a.txt"), Some(&content_digest(b"hi")));
    assert_eq!(db.hashes().get("src/sub/b.txt"), Some(&content_digest(b"yo")));
    let after_init = vec![
        parts(&["out"]),
        parts(&["out", "a.txt"]),
        parts(&["out", "sub"]),
        parts(&["out", "sub", "b.txt"]),
    ];
    assert!(sweep_targets(&after_init, &kept).is_empty());

    let files: Vec<(Vec<String>, &[u8])> =
        vec![(parts(&["src", "a.txt"]), b"bye"), (parts(&["src", "c.txt"]), b"new")];
    let (second, kept) = run_pass(&mut db, &[parts(&["src"])], &files, &after_init);
    assert_eq!(second, vec![FileAction::Copy, FileAction::Copy]);
    assert_eq!(db.hashes().len(), 2);
    assert_eq!(db.hashes().get("src/a.txt"), Some(&content_digest(b"bye")));
    assert_eq!(db.hashes().get("src/c.txt"), Some(&content_digest(b"new")));
    assert_eq!(db.hashes().get("src/sub/b.txt"), None);
    let before_sweep = vec![
        parts(&["out"]),
        parts(&["out", "a.txt"]),
        parts(&["out", "c.txt"]),
        parts(&["out", "sub"]),
        parts(&["out", "sub", "b.txt"]),
    ];
    assert_eq!(
        sweep_targets(&before_sweep, &kept),
        vec![parts(&["out", "sub"]), parts(&["out", "sub", "b.txt"])]
    );
}

#[test]
fn filter_rewrites_extension_and_runs() {
    let db = Database::new(parts(&["src"]), parts(&["out"]), vec!["md2html".to_string()]);
    let entry = parts(&["src", "post.md"]);
    let mut search = FilterSearch::start("post.md", true, 1);
    assert_eq!(search.extension().map(|e| e.as_str()), Some("md"));
    search.record(Some("html".to_string()));
    let choice = search.choice();
    assert_eq!(db.destination(&entry, choice), parts(&["out", "post.html"]));
    let digest = content_digest(b"# title");
    let action = db.plan_file(&entry, &digest, false, choice.map(|c| c.index));
    assert_eq!(action, FileAction::RunFilter(0));
    assert_ne!(action, FileAction::Copy);
}

#[test]
fn completion_order_does_not_change_the_map() {
    let a = parts(&["src", "a.txt"]);
    let b = parts(&["src", "b.txt"]);
    let mut first = Database::new(parts(&["src"]), parts(&["out"]), vec![]);
    let mut pass = Pass::new();
    pass.complete_file(&a, content_digest(b"hi"), true);
    pass.complete_file(&b, content_digest(b"yo"), true);
    pass.finish(&mut first);
    let mut second = Database::new(parts(&["src"]), parts(&["out"]), vec![]);
    let mut pass = Pass::new();
    pass.complete_file(&b, content_digest(b"yo"), true);
    pass.complete_file(&a, content_digest(b"hi"), true);
    pass.finish(&mut second);
    assert_eq!(first.hashes().len(), second.hashes().len());
    for key in ["src/a.txt", "src/b.txt"] {
        assert_eq!(first.hashes().get(key), second.hashes().get(key));
    }
}
