//! One synchronisation pass: what to do with each source file, the
//! fingerprints and destinations gathered along the way, and the orphans
//! left in the mirror afterwards.
//!
//! The caller walks the trees, runs programs and touches files; every
//! decision of the pass is made here.
use vstd::prelude::*;
use vstd::hash_set::StringHashSet;
use crate::digest::{digests_match, same_digest};
use crate::filter::FilterChoice;
use crate::mapping::{destination_of, joined, mirror_entry, path_text};
use crate::state::{Database, DigestMap};

verus! {

/// What a pass does with one source file.
#[derive(Debug, Clone, Copy, PartialEq, Eq, Structural)]
pub enum FileAction {
    /// The destination is current: nothing is written.
    Unchanged,
    /// The destination is a byte copy of the source.
    Copy,
    /// The filter at this position of the list writes the destination.
    RunFilter(usize),
}

/// The skip rule: a file is left alone when its fingerprint matches the one
/// recorded by the last pass and its destination exists; otherwise the
/// chosen filter, or else a copy, regenerates the destination.
pub open spec fn file_action(
    previous: Option<Seq<char>>,
    fresh: Seq<char>,
    destination_exists: bool,
    filter: Option<usize>,
) -> FileAction {
    if previous is Some && digests_match(previous->Some_0, fresh) && destination_exists {
        FileAction::Unchanged
    } else {
        match filter {
            Some(i) => FileAction::RunFilter(i),
            None => FileAction::Copy,
        }
    }
}

/// The value of a map at a key, where it has one.
pub open spec fn lookup(m: Map<Seq<char>, Seq<char>>, key: Seq<char>) -> Option<Seq<char>> {
    if m.contains_key(key) {
        Some(m[key])
    } else {
        None
    }
}

impl Database {
    /// The destination of a source entry under this pair's roots; a chosen
    /// filter's extension replaces that of the last component.
    pub fn destination(&self, entry: &Vec<String>, choice: Option<&FilterChoice>) -> (r: Vec<String>)
        ensures
            r.deep_view() == destination_of(
                self.source_root(),
                self.mirror_root(),
                entry.deep_view(),
                match choice {
                    Some(c) => Some(c.extension@),
                    None => None,
                },
            ),
    {
        let extension = match choice {
            Some(c) => Some(&c.extension),
            None => None,
        };
        mirror_entry(self.source_path(), self.mirror_path(), entry, extension)
    }

    /// Decides what to do with a source file, given its fresh fingerprint,
    /// whether its destination exists, and the filter chosen for it.
    pub fn plan_file(
        &self,
        source: &Vec<String>,
        digest: &str,
        destination_exists: bool,
        filter: Option<usize>,
    ) -> (r: FileAction)
        requires
            self.wf(),
        ensures
            r == file_action(
                lookup(self.digests(), joined(source.deep_view())),
                digest@,
                destination_exists,
                filter,
            ),
    {
        let key = path_text(source);
        let unchanged = match self.hashes().get(key.as_str()) {
            Some(previous) => destination_exists && same_digest(previous.as_str(), digest),
            None => false,
        };
        if unchanged {
            FileAction::Unchanged
        } else {
            match filter {
                Some(i) => FileAction::RunFilter(i),
                None => FileAction::Copy,
            }
        }
    }
}

/// The set of destination path texts that a pass keeps.
pub type KeptPaths = StringHashSet;

/// What a pass gathers while it runs: the fingerprints of the source files
/// it completed, and the destinations that should exist once it is done.
pub struct Pass {
    fresh: DigestMap,
    kept: StringHashSet,
}

impl Pass {
    pub closed spec fn wf(&self) -> bool {
        self.fresh.wf()
    }

    /// The fingerprints gathered so far, by source path text.
    pub closed spec fn fresh(&self) -> Map<Seq<char>, Seq<char>> {
        self.fresh@
    }

    /// The destination path texts gathered so far.
    pub closed spec fn kept(&self) -> Set<Seq<char>> {
        self.kept@
    }

    /// A pass that has seen nothing yet.
    pub fn new() -> (r: Pass)
        ensures
            r.wf(),
            r.fresh() == Map::<Seq<char>, Seq<char>>::empty(),
            r.kept() == Set::<Seq<char>>::empty(),
    {
        Pass { fresh: DigestMap::new(), kept: StringHashSet::new() }
    }

    /// Records that a destination (file or directory) should exist.
    pub fn keep(&mut self, destination: &Vec<String>)
        requires
            old(self).wf(),
        ensures
            final(self).wf(),
            final(self).fresh() == old(self).fresh(),
            final(self).kept() == old(self).kept().insert(joined(destination.deep_view())),
    {
        let key = path_text(destination);
        self.kept.insert(key);
    }

    /// Records the outcome of one source file: its fingerprint enters the
    /// pass's map only where its destination was brought up to date, so
    /// that a failed file is tried again by the next pass.
    pub fn complete_file(&mut self, source: &Vec<String>, digest: String, succeeded: bool)
        requires
            old(self).wf(),
        ensures
            final(self).wf(),
            final(self).kept() == old(self).kept(),
            final(self).fresh() == if succeeded {
                old(self).fresh().insert(joined(source.deep_view()), digest@)
            } else {
                old(self).fresh()
            },
    {
        if succeeded {
            let key = path_text(source);
            self.fresh.insert(key, digest);
        }
    }

    /// Ends the pass: the database's fingerprints are replaced by those the
    /// pass gathered, and the destinations to keep are handed back.
    pub fn finish(self, db: &mut Database) -> (r: StringHashSet)
        requires
            self.wf(),
        ensures
            final(db).wf(),
            final(db).digests() == self.fresh(),
            final(db).source_root() == old(db).source_root(),
            final(db).mirror_root() == old(db).mirror_root(),
            final(db).filter_list() == old(db).filter_list(),
            r@ == self.kept(),
    {
        db.replace_digests(self.fresh);
        self.kept
    }
}

/// The entries of a mirror listing that the pass did not keep, in order.
pub open spec fn unkept(listing: Seq<Seq<Seq<char>>>, kept: Set<Seq<char>>) -> Seq<Seq<Seq<char>>>
    decreases listing.len(),
{
    if listing.len() == 0 {
        Seq::empty()
    } else {
        let prev = unkept(listing.drop_last(), kept);
        if kept.contains(joined(listing.last())) {
            prev
        } else {
            prev.push(listing.last())
        }
    }
}

/// The orphans of a pass: the entries of the mirror listing whose path the
/// pass did not keep. Removing a directory removes what it holds, so an
/// orphan may already be gone when its turn comes.
pub fn sweep_targets(listing: &Vec<Vec<String>>, kept: &StringHashSet) -> (r: Vec<Vec<String>>)
    ensures
        r.deep_view() == unkept(listing.deep_view(), kept@),
{
    let mut out: Vec<Vec<String>> = Vec::new();
    let mut i: usize = 0;
    while i < listing.len()
        invariant
            i <= listing.len(),
            out.deep_view() == unkept(listing.deep_view().subrange(0, i as int), kept@),
        decreases listing.len() - i,
    {
        let ghost prev = listing.deep_view().subrange(0, i as int);
        let ghost next = listing.deep_view().subrange(0, i as int + 1);
        assert(next.drop_last() =~= prev);
        let key = path_text(&listing[i]);
        if !kept.contains(key.as_str()) {
            let entry = listing[i].clone();
            let ghost before = out.deep_view();
            out.push(entry);
            assert(out.deep_view() =~= before.push(listing.deep_view()[i as int]));
        }
        i = i + 1;
    }
    assert(listing.deep_view().subrange(0, listing.len() as int) =~= listing.deep_view());
    out
}

/// The fingerprints that a pass gathers when every one of `files` (source
/// path text, fingerprint) completes, in this order.
pub open spec fn pass_digests(files: Seq<(Seq<char>, Seq<char>)>) -> Map<Seq<char>, Seq<char>>
    decreases files.len(),
{
    if files.len() == 0 {
        Map::empty()
    } else {
        pass_digests(files.drop_last()).insert(files.last().0, files.last().1)
    }
}

/// No source path occurs twice among the files of a pass.
pub open spec fn distinct_sources(files: Seq<(Seq<char>, Seq<char>)>) -> bool {
    forall|i: int, j: int| 0 <= i < j < files.len() ==> files[i].0 != files[j].0
}

/// What a pass over distinct files gathers: each file's fingerprint under its
/// path, and nothing else.
pub proof fn lemma_pass_digests(files: Seq<(Seq<char>, Seq<char>)>)
    requires
        distinct_sources(files),
    ensures
        forall|k: Seq<char>|
            pass_digests(files).contains_key(k) <==> exists|i: int| 0 <= i < files.len() && files[i].0 == k,
        forall|i: int| 0 <= i < files.len() ==> #[trigger] pass_digests(files)[files[i].0] == files[i].1,
    decreases files.len(),
{
    if files.len() > 0 {
        let init = files.drop_last();
        lemma_pass_digests(init);
        assert(pass_digests(files) == pass_digests(init).insert(files.last().0, files.last().1));
        assert forall|k: Seq<char>| pass_digests(files).contains_key(k) implies exists|i: int|
            0 <= i < files.len() && files[i].0 == k by {
            if k != files.last().0 {
                assert(pass_digests(init).contains_key(k));
                let i = choose|i: int| 0 <= i < init.len() && init[i].0 == k;
                assert(files[i] == init[i]);
            } else {
                assert(files[files.len() - 1].0 == k);
            }
        }
        assert forall|k: Seq<char>| (exists|i: int| 0 <= i < files.len() && files[i].0 == k)
            implies pass_digests(files).contains_key(k) by {
            let i = choose|i: int| 0 <= i < files.len() && files[i].0 == k;
            if i < files.len() - 1 {
                assert(init[i] == files[i]);
            }
        }
        assert forall|i: int| 0 <= i < files.len() implies #[trigger] pass_digests(files)[files[i].0]
            == files[i].1 by {
            if i < files.len() - 1 {
                assert(init[i] == files[i]);
                assert(pass_digests(init)[init[i].0] == init[i].1);
            }
        }
    }
}

/// The order in which the files of a pass complete does not matter: two
/// orders of the same distinct files gather the same fingerprints.
pub proof fn lemma_completion_order_irrelevant(
    a: Seq<(Seq<char>, Seq<char>)>,
    b: Seq<(Seq<char>, Seq<char>)>,
)
    requires
        distinct_sources(a),
        distinct_sources(b),
        a.to_set() == b.to_set(),
    ensures
        pass_digests(a) == pass_digests(b),
{
    lemma_pass_digests(a);
    lemma_pass_digests(b);
    assert forall|k: Seq<char>| #[trigger] pass_digests(a).dom().contains(k) implies pass_digests(
        b,
    ).dom().contains(k) && pass_digests(a)[k] == pass_digests(b)[k] by {
        let i = choose|i: int| 0 <= i < a.len() && a[i].0 == k;
        assert(a.to_set().contains(a[i]));
        assert(b.to_set().contains(a[i]));
        let j = choose|j: int| 0 <= j < b.len() && b[j] == a[i];
        assert(pass_digests(b)[b[j].0] == b[j].1);
    }
    assert forall|k: Seq<char>| #[trigger] pass_digests(b).dom().contains(k) implies pass_digests(
        a,
    ).dom().contains(k) by {
        let j = choose|j: int| 0 <= j < b.len() && b[j].0 == k;
        assert(b.to_set().contains(b[j]));
        assert(a.to_set().contains(b[j]));
        let i = choose|i: int| 0 <= i < a.len() && a[i] == b[j];
        assert(a[i].0 == k);
    }
    assert(pass_digests(a).dom() =~= pass_digests(b).dom());
    assert(pass_digests(a) =~= pass_digests(b));
}

/// Idempotence: a second pass over an unchanged tree, whose destinations
/// all exist, leaves every file alone, whatever filter it chose; and the
/// sweep then finds nothing to remove in a mirror that holds only what the
/// pass kept.
pub proof fn lemma_unchanged_pass_is_idle(
    files: Seq<(Seq<char>, Seq<char>)>,
    filters: Seq<Option<usize>>,
    listing: Seq<Seq<Seq<char>>>,
    kept: Set<Seq<char>>,
)
    requires
        distinct_sources(files),
        filters.len() == files.len(),
        forall|j: int| 0 <= j < listing.len() ==> kept.contains(#[trigger] joined(listing[j])),
    ensures
        forall|i: int|
            0 <= i < files.len() ==> file_action(
                lookup(pass_digests(files), files[i].0),
                files[i].1,
                true,
                #[trigger] filters[i],
            ) == FileAction::Unchanged,
        unkept(listing, kept).len() == 0,
{
    lemma_pass_digests(files);
    assert forall|i: int| 0 <= i < files.len() implies file_action(
        lookup(pass_digests(files), files[i].0),
        files[i].1,
        true,
        #[trigger] filters[i],
    ) == FileAction::Unchanged by {
        assert(pass_digests(files).contains_key(files[i].0));
        assert(pass_digests(files)[files[i].0] == files[i].1);
    }
    lemma_all_kept_nothing_swept(listing, kept);
}

/// A mirror listing whose every entry was kept has no orphans.
pub proof fn lemma_all_kept_nothing_swept(listing: Seq<Seq<Seq<char>>>, kept: Set<Seq<char>>)
    requires
        forall|j: int| 0 <= j < listing.len() ==> kept.contains(#[trigger] joined(listing[j])),
    ensures
        unkept(listing, kept).len() == 0,
    decreases listing.len(),
{
    if listing.len() > 0 {
        let init = listing.drop_last();
        assert forall|j: int| 0 <= j < init.len() implies kept.contains(#[trigger] joined(init[j])) by {
            assert(init[j] == listing[j]);
        }
        lemma_all_kept_nothing_swept(init, kept);
        assert(kept.contains(joined(listing[listing.len() - 1])));
    }
}

/// Change propagation: after a pass over `files` whose destinations all
/// exist, changing the contents of file `k` alone makes the next pass
/// regenerate that file and no other, and the next map differs only there.
pub proof fn lemma_one_change_one_regeneration(
    files: Seq<(Seq<char>, Seq<char>)>,
    k: int,
    digest: Seq<char>,
    filters: Seq<Option<usize>>,
)
    requires
        distinct_sources(files),
        0 <= k < files.len(),
        !digests_match(files[k].1, digest),
        filters.len() == files.len(),
    ensures
        ({
            let old_map = pass_digests(files);
            let changed = files.update(k, (files[k].0, digest));
            &&& file_action(lookup(old_map, changed[k].0), changed[k].1, true, filters[k])
                != FileAction::Unchanged
            &&& forall|i: int|
                0 <= i < files.len() && i != k ==> file_action(
                    lookup(old_map, changed[i].0),
                    changed[i].1,
                    true,
                    #[trigger] filters[i],
                ) == FileAction::Unchanged
            &&& pass_digests(changed) == old_map.insert(files[k].0, digest)
        }),
{
    let old_map = pass_digests(files);
    let changed = files.update(k, (files[k].0, digest));
    lemma_pass_digests(files);
    assert(distinct_sources(changed));
    lemma_pass_digests(changed);
    assert(old_map.contains_key(files[k].0));
    assert(old_map[files[k].0] == files[k].1);
    assert forall|i: int| 0 <= i < files.len() && i != k implies file_action(
        lookup(old_map, changed[i].0),
        changed[i].1,
        true,
        #[trigger] filters[i],
    ) == FileAction::Unchanged by {
        assert(changed[i] == files[i]);
        assert(old_map.contains_key(files[i].0));
        assert(old_map[files[i].0] == files[i].1);
    }
    let expected = old_map.insert(files[k].0, digest);
    assert forall|q: Seq<char>| pass_digests(changed).contains_key(q) <==> expected.contains_key(q) by {
        if pass_digests(changed).contains_key(q) {
            let i = choose|i: int| 0 <= i < changed.len() && changed[i].0 == q;
            assert(files[i].0 == q);
        }
        if expected.contains_key(q) && q != files[k].0 {
            let i = choose|i: int| 0 <= i < files.len() && files[i].0 == q;
            assert(changed[i].0 == q);
        }
        if q == files[k].0 {
            assert(changed[k].0 == q);
        }
    }
    assert forall|q: Seq<char>| #[trigger] pass_digests(changed).contains_key(q) implies pass_digests(
        changed,
    )[q] == expected[q] by {
        let i = choose|i: int| 0 <= i < changed.len() && changed[i].0 == q;
        assert(pass_digests(changed)[changed[i].0] == changed[i].1);
        if i != k {
            assert(changed[i] == files[i]);
            assert(old_map[files[i].0] == files[i].1);
        }
    }
    assert(pass_digests(changed) =~= expected);
}

/// Deletion propagation: a source path that the pass no longer saw has no
/// fingerprint afterwards, and a mirror entry that the pass did not keep is
/// among the sweep's orphans.
pub proof fn lemma_removed_source_forgotten(
    files: Seq<(Seq<char>, Seq<char>)>,
    gone: Seq<char>,
    listing: Seq<Seq<Seq<char>>>,
    kept: Set<Seq<char>>,
    j: int,
)
    requires
        distinct_sources(files),
        forall|i: int| 0 <= i < files.len() ==> files[i].0 != gone,
        0 <= j < listing.len(),
        !kept.contains(joined(listing[j])),
    ensures
        !pass_digests(files).contains_key(gone),
        unkept(listing, kept).contains(listing[j]),
{
    lemma_pass_digests(files);
    lemma_unkept_entry_swept(listing, kept, j);
}

/// The destination texts that a pass keeps when it walks `entries`, each an
/// entry's components with the extension that its filter claimed, if any.
pub open spec fn pass_kept(
    source_root: Seq<Seq<char>>,
    mirror_root: Seq<Seq<char>>,
    entries: Seq<(Seq<Seq<char>>, Option<Seq<char>>)>,
) -> Set<Seq<char>>
    decreases entries.len(),
{
    if entries.len() == 0 {
        Set::empty()
    } else {
        pass_kept(source_root, mirror_root, entries.drop_last()).insert(
            joined(destination_of(source_root, mirror_root, entries.last().0, entries.last().1)),
        )
    }
}

/// A pass keeps exactly the destinations of the entries it walked.
pub proof fn lemma_pass_kept(
    source_root: Seq<Seq<char>>,
    mirror_root: Seq<Seq<char>>,
    entries: Seq<(Seq<Seq<char>>, Option<Seq<char>>)>,
)
    ensures
        forall|t: Seq<char>|
            pass_kept(source_root, mirror_root, entries).contains(t) <==> exists|i: int|
                0 <= i < entries.len() && t == joined(
                    destination_of(source_root, mirror_root, entries[i].0, entries[i].1),
                ),
    decreases entries.len(),
{
    if entries.len() > 0 {
        let init = entries.drop_last();
        lemma_pass_kept(source_root, mirror_root, init);
        assert forall|t: Seq<char>| pass_kept(source_root, mirror_root, entries).contains(t) implies exists|i: int|
            0 <= i < entries.len() && t == joined(
                destination_of(source_root, mirror_root, entries[i].0, entries[i].1),
            ) by {
            if t != joined(destination_of(source_root, mirror_root, entries.last().0, entries.last().1)) {
                assert(pass_kept(source_root, mirror_root, init).contains(t));
                let i = choose|i: int|
                    0 <= i < init.len() && t == joined(
                        destination_of(source_root, mirror_root, init[i].0, init[i].1),
                    );
                assert(init[i] == entries[i]);
            } else {
                let last = entries.len() - 1;
                assert(entries[last] == entries.last());
                assert(t == joined(destination_of(source_root, mirror_root, entries[last].0, entries[last].1)));
            }
        }
        assert forall|t: Seq<char>| (exists|i: int|
            0 <= i < entries.len() && t == joined(
                destination_of(source_root, mirror_root, entries[i].0, entries[i].1),
            )) implies pass_kept(source_root, mirror_root, entries).contains(t) by {
            let i = choose|i: int|
                0 <= i < entries.len() && t == joined(
                    destination_of(source_root, mirror_root, entries[i].0, entries[i].1),
                );
            if i < entries.len() - 1 {
                assert(init[i] == entries[i]);
                assert(pass_kept(source_root, mirror_root, init).contains(t));
            } else {
                assert(entries[i] == entries.last());
            }
        }
    }
}

/// Deletion propagation in the mirror: once a source file or directory is
/// gone, a mirror entry that no remaining walked entry maps to (its old
/// destination, or anything below it) is among the sweep's orphans.
pub proof fn lemma_removed_entry_swept(
    source_root: Seq<Seq<char>>,
    mirror_root: Seq<Seq<char>>,
    entries: Seq<(Seq<Seq<char>>, Option<Seq<char>>)>,
    listing: Seq<Seq<Seq<char>>>,
    j: int,
)
    requires
        0 <= j < listing.len(),
        forall|i: int|
            0 <= i < entries.len() ==> joined(
                destination_of(source_root, mirror_root, #[trigger] entries[i].0, entries[i].1),
            ) != joined(listing[j]),
    ensures
        unkept(listing, pass_kept(source_root, mirror_root, entries)).contains(listing[j]),
{
    lemma_pass_kept(source_root, mirror_root, entries);
    lemma_unkept_entry_swept(listing, pass_kept(source_root, mirror_root, entries), j);
}

/// Every entry of the listing that the pass did not keep is an orphan.
pub proof fn lemma_unkept_entry_swept(listing: Seq<Seq<Seq<char>>>, kept: Set<Seq<char>>, j: int)
    requires
        0 <= j < listing.len(),
        !kept.contains(joined(listing[j])),
    ensures
        unkept(listing, kept).contains(listing[j]),
    decreases listing.len(),
{
    let prev = unkept(listing.drop_last(), kept);
    if j < listing.len() - 1 {
        lemma_unkept_entry_swept(listing.drop_last(), kept, j);
        let w = choose|w: int| 0 <= w < prev.len() && prev[w] == listing[j];
        if !kept.contains(joined(listing.last())) {
            assert(prev.push(listing.last())[w] == listing[j]);
        }
    } else {
        assert(unkept(listing, kept) == prev.push(listing.last()));
        assert(unkept(listing, kept)[prev.len() as int] == listing[j]);
    }
}

/// Self-healing: a file whose destination is missing is regenerated, even
/// where its fingerprint matches the recorded one.
pub proof fn lemma_missing_destination_regenerated(
    previous: Option<Seq<char>>,
    fresh: Seq<char>,
    filter: Option<usize>,
)
    ensures
        file_action(previous, fresh, false, filter) != FileAction::Unchanged,
        filter is Some ==> file_action(previous, fresh, false, filter) == FileAction::RunFilter(
            filter->Some_0,
        ),
        filter is None ==> file_action(previous, fresh, false, filter) == FileAction::Copy,
{
}

} // verus!
