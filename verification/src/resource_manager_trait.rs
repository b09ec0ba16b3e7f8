use vstd::prelude::*;
use crate::laws::{lemma_level_change, lemma_level_change_keeps_consistent};
use crate::lifecycle::{distinct, lemma_outgoing_push, lists, outgoing, tells, EngineState};
use crate::resource_file::ResourceFile;
use crate::resource_manager_errors::ResourceManagerResult;
use crate::resources::refcount_registry::RefCounts;
use crate::resources::resources_registry::Loaded;
use crate::text::{contains_path, distinct_paths, paths_of, same_text};

verus! {

/// The count that `entries` give for `path`: that of the first entry for it.
pub fn count_among(entries: &Vec<(String, u8)>, path: &str) -> (count: Option<u8>)
    ensures
        match count {
            Some(c) => exists|i: int|
                0 <= i < entries.len() && (#[trigger] entries[i]).0@ == path@ && entries[i].1 == c
                    && forall|j: int| 0 <= j < i ==> (#[trigger] entries[j]).0@ != path@,
            None => forall|i: int| 0 <= i < entries.len() ==> (#[trigger] entries[i]).0@ != path@,
        },
{
    let mut i: usize = 0;
    while i < entries.len()
        invariant
            i <= entries.len(),
            forall|j: int| 0 <= j < i ==> (#[trigger] entries[j]).0@ != path@,
        decreases entries.len() - i,
    {
        if same_text(entries[i].0.as_str(), path) {
            return Some(entries[i].1);
        }
        i = i + 1;
    }
    None
}

/// What the entries of a well-formed table give for a path: its count where it
/// is tracked, and nothing where it is not.
pub proof fn lemma_count_among(entries: Seq<(String, u8)>, table: RefCounts, path: Seq<char>)
    requires
        table.wf(),
        lists(entries, table),
    ensures
        table.contains(path) <==> exists|i: int|
            0 <= i < entries.len() && (#[trigger] entries[i]).0@ == path,
        forall|i: int|
            0 <= i < entries.len() && (#[trigger] entries[i]).0@ == path ==> table.counts[path]
                == entries[i].1,
{
    if table.contains(path) {
        assert(table.order.contains(path));
        let i = table.order.index_of(path);
        assert(entries[i].0@ == path);
    }
    assert forall|i: int| 0 <= i < entries.len() && (#[trigger] entries[i]).0@ == path implies
        table.contains(path) && table.counts[path] == entries[i].1 by {
        assert(table.order[i] == path);
        assert(table.order.contains(path));
    }
}

/// An engine that keeps track of which resources the current level needs and
/// holds each of them in memory once.
///
/// An implementation says how one resource is loaded and unloaded and how one
/// path is counted; the trait provides what a change of level is made of.
pub trait IResourceManager {
    /// What the engine holds.
    spec fn state(&self) -> EngineState;

    /// The engine is in a state that its operations can start from.
    spec fn valid(&self) -> bool;

    /// A valid engine tracks no path twice, and holds every payload in the
    /// partition of the kind that its path names.
    proof fn lemma_valid(&self)
        requires
            self.valid(),
        ensures
            self.state().refcounts.wf(),
            self.state().loaded.sorted(),
    ;

    /// Loads the resource at `path` from what the filesystem gave in `files`.
    ///
    /// A path that names no kind is refused. A path that is loaded already is left
    /// alone, and nothing is decoded. Otherwise the first file for the path is
    /// decoded and the payload put in the store; where there is no such file, or
    /// the filesystem or the decoder failed, the store stays as it was.
    fn load_resource(&mut self, path: &str, files: &Vec<ResourceFile>) -> (done:
        ResourceManagerResult<()>)
        requires
            old(self).valid(),
        ensures
            final(self).valid(),
            final(self).state() == old(self).state().with_loaded(
                old(self).state().loaded.after_load(path@, files@),
            ),
            tells(done, old(self).state().loaded.load_fault(path@, files@)),
    ;

    /// Unloads the resource at `path`: the partition of its kind drops what it
    /// holds under the path, if anything. A path that names no kind is refused.
    fn unload_resource(&mut self, path: &str) -> (done: ResourceManagerResult<()>)
        requires
            old(self).valid(),
        ensures
            final(self).valid(),
            final(self).state() == old(self).state().with_loaded(
                old(self).state().loaded.after_unload(path@),
            ),
            tells(done, Loaded::unload_fault(path@)),
    ;

    /// Counts one more consumer for `path`: a tracked path gains one, an
    /// untracked path is tracked with one and handed back as new. A count that
    /// cannot go higher is an error, and leaves the table as it was.
    fn increment_refcount_resource(&mut self, path: &str) -> (fresh: ResourceManagerResult<
        Option<String>,
    >)
        requires
            old(self).valid(),
        ensures
            final(self).valid(),
            final(self).state() == old(self).state().with_refcounts(
                old(self).state().refcounts.required(path@),
            ),
            match fresh {
                Ok(Some(added)) => old(self).state().refcounts.require_fault(path@) is None
                    && !old(self).state().refcounts.contains(path@) && added@ == path@,
                Ok(None) => old(self).state().refcounts.require_fault(path@) is None
                    && old(self).state().refcounts.contains(path@),
                Err(e) => tells(Err(e), old(self).state().refcounts.require_fault(path@)),
            },
    ;

    /// Counts one consumer less for `path`. An untracked path and a count of zero
    /// are errors, and leave the table as it was.
    fn decrement_refcount_resource(&mut self, path: &str) -> (done: ResourceManagerResult<()>)
        requires
            old(self).valid(),
        ensures
            final(self).valid(),
            final(self).state() == old(self).state().with_refcounts(
                old(self).state().refcounts.after_decrement(path@),
            ),
            tells(done, old(self).state().refcounts.decrement_fault(path@)),
    ;

    /// Stops tracking `path`, whatever its count; an untracked path changes
    /// nothing.
    fn forget_resource(&mut self, path: &str)
        requires
            old(self).valid(),
        ensures
            final(self).valid(),
            final(self).state() == old(self).state().with_refcounts(
                old(self).state().refcounts.removed(path@),
            ),
    ;

    /// Every tracked path with its count, oldest first.
    fn refcounts(&self) -> (entries: Vec<(String, u8)>)
        requires
            self.valid(),
        ensures
            lists(entries@, self.state().refcounts),
    ;

    /// The paths that a change to a level that requires `required` will load, each
    /// once and in the order of `required`: those that are not tracked. They are
    /// the files to open for the change.
    fn paths_to_open(&self, required: &Vec<String>) -> (paths: Vec<String>)
        requires
            self.valid(),
        ensures
            paths_of(paths@) == self.state().refcounts.fresh(distinct(paths_of(required@))),
    {
        let wanted = distinct_paths(required);
        let entries = self.refcounts();
        let ghost table = self.state().refcounts;
        let ghost all = paths_of(wanted@);
        let mut paths: Vec<String> = Vec::new();
        let mut i: usize = 0;
        proof {
            self.lemma_valid();
            reveal(Seq::filter);
            assert(all.take(0) =~= Seq::empty());
            assert(paths_of(paths@) =~= Seq::empty());
        }
        while i < wanted.len()
            invariant
                table == self.state().refcounts,
                table.wf(),
                lists(entries@, table),
                all == paths_of(wanted@),
                i <= wanted.len(),
                paths_of(paths@) == table.fresh(all.take(i as int)),
            decreases wanted.len() - i,
        {
            proof {
                assert(all[i as int] == wanted[i as int]@);
                assert(all.take(i + 1) =~= all.take(i as int).push(all[i as int]));
                table.lemma_fresh_push(all.take(i as int), all[i as int]);
                lemma_count_among(entries@, table, all[i as int]);
            }
            if count_among(&entries, wanted[i].as_str()).is_none() {
                let ghost before = paths_of(paths@);
                paths.push(wanted[i].clone());
                assert(paths_of(paths@) =~= before.push(all[i as int]));
            }
            i = i + 1;
        }
        assert(all.take(i as int) =~= all);
        paths
    }

    /// The tracked paths that are not among `wanted`, oldest first: the
    /// resources that lose a consumer when the level changes to one that
    /// requires `wanted`.
    fn resources_to_decrease(&self, wanted: &Vec<String>) -> (paths: Vec<String>)
        requires
            self.valid(),
        ensures
            paths_of(paths@) == outgoing(self.state().refcounts.order, paths_of(wanted@)),
    {
        let entries = self.refcounts();
        let ghost order = self.state().refcounts.order;
        let mut paths: Vec<String> = Vec::new();
        let mut i: usize = 0;
        proof {
            reveal(Seq::filter);
            assert(order.take(0) =~= Seq::empty());
            assert(paths_of(paths@) =~= Seq::empty());
        }
        while i < entries.len()
            invariant
                lists(entries@, self.state().refcounts),
                order == self.state().refcounts.order,
                i <= entries.len(),
                paths_of(paths@) == outgoing(order.take(i as int), paths_of(wanted@)),
            decreases entries.len() - i,
        {
            proof {
                assert(entries[i as int].0@ == order[i as int]);
                assert(order.take(i + 1) =~= order.take(i as int).push(order[i as int]));
                lemma_outgoing_push(order.take(i as int), order[i as int], paths_of(wanted@));
            }
            if !contains_path(wanted, entries[i].0.as_str()) {
                let ghost before = paths_of(paths@);
                paths.push(entries[i].0.clone());
                assert(paths_of(paths@) =~= before.push(order[i as int]));
            }
            i = i + 1;
        }
        assert(order.take(i as int) =~= order);
        paths
    }

    /// The tracked paths that no consumer holds, oldest first: the resources to
    /// release.
    fn resources_to_unload(&self) -> (paths: Vec<String>)
        requires
            self.valid(),
        ensures
            paths_of(paths@) == self.state().refcounts.unused(),
    {
        let entries = self.refcounts();
        let ghost table = self.state().refcounts;
        let ghost order = table.order;
        let mut paths: Vec<String> = Vec::new();
        let mut i: usize = 0;
        proof {
            self.lemma_valid();
            reveal(Seq::filter);
            assert(order.take(0) =~= Seq::empty());
            assert(paths_of(paths@) =~= Seq::empty());
        }
        while i < entries.len()
            invariant
                table == self.state().refcounts,
                table.wf(),
                lists(entries@, table),
                order == table.order,
                i <= entries.len(),
                paths_of(paths@) == table.unused_among(order.take(i as int)),
            decreases entries.len() - i,
        {
            proof {
                assert(entries[i as int].0@ == order[i as int]);
                assert(order.contains(order[i as int]));
                assert(order.take(i + 1) =~= order.take(i as int).push(order[i as int]));
                table.lemma_unused_push(order.take(i as int), order[i as int]);
            }
            if entries[i].1 == 0 {
                let ghost before = paths_of(paths@);
                paths.push(entries[i].0.clone());
                assert(paths_of(paths@) =~= before.push(order[i as int]));
            }
            i = i + 1;
        }
        assert(order.take(i as int) =~= order);
        paths
    }

    /// The paths of `fresh` that are tracked with exactly one consumer, in their
    /// order: of the paths that a change of level began to track, the resources
    /// to load.
    fn resources_to_load(&self, fresh: &Vec<String>) -> (paths: Vec<String>)
        requires
            self.valid(),
        ensures
            paths_of(paths@) == self.state().refcounts.pending(paths_of(fresh@)),
    {
        let entries = self.refcounts();
        let ghost table = self.state().refcounts;
        let ghost candidates = paths_of(fresh@);
        let mut paths: Vec<String> = Vec::new();
        let mut i: usize = 0;
        proof {
            self.lemma_valid();
            reveal(Seq::filter);
            assert(candidates.take(0) =~= Seq::empty());
            assert(paths_of(paths@) =~= Seq::empty());
        }
        while i < fresh.len()
            invariant
                table == self.state().refcounts,
                table.wf(),
                lists(entries@, table),
                candidates == paths_of(fresh@),
                i <= fresh.len(),
                paths_of(paths@) == table.pending(candidates.take(i as int)),
            decreases fresh.len() - i,
        {
            proof {
                assert(candidates[i as int] == fresh[i as int]@);
                assert(candidates.take(i + 1) =~= candidates.take(i as int).push(
                    candidates[i as int],
                ));
                table.lemma_pending_push(candidates.take(i as int), candidates[i as int]);
                lemma_count_among(entries@, table, candidates[i as int]);
            }
            let once = match count_among(&entries, fresh[i].as_str()) {
                Some(count) => count == 1,
                None => false,
            };
            if once {
                let ghost before = paths_of(paths@);
                paths.push(fresh[i].clone());
                assert(paths_of(paths@) =~= before.push(candidates[i as int]));
            }
            i = i + 1;
        }
        assert(candidates.take(i as int) =~= candidates);
        paths
    }

    /// Counts one more consumer for each of `paths`, one after the other, and
    /// hands back those that were not tracked before, in their order. It stops
    /// at the first count that cannot go higher; the paths before it keep their
    /// raised counts.
    fn increment_refcount_resources(&mut self, paths: &Vec<String>) -> (fresh:
        ResourceManagerResult<Vec<String>>)
        requires
            old(self).valid(),
            paths_of(paths@).no_duplicates(),
        ensures
            final(self).valid(),
            final(self).state() == old(self).state().with_refcounts(
                old(self).state().refcounts.after_requires(paths_of(paths@)).0,
            ),
            match fresh {
                Ok(added) => old(self).state().refcounts.after_requires(paths_of(paths@)).1
                    is None && paths_of(added@) == old(self).state().refcounts.fresh(
                    paths_of(paths@),
                ),
                Err(e) => tells(
                    Err(e),
                    old(self).state().refcounts.after_requires(paths_of(paths@)).1,
                ),
            },
    {
        let ghost all = paths_of(paths@);
        let ghost start = self.state();
        let mut fresh: Vec<String> = Vec::new();
        let mut i: usize = 0;
        proof {
            reveal(Seq::filter);
            assert(all.take(0) =~= Seq::empty());
            assert(paths_of(fresh@) =~= Seq::empty());
            assert(all.skip(0) =~= all);
        }
        while i < paths.len()
            invariant
                self.valid(),
                all == paths_of(paths@),
                all.no_duplicates(),
                start == old(self).state(),
                self.state() == start.with_refcounts(self.state().refcounts),
                i <= paths.len(),
                self.state().refcounts.after_requires(all.skip(i as int))
                    == start.refcounts.after_requires(all),
                paths_of(fresh@) == start.refcounts.fresh(all.take(i as int)),
                forall|j: int|
                    i <= j < all.len() ==> self.state().refcounts.contains(#[trigger] all[j])
                        == start.refcounts.contains(all[j]),
            decreases paths.len() - i,
        {
            let ghost listed = paths_of(fresh@);
            proof {
                assert(all.skip(i as int).drop_first() =~= all.skip(i + 1));
                assert(all.skip(i as int)[0] == all[i as int]);
                assert(all.take(i + 1) =~= all.take(i as int).push(all[i as int]));
                start.refcounts.lemma_fresh_push(all.take(i as int), all[i as int]);
                assert(all[i as int] == paths[i as int]@);
            }
            match self.increment_refcount_resource(paths[i].as_str()) {
                Ok(Some(added)) => {
                    fresh.push(added);
                    assert(paths_of(fresh@) =~= listed.push(all[i as int]));
                },
                Ok(None) => {},
                Err(e) => {
                    return Err(e);
                },
            }
            i = i + 1;
        }
        proof {
            assert(all.take(i as int) =~= all);
            assert(all.skip(i as int) =~= Seq::empty());
        }
        Ok(fresh)
    }

    /// Counts one consumer less for each of `paths`, one after the other, and
    /// stops at the first that is untracked or has a count of zero; the paths
    /// before it keep their lowered counts.
    fn decrement_refcount_resources(&mut self, paths: &Vec<String>) -> (done:
        ResourceManagerResult<()>)
        requires
            old(self).valid(),
        ensures
            final(self).valid(),
            final(self).state() == old(self).state().with_refcounts(
                old(self).state().refcounts.after_decrements(paths_of(paths@)).0,
            ),
            tells(done, old(self).state().refcounts.after_decrements(paths_of(paths@)).1),
    {
        let ghost all = paths_of(paths@);
        let ghost start = self.state();
        let mut i: usize = 0;
        assert(all.skip(0) =~= all);
        while i < paths.len()
            invariant
                self.valid(),
                all == paths_of(paths@),
                start == old(self).state(),
                self.state() == start.with_refcounts(self.state().refcounts),
                i <= paths.len(),
                self.state().refcounts.after_decrements(all.skip(i as int))
                    == start.refcounts.after_decrements(all),
            decreases paths.len() - i,
        {
            proof {
                assert(all.skip(i as int).drop_first() =~= all.skip(i + 1));
                assert(all.skip(i as int)[0] == paths[i as int]@);
            }
            match self.decrement_refcount_resource(paths[i].as_str()) {
                Ok(_) => {},
                Err(e) => {
                    return Err(e);
                },
            }
            i = i + 1;
        }
        Ok(())
    }

    /// Loads each of `paths` from `files`, one after the other, and stops at the
    /// first that fails; the paths before it stay loaded.
    fn load_resources(&mut self, paths: &Vec<String>, files: &Vec<ResourceFile>) -> (done:
        ResourceManagerResult<()>)
        requires
            old(self).valid(),
        ensures
            final(self).valid(),
            final(self).state() == old(self).state().with_loaded(
                old(self).state().loaded.after_loads(paths_of(paths@), files@).0,
            ),
            tells(done, old(self).state().loaded.after_loads(paths_of(paths@), files@).1),
    {
        let ghost all = paths_of(paths@);
        let ghost start = self.state();
        let mut i: usize = 0;
        assert(all.skip(0) =~= all);
        while i < paths.len()
            invariant
                self.valid(),
                all == paths_of(paths@),
                start == old(self).state(),
                self.state() == start.with_loaded(self.state().loaded),
                i <= paths.len(),
                self.state().loaded.after_loads(all.skip(i as int), files@)
                    == start.loaded.after_loads(all, files@),
            decreases paths.len() - i,
        {
            proof {
                assert(all.skip(i as int).drop_first() =~= all.skip(i + 1));
                assert(all.skip(i as int)[0] == paths[i as int]@);
            }
            match self.load_resource(paths[i].as_str(), files) {
                Ok(_) => {},
                Err(e) => {
                    return Err(e);
                },
            }
            i = i + 1;
        }
        Ok(())
    }

    /// Unloads each of `paths`, one after the other, and stops at the first that
    /// names no kind; the paths before it stay unloaded.
    fn unload_resources(&mut self, paths: &Vec<String>) -> (done: ResourceManagerResult<()>)
        requires
            old(self).valid(),
        ensures
            final(self).valid(),
            final(self).state() == old(self).state().with_loaded(
                old(self).state().loaded.after_unloads(paths_of(paths@)).0,
            ),
            tells(done, old(self).state().loaded.after_unloads(paths_of(paths@)).1),
    {
        let ghost all = paths_of(paths@);
        let ghost start = self.state();
        let mut i: usize = 0;
        assert(all.skip(0) =~= all);
        while i < paths.len()
            invariant
                self.valid(),
                all == paths_of(paths@),
                start == old(self).state(),
                self.state() == start.with_loaded(self.state().loaded),
                i <= paths.len(),
                self.state().loaded.after_unloads(all.skip(i as int))
                    == start.loaded.after_unloads(all),
            decreases paths.len() - i,
        {
            proof {
                assert(all.skip(i as int).drop_first() =~= all.skip(i + 1));
                assert(all.skip(i as int)[0] == paths[i as int]@);
            }
            match self.unload_resource(paths[i].as_str()) {
                Ok(_) => {},
                Err(e) => {
                    return Err(e);
                },
            }
            i = i + 1;
        }
        Ok(())
    }

    /// Releases the resource at `path`: unloads it and stops tracking it. A path
    /// that names no kind is refused, and nothing changes.
    fn release_resource(&mut self, path: &str) -> (done: ResourceManagerResult<()>)
        requires
            old(self).valid(),
        ensures
            final(self).valid(),
            final(self).state() == old(self).state().after_release(path@),
            tells(done, Loaded::unload_fault(path@)),
    {
        match self.unload_resource(path) {
            Ok(_) => {
                self.forget_resource(path);
                Ok(())
            },
            Err(e) => Err(e),
        }
    }

    /// Releases each of `paths`, one after the other, and stops at the first
    /// that names no kind; the paths before it stay released.
    fn release_resources(&mut self, paths: &Vec<String>) -> (done: ResourceManagerResult<()>)
        requires
            old(self).valid(),
        ensures
            final(self).valid(),
            final(self).state() == old(self).state().after_releases(paths_of(paths@)).0,
            tells(done, old(self).state().after_releases(paths_of(paths@)).1),
    {
        let ghost all = paths_of(paths@);
        let ghost start = self.state();
        let mut i: usize = 0;
        assert(all.skip(0) =~= all);
        while i < paths.len()
            invariant
                self.valid(),
                all == paths_of(paths@),
                start == old(self).state(),
                i <= paths.len(),
                self.state().after_releases(all.skip(i as int)) == start.after_releases(all),
            decreases paths.len() - i,
        {
            proof {
                assert(all.skip(i as int).drop_first() =~= all.skip(i + 1));
                assert(all.skip(i as int)[0] == paths[i as int]@);
            }
            match self.release_resource(paths[i].as_str()) {
                Ok(_) => {},
                Err(e) => {
                    return Err(e);
                },
            }
            i = i + 1;
        }
        Ok(())
    }

    /// Changes the level to one that requires `required`, with `files` as what
    /// the filesystem gives for the resources to load.
    ///
    /// Each required path gains a consumer, once however often it is listed; a
    /// count that cannot go higher stops the change. Each path that was tracked
    /// and is not required loses one. Each path left
    /// without a consumer is released. Each path that this change began to track
    /// is loaded. The change stops at its first failure, hands it back, and
    /// undoes nothing.
    ///
    /// A change that completes leaves no count of zero, and where the store held
    /// a payload for exactly the tracked paths before, it does so after.
    fn load_level_resources(&mut self, required: &Vec<String>, files: &Vec<ResourceFile>) -> (done:
        ResourceManagerResult<()>)
        requires
            old(self).valid(),
        ensures
            final(self).valid(),
            final(self).state() == old(self).state().after_level(paths_of(required@), files@).0,
            tells(done, old(self).state().after_level(paths_of(required@), files@).1),
            done is Ok ==> final(self).state().refcounts.settled(),
            done is Ok && old(self).state().consistent() ==> final(self).state().consistent(),
    {
        let wanted = distinct_paths(required);
        proof {
            self.lemma_valid();
            if self.state().after_level(paths_of(required@), files@).1 is None {
                lemma_level_change(self.state(), paths_of(required@), files@);
                if self.state().consistent() {
                    lemma_level_change_keeps_consistent(
                        self.state(),
                        paths_of(required@),
                        files@,
                    );
                }
            }
        }
        let fresh = match self.increment_refcount_resources(&wanted) {
            Ok(fresh) => fresh,
            Err(e) => {
                return Err(e);
            },
        };
        let outgoing = self.resources_to_decrease(&wanted);
        match self.decrement_refcount_resources(&outgoing) {
            Ok(_) => {},
            Err(e) => {
                return Err(e);
            },
        }
        let unused = self.resources_to_unload();
        match self.release_resources(&unused) {
            Ok(_) => {},
            Err(e) => {
                return Err(e);
            },
        }
        let pending = self.resources_to_load(&fresh);
        self.load_resources(&pending, files)
    }
}

} // verus!
