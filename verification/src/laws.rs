use vstd::prelude::*;
use crate::lifecycle::{distinct, outgoing, EngineState, Fault};
use crate::resource_file::ResourceFile;
use crate::resource_kind::{kind_of_path, ResourceKind};
use crate::resources::refcount_registry::RefCounts;
use crate::resources::resources_registry::Loaded;

verus! {

/// A selection holds exactly the selected items of the sequence it was made
/// from, and repeats none where that sequence repeats none.
pub proof fn lemma_filter_facts<A>(s: Seq<A>, keep: spec_fn(A) -> bool)
    ensures
        forall|x: A| #[trigger] s.filter(keep).contains(x) <==> s.contains(x) && keep(x),
        s.no_duplicates() ==> s.filter(keep).no_duplicates(),
    decreases s.len(),
{
    reveal(Seq::filter);
    if s.len() > 0 {
        let front = s.drop_last();
        let last = s.last();
        lemma_filter_facts(front, keep);
        let selected = front.filter(keep);
        assert(s =~= front.push(last));
        assert forall|x: A| #[trigger] s.filter(keep).contains(x) <==> s.contains(x) && keep(
            x,
        ) by {
            if s.filter(keep).contains(x) {
                let j = s.filter(keep).index_of(x);
                if j < selected.len() {
                    assert(selected[j] == x);
                    assert(selected.contains(x));
                    let k = front.index_of(x);
                    assert(s[k] == x);
                } else {
                    assert(s[s.len() - 1] == x);
                }
            }
            if s.contains(x) && keep(x) {
                let k = s.index_of(x);
                if k < front.len() {
                    assert(front[k] == x);
                    assert(front.contains(x));
                    assert(selected.contains(x));
                    let j = selected.index_of(x);
                    assert(selected[j] == x);
                    assert(s.filter(keep)[j] == x);
                } else {
                    assert(s.filter(keep)[selected.len() as int] == x);
                }
            }
        }
        if s.no_duplicates() {
            assert(front.no_duplicates());
            if keep(last) {
                assert(!selected.contains(last)) by {
                    if selected.contains(last) {
                        assert(front.contains(last));
                        let k = front.index_of(last);
                        assert(front[k] == last);
                        assert(s[k] == last);
                    }
                }
                assert forall|i: int, j: int|
                    0 <= i < s.filter(keep).len() && 0 <= j < s.filter(keep).len() && i
                        != j implies s.filter(keep)[i] != s.filter(keep)[j] by {
                    if i < selected.len() {
                        assert(selected.contains(selected[i]));
                    }
                    if j < selected.len() {
                        assert(selected.contains(selected[j]));
                    }
                }
            }
        }
    }
}

/// Removing repetitions keeps every path, and leaves none twice.
pub proof fn lemma_distinct_facts(paths: Seq<Seq<char>>)
    ensures
        distinct(paths).no_duplicates(),
        forall|path: Seq<char>| #[trigger] distinct(paths).contains(path) <==> paths.contains(path),
    decreases paths.len(),
{
    if paths.len() > 0 {
        let front = paths.drop_last();
        let last = paths.last();
        lemma_distinct_facts(front);
        let kept = distinct(front);
        assert forall|path: Seq<char>| #[trigger] distinct(paths).contains(path) <==> paths.contains(
            path,
        ) by {
            if distinct(paths).contains(path) {
                let j = distinct(paths).index_of(path);
                if j < kept.len() {
                    assert(kept[j] == path);
                    assert(kept.contains(path));
                    let k = front.index_of(path);
                    assert(paths[k] == path);
                } else {
                    assert(paths[paths.len() - 1] == path);
                }
            }
            if paths.contains(path) {
                let k = paths.index_of(path);
                if k < front.len() {
                    assert(front[k] == path);
                    assert(front.contains(path));
                    assert(kept.contains(path));
                    let j = kept.index_of(path);
                    assert(kept[j] == path);
                    assert(distinct(paths)[j] == path);
                } else if kept.contains(last) {
                    let j = kept.index_of(last);
                    assert(kept[j] == last);
                    assert(distinct(paths)[j] == path);
                } else {
                    assert(distinct(paths)[kept.len() as int] == path);
                }
            }
        }
        if !kept.contains(last) {
            assert forall|i: int, j: int|
                0 <= i < distinct(paths).len() && 0 <= j < distinct(paths).len() && i
                    != j implies distinct(paths)[i] != distinct(paths)[j] by {
                if i < kept.len() {
                    assert(kept.contains(kept[i]));
                }
                if j < kept.len() {
                    assert(kept.contains(kept[j]));
                }
            }
        }
    }
}

/// Requiring a path keeps the table well formed.
pub proof fn lemma_required_wf(table: RefCounts, path: Seq<char>)
    requires
        table.wf(),
    ensures
        table.required(path).wf(),
{
    let after = table.required(path);
    if table.contains(path) {
        assert(table.order.contains(path));
        assert forall|p: Seq<char>| after.counts.contains_key(p) <==> after.order.contains(p) by {
            assert(table.counts.contains_key(p) <==> table.order.contains(p));
        }
    } else {
        let before = table.order;
        assert(!before.contains(path));
        assert forall|i: int, j: int|
            0 <= i < after.order.len() && 0 <= j < after.order.len() && i
                != j implies after.order[i] != after.order[j] by {
            if i < before.len() {
                assert(before.contains(before[i]));
            }
            if j < before.len() {
                assert(before.contains(before[j]));
            }
        }
        assert forall|p: Seq<char>| after.counts.contains_key(p) <==> after.order.contains(p) by {
            assert(table.counts.contains_key(p) <==> before.contains(p));
            if before.contains(p) {
                let k = before.index_of(p);
                assert(before[k] == p);
                assert(after.order[k] == p);
            }
            if after.order.contains(p) {
                let k = after.order.index_of(p);
                assert(after.order[k] == p);
                if k < before.len() {
                    assert(before[k] == p);
                }
            }
            assert(after.order[before.len() as int] == path);
        }
    }
}

/// What a table holds after each of a list of distinct paths was required
/// once and no count was in the way: every path that was tracked or is in the
/// list, a listed path with one consumer more than before, any other with as
/// many as before.
pub proof fn lemma_after_requires(table: RefCounts, paths: Seq<Seq<char>>)
    requires
        table.wf(),
        paths.no_duplicates(),
        table.after_requires(paths).1 is None,
    ensures
        table.after_requires(paths).0.wf(),
        forall|p: Seq<char>| #[trigger]
            table.after_requires(paths).0.contains(p) <==> table.contains(p) || paths.contains(p),
        forall|p: Seq<char>|
            paths.contains(p) ==> #[trigger] table.after_requires(paths).0.counts[p] == if table.contains(
                p,
            ) {
                table.counts[p] + 1
            } else {
                1
            },
        forall|p: Seq<char>|
            !paths.contains(p) && table.contains(p) ==> #[trigger] table.after_requires(paths).0.counts[p] == table.counts[p],
    decreases paths.len(),
{
    if paths.len() > 0 {
        let first = paths[0];
        let rest = paths.drop_first();
        let next = table.required(first);
        lemma_required_wf(table, first);
        assert(paths.contains(first));
        assert forall|i: int| 0 <= i < rest.len() implies rest[i] != first && paths.contains(
            #[trigger] rest[i],
        ) by {
            assert(rest[i] == paths[i + 1]);
        }
        assert(rest.no_duplicates()) by {
            assert forall|i: int, j: int|
                0 <= i < rest.len() && 0 <= j < rest.len() && i != j implies rest[i]
                != rest[j] by {
                assert(rest[i] == paths[i + 1] && rest[j] == paths[j + 1]);
            }
        }
        lemma_after_requires(next, rest);
        let raised = table.after_requires(paths).0;
        assert(table.after_requires(paths) == next.after_requires(rest));
        assert forall|p: Seq<char>| paths.contains(p) <==> p == first || rest.contains(p) by {
            if paths.contains(p) {
                let k = paths.index_of(p);
                if k > 0 {
                    assert(rest[k - 1] == p);
                }
            }
            if rest.contains(p) {
                let k = rest.index_of(p);
                assert(paths[k + 1] == p);
            }
        }
        assert(!rest.contains(first)) by {
            if rest.contains(first) {
                let k = rest.index_of(first);
                assert(rest[k] == first);
            }
        }
        assert forall|p: Seq<char>| #[trigger]
            raised.contains(p) <==> table.contains(p) || paths.contains(p) by {
            assert(next.after_requires(rest).0.contains(p) <==> next.contains(p) || rest.contains(p));
        }
        assert forall|p: Seq<char>| paths.contains(p) implies #[trigger] raised.counts[p]
            == if table.contains(p) {
            table.counts[p] + 1
        } else {
            1
        } by {
            if p == first {
                assert(next.contains(p));
                assert(next.after_requires(rest).0.counts[p] == next.counts[p]);
            } else {
                assert(rest.contains(p));
                assert(next.after_requires(rest).0.counts[p] == if next.contains(p) {
                    next.counts[p] + 1
                } else {
                    1
                });
            }
        }
        assert forall|p: Seq<char>| !paths.contains(p) && table.contains(p) implies #[trigger]
            raised.counts[p] == table.counts[p] by {
            assert(next.contains(p));
            assert(next.after_requires(rest).0.counts[p] == next.counts[p]);
        }
    }
}

/// What a table holds after the counts of a list of distinct paths were asked
/// to go down: the same paths in the same order, and, where nothing stopped
/// it, each listed path with one consumer less and any other with as many as
/// before.
pub proof fn lemma_after_decrements(table: RefCounts, paths: Seq<Seq<char>>)
    requires
        table.wf(),
        paths.no_duplicates(),
    ensures
        table.after_decrements(paths).0.wf(),
        table.after_decrements(paths).0.order == table.order,
        forall|p: Seq<char>|
            table.after_decrements(paths).1 is None && #[trigger] paths.contains(p)
                ==> table.contains(p) && table.counts[p] >= 1 && table.after_decrements(
                paths,
            ).0.counts[p] == table.counts[p] - 1,
        forall|p: Seq<char>|
            table.after_decrements(paths).1 is None && !paths.contains(p) && #[trigger]
                table.contains(p) ==> table.after_decrements(paths).0.counts[p]
                == table.counts[p],
    decreases paths.len(),
{
    if paths.len() > 0 && table.decrement_fault(paths[0]) is None {
        let first = paths[0];
        let rest = paths.drop_first();
        let next = table.after_decrement(first);
        assert(next.wf()) by {
            assert forall|p: Seq<char>| next.counts.contains_key(p) <==> next.order.contains(p) by {
                assert(table.counts.contains_key(p) <==> table.order.contains(p));
            }
        }
        assert(rest.no_duplicates()) by {
            assert forall|i: int, j: int|
                0 <= i < rest.len() && 0 <= j < rest.len() && i != j implies rest[i]
                != rest[j] by {
                assert(rest[i] == paths[i + 1] && rest[j] == paths[j + 1]);
            }
        }
        lemma_after_decrements(next, rest);
        let lowered = table.after_decrements(paths).0;
        assert(table.after_decrements(paths) == next.after_decrements(rest));
        assert forall|p: Seq<char>| paths.contains(p) <==> p == first || rest.contains(p) by {
            if paths.contains(p) {
                let k = paths.index_of(p);
                if k > 0 {
                    assert(rest[k - 1] == p);
                }
            }
            if rest.contains(p) {
                let k = rest.index_of(p);
                assert(paths[k + 1] == p);
            }
        }
        assert(!rest.contains(first)) by {
            if rest.contains(first) {
                let k = rest.index_of(first);
                assert(rest[k] == paths[k + 1]);
            }
        }
        if table.after_decrements(paths).1 is None {
            assert forall|p: Seq<char>| #[trigger] paths.contains(p) implies table.contains(p)
                && table.counts[p] >= 1 && lowered.counts[p] == table.counts[p] - 1 by {
                if p == first {
                    assert(next.contains(p));
                } else {
                    assert(rest.contains(p));
                }
            }
            assert forall|p: Seq<char>| !paths.contains(p) && #[trigger] table.contains(
                p,
            ) implies lowered.counts[p] == table.counts[p] by {
                assert(next.contains(p));
            }
        }
    } else if paths.len() > 0 {
        assert(table.after_decrements(paths).1 is Some);
    } else {
        assert(table.after_decrements(paths).1 is None);
        assert forall|p: Seq<char>| !paths.contains(p) by {}
    }
}

/// A table that stops tracking a path stays well formed, tracks every other
/// path as before, and keeps their counts.
pub proof fn lemma_removed(table: RefCounts, path: Seq<char>)
    requires
        table.wf(),
    ensures
        table.removed(path).wf(),
        forall|p: Seq<char>| #[trigger]
            table.removed(path).contains(p) <==> table.contains(p) && p != path,
        forall|p: Seq<char>| #[trigger]
            table.removed(path).contains(p) ==> table.removed(path).counts[p] == table.counts[p],
{
    if table.contains(path) {
        let before = table.order;
        let after = table.removed(path).order;
        assert(before.contains(path));
        let at = before.index_of(path);
        assert(before[at] == path);
        assert forall|i: int, j: int|
            0 <= i < after.len() && 0 <= j < after.len() && i != j implies after[i]
            != after[j] by {
            let a = if i < at { i } else { i + 1 };
            let b = if j < at { j } else { j + 1 };
            assert(after[i] == before[a] && after[j] == before[b]);
        }
        assert forall|p: Seq<char>| after.contains(p) <==> before.contains(p) && p != path by {
            if after.contains(p) {
                let i = after.index_of(p);
                let a = if i < at { i } else { i + 1 };
                assert(after[i] == before[a]);
            }
            if before.contains(p) && p != path {
                let a = before.index_of(p);
                let i = if a < at { a } else { a - 1 };
                assert(after[i] == before[a]);
            }
        }
        assert forall|p: Seq<char>| #[trigger]
            table.removed(path).contains(p) <==> table.contains(p) && p != path by {
            assert(table.counts.contains_key(p) <==> before.contains(p));
        }
    }
}

/// What a sorted store holds after it unloaded a path of a known kind: every
/// other path as before, and not that one.
pub proof fn lemma_after_unload(loaded: Loaded, path: Seq<char>)
    requires
        loaded.sorted(),
        kind_of_path(path) is Some,
    ensures
        loaded.after_unload(path).sorted(),
        forall|p: Seq<char>| #[trigger]
            loaded.after_unload(path).contains(p) <==> loaded.contains(p) && p != path,
{
    let kind = kind_of_path(path)->0;
    loaded.lemma_without_sorted(kind, path);
    let after = loaded.after_unload(path);
    assert forall|p: Seq<char>| #[trigger] after.contains(p) <==> loaded.contains(p) && p
        != path by {
        if p == path {
            assert(loaded.holds(ResourceKind::Gltf, p) ==> kind == ResourceKind::Gltf);
            assert(loaded.holds(ResourceKind::Ogg, p) ==> kind == ResourceKind::Ogg);
            assert(loaded.holds(ResourceKind::Tga, p) ==> kind == ResourceKind::Tga);
        }
    }
}

/// What the table and a sorted store hold after a list of paths was released
/// and nothing stopped it: the paths that are not in the list, each as before.
pub proof fn lemma_after_releases(state: EngineState, paths: Seq<Seq<char>>)
    requires
        state.refcounts.wf(),
        state.loaded.sorted(),
    ensures
        state.after_releases(paths).0.refcounts.wf(),
        state.after_releases(paths).0.loaded.sorted(),
        forall|p: Seq<char>|
            state.after_releases(paths).1 is None ==> (#[trigger] state.after_releases(
                paths,
            ).0.refcounts.contains(p) <==> state.refcounts.contains(p) && !paths.contains(p)),
        forall|p: Seq<char>|
            state.after_releases(paths).1 is None && #[trigger] state.after_releases(
                paths,
            ).0.refcounts.contains(p) ==> state.after_releases(paths).0.refcounts.counts[p]
                == state.refcounts.counts[p],
        forall|p: Seq<char>|
            state.after_releases(paths).1 is None ==> (#[trigger] state.after_releases(
                paths,
            ).0.loaded.contains(p) <==> state.loaded.contains(p) && !paths.contains(p)),
    decreases paths.len(),
{
    if paths.len() > 0 && Loaded::unload_fault(paths[0]) is None {
        let first = paths[0];
        let rest = paths.drop_first();
        let next = state.after_release(first);
        lemma_removed(state.refcounts, first);
        lemma_after_unload(state.loaded, first);
        lemma_after_releases(next, rest);
        let after = state.after_releases(paths).0;
        assert(state.after_releases(paths) == next.after_releases(rest));
        assert forall|p: Seq<char>| paths.contains(p) <==> p == first || rest.contains(p) by {
            if paths.contains(p) {
                let k = paths.index_of(p);
                if k > 0 {
                    assert(rest[k - 1] == p);
                }
            }
            if rest.contains(p) {
                let k = rest.index_of(p);
                assert(paths[k + 1] == p);
            }
        }
        if state.after_releases(paths).1 is None {
            assert forall|p: Seq<char>| #[trigger]
                after.refcounts.contains(p) <==> state.refcounts.contains(p) && !paths.contains(
                    p,
                ) by {
                assert(next.refcounts.contains(p) <==> state.refcounts.contains(p) && p != first);
            }
            assert forall|p: Seq<char>| #[trigger] after.refcounts.contains(p) implies
                after.refcounts.counts[p] == state.refcounts.counts[p] by {
                assert(next.refcounts.contains(p));
            }
            assert forall|p: Seq<char>| #[trigger]
                after.loaded.contains(p) <==> state.loaded.contains(p) && !paths.contains(p) by {
                assert(next.loaded.contains(p) <==> state.loaded.contains(p) && p != first);
            }
        }
    } else if paths.len() == 0 {
        assert forall|p: Seq<char>| !paths.contains(p) by {}
    }
}

/// What a sorted store holds after a path was loaded: it stays sorted, and
/// where the load did not fail it holds the path and what it held before.
pub proof fn lemma_after_load(loaded: Loaded, path: Seq<char>, files: Seq<ResourceFile>)
    requires
        loaded.sorted(),
    ensures
        loaded.after_load(path, files).sorted(),
        loaded.load_fault(path, files) is Some ==> loaded.after_load(path, files) == loaded,
        forall|p: Seq<char>|
            loaded.load_fault(path, files) is None ==> (#[trigger] loaded.after_load(
                path,
                files,
            ).contains(p) <==> loaded.contains(p) || p == path),
{
    match (kind_of_path(path), crate::resource_file::opened(files, path)) {
        (Some(kind), Some(Ok(content))) => {
            loaded.lemma_with_decoded_sorted(kind, path, content);
        },
        _ => {},
    }
}

/// A load that fails in a sorted store is of a path that the store does not
/// hold, and changes nothing.
pub proof fn lemma_failed_load(loaded: Loaded, path: Seq<char>, files: Seq<ResourceFile>)
    requires
        loaded.sorted(),
        loaded.load_fault(path, files) is Some,
    ensures
        loaded.load_fault(path, files)->0.is_of_loading(),
        !loaded.contains(path),
        loaded.after_load(path, files) == loaded,
{
    assert(loaded.holds(ResourceKind::Gltf, path) ==> kind_of_path(path) == Some(
        ResourceKind::Gltf,
    ));
    assert(loaded.holds(ResourceKind::Ogg, path) ==> kind_of_path(path) == Some(ResourceKind::Ogg));
    assert(loaded.holds(ResourceKind::Tga, path) ==> kind_of_path(path) == Some(ResourceKind::Tga));
}

/// What a sorted store holds after a list of paths was loaded: where nothing
/// stopped it, the paths of the list and what it held before; where a load
/// failed, not every path of the list.
pub proof fn lemma_after_loads(loaded: Loaded, paths: Seq<Seq<char>>, files: Seq<ResourceFile>)
    requires
        loaded.sorted(),
    ensures
        loaded.after_loads(paths, files).0.sorted(),
        forall|p: Seq<char>|
            loaded.after_loads(paths, files).1 is None ==> (#[trigger] loaded.after_loads(
                paths,
                files,
            ).0.contains(p) <==> loaded.contains(p) || paths.contains(p)),
        loaded.after_loads(paths, files).1 is Some ==> loaded.after_loads(
            paths,
            files,
        ).1->0.is_of_loading() && exists|k: int|
            0 <= k < paths.len() && !loaded.after_loads(paths, files).0.contains(
                #[trigger] paths[k],
            ),
    decreases paths.len(),
{
    if paths.len() > 0 && loaded.load_fault(paths[0], files) is Some {
        lemma_failed_load(loaded, paths[0], files);
        assert(!loaded.after_loads(paths, files).0.contains(paths[0]));
    }
    if paths.len() > 0 && loaded.load_fault(paths[0], files) is None {
        let first = paths[0];
        let rest = paths.drop_first();
        let next = loaded.after_load(first, files);
        lemma_after_load(loaded, first, files);
        lemma_after_loads(next, rest, files);
        let after = loaded.after_loads(paths, files).0;
        assert(loaded.after_loads(paths, files) == next.after_loads(rest, files));
        assert forall|p: Seq<char>| paths.contains(p) <==> p == first || rest.contains(p) by {
            if paths.contains(p) {
                let k = paths.index_of(p);
                if k > 0 {
                    assert(rest[k - 1] == p);
                }
            }
            if rest.contains(p) {
                let k = rest.index_of(p);
                assert(paths[k + 1] == p);
            }
        }
        if loaded.after_loads(paths, files).1 is None {
            assert forall|p: Seq<char>| #[trigger]
                after.contains(p) <==> loaded.contains(p) || paths.contains(p) by {
                assert(next.contains(p) <==> loaded.contains(p) || p == first);
            }
        } else {
            let k = choose|k: int|
                0 <= k < rest.len() && !next.after_loads(rest, files).0.contains(#[trigger] rest[k]);
            assert(paths[k + 1] == rest[k]);
        }
    } else if paths.len() == 0 {
        assert forall|p: Seq<char>| !paths.contains(p) by {}
    }
}

/// Raising counts stops for a count that cannot go higher only.
pub proof fn lemma_require_faults(table: RefCounts, paths: Seq<Seq<char>>)
    ensures
        table.after_requires(paths).1 matches Some(fault) ==> fault is Overflow,
    decreases paths.len(),
{
    if paths.len() > 0 && table.require_fault(paths[0]) is None {
        lemma_require_faults(table.required(paths[0]), paths.drop_first());
    }
}

/// Lowering counts stops for an untracked path or a count of zero only.
pub proof fn lemma_decrement_faults(table: RefCounts, paths: Seq<Seq<char>>)
    ensures
        table.after_decrements(paths).1 matches Some(fault) ==> fault is Untracked
            || fault is Underflow,
    decreases paths.len(),
{
    if paths.len() > 0 && table.decrement_fault(paths[0]) is None {
        lemma_decrement_faults(table.after_decrement(paths[0]), paths.drop_first());
    }
}

/// Releasing stops for a path that names no kind only.
pub proof fn lemma_release_faults(state: EngineState, paths: Seq<Seq<char>>)
    ensures
        state.after_releases(paths).1 matches Some(fault) ==> fault is NotUnloadable,
    decreases paths.len(),
{
    if paths.len() > 0 && Loaded::unload_fault(paths[0]) is None {
        lemma_release_faults(state.after_release(paths[0]), paths.drop_first());
    }
}

/// What a change of level leaves that got as far as its loads, whether it
/// completed or a load failed.
///
/// The table tracks the required paths and the paths that had two consumers
/// or more; a required path has one consumer more than before, or one if it
/// was not tracked, and any other has one less. No count is zero. The store
/// stays sorted.
///
/// Where the change completed, the store holds a payload for exactly the
/// tracked paths if and only if, before the change, every loaded path was
/// tracked or is required now, and every tracked path that the change keeps
/// was loaded.
///
/// Where a load failed, a reference is left dangling: some required path that
/// was not tracked before has one consumer now and no payload in the store.
pub proof fn lemma_level_change(
    state: EngineState,
    required: Seq<Seq<char>>,
    files: Seq<ResourceFile>,
)
    requires
        state.refcounts.wf(),
        state.loaded.sorted(),
        state.after_level(required, files).1 matches Some(fault) ==> fault.is_of_loading(),
    ensures
        state.after_level(required, files).0.refcounts.wf(),
        state.after_level(required, files).0.refcounts.settled(),
        state.after_level(required, files).0.loaded.sorted(),
        forall|p: Seq<char>| #[trigger]
            state.after_level(required, files).0.refcounts.contains(p) <==> required.contains(p)
                || (state.refcounts.contains(p) && state.refcounts.counts[p] >= 2),
        forall|p: Seq<char>| #[trigger]
            state.after_level(required, files).0.refcounts.contains(p) ==> state.after_level(
                required,
                files,
            ).0.refcounts.counts[p] == if !state.refcounts.contains(p) {
                1
            } else if required.contains(p) {
                state.refcounts.counts[p] + 1
            } else {
                state.refcounts.counts[p] - 1
            },
        state.after_level(required, files).1 is None ==> (state.after_level(
            required,
            files,
        ).0.consistent() <==> state.carries_over(required)),
        state.after_level(required, files).1 is Some ==> exists|p: Seq<char>|
            required.contains(p) && !state.refcounts.contains(p) && #[trigger] state.after_level(
                required,
                files,
            ).0.refcounts.has_count(p, 1) && !state.after_level(required, files).0.loaded.contains(
                p,
            ),
{
    let table = state.refcounts;
    let wanted = distinct(required);
    lemma_distinct_facts(required);
    let fresh = table.fresh(wanted);
    lemma_filter_facts(wanted, |path: Seq<char>| !table.contains(path));
    let (raised, overflow) = table.after_requires(wanted);
    lemma_require_faults(table, wanted);
    assert(overflow is None);
    lemma_after_requires(table, wanted);
    let leaving = outgoing(raised.order, wanted);
    lemma_filter_facts(raised.order, |path: Seq<char>| !wanted.contains(path));
    lemma_after_decrements(raised, leaving);
    let (lowered, underflow) = raised.after_decrements(leaving);
    lemma_decrement_faults(raised, leaving);
    assert(underflow is None);
    let unused = lowered.unused();
    lemma_filter_facts(lowered.order, |path: Seq<char>| lowered.has_count(path, 0));
    let middle = state.with_refcounts(lowered);
    lemma_after_releases(middle, unused);
    let (released, refusal) = middle.after_releases(unused);
    lemma_release_faults(middle, unused);
    assert(refusal is None);
    let pending = released.refcounts.pending(fresh);
    lemma_filter_facts(fresh, |path: Seq<char>| released.refcounts.has_count(path, 1));
    lemma_after_loads(released.loaded, pending, files);
    let (loaded, failure) = released.loaded.after_loads(pending, files);
    let after = state.after_level(required, files).0;
    assert(after == released.with_loaded(loaded));

    assert forall|p: Seq<char>| raised.contains(p) implies lowered.contains(p) && lowered.counts[p]
        == if !table.contains(p) {
        1
    } else if required.contains(p) {
        table.counts[p] + 1
    } else {
        table.counts[p] - 1
    } && (!required.contains(p) ==> table.counts[p] >= 1) by {
        assert(raised.order.contains(p));
        assert(lowered.order.contains(p));
        assert(wanted.contains(p) <==> required.contains(p));
        if wanted.contains(p) {
            assert(!leaving.contains(p));
            assert(raised.counts[p] == if table.contains(p) {
                table.counts[p] + 1
            } else {
                1
            });
        } else {
            assert(leaving.contains(p));
            assert(table.contains(p));
            assert(raised.counts[p] == table.counts[p]);
        }
    }
    assert forall|p: Seq<char>| #[trigger]
        after.refcounts.contains(p) <==> required.contains(p) || (table.contains(p)
            && table.counts[p] >= 2) by {
        assert(wanted.contains(p) <==> required.contains(p));
        assert(raised.contains(p) <==> table.contains(p) || wanted.contains(p));
        assert(lowered.contains(p) <==> lowered.order.contains(p));
        assert(raised.contains(p) <==> raised.order.contains(p));
        assert(released.refcounts.contains(p) <==> lowered.contains(p) && !unused.contains(p));
        assert(unused.contains(p) <==> lowered.order.contains(p) && lowered.has_count(p, 0));
    }
    assert forall|p: Seq<char>| #[trigger] after.refcounts.contains(p) implies after.refcounts.counts[p]
        == if !table.contains(p) {
        1
    } else if required.contains(p) {
        table.counts[p] + 1
    } else {
        table.counts[p] - 1
    } by {
        assert(released.refcounts.contains(p));
        assert(lowered.contains(p));
        assert(lowered.order.contains(p));
        assert(raised.order.contains(p));
        assert(raised.contains(p));
    }
    assert(after.refcounts.settled()) by {
        assert forall|p: Seq<char>| #[trigger] after.refcounts.counts.contains_key(p) implies
            after.refcounts.counts[p] >= 1 by {
            assert(after.refcounts.contains(p));
        }
    }
    if failure is None {
        assert forall|p: Seq<char>| #[trigger]
            after.loaded.contains(p) <==> (state.loaded.contains(p) && !(table.contains(p)
                && !required.contains(p) && table.counts[p] == 1)) || (required.contains(p)
                && !table.contains(p)) by {
            assert(wanted.contains(p) <==> required.contains(p));
            assert(loaded.contains(p) <==> released.loaded.contains(p) || pending.contains(p));
            assert(released.loaded.contains(p) <==> state.loaded.contains(p) && !unused.contains(
                p,
            ));
            assert(unused.contains(p) <==> lowered.order.contains(p) && lowered.has_count(p, 0));
            assert(pending.contains(p) <==> fresh.contains(p) && released.refcounts.has_count(
                p,
                1,
            ));
            assert(fresh.contains(p) <==> wanted.contains(p) && !table.contains(p));
            assert(raised.contains(p) <==> table.contains(p) || wanted.contains(p));
            assert(raised.contains(p) <==> raised.order.contains(p));
            assert(lowered.contains(p) <==> lowered.order.contains(p));
            if fresh.contains(p) {
                assert(after.refcounts.contains(p));
            }
        }
        if after.consistent() {
            assert forall|p: Seq<char>|
                (#[trigger] state.loaded.contains(p) ==> table.contains(p) || required.contains(p))
                    && (table.contains(p) && (required.contains(p) || table.counts[p] >= 2)
                    ==> state.loaded.contains(p)) by {
                assert(after.loaded.contains(p) <==> after.refcounts.contains(p));
                if table.contains(p) {
                    assert(raised.contains(p));
                }
            }
        }
        if state.carries_over(required) {
            assert forall|p: Seq<char>| #[trigger]
                after.loaded.contains(p) <==> after.refcounts.contains(p) by {
                assert(state.loaded.contains(p) ==> table.contains(p) || required.contains(p));
                assert(table.contains(p) && (required.contains(p) || table.counts[p] >= 2)
                    ==> state.loaded.contains(p));
                if table.contains(p) {
                    assert(raised.contains(p));
                }
            }
        }
    } else {
        let k = choose|k: int| 0 <= k < pending.len() && !loaded.contains(#[trigger] pending[k]);
        let p = pending[k];
        assert(pending.contains(p));
        assert(fresh.contains(p) && released.refcounts.has_count(p, 1));
        assert(wanted.contains(p) && !table.contains(p));
        assert(required.contains(p));
        assert(after.refcounts.has_count(p, 1));
    }
}

/// A completed change of level keeps the state consistent: where the store
/// held a payload for exactly the tracked paths before, it does so after.
pub proof fn lemma_level_change_keeps_consistent(
    state: EngineState,
    required: Seq<Seq<char>>,
    files: Seq<ResourceFile>,
)
    requires
        state.refcounts.wf(),
        state.loaded.sorted(),
        state.consistent(),
        state.after_level(required, files).1 is None,
    ensures
        state.after_level(required, files).0.consistent(),
{
    assert(state.carries_over(required)) by {
        assert forall|p: Seq<char>|
            (#[trigger] state.loaded.contains(p) ==> state.refcounts.contains(p)
                || required.contains(p)) && (state.refcounts.contains(p) && (required.contains(p)
                || state.refcounts.counts[p] >= 2) ==> state.loaded.contains(p)) by {
            assert(state.loaded.contains(p) <==> state.refcounts.contains(p));
        }
    }
    lemma_level_change(state, required, files);
}

/// A sorted store holds at most one payload under any path, all partitions
/// together.
pub proof fn lemma_at_most_one_copy(loaded: Loaded, path: Seq<char>)
    requires
        loaded.sorted(),
    ensures
        loaded.copies(path) <= 1,
{
    assert(loaded.holds(ResourceKind::Gltf, path) ==> kind_of_path(path) == Some(
        ResourceKind::Gltf,
    ));
    assert(loaded.holds(ResourceKind::Ogg, path) ==> kind_of_path(path) == Some(ResourceKind::Ogg));
    assert(loaded.holds(ResourceKind::Tga, path) ==> kind_of_path(path) == Some(ResourceKind::Tga));
}

/// Loading a path twice in a row is loading it once: after a load that did not
/// fail the store holds one payload under the path, and a second load neither
/// fails nor changes the store, whatever the filesystem gives the second time.
pub proof fn lemma_load_twice(
    loaded: Loaded,
    path: Seq<char>,
    first: Seq<ResourceFile>,
    second: Seq<ResourceFile>,
)
    requires
        loaded.sorted(),
        loaded.load_fault(path, first) is None,
    ensures
        loaded.after_load(path, first).copies(path) == 1,
        loaded.after_load(path, first).load_fault(path, second) is None,
        loaded.after_load(path, first).after_load(path, second) == loaded.after_load(path, first),
{
    lemma_after_load(loaded, path, first);
    let once = loaded.after_load(path, first);
    lemma_at_most_one_copy(once, path);
    assert(once.contains(path));
    let kind = kind_of_path(path)->0;
    assert(once.holds(kind, path)) by {
        assert(once.holds(ResourceKind::Gltf, path) ==> kind == ResourceKind::Gltf);
        assert(once.holds(ResourceKind::Ogg, path) ==> kind == ResourceKind::Ogg);
        assert(once.holds(ResourceKind::Tga, path) ==> kind == ResourceKind::Tga);
    }
}

/// Unloading a path of a known kind that is not loaded succeeds and changes
/// nothing.
pub proof fn lemma_unload_absent(loaded: Loaded, path: Seq<char>)
    requires
        kind_of_path(path) is Some,
        !loaded.contains(path),
    ensures
        Loaded::unload_fault(path) is None,
        loaded.after_unload(path) == loaded,
{
    let after = loaded.after_unload(path);
    assert(after.gltf =~= loaded.gltf);
    assert(after.ogg =~= loaded.ogg);
    assert(after.tga =~= loaded.tga);
}

/// Lowering a count never takes it below zero: a count of zero stops the
/// operation and the table stays as it was.
pub proof fn lemma_no_count_below_zero(table: RefCounts, path: Seq<char>)
    requires
        table.contains(path),
    ensures
        table.counts[path] == 0 ==> table.decrement_fault(path) == Some(Fault::Underflow(path))
            && table.after_decrement(path) == table,
        table.counts[path] > 0 ==> table.decrement_fault(path) is None && table.after_decrement(
            path,
        ).counts[path] == table.counts[path] - 1,
{
}

} // verus!
