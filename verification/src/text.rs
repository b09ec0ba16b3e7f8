use vstd::prelude::*;
use crate::lifecycle::distinct;

verus! {

/// The paths that a list of strings holds, each as the sequence of its
/// characters.
pub open spec fn paths_of(list: Seq<String>) -> Seq<Seq<char>> {
    list.map_values(|path: String| path@)
}

/// Compares two string slices with `str`'s own `==`, which holds exactly when
/// both hold the same characters in the same order.
#[verifier::external_body]
pub(crate) fn same_text(left: &str, right: &str) -> (same: bool)
    ensures
        same == (left@ == right@),
{
    left == right
}

/// Whether `list` holds `path`.
pub fn contains_path(list: &Vec<String>, path: &str) -> (present: bool)
    ensures
        present == paths_of(list@).contains(path@),
{
    let mut i: usize = 0;
    while i < list.len()
        invariant
            i <= list.len(),
            forall|j: int| 0 <= j < i ==> paths_of(list@)[j] != path@,
        decreases list.len() - i,
    {
        if same_text(list[i].as_str(), path) {
            assert(paths_of(list@)[i as int] == path@);
            return true;
        }
        i = i + 1;
    }
    false
}

/// `paths` without repetitions: each path stays where it first stood.
pub fn distinct_paths(paths: &Vec<String>) -> (kept: Vec<String>)
    ensures
        paths_of(kept@) == distinct(paths_of(paths@)),
        paths_of(kept@).no_duplicates(),
        forall|path: Seq<char>|
            paths_of(kept@).contains(path) <==> paths_of(paths@).contains(path),
{
    let ghost all = paths_of(paths@);
    let mut kept: Vec<String> = Vec::new();
    let mut i: usize = 0;
    assert(all.take(0) =~= Seq::empty());
    assert(paths_of(kept@) =~= Seq::empty());
    while i < paths.len()
        invariant
            all == paths_of(paths@),
            i <= paths.len(),
            paths_of(kept@) == distinct(all.take(i as int)),
            paths_of(kept@).no_duplicates(),
            forall|path: Seq<char>|
                paths_of(kept@).contains(path) <==> all.take(i as int).contains(path),
        decreases paths.len() - i,
    {
        let ghost before = paths_of(kept@);
        proof {
            assert(all[i as int] == paths[i as int]@);
            assert(all.take(i + 1).drop_last() =~= all.take(i as int));
            assert(all.take(i + 1).last() == all[i as int]);
            assert forall|path: Seq<char>| all.take(i + 1).contains(path) <==> all.take(
                i as int,
            ).contains(path) || path == all[i as int] by {
                if all.take(i + 1).contains(path) {
                    let j = all.take(i + 1).index_of(path);
                    if j < i {
                        assert(all.take(i as int)[j] == path);
                    }
                }
                if all.take(i as int).contains(path) {
                    let j = all.take(i as int).index_of(path);
                    assert(all.take(i + 1)[j] == path);
                }
                assert(all.take(i + 1)[i as int] == all[i as int]);
            }
        }
        if !contains_path(&kept, paths[i].as_str()) {
            kept.push(paths[i].clone());
            proof {
                assert(paths_of(kept@) =~= before.push(all[i as int]));
                assert forall|path: Seq<char>| paths_of(kept@).contains(path) <==> before.contains(
                    path,
                ) || path == all[i as int] by {
                    if paths_of(kept@).contains(path) {
                        let j = paths_of(kept@).index_of(path);
                        if j < before.len() {
                            assert(before[j] == path);
                        }
                    }
                    if before.contains(path) {
                        let j = before.index_of(path);
                        assert(paths_of(kept@)[j] == path);
                    }
                    assert(paths_of(kept@)[before.len() as int] == all[i as int]);
                }
            }
        } else {
            assert(before.contains(all[i as int]));
        }
        assert forall|path: Seq<char>| paths_of(kept@).contains(path) <==> all.take(
            i + 1,
        ).contains(path) by {
            assert(before.contains(path) <==> all.take(i as int).contains(path));
        }
        i = i + 1;
    }
    assert(all.take(i as int) =~= all);
    kept
}

} // verus!
