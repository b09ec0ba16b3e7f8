use vstd::prelude::*;
use vstd::string::StringExecFns;
use crate::lifecycle::{lists, reports, tells, Fault};
use crate::resource_manager_errors::{frame, framed, ResourceManagerError, ResourceManagerResult};
use crate::text::{paths_of, same_text};

verus! {

/// What a table of reference counts holds: the count of each tracked path, and
/// the tracked paths in the order in which they were first tracked.
pub struct RefCounts {
    pub counts: Map<Seq<char>, u8>,
    pub order: Seq<Seq<char>>,
}

impl RefCounts {
    /// The paths in `order` are distinct, and they are the keys of `counts`.
    pub open spec fn wf(self) -> bool {
        &&& self.order.no_duplicates()
        &&& forall|path: Seq<char>| self.counts.contains_key(path) <==> self.order.contains(path)
    }

    /// Whether `path` is tracked.
    pub open spec fn contains(self, path: Seq<char>) -> bool {
        self.counts.contains_key(path)
    }

    /// No count is zero: every tracked path has a consumer.
    pub open spec fn settled(self) -> bool {
        forall|path: Seq<char>| #[trigger] self.counts.contains_key(path) ==> self.counts[path] >= 1
    }

    /// The table with nothing in it.
    pub open spec fn empty() -> RefCounts {
        RefCounts { counts: Map::empty(), order: Seq::empty() }
    }

    /// The table after `path` was tracked for the first time, with one consumer.
    pub open spec fn added(self, path: Seq<char>) -> RefCounts {
        RefCounts { counts: self.counts.insert(path, 1), order: self.order.push(path) }
    }

    /// The table after the count of `path` changed to `count`.
    pub open spec fn counted(self, path: Seq<char>, count: u8) -> RefCounts {
        RefCounts { counts: self.counts.insert(path, count), order: self.order }
    }

    /// The table after `path` left it; a table that does not track the path
    /// stays as it is.
    pub open spec fn removed(self, path: Seq<char>) -> RefCounts {
        if self.counts.contains_key(path) {
            RefCounts {
                counts: self.counts.remove(path),
                order: self.order.remove(self.order.index_of(path)),
            }
        } else {
            self
        }
    }
}

/// The table of reference counts: for each tracked path, how many consumers
/// hold the resource. Paths are kept in the order in which they were first
/// tracked.
#[derive(Debug)]
pub struct RefCountRegistry {
    paths: Vec<String>,
    counts: Vec<u8>,
}

impl View for RefCountRegistry {
    type V = RefCounts;

    closed spec fn view(&self) -> RefCounts {
        RefCounts {
            counts: Map::new(
                |path: Seq<char>| paths_of(self.paths@).contains(path),
                |path: Seq<char>| self.counts[paths_of(self.paths@).index_of(path)],
            ),
            order: paths_of(self.paths@),
        }
    }
}

impl RefCountRegistry {
    /// Every tracked path has one count, and no path is tracked twice.
    pub closed spec fn wf(&self) -> bool {
        &&& self.paths.len() == self.counts.len()
        &&& paths_of(self.paths@).no_duplicates()
    }

    /// The view of a well-formed table is well formed.
    pub proof fn lemma_view_wf(&self)
        requires
            self.wf(),
        ensures
            self@.wf(),
    {
    }

    proof fn lemma_count_at(&self, i: int)
        requires
            self.wf(),
            0 <= i < self.paths.len(),
        ensures
            self@.counts.contains_key(self.paths[i]@),
            self@.counts[self.paths[i]@] == self.counts[i],
            self@.order[i] == self.paths[i]@,
            self@.order.index_of(self.paths[i]@) == i,
    {
        let path = self.paths[i]@;
        assert(self@.order[i] == path);
        assert(self@.order.contains(path));
        let j = self@.order.index_of(path);
        assert(self@.order[j] == path);
    }

    /// An empty table.
    pub fn new() -> (table: Self)
        ensures
            table.wf(),
            table@ == RefCounts::empty(),
    {
        let table = RefCountRegistry { paths: Vec::new(), counts: Vec::new() };
        assert(table@.order =~= Seq::<Seq<char>>::empty());
        assert(table@.counts =~= Map::<Seq<char>, u8>::empty());
        table
    }

    fn position(&self, path: &str) -> (found: Option<usize>)
        requires
            self.wf(),
        ensures
            match found {
                Some(i) => i < self.paths.len() && self.paths[i as int]@ == path@
                    && self@.order.index_of(path@) == i && self@.contains(path@)
                    && self@.counts[path@] == self.counts[i as int],
                None => !self@.contains(path@),
            },
    {
        let mut i: usize = 0;
        while i < self.paths.len()
            invariant
                self.wf(),
                i <= self.paths.len(),
                forall|j: int| 0 <= j < i ==> self.paths[j]@ != path@,
            decreases self.paths.len() - i,
        {
            if same_text(self.paths[i].as_str(), path) {
                proof {
                    self.lemma_count_at(i as int);
                }
                return Some(i);
            }
            i = i + 1;
        }
        proof {
            if self@.order.contains(path@) {
                let j = self@.order.index_of(path@);
                assert(self@.order[j] == path@);
                assert(self.paths[j]@ == path@);
            }
        }
        None
    }

    /// Whether `path` is tracked.
    pub fn has_refcount(&self, path: &str) -> (present: bool)
        requires
            self.wf(),
        ensures
            present == self@.contains(path@),
    {
        self.position(path).is_some()
    }

    /// The count of `path`; an untracked path is reported as not found.
    pub fn get_refcount_of(&self, path: &str) -> (count: ResourceManagerResult<u8>)
        requires
            self.wf(),
        ensures
            match count {
                Ok(c) => self@.contains(path@) && c == self@.counts[path@],
                Err(e) => !self@.contains(path@) && e is NotFoundError && e.text() == framed(
                    "Could not get the refcount of the resource at path ",
                    path@,
                    " in the refcount registry !",
                ),
            },
    {
        match self.position(path) {
            Some(i) => Ok(self.counts[i]),
            None => Err(
                ResourceManagerError::NotFoundError(
                    frame(
                        "Could not get the refcount of the resource at path ",
                        path,
                        " in the refcount registry !",
                    ),
                ),
            ),
        }
    }

    /// Raises the count of `path` by one. An untracked path is reported as not
    /// found, a count that cannot go higher as an overflow; either way the table
    /// stays as it was.
    pub fn increment_refcount_of(&mut self, path: &str) -> (done: ResourceManagerResult<()>)
        requires
            old(self).wf(),
        ensures
            final(self).wf(),
            match done {
                Ok(_) => old(self)@.contains(path@) && old(self)@.counts[path@] < u8::MAX
                    && final(self)@ == old(self)@.counted(
                    path@,
                    (old(self)@.counts[path@] + 1) as u8,
                ),
                Err(e) => final(self)@ == old(self)@ && if old(self)@.contains(path@) {
                    old(self)@.counts[path@] == u8::MAX && reports(e, Fault::Overflow(path@))
                } else {
                    e is NotFoundError && e.text() == framed(
                        "Could not get the refcount of the resource at path ",
                        path@,
                        " in the refcount registry and increment it !",
                    )
                },
            },
    {
        match self.position(path) {
            Some(i) => {
                let count: u8 = self.counts[i];
                if count == u8::MAX {
                    return Err(
                        ResourceManagerError::OverflowError(
                            frame(
                                "Could not increment the refcount of the resource at path ",
                                path,
                                " in the refcount registry: it cannot go higher !",
                            ),
                        ),
                    );
                }
                self.counts.set(i, count + 1);
                proof {
                    assert(self@.counts =~= old(self)@.counts.insert(
                        path@,
                        (count + 1) as u8,
                    )) by {
                        assert forall|other: Seq<char>| old(self)@.order.contains(other)
                            && other != path@ implies old(self)@.order.index_of(other)
                            != i as int by {
                            let j = old(self)@.order.index_of(other);
                            assert(old(self)@.order[j] == other);
                        }
                    }
                }
                Ok(())
            },
            None => Err(
                ResourceManagerError::NotFoundError(
                    frame(
                        "Could not get the refcount of the resource at path ",
                        path,
                        " in the refcount registry and increment it !",
                    ),
                ),
            ),
        }
    }

    /// Lowers the count of `path` by one. An untracked path is reported as not
    /// found, a count of zero as an underflow; either way the table stays as it
    /// was.
    pub fn decrement_refcount_of(&mut self, path: &str) -> (done: ResourceManagerResult<()>)
        requires
            old(self).wf(),
        ensures
            final(self).wf(),
            final(self)@ == old(self)@.after_decrement(path@),
            tells(done, old(self)@.decrement_fault(path@)),
    {
        match self.position(path) {
            Some(i) => {
                let count: u8 = self.counts[i];
                if count == 0 {
                    return Err(
                        ResourceManagerError::UnderflowError(
                            frame(
                                "Could not decrement the refcount of the resource at path ",
                                path,
                                " in the refcount registry: it is zero already !",
                            ),
                        ),
                    );
                }
                self.counts.set(i, count - 1);
                proof {
                    assert(self@.counts =~= old(self)@.counts.insert(path@, (count - 1) as u8)) by {
                        assert forall|other: Seq<char>| old(self)@.order.contains(other)
                            && other != path@ implies old(self)@.order.index_of(other)
                            != i as int by {
                            let j = old(self)@.order.index_of(other);
                            assert(old(self)@.order[j] == other);
                        }
                    }
                }
                Ok(())
            },
            None => Err(
                ResourceManagerError::NotFoundError(
                    frame(
                        "Could not get the refcount of the resource at path ",
                        path,
                        " in the refcount registry and decrement it !",
                    ),
                ),
            ),
        }
    }

    /// Starts to track `path`, with one consumer. A path that is tracked already
    /// is reported as such and the table stays as it was.
    pub fn add_refcount(&mut self, path: &str) -> (done: ResourceManagerResult<()>)
        requires
            old(self).wf(),
        ensures
            final(self).wf(),
            match done {
                Ok(_) => !old(self)@.contains(path@) && final(self)@ == old(self)@.added(path@),
                Err(e) => old(self)@.contains(path@) && final(self)@ == old(self)@
                    && e is AlreadyTracked && e.text() == framed(
                    "The resource at path ",
                    path@,
                    " has a refcount in the refcount registry already !",
                ),
            },
    {
        match self.position(path) {
            Some(_) => Err(
                ResourceManagerError::AlreadyTracked(
                    frame(
                        "The resource at path ",
                        path,
                        " has a refcount in the refcount registry already !",
                    ),
                ),
            ),
            None => {
                self.paths.push(String::from_str(path));
                self.counts.push(1);
                proof {
                    let before = old(self)@.order;
                    let after = self@.order;
                    assert(after =~= before.push(path@));
                    assert forall|j: int| 0 <= j < before.len() implies before[j] != path@ by {
                        assert(before.contains(before[j]));
                    }
                    assert(after.no_duplicates());
                    assert forall|other: Seq<char>| after.contains(other) implies (if other
                        == path@ {
                        after.index_of(other) == before.len()
                    } else {
                        before.contains(other) && after.index_of(other) == before.index_of(other)
                    }) by {
                        let k = after.index_of(other);
                        assert(after[k] == other);
                        if other == path@ {
                            assert(after[before.len() as int] == path@);
                        } else {
                            assert(before[k] == other);
                            let j = before.index_of(other);
                            assert(before[j] == other);
                            assert(after[j] == other);
                        }
                    }
                    assert forall|other: Seq<char>| before.contains(other) implies after.contains(
                        other,
                    ) by {
                        let j = before.index_of(other);
                        assert(before[j] == other);
                        assert(after[j] == other);
                    }
                    assert(after.contains(path@)) by {
                        assert(after[before.len() as int] == path@);
                    }
                    assert(self@.counts =~= old(self)@.counts.insert(path@, 1));
                }
                Ok(())
            },
        }
    }

    /// Stops tracking `path` and hands back the count it had, or `None` where the
    /// path was not tracked.
    pub fn remove_refcount(&mut self, path: &str) -> (count: Option<u8>)
        requires
            old(self).wf(),
        ensures
            final(self).wf(),
            final(self)@ == old(self)@.removed(path@),
            match count {
                Some(c) => old(self)@.contains(path@) && c == old(self)@.counts[path@],
                None => !old(self)@.contains(path@),
            },
    {
        match self.position(path) {
            Some(i) => {
                let _ = self.paths.remove(i);
                let count: u8 = self.counts.remove(i);
                proof {
                    let before = old(self)@.order;
                    assert(self@.order =~= before.remove(i as int));
                    assert forall|other: Seq<char>| #[trigger]
                        self@.order.contains(other) implies before.contains(other) && other
                        != path@ && self.counts[self@.order.index_of(other)]
                        == old(self).counts[before.index_of(other)] by {
                        let k = self@.order.index_of(other);
                        assert(self@.order[k] == other);
                        let j = if k < i { k } else { k + 1 };
                        assert(before[j] == other);
                        let m = before.index_of(other);
                        assert(before[m] == other);
                    }
                    assert forall|other: Seq<char>| before.contains(other) && other
                        != path@ implies #[trigger] self@.order.contains(other) by {
                        let m = before.index_of(other);
                        assert(before[m] == other);
                        let k = if m < i { m } else { m - 1 };
                        assert(self@.order[k] == other);
                    }
                    assert(self@.counts =~= old(self)@.counts.remove(path@));
                }
                Some(count)
            },
            None => None,
        }
    }

    /// How many paths are tracked.
    pub fn len(&self) -> (count: usize)
        requires
            self.wf(),
        ensures
            count == self@.order.len(),
    {
        self.paths.len()
    }

    /// The path that was tracked as the `i`-th of those still tracked.
    pub fn path_at(&self, i: usize) -> (path: &str)
        requires
            self.wf(),
            i < self@.order.len(),
        ensures
            path@ == self@.order[i as int],
    {
        self.paths[i].as_str()
    }

    /// The count of the path that was tracked as the `i`-th of those still
    /// tracked.
    pub fn count_at(&self, i: usize) -> (count: u8)
        requires
            self.wf(),
            i < self@.order.len(),
        ensures
            self@.contains(self@.order[i as int]),
            count == self@.counts[self@.order[i as int]],
    {
        proof {
            self.lemma_count_at(i as int);
        }
        self.counts[i]
    }

    /// Every tracked path with its count, oldest first.
    pub fn iter(&self) -> (entries: Vec<(String, u8)>)
        requires
            self.wf(),
        ensures
            lists(entries@, self@),
    {
        let mut entries: Vec<(String, u8)> = Vec::new();
        let mut i: usize = 0;
        while i < self.paths.len()
            invariant
                self.wf(),
                i <= self.paths.len(),
                entries.len() == i,
                forall|j: int|
                    0 <= j < i ==> (#[trigger] entries[j]).0@ == self@.order[j] && entries[j].1
                        == self@.counts[self@.order[j]],
            decreases self.paths.len() - i,
        {
            proof {
                self.lemma_count_at(i as int);
            }
            entries.push((self.paths[i].clone(), self.counts[i]));
            i = i + 1;
        }
        entries
    }

    /// Every tracked path, oldest first.
    pub fn keys(&self) -> (paths: Vec<String>)
        requires
            self.wf(),
        ensures
            paths_of(paths@) == self@.order,
    {
        let paths = self.paths.clone();
        assert(paths_of(paths@) =~= self@.order);
        paths
    }
}

impl Default for RefCountRegistry {
    /// An empty table.
    fn default() -> (made: Self)
        ensures
            made.wf(),
            made@ == RefCounts::empty(),
    {
        RefCountRegistry::new()
    }
}

} // verus!
