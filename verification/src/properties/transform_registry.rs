use vstd::prelude::*;
use vstd::string::StringExecFns;
use crate::text::{paths_of, same_text};

verus! {

/// The transforms of the game objects, by the id of the game object. It is
/// generic in the transform, which is for the game-object model to define.
#[derive(Debug)]
pub struct TransformRegistry<T> {
    ids: Vec<String>,
    transforms: Vec<T>,
}

impl<T> View for TransformRegistry<T> {
    type V = Map<Seq<char>, T>;

    closed spec fn view(&self) -> Map<Seq<char>, T> {
        Map::new(
            |id: Seq<char>| paths_of(self.ids@).contains(id),
            |id: Seq<char>| self.transforms[paths_of(self.ids@).index_of(id)],
        )
    }
}

impl<T> TransformRegistry<T> {
    /// Every id has one transform, and no id is registered twice.
    pub closed spec fn wf(&self) -> bool {
        &&& self.ids.len() == self.transforms.len()
        &&& paths_of(self.ids@).no_duplicates()
    }

    proof fn lemma_at(&self, i: int)
        requires
            self.wf(),
            0 <= i < self.ids.len(),
        ensures
            self@.contains_key(self.ids[i]@),
            self@[self.ids[i]@] == self.transforms[i],
            paths_of(self.ids@).index_of(self.ids[i]@) == i,
    {
        let id = self.ids[i]@;
        assert(paths_of(self.ids@)[i] == id);
        let j = paths_of(self.ids@).index_of(id);
        assert(paths_of(self.ids@)[j] == id);
    }

    proof fn lemma_elsewhere(&self, i: int, other: Seq<char>)
        requires
            self.wf(),
            0 <= i < self.ids.len(),
            other != self.ids[i]@,
            paths_of(self.ids@).contains(other),
        ensures
            paths_of(self.ids@).index_of(other) != i,
            0 <= paths_of(self.ids@).index_of(other) < self.ids.len(),
    {
        let j = paths_of(self.ids@).index_of(other);
        assert(paths_of(self.ids@)[j] == other);
    }

    /// A registry with nothing in it.
    pub fn new() -> (registry: Self)
        ensures
            registry.wf(),
            registry@ == Map::<Seq<char>, T>::empty(),
    {
        let registry = TransformRegistry { ids: Vec::new(), transforms: Vec::new() };
        assert(registry@ =~= Map::<Seq<char>, T>::empty());
        registry
    }

    fn position(&self, id: &str) -> (found: Option<usize>)
        requires
            self.wf(),
        ensures
            match found {
                Some(i) => i < self.ids.len() && self.ids[i as int]@ == id@ && self@.contains_key(
                    id@,
                ) && self@[id@] == self.transforms[i as int] && paths_of(self.ids@).index_of(id@)
                    == i,
                None => !self@.contains_key(id@),
            },
    {
        let mut i: usize = 0;
        while i < self.ids.len()
            invariant
                self.wf(),
                i <= self.ids.len(),
                forall|j: int| 0 <= j < i ==> self.ids[j]@ != id@,
            decreases self.ids.len() - i,
        {
            if same_text(self.ids[i].as_str(), id) {
                proof {
                    self.lemma_at(i as int);
                }
                return Some(i);
            }
            i = i + 1;
        }
        proof {
            if paths_of(self.ids@).contains(id@) {
                let j = paths_of(self.ids@).index_of(id@);
                assert(paths_of(self.ids@)[j] == id@);
            }
        }
        None
    }

    /// Whether nothing is registered.
    pub fn is_empty(&self) -> (empty: bool)
        requires
            self.wf(),
        ensures
            empty == self@.is_empty(),
    {
        proof {
            if self.ids.len() > 0 {
                self.lemma_at(0);
            } else {
                assert(self@.dom() =~= Set::empty());
            }
        }
        self.ids.len() == 0
    }

    /// The transform registered for the game object `id`.
    pub fn get(&self, id: &str) -> (found: Option<&T>)
        requires
            self.wf(),
        ensures
            match found {
                Some(transform) => self@.contains_key(id@) && *transform == self@[id@],
                None => !self@.contains_key(id@),
            },
    {
        match self.position(id) {
            Some(i) => Some(&self.transforms[i]),
            None => None,
        }
    }

    /// Takes the transform registered for the game object `id` out of the registry and
    /// hands it back; `None` where there was none.
    pub fn remove(&mut self, id: &str) -> (removed: Option<T>)
        requires
            old(self).wf(),
        ensures
            final(self).wf(),
            final(self)@ == old(self)@.remove(id@),
            removed == old(self)@.get(id@),
    {
        match self.position(id) {
            Some(i) => {
                let _ = self.ids.remove(i);
                let transform = self.transforms.remove(i);
                proof {
                    let before = paths_of(old(self).ids@);
                    let after = paths_of(self.ids@);
                    assert(after =~= before.remove(i as int));
                    assert forall|other: Seq<char>| #[trigger] after.contains(other) implies
                        before.contains(other) && other != id@ && self.transforms[after.index_of(
                        other,
                    )] == old(self).transforms[before.index_of(other)] by {
                        let k = after.index_of(other);
                        assert(after[k] == other);
                        let j = if k < i { k } else { k + 1 };
                        assert(before[j] == other);
                        let m = before.index_of(other);
                        assert(before[m] == other);
                    }
                    assert forall|other: Seq<char>| before.contains(other) && other
                        != id@ implies #[trigger] after.contains(other) by {
                        let m = before.index_of(other);
                        assert(before[m] == other);
                        let k = if m < i { m } else { m - 1 };
                        assert(after[k] == other);
                    }
                    assert(self@ =~= old(self)@.remove(id@));
                }
                Some(transform)
            },
            None => {
                assert(self@ =~= old(self)@.remove(id@));
                None
            },
        }
    }

    /// Registers `transform` for the game object `id` and hands back the transform that
    /// was registered for it before, if any.
    pub fn insert(&mut self, id: &str, transform: T) -> (replaced: Option<T>)
        requires
            old(self).wf(),
        ensures
            final(self).wf(),
            final(self)@ == old(self)@.insert(id@, transform),
            replaced == old(self)@.get(id@),
    {
        match self.position(id) {
            Some(i) => {
                self.transforms.push(transform);
                let previous = self.transforms.swap_remove(i);
                proof {
                    assert(self.transforms@ =~= old(self).transforms@.update(i as int, transform));
                    assert forall|other: Seq<char>|
                        paths_of(self.ids@).contains(other) && other != id@ implies self.transforms[paths_of(
                        self.ids@,
                    ).index_of(other)] == old(self).transforms[paths_of(self.ids@).index_of(
                        other,
                    )] by {
                        old(self).lemma_elsewhere(i as int, other);
                    }
                    assert(self@ =~= old(self)@.insert(id@, transform));
                }
                Some(previous)
            },
            None => {
                self.ids.push(String::from_str(id));
                self.transforms.push(transform);
                proof {
                    let before = paths_of(old(self).ids@);
                    let after = paths_of(self.ids@);
                    assert(after =~= before.push(id@));
                    assert forall|j: int| 0 <= j < before.len() implies before[j] != id@ by {
                        assert(before.contains(before[j]));
                    }
                    assert(after.no_duplicates());
                    assert forall|other: Seq<char>| after.contains(other) implies (if other
                        == id@ {
                        after.index_of(other) == before.len()
                    } else {
                        before.contains(other) && after.index_of(other) == before.index_of(other)
                    }) by {
                        let k = after.index_of(other);
                        assert(after[k] == other);
                        if other == id@ {
                            assert(after[before.len() as int] == id@);
                        } else {
                            assert(before[k] == other);
                            let j = before.index_of(other);
                            assert(before[j] == other);
                            assert(after[j] == other);
                        }
                    }
                    assert forall|other: Seq<char>| before.contains(other) implies after.contains(
                        other,
                    ) by {
                        let j = before.index_of(other);
                        assert(before[j] == other);
                        assert(after[j] == other);
                    }
                    assert(after.contains(id@)) by {
                        assert(after[before.len() as int] == id@);
                    }
                    assert(self@ =~= old(self)@.insert(id@, transform));
                }
                None
            },
        }
    }
}

impl<T> Default for TransformRegistry<T> {
    /// A registry with nothing in it.
    fn default() -> (made: Self)
        ensures
            made.wf(),
            made@ == Map::<Seq<char>, T>::empty(),
    {
        TransformRegistry::new()
    }
}

} // verus!
