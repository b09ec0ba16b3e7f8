use vstd::prelude::*;
use vstd::hash_map::StringHashMap;
use std::rc::Rc;
use gltf::Gltf;
use vstd::string::StringExecFns;
use crate::formats::share;

verus! {

/// The loaded glTF documents, by path. A path has at most one document.
pub struct GltfRegistry {
    documents: StringHashMap<Rc<Gltf>>,
}

impl View for GltfRegistry {
    type V = Map<Seq<char>, Gltf>;

    closed spec fn view(&self) -> Map<Seq<char>, Gltf> {
        self.documents@.map_values(|handle: Rc<Gltf>| *handle)
    }
}

impl GltfRegistry {
    /// A registry with nothing in it.
    pub fn new() -> (registry: Self)
        ensures
            registry@ == Map::<Seq<char>, Gltf>::empty(),
    {
        let registry = GltfRegistry { documents: StringHashMap::new() };
        assert(registry@ =~= Map::<Seq<char>, Gltf>::empty());
        registry
    }

    /// Whether nothing is registered.
    pub fn is_empty(&self) -> (empty: bool)
        ensures
            empty == self@.is_empty(),
    {
        self.documents.is_empty()
    }

    /// The document registered under `path`.
    pub fn get(&self, path: &str) -> (found: Option<&Rc<Gltf>>)
        ensures
            match found {
                Some(document) => self@.contains_key(path@) && **document == self@[path@],
                None => !self@.contains_key(path@),
            },
    {
        self.documents.get(path)
    }

    /// Takes the document registered under `path` out of the registry and hands
    /// it back; `None` where there was none.
    pub fn remove(&mut self, path: &str) -> (removed: Option<Rc<Gltf>>)
        ensures
            final(self)@ == old(self)@.remove(path@),
            match removed {
                Some(document) => old(self)@.contains_key(path@) && *document == old(self)@[path@],
                None => !old(self)@.contains_key(path@),
            },
    {
        let removed = match self.documents.get(path) {
            Some(document) => Some(share(document)),
            None => None,
        };
        self.documents.remove(path);
        assert(self@ =~= old(self)@.remove(path@));
        removed
    }

    /// Registers `document` under `path` and hands back the document that was
    /// registered there before, if any.
    pub fn insert(&mut self, path: &str, document: Rc<Gltf>) -> (replaced: Option<Rc<Gltf>>)
        ensures
            final(self)@ == old(self)@.insert(path@, *document),
            match replaced {
                Some(previous) => old(self)@.contains_key(path@) && *previous == old(self)@[path@],
                None => !old(self)@.contains_key(path@),
            },
    {
        let replaced = match self.documents.get(path) {
            Some(previous) => Some(share(previous)),
            None => None,
        };
        let ghost handle = document;
        self.documents.insert(String::from_str(path), document);
        assert(self@ =~= old(self)@.insert(path@, *handle));
        replaced
    }
}

impl Default for GltfRegistry {
    /// A registry with nothing in it.
    fn default() -> (made: Self)
        ensures
            made@ == Map::<Seq<char>, Gltf>::empty(),
    {
        GltfRegistry::new()
    }
}

} // verus!
