use vstd::prelude::*;
use vstd::hash_map::StringHashMap;
use std::rc::Rc;
use imagefmt::Image;
use vstd::string::StringExecFns;
use crate::formats::share;

verus! {

/// The loaded TGA images, by path. A path has at most one image.
pub struct TgaRegistry {
    images: StringHashMap<Rc<Image<u8>>>,
}

impl View for TgaRegistry {
    type V = Map<Seq<char>, Image<u8>>;

    closed spec fn view(&self) -> Map<Seq<char>, Image<u8>> {
        self.images@.map_values(|handle: Rc<Image<u8>>| *handle)
    }
}

impl TgaRegistry {
    /// A registry with nothing in it.
    pub fn new() -> (registry: Self)
        ensures
            registry@ == Map::<Seq<char>, Image<u8>>::empty(),
    {
        let registry = TgaRegistry { images: StringHashMap::new() };
        assert(registry@ =~= Map::<Seq<char>, Image<u8>>::empty());
        registry
    }

    /// Whether nothing is registered.
    pub fn is_empty(&self) -> (empty: bool)
        ensures
            empty == self@.is_empty(),
    {
        self.images.is_empty()
    }

    /// The image registered under `path`.
    pub fn get(&self, path: &str) -> (found: Option<&Rc<Image<u8>>>)
        ensures
            match found {
                Some(image) => self@.contains_key(path@) && **image == self@[path@],
                None => !self@.contains_key(path@),
            },
    {
        self.images.get(path)
    }

    /// Takes the image registered under `path` out of the registry and hands
    /// it back; `None` where there was none.
    pub fn remove(&mut self, path: &str) -> (removed: Option<Rc<Image<u8>>>)
        ensures
            final(self)@ == old(self)@.remove(path@),
            match removed {
                Some(image) => old(self)@.contains_key(path@) && *image == old(self)@[path@],
                None => !old(self)@.contains_key(path@),
            },
    {
        let removed = match self.images.get(path) {
            Some(image) => Some(share(image)),
            None => None,
        };
        self.images.remove(path);
        assert(self@ =~= old(self)@.remove(path@));
        removed
    }

    /// Registers `image` under `path` and hands back the image that was
    /// registered there before, if any.
    pub fn insert(&mut self, path: &str, image: Rc<Image<u8>>) -> (replaced: Option<Rc<Image<u8>>>)
        ensures
            final(self)@ == old(self)@.insert(path@, *image),
            match replaced {
                Some(previous) => old(self)@.contains_key(path@) && *previous == old(self)@[path@],
                None => !old(self)@.contains_key(path@),
            },
    {
        let replaced = match self.images.get(path) {
            Some(previous) => Some(share(previous)),
            None => None,
        };
        let ghost handle = image;
        self.images.insert(String::from_str(path), image);
        assert(self@ =~= old(self)@.insert(path@, *handle));
        replaced
    }
}

impl Default for TgaRegistry {
    /// A registry with nothing in it.
    fn default() -> (made: Self)
        ensures
            made@ == Map::<Seq<char>, Image<u8>>::empty(),
    {
        TgaRegistry::new()
    }
}

} // verus!
