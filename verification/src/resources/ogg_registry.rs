use vstd::prelude::*;
use vstd::hash_map::StringHashMap;
use std::rc::Rc;
use crate::formats::OggStream;
use vstd::string::StringExecFns;
use crate::formats::share;

verus! {

/// The loaded Ogg Vorbis streams, by path. A path has at most one stream.
pub struct OggRegistry {
    streams: StringHashMap<Rc<OggStream>>,
}

impl View for OggRegistry {
    type V = Map<Seq<char>, OggStream>;

    closed spec fn view(&self) -> Map<Seq<char>, OggStream> {
        self.streams@.map_values(|handle: Rc<OggStream>| *handle)
    }
}

impl OggRegistry {
    /// A registry with nothing in it.
    pub fn new() -> (registry: Self)
        ensures
            registry@ == Map::<Seq<char>, OggStream>::empty(),
    {
        let registry = OggRegistry { streams: StringHashMap::new() };
        assert(registry@ =~= Map::<Seq<char>, OggStream>::empty());
        registry
    }

    /// Whether nothing is registered.
    pub fn is_empty(&self) -> (empty: bool)
        ensures
            empty == self@.is_empty(),
    {
        self.streams.is_empty()
    }

    /// The stream registered under `path`.
    pub fn get(&self, path: &str) -> (found: Option<&Rc<OggStream>>)
        ensures
            match found {
                Some(stream) => self@.contains_key(path@) && **stream == self@[path@],
                None => !self@.contains_key(path@),
            },
    {
        self.streams.get(path)
    }

    /// Takes the stream registered under `path` out of the registry and hands
    /// it back; `None` where there was none.
    pub fn remove(&mut self, path: &str) -> (removed: Option<Rc<OggStream>>)
        ensures
            final(self)@ == old(self)@.remove(path@),
            match removed {
                Some(stream) => old(self)@.contains_key(path@) && *stream == old(self)@[path@],
                None => !old(self)@.contains_key(path@),
            },
    {
        let removed = match self.streams.get(path) {
            Some(stream) => Some(share(stream)),
            None => None,
        };
        self.streams.remove(path);
        assert(self@ =~= old(self)@.remove(path@));
        removed
    }

    /// Registers `stream` under `path` and hands back the stream that was
    /// registered there before, if any.
    pub fn insert(&mut self, path: &str, stream: Rc<OggStream>) -> (replaced: Option<Rc<OggStream>>)
        ensures
            final(self)@ == old(self)@.insert(path@, *stream),
            match replaced {
                Some(previous) => old(self)@.contains_key(path@) && *previous == old(self)@[path@],
                None => !old(self)@.contains_key(path@),
            },
    {
        let replaced = match self.streams.get(path) {
            Some(previous) => Some(share(previous)),
            None => None,
        };
        let ghost handle = stream;
        self.streams.insert(String::from_str(path), stream);
        assert(self@ =~= old(self)@.insert(path@, *handle));
        replaced
    }
}

impl Default for OggRegistry {
    /// A registry with nothing in it.
    fn default() -> (made: Self)
        ensures
            made@ == Map::<Seq<char>, OggStream>::empty(),
    {
        OggRegistry::new()
    }
}

} // verus!
