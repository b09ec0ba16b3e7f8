use vstd::prelude::*;
use std::rc::Rc;
use gltf::Gltf;
use imagefmt::Image;
use crate::formats::{share, OggStream};
use crate::resource_kind::{kind_of_path, ResourceKind};
use vstd::string::StringExecFns;
use crate::resource_manager_errors::{
    frame, framed, DecodeCause, ResourceManagerError, ResourceManagerResult,
};
use crate::resources::gltf_registry::GltfRegistry;
use crate::resources::ogg_registry::OggRegistry;
use crate::resources::tga_registry::TgaRegistry;

verus! {

/// What a store of loaded resources holds: for each kind, the payload loaded
/// under each path.
pub struct Loaded {
    pub gltf: Map<Seq<char>, Gltf>,
    pub ogg: Map<Seq<char>, OggStream>,
    pub tga: Map<Seq<char>, Image<u8>>,
}

impl Loaded {
    /// The store with nothing in it.
    pub open spec fn empty() -> Loaded {
        Loaded { gltf: Map::empty(), ogg: Map::empty(), tga: Map::empty() }
    }

    /// Whether the partition of `kind` holds a payload under `path`.
    pub open spec fn holds(self, kind: ResourceKind, path: Seq<char>) -> bool {
        match kind {
            ResourceKind::Gltf => self.gltf.contains_key(path),
            ResourceKind::Ogg => self.ogg.contains_key(path),
            ResourceKind::Tga => self.tga.contains_key(path),
        }
    }

    /// Whether any partition holds a payload under `path`.
    pub open spec fn contains(self, path: Seq<char>) -> bool {
        self.gltf.contains_key(path) || self.ogg.contains_key(path) || self.tga.contains_key(path)
    }

    /// How many payloads the store holds under `path`, all partitions together.
    pub open spec fn copies(self, path: Seq<char>) -> nat {
        (if self.gltf.contains_key(path) { 1nat } else { 0nat })
            + (if self.ogg.contains_key(path) { 1nat } else { 0nat })
            + (if self.tga.contains_key(path) { 1nat } else { 0nat })
    }

    /// Every payload sits in the partition of the kind that its path names.
    pub open spec fn sorted(self) -> bool {
        forall|kind: ResourceKind, path: Seq<char>| #[trigger]
            self.holds(kind, path) ==> kind_of_path(path) == Some(kind)
    }

    /// The store after the partition of `kind` dropped what it held under `path`.
    pub open spec fn without(self, kind: ResourceKind, path: Seq<char>) -> Loaded {
        match kind {
            ResourceKind::Gltf => Loaded { gltf: self.gltf.remove(path), ..self },
            ResourceKind::Ogg => Loaded { ogg: self.ogg.remove(path), ..self },
            ResourceKind::Tga => Loaded { tga: self.tga.remove(path), ..self },
        }
    }
}

/// The store of loaded resources, one partition for each kind.
pub struct ResourceRegistry {
    gltf_registry: GltfRegistry,
    ogg_registry: OggRegistry,
    tga_registry: TgaRegistry,
}

impl View for ResourceRegistry {
    type V = Loaded;

    closed spec fn view(&self) -> Loaded {
        Loaded { gltf: self.gltf_registry@, ogg: self.ogg_registry@, tga: self.tga_registry@ }
    }
}

impl ResourceRegistry {
    /// A store with nothing in it.
    pub fn new() -> (registry: Self)
        ensures
            registry@ == Loaded::empty(),
    {
        ResourceRegistry {
            gltf_registry: GltfRegistry::new(),
            ogg_registry: OggRegistry::new(),
            tga_registry: TgaRegistry::new(),
        }
    }

    /// Another handle to the document loaded under `path`; a path with none is
    /// reported as not found.
    pub fn get_gltf(&self, path: &str) -> (found: ResourceManagerResult<Rc<Gltf>>)
        ensures
            match found {
                Ok(document) => self@.gltf.contains_key(path@) && *document == self@.gltf[path@],
                Err(e) => !self@.gltf.contains_key(path@) && e is NotFoundError && e.text()
                    == framed(
                    "Could not find the gltf data at path ",
                    path@,
                    " in the gltf registry !",
                ),
            },
    {
        match self.gltf_registry.get(path) {
            Some(document) => Ok(share(document)),
            None => Err(
                ResourceManagerError::NotFoundError(
                    frame("Could not find the gltf data at path ", path, " in the gltf registry !"),
                ),
            ),
        }
    }

    /// Puts `document` under `path` in the gltf partition and hands back what was
    /// there before, if anything.
    pub fn add_gltf(&mut self, path: &str, document: Rc<Gltf>) -> (replaced: Option<Rc<Gltf>>)
        ensures
            final(self)@ == (Loaded { gltf: old(self)@.gltf.insert(path@, *document), ..old(self)@ }),
            match replaced {
                Some(previous) => old(self)@.gltf.contains_key(path@) && *previous == old(self)@.gltf[path@],
                None => !old(self)@.gltf.contains_key(path@),
            },
    {
        self.gltf_registry.insert(path, document)
    }

    /// Takes what the gltf partition holds under `path` out of the store and hands
    /// it back; `None` where it held nothing.
    pub fn remove_gltf(&mut self, path: &str) -> (removed: Option<Rc<Gltf>>)
        ensures
            final(self)@ == old(self)@.without(ResourceKind::Gltf, path@),
            match removed {
                Some(document) => old(self)@.gltf.contains_key(path@) && *document == old(self)@.gltf[path@],
                None => !old(self)@.gltf.contains_key(path@),
            },
    {
        self.gltf_registry.remove(path)
    }

    /// Whether the gltf partition holds something under `path`.
    pub fn has_gltf(&self, path: &str) -> (present: bool)
        ensures
            present == self@.gltf.contains_key(path@),
    {
        self.gltf_registry.get(path).is_some()
    }

    /// Whether the gltf partition holds nothing.
    pub fn is_gltf_empty(&self) -> (empty: bool)
        ensures
            empty == self@.gltf.is_empty(),
    {
        self.gltf_registry.is_empty()
    }

    /// Another handle to the stream loaded under `path`; a path with none is
    /// reported as not found.
    pub fn get_ogg(&self, path: &str) -> (found: ResourceManagerResult<Rc<OggStream>>)
        ensures
            match found {
                Ok(stream) => self@.ogg.contains_key(path@) && *stream == self@.ogg[path@],
                Err(e) => !self@.ogg.contains_key(path@) && e is NotFoundError && e.text()
                    == framed(
                    "Could not find the ogg data at path ",
                    path@,
                    " in the ogg registry !",
                ),
            },
    {
        match self.ogg_registry.get(path) {
            Some(stream) => Ok(share(stream)),
            None => Err(
                ResourceManagerError::NotFoundError(
                    frame("Could not find the ogg data at path ", path, " in the ogg registry !"),
                ),
            ),
        }
    }

    /// Puts `stream` under `path` in the ogg partition and hands back what was
    /// there before, if anything.
    pub fn add_ogg(&mut self, path: &str, stream: Rc<OggStream>) -> (replaced: Option<Rc<OggStream>>)
        ensures
            final(self)@ == (Loaded { ogg: old(self)@.ogg.insert(path@, *stream), ..old(self)@ }),
            match replaced {
                Some(previous) => old(self)@.ogg.contains_key(path@) && *previous == old(self)@.ogg[path@],
                None => !old(self)@.ogg.contains_key(path@),
            },
    {
        self.ogg_registry.insert(path, stream)
    }

    /// Takes what the ogg partition holds under `path` out of the store and hands
    /// it back; `None` where it held nothing.
    pub fn remove_ogg(&mut self, path: &str) -> (removed: Option<Rc<OggStream>>)
        ensures
            final(self)@ == old(self)@.without(ResourceKind::Ogg, path@),
            match removed {
                Some(stream) => old(self)@.ogg.contains_key(path@) && *stream == old(self)@.ogg[path@],
                None => !old(self)@.ogg.contains_key(path@),
            },
    {
        self.ogg_registry.remove(path)
    }

    /// Whether the ogg partition holds something under `path`.
    pub fn has_ogg(&self, path: &str) -> (present: bool)
        ensures
            present == self@.ogg.contains_key(path@),
    {
        self.ogg_registry.get(path).is_some()
    }

    /// Whether the ogg partition holds nothing.
    pub fn is_ogg_empty(&self) -> (empty: bool)
        ensures
            empty == self@.ogg.is_empty(),
    {
        self.ogg_registry.is_empty()
    }

    /// Another handle to the image loaded under `path`; a path with none is
    /// reported as not found.
    pub fn get_tga(&self, path: &str) -> (found: ResourceManagerResult<Rc<Image<u8>>>)
        ensures
            match found {
                Ok(image) => self@.tga.contains_key(path@) && *image == self@.tga[path@],
                Err(e) => !self@.tga.contains_key(path@) && e is NotFoundError && e.text()
                    == framed(
                    "Could not find the tga data at path ",
                    path@,
                    " in the tga registry !",
                ),
            },
    {
        match self.tga_registry.get(path) {
            Some(image) => Ok(share(image)),
            None => Err(
                ResourceManagerError::NotFoundError(
                    frame("Could not find the tga data at path ", path, " in the tga registry !"),
                ),
            ),
        }
    }

    /// Puts `image` under `path` in the tga partition and hands back what was
    /// there before, if anything.
    pub fn add_tga(&mut self, path: &str, image: Rc<Image<u8>>) -> (replaced: Option<Rc<Image<u8>>>)
        ensures
            final(self)@ == (Loaded { tga: old(self)@.tga.insert(path@, *image), ..old(self)@ }),
            match replaced {
                Some(previous) => old(self)@.tga.contains_key(path@) && *previous == old(self)@.tga[path@],
                None => !old(self)@.tga.contains_key(path@),
            },
    {
        self.tga_registry.insert(path, image)
    }

    /// Takes what the tga partition holds under `path` out of the store and hands
    /// it back; `None` where it held nothing.
    pub fn remove_tga(&mut self, path: &str) -> (removed: Option<Rc<Image<u8>>>)
        ensures
            final(self)@ == old(self)@.without(ResourceKind::Tga, path@),
            match removed {
                Some(image) => old(self)@.tga.contains_key(path@) && *image == old(self)@.tga[path@],
                None => !old(self)@.tga.contains_key(path@),
            },
    {
        self.tga_registry.remove(path)
    }

    /// Whether the tga partition holds something under `path`.
    pub fn has_tga(&self, path: &str) -> (present: bool)
        ensures
            present == self@.tga.contains_key(path@),
    {
        self.tga_registry.get(path).is_some()
    }

    /// Whether the tga partition holds nothing.
    pub fn is_tga_empty(&self) -> (empty: bool)
        ensures
            empty == self@.tga.is_empty(),
    {
        self.tga_registry.is_empty()
    }

    /// Takes what the gltf decoder made of the data for `path`: a document goes
    /// into the gltf partition under `path`, a rejection comes back as a decode
    /// error with the decoder's report as its cause and leaves the store as it was.
    pub fn add_decoded_gltf(&mut self, path: &str, decoded: Result<Gltf, gltf::Error>) -> (done:
        ResourceManagerResult<()>)
        ensures
            match decoded {
                Ok(document) => done is Ok && final(self)@ == (Loaded {
                    gltf: old(self)@.gltf.insert(path@, document),
                    ..old(self)@
                }),
                Err(report) => {
                    &&& final(self)@ == old(self)@
                    &&& done matches Err(
                        ResourceManagerError::DecodeError(text, DecodeCause::Gltf(cause)),
                    ) && cause == report && text@ == "Error while dealing with a gltf structure."@
                },
            },
    {
        match decoded {
            Ok(document) => {
                let _ = self.gltf_registry.insert(path, Rc::new(document));
                Ok(())
            },
            Err(report) => Err(
                ResourceManagerError::DecodeError(
                    String::from_str("Error while dealing with a gltf structure."),
                    DecodeCause::Gltf(report),
                ),
            ),
        }
    }

    /// Takes what the ogg decoder made of the data for `path`: a stream goes
    /// into the ogg partition under `path`, a rejection comes back as a decode
    /// error with the decoder's report as its cause and leaves the store as it was.
    pub fn add_decoded_ogg(&mut self, path: &str, decoded: Result<OggStream, lewton::VorbisError>) -> (done:
        ResourceManagerResult<()>)
        ensures
            match decoded {
                Ok(stream) => done is Ok && final(self)@ == (Loaded {
                    ogg: old(self)@.ogg.insert(path@, stream),
                    ..old(self)@
                }),
                Err(report) => {
                    &&& final(self)@ == old(self)@
                    &&& done matches Err(
                        ResourceManagerError::DecodeError(text, DecodeCause::Ogg(cause)),
                    ) && *cause == report && text@ == "Error while dealing with an ogg stream."@
                },
            },
    {
        match decoded {
            Ok(stream) => {
                let _ = self.ogg_registry.insert(path, Rc::new(stream));
                Ok(())
            },
            Err(report) => Err(
                ResourceManagerError::DecodeError(
                    String::from_str("Error while dealing with an ogg stream."),
                    DecodeCause::Ogg(Rc::new(report)),
                ),
            ),
        }
    }

    /// Takes what the tga decoder made of the data for `path`: a image goes
    /// into the tga partition under `path`, a rejection comes back as a decode
    /// error with the decoder's report as its cause and leaves the store as it was.
    pub fn add_decoded_tga(&mut self, path: &str, decoded: Result<Image<u8>, imagefmt::Error>) -> (done:
        ResourceManagerResult<()>)
        ensures
            match decoded {
                Ok(image) => done is Ok && final(self)@ == (Loaded {
                    tga: old(self)@.tga.insert(path@, image),
                    ..old(self)@
                }),
                Err(report) => {
                    &&& final(self)@ == old(self)@
                    &&& done matches Err(
                        ResourceManagerError::DecodeError(text, DecodeCause::Tga(cause)),
                    ) && cause == report && text@ == "Error while dealing with a tga image."@
                },
            },
    {
        match decoded {
            Ok(image) => {
                let _ = self.tga_registry.insert(path, Rc::new(image));
                Ok(())
            },
            Err(report) => Err(
                ResourceManagerError::DecodeError(
                    String::from_str("Error while dealing with a tga image."),
                    DecodeCause::Tga(report),
                ),
            ),
        }
    }

    /// Whether the partition of `kind` holds something under `path`.
    pub fn holds(&self, kind: ResourceKind, path: &str) -> (present: bool)
        ensures
            present == self@.holds(kind, path@),
    {
        match kind {
            ResourceKind::Gltf => self.has_gltf(path),
            ResourceKind::Ogg => self.has_ogg(path),
            ResourceKind::Tga => self.has_tga(path),
        }
    }

    /// Whether any partition holds something under `path`.
    pub fn contains(&self, path: &str) -> (present: bool)
        ensures
            present == self@.contains(path@),
    {
        self.has_gltf(path) || self.has_ogg(path) || self.has_tga(path)
    }

    /// Whether no partition holds anything.
    pub fn is_empty(&self) -> (empty: bool)
        ensures
            empty == (self@.gltf.is_empty() && self@.ogg.is_empty() && self@.tga.is_empty()),
    {
        self.is_gltf_empty() && self.is_ogg_empty() && self.is_tga_empty()
    }

    /// Drops what the partition of `kind` holds under `path`, if anything.
    pub fn remove(&mut self, kind: ResourceKind, path: &str)
        ensures
            final(self)@ == old(self)@.without(kind, path@),
    {
        match kind {
            ResourceKind::Gltf => {
                let _ = self.remove_gltf(path);
            },
            ResourceKind::Ogg => {
                let _ = self.remove_ogg(path);
            },
            ResourceKind::Tga => {
                let _ = self.remove_tga(path);
            },
        }
    }
}

impl Default for ResourceRegistry {
    /// A store with nothing in it.
    fn default() -> (made: Self)
        ensures
            made@ == Loaded::empty(),
    {
        ResourceRegistry::new()
    }
}

} // verus!
