use vstd::prelude::*;
use vstd::string::StringExecFns;
use std::rc::Rc;
use crate::formats::{decode_gltf, decode_tga, share};
use crate::lifecycle::{accepts, distinct, lemma_named_push, named, reports, EngineState, Fault};
use crate::resource_file::{find_file, FileContent, ResourceFile};
use crate::resource_kind::{extension, kind_of_path, ResourceKind};
use crate::resource_manager_errors::{frame, DecodeCause, ResourceManagerError, ResourceManagerResult};
use crate::resource_manager_trait::IResourceManager;
use crate::resources::refcount_registry::RefCountRegistry;
use crate::resources::resources_registry::ResourceRegistry;
use crate::text::{distinct_paths, paths_of};

verus! {

/// The engine that keeps track of which resources the current level needs and
/// holds each of them in memory once.
pub struct ResourceManager {
    allocator_capacity: usize,
    allocator_capacity_copy: usize,
    resource_registry: ResourceRegistry,
    refcount_registry: RefCountRegistry,
}

impl View for ResourceManager {
    type V = EngineState;

    closed spec fn view(&self) -> EngineState {
        EngineState {
            refcounts: self.refcount_registry@,
            loaded: self.resource_registry@,
            allocator_capacity: self.allocator_capacity,
            allocator_capacity_copy: self.allocator_capacity_copy,
        }
    }
}

impl ResourceManager {
    /// No path is tracked twice, and every loaded payload sits in the partition
    /// of the kind that its path names.
    pub closed spec fn wf(&self) -> bool {
        &&& self.refcount_registry.wf()
        &&& self.resource_registry@.sorted()
    }

    /// What follows from well-formedness.
    pub proof fn lemma_wf(&self)
        requires
            self.wf(),
        ensures
            self@.refcounts.wf(),
            self@.loaded.sorted(),
    {
        self.refcount_registry.lemma_view_wf();
    }

    /// The store of a well-formed engine holds at most one payload under any path,
    /// all partitions together.
    pub proof fn lemma_one_copy(&self, path: Seq<char>)
        requires
            self.wf(),
        ensures
            self@.loaded.copies(path) <= 1,
    {
        crate::laws::lemma_at_most_one_copy(self@.loaded, path);
    }

    /// An engine that tracks nothing and holds nothing, to place its data in
    /// allocators of the given capacities.
    pub fn with_capacity(allocator_capacity: usize, allocator_capacity_copy: usize) -> (manager:
        Self)
        ensures
            manager.wf(),
            manager@ == EngineState::fresh(allocator_capacity, allocator_capacity_copy),
    {
        ResourceManager {
            allocator_capacity,
            allocator_capacity_copy,
            resource_registry: ResourceRegistry::new(),
            refcount_registry: RefCountRegistry::new(),
        }
    }

    /// The capacity, in bytes, for the data that is dropped.
    pub fn allocator_capacity(&self) -> (capacity: usize)
        ensures
            capacity == self@.allocator_capacity,
    {
        self.allocator_capacity
    }

    /// The capacity, in bytes, for the data that is copied.
    pub fn allocator_capacity_copy(&self) -> (capacity: usize)
        ensures
            capacity == self@.allocator_capacity_copy,
    {
        self.allocator_capacity_copy
    }

    /// The store of loaded resources.
    pub fn resource_registry(&self) -> (registry: &ResourceRegistry)
        ensures
            registry@ == self@.loaded,
    {
        &self.resource_registry
    }

    /// The table of reference counts.
    pub fn refcount_registry(&self) -> (registry: &RefCountRegistry)
        ensures
            registry@ == self@.refcounts,
            self.wf() ==> registry.wf(),
    {
        &self.refcount_registry
    }

    fn not_loadable(path: &str) -> (error: ResourceManagerError)
        ensures
            reports(error, Fault::NotLoadable(path@)),
    {
        match extension(path) {
            Some(_) => ResourceManagerError::UnsupportedKind(
                frame("The data at path ", path, " cannot be loaded by the engine !"),
            ),
            None => ResourceManagerError::UnsupportedKind(
                frame("The path ", path, " is not valid !"),
            ),
        }
    }

    fn not_unloadable(path: &str) -> (error: ResourceManagerError)
        ensures
            reports(error, Fault::NotUnloadable(path@)),
    {
        match extension(path) {
            Some(_) => ResourceManagerError::UnsupportedKind(
                frame("The data at path ", path, " cannot be unloaded by the engine !"),
            ),
            None => ResourceManagerError::UnsupportedKind(
                frame("The path ", path, " is not valid !"),
            ),
        }
    }

    /// Puts the payload that `content` gives as a resource of `kind` under `path`.
    /// Where it gives none the store stays as it was.
    fn decode_into(&mut self, kind: ResourceKind, path: &str, content: &FileContent) -> (done:
        ResourceManagerResult<()>)
        requires
            old(self).wf(),
            kind_of_path(path@) == Some(kind),
        ensures
            final(self).wf(),
            match done {
                Ok(_) => accepts(kind, *content) && final(self)@ == old(self)@.with_loaded(
                    old(self)@.loaded.with_decoded(kind, path@, *content),
                ),
                Err(e) => !accepts(kind, *content) && final(self)@ == old(self)@ && reports(
                    e,
                    Fault::Rejected(kind, *content),
                ),
            },
    {
        proof {
            old(self)@.loaded.lemma_with_decoded_sorted(kind, path@, *content);
        }
        let decoded = match kind {
            ResourceKind::Gltf => match content {
                FileContent::Bytes(bytes) => match decode_gltf(bytes.as_slice()) {
                    Ok(document) => {
                        let _ = self.resource_registry.add_gltf(path, Rc::new(document));
                        Ok(())
                    },
                    Err(cause) => Err(cause),
                },
                _ => Err(DecodeCause::WrongContent),
            },
            ResourceKind::Ogg => match content {
                FileContent::Stream(stream) => {
                    let _ = self.resource_registry.add_ogg(path, share(stream));
                    Ok(())
                },
                FileContent::Rejected(report) => Err(DecodeCause::Ogg(share(report))),
                FileContent::Aborted => Err(DecodeCause::OggAborted),
                FileContent::Bytes(_) => Err(DecodeCause::WrongContent),
            },
            ResourceKind::Tga => match content {
                FileContent::Bytes(bytes) => match decode_tga(bytes.as_slice()) {
                    Ok(image) => {
                        let _ = self.resource_registry.add_tga(path, Rc::new(image));
                        Ok(())
                    },
                    Err(cause) => Err(cause),
                },
                _ => Err(DecodeCause::WrongContent),
            },
        };
        match decoded {
            Ok(_) => Ok(()),
            Err(cause) => Err(ResourceManagerError::DecodeError(Self::decode_text(kind), cause)),
        }
    }

    fn decode_text(kind: ResourceKind) -> (text: String)
        ensures
            text@ == crate::lifecycle::decode_text(kind),
    {
        match kind {
            ResourceKind::Gltf => String::from_str("Error while dealing with a gltf structure."),
            ResourceKind::Ogg => String::from_str("Error while dealing with an ogg stream."),
            ResourceKind::Tga => String::from_str("Error while dealing with a tga image."),
        }
    }

    /// The resources that a level needs: the mesh resource of each of its game
    /// objects that has one, each path once, in the order of the game objects.
    pub fn read_needed_resources(&self, mesh_resources: &Vec<Option<String>>) -> (needed: Vec<
        String,
    >)
        ensures
            paths_of(needed@) == distinct(named(mesh_resources@)),
            paths_of(needed@).no_duplicates(),
    {
        let ghost all = mesh_resources@;
        let mut listed: Vec<String> = Vec::new();
        let mut i: usize = 0;
        proof {
            assert(all.take(0) =~= Seq::empty());
            assert(paths_of(listed@) =~= Seq::empty());
        }
        while i < mesh_resources.len()
            invariant
                all == mesh_resources@,
                i <= mesh_resources.len(),
                paths_of(listed@) == named(all.take(i as int)),
            decreases mesh_resources.len() - i,
        {
            let ghost before = paths_of(listed@);
            proof {
                assert(all.take(i + 1) =~= all.take(i as int).push(all[i as int]));
                lemma_named_push(all.take(i as int), all[i as int]);
            }
            match &mesh_resources[i] {
                Some(path) => {
                    listed.push(path.clone());
                    assert(paths_of(listed@) =~= before.push(path@));
                },
                None => {},
            }
            i = i + 1;
        }
        assert(all.take(i as int) =~= all);
        distinct_paths(&listed)
    }
}

impl IResourceManager for ResourceManager {
    open spec fn state(&self) -> EngineState {
        self@
    }

    open spec fn valid(&self) -> bool {
        self.wf()
    }

    proof fn lemma_valid(&self) {
        self.lemma_wf();
    }

    fn load_resource(&mut self, path: &str, files: &Vec<ResourceFile>) -> (done:
        ResourceManagerResult<()>) {
        match ResourceKind::of_path(path) {
            None => Err(Self::not_loadable(path)),
            Some(kind) => {
                if self.resource_registry.holds(kind, path) {
                    return Ok(());
                }
                match find_file(files, path) {
                    None => Err(
                        ResourceManagerError::FilesystemError(
                            String::from_str("Error while dealing with the filesystem."),
                            String::from_str("No file was opened for this path."),
                        ),
                    ),
                    Some(file) => match &file.content {
                        Err(report) => Err(
                            ResourceManagerError::FilesystemError(
                                String::from_str("Error while dealing with the filesystem."),
                                report.clone(),
                            ),
                        ),
                        Ok(content) => self.decode_into(kind, path, content),
                    },
                }
            },
        }
    }

    fn unload_resource(&mut self, path: &str) -> (done: ResourceManagerResult<()>) {
        match ResourceKind::of_path(path) {
            None => Err(Self::not_unloadable(path)),
            Some(kind) => {
                proof {
                    self@.loaded.lemma_without_sorted(kind, path@);
                }
                self.resource_registry.remove(kind, path);
                Ok(())
            },
        }
    }

    fn increment_refcount_resource(&mut self, path: &str) -> (fresh: ResourceManagerResult<
        Option<String>,
    >) {
        if !self.refcount_registry.has_refcount(path) {
            match self.refcount_registry.add_refcount(path) {
                Ok(_) => Ok(Some(String::from_str(path))),
                Err(e) => Err(e),
            }
        } else {
            match self.refcount_registry.increment_refcount_of(path) {
                Ok(_) => Ok(None),
                Err(e) => Err(e),
            }
        }
    }

    fn decrement_refcount_resource(&mut self, path: &str) -> (done: ResourceManagerResult<()>) {
        self.refcount_registry.decrement_refcount_of(path)
    }

    fn forget_resource(&mut self, path: &str) {
        let _ = self.refcount_registry.remove_refcount(path);
    }

    fn refcounts(&self) -> (entries: Vec<(String, u8)>) {
        self.refcount_registry.iter()
    }
}

} // verus!
