use vstd::prelude::*;
use crate::formats::{gltf_decoded, tga_decoded, OggStream};
use crate::resource_file::{opened, FileContent, ResourceFile};
use crate::resource_kind::{extension_of, kind_of_path, ResourceKind};
use crate::resource_manager_errors::{framed, DecodeCause, ResourceManagerError};
use crate::resources::refcount_registry::RefCounts;
use crate::resources::resources_registry::Loaded;

verus! {

/// Why an operation of the engine stopped, as plain values.
pub enum Fault {
    /// The path names no kind that can be loaded.
    NotLoadable(Seq<char>),
    /// The path names no kind that can be unloaded.
    NotUnloadable(Seq<char>),
    /// The filesystem had no data for a path; the field is its report.
    Unreadable(Seq<char>),
    /// The content gave no payload of the kind.
    Rejected(ResourceKind, FileContent),
    /// The count of an untracked path was asked to go down.
    Untracked(Seq<char>),
    /// A count of zero was asked to go down.
    Underflow(Seq<char>),
    /// A count as high as the table can hold was asked to go up.
    Overflow(Seq<char>),
}

impl Fault {
    /// Whether the fault is one that loading a resource runs into.
    pub open spec fn is_of_loading(self) -> bool {
        self is NotLoadable || self is Unreadable || self is Rejected
    }
}

/// What an engine holds: the table of reference counts, the store of loaded
/// resources, and the capacities, in bytes, of the two allocators it was made
/// for: one for data that is dropped, one for data that is copied.
pub struct EngineState {
    pub refcounts: RefCounts,
    pub loaded: Loaded,
    pub allocator_capacity: usize,
    pub allocator_capacity_copy: usize,
}

/// What the engine makes of `content` as a glTF file.
pub open spec fn gltf_of(content: FileContent) -> Result<gltf::Gltf, DecodeCause> {
    match content {
        FileContent::Bytes(bytes) => gltf_decoded(bytes@),
        _ => Err(DecodeCause::WrongContent),
    }
}

/// What the engine makes of `content` as a TGA file.
pub open spec fn tga_of(content: FileContent) -> Result<imagefmt::Image<u8>, DecodeCause> {
    match content {
        FileContent::Bytes(bytes) => tga_decoded(bytes@),
        _ => Err(DecodeCause::WrongContent),
    }
}

/// What the engine makes of `content` as an Ogg Vorbis file, which comes with
/// what the decoder made of it.
pub open spec fn ogg_of(content: FileContent) -> Result<OggStream, DecodeCause> {
    match content {
        FileContent::Stream(stream) => Ok(*stream),
        FileContent::Rejected(report) => Err(DecodeCause::Ogg(report)),
        FileContent::Aborted => Err(DecodeCause::OggAborted),
        FileContent::Bytes(_) => Err(DecodeCause::WrongContent),
    }
}

/// Whether `content` gives a payload of `kind`.
pub open spec fn accepts(kind: ResourceKind, content: FileContent) -> bool {
    match kind {
        ResourceKind::Gltf => gltf_of(content) is Ok,
        ResourceKind::Ogg => ogg_of(content) is Ok,
        ResourceKind::Tga => tga_of(content) is Ok,
    }
}

/// Why `content` gives no payload of `kind`, where it gives none.
pub open spec fn rejection(kind: ResourceKind, content: FileContent) -> DecodeCause {
    match kind {
        ResourceKind::Gltf => gltf_of(content)->Err_0,
        ResourceKind::Ogg => ogg_of(content)->Err_0,
        ResourceKind::Tga => tga_of(content)->Err_0,
    }
}

/// The description of a decode error for `kind`.
pub open spec fn decode_text(kind: ResourceKind) -> Seq<char> {
    match kind {
        ResourceKind::Gltf => "Error while dealing with a gltf structure."@,
        ResourceKind::Ogg => "Error while dealing with an ogg stream."@,
        ResourceKind::Tga => "Error while dealing with a tga image."@,
    }
}

/// The description of the error for a path that cannot be loaded.
pub open spec fn not_loadable_text(path: Seq<char>) -> Seq<char> {
    if extension_of(path) is None {
        framed("The path ", path, " is not valid !")
    } else {
        framed("The data at path ", path, " cannot be loaded by the engine !")
    }
}

/// The description of the error for a path that cannot be unloaded.
pub open spec fn not_unloadable_text(path: Seq<char>) -> Seq<char> {
    if extension_of(path) is None {
        framed("The path ", path, " is not valid !")
    } else {
        framed("The data at path ", path, " cannot be unloaded by the engine !")
    }
}

/// Whether `error` is the error that the engine gives for `fault`.
pub open spec fn reports(error: ResourceManagerError, fault: Fault) -> bool {
    match fault {
        Fault::NotLoadable(path) => error is UnsupportedKind && error.text() == not_loadable_text(
            path,
        ),
        Fault::NotUnloadable(path) => error is UnsupportedKind && error.text()
            == not_unloadable_text(path),
        Fault::Unreadable(report) => error matches ResourceManagerError::FilesystemError(
            text,
            cause,
        ) && text@ == "Error while dealing with the filesystem."@ && cause@ == report,
        Fault::Rejected(kind, content) => error matches ResourceManagerError::DecodeError(
            text,
            cause,
        ) && text@ == decode_text(kind) && cause == rejection(kind, content),
        Fault::Untracked(path) => error is NotFoundError && error.text() == framed(
            "Could not get the refcount of the resource at path ",
            path,
            " in the refcount registry and decrement it !",
        ),
        Fault::Underflow(path) => error is UnderflowError && error.text() == framed(
            "Could not decrement the refcount of the resource at path ",
            path,
            " in the refcount registry: it is zero already !",
        ),
        Fault::Overflow(path) => error is OverflowError && error.text() == framed(
            "Could not increment the refcount of the resource at path ",
            path,
            " in the refcount registry: it cannot go higher !",
        ),
    }
}

/// Whether `done` is the result that the engine gives where an operation ran
/// into `fault`, or into none.
pub open spec fn tells(done: Result<(), ResourceManagerError>, fault: Option<Fault>) -> bool {
    match done {
        Ok(_) => fault is None,
        Err(error) => fault is Some && reports(error, fault->0),
    }
}

impl Loaded {
    /// The store after the partition of `kind` took, under `path`, the payload
    /// that `content` gives.
    pub open spec fn with_decoded(self, kind: ResourceKind, path: Seq<char>, content: FileContent) -> Loaded {
        match kind {
            ResourceKind::Gltf => Loaded {
                gltf: self.gltf.insert(path, gltf_of(content)->Ok_0),
                ..self
            },
            ResourceKind::Ogg => Loaded { ogg: self.ogg.insert(path, ogg_of(content)->Ok_0), ..self },
            ResourceKind::Tga => Loaded { tga: self.tga.insert(path, tga_of(content)->Ok_0), ..self },
        }
    }

    /// Why loading `path` from `files` stops, if it does. A path whose kind is
    /// loaded already needs no file.
    pub open spec fn load_fault(self, path: Seq<char>, files: Seq<ResourceFile>) -> Option<Fault> {
        match kind_of_path(path) {
            None => Some(Fault::NotLoadable(path)),
            Some(kind) => if self.holds(kind, path) {
                None
            } else {
                match opened(files, path) {
                    None => Some(Fault::Unreadable("No file was opened for this path."@)),
                    Some(Err(report)) => Some(Fault::Unreadable(report)),
                    Some(Ok(content)) => if accepts(kind, content) {
                        None
                    } else {
                        Some(Fault::Rejected(kind, content))
                    },
                }
            },
        }
    }

    /// The store after `path` was loaded from `files`: it changes only where the
    /// path was not loaded yet and its content gave a payload.
    pub open spec fn after_load(self, path: Seq<char>, files: Seq<ResourceFile>) -> Loaded {
        match (kind_of_path(path), opened(files, path)) {
            (Some(kind), Some(Ok(content))) => if !self.holds(kind, path) && accepts(kind, content) {
                self.with_decoded(kind, path, content)
            } else {
                self
            },
            _ => self,
        }
    }

    /// Decoding a payload into the partition of the kind that its path names
    /// keeps the store sorted.
    pub proof fn lemma_with_decoded_sorted(
        self,
        kind: ResourceKind,
        path: Seq<char>,
        content: FileContent,
    )
        requires
            self.sorted(),
            kind_of_path(path) == Some(kind),
        ensures
            self.with_decoded(kind, path, content).sorted(),
    {
        let after = self.with_decoded(kind, path, content);
        assert forall|k: ResourceKind, p: Seq<char>| #[trigger] after.holds(k, p) implies kind_of_path(
            p,
        ) == Some(k) by {
            if !(k == kind && p == path) {
                assert(self.holds(k, p));
            }
        }
    }

    /// Dropping a payload keeps the store sorted.
    pub proof fn lemma_without_sorted(self, kind: ResourceKind, path: Seq<char>)
        requires
            self.sorted(),
        ensures
            self.without(kind, path).sorted(),
    {
        let after = self.without(kind, path);
        assert forall|k: ResourceKind, p: Seq<char>| #[trigger] after.holds(k, p) implies kind_of_path(
            p,
        ) == Some(k) by {
            assert(self.holds(k, p));
        }
    }

    /// Why unloading `path` stops, if it does.
    pub open spec fn unload_fault(path: Seq<char>) -> Option<Fault> {
        match kind_of_path(path) {
            None => Some(Fault::NotUnloadable(path)),
            Some(_) => None,
        }
    }

    /// The store after `path` was unloaded.
    pub open spec fn after_unload(self, path: Seq<char>) -> Loaded {
        match kind_of_path(path) {
            None => self,
            Some(kind) => self.without(kind, path),
        }
    }
}

/// `paths` without repetitions: each path stays where it first stood.
pub open spec fn distinct(paths: Seq<Seq<char>>) -> Seq<Seq<char>>
    decreases paths.len(),
{
    if paths.len() == 0 {
        paths
    } else {
        let before = distinct(paths.drop_last());
        if before.contains(paths.last()) {
            before
        } else {
            before.push(paths.last())
        }
    }
}

/// The paths that `mesh_resources` name, in their order: one for each game
/// object that has a mesh resource.
pub open spec fn named(mesh_resources: Seq<Option<String>>) -> Seq<Seq<char>>
    decreases mesh_resources.len(),
{
    if mesh_resources.len() == 0 {
        Seq::empty()
    } else {
        let before = named(mesh_resources.drop_last());
        match mesh_resources.last() {
            Some(path) => before.push(path@),
            None => before,
        }
    }
}

/// What one more game object adds to the named paths.
pub proof fn lemma_named_push(mesh_resources: Seq<Option<String>>, last: Option<String>)
    ensures
        named(mesh_resources.push(last)) == match last {
            Some(path) => named(mesh_resources).push(path@),
            None => named(mesh_resources),
        },
{
    assert(mesh_resources.push(last).drop_last() =~= mesh_resources);
}

/// The paths of `order` that are not among `wanted`, in their order.
pub open spec fn outgoing(order: Seq<Seq<char>>, wanted: Seq<Seq<char>>) -> Seq<Seq<char>> {
    order.filter(|path: Seq<char>| !wanted.contains(path))
}

/// What one more path at the end of `order` adds to the outgoing paths.
pub proof fn lemma_outgoing_push(order: Seq<Seq<char>>, path: Seq<char>, wanted: Seq<Seq<char>>)
    ensures
        outgoing(order.push(path), wanted) == if wanted.contains(path) {
            outgoing(order, wanted)
        } else {
            outgoing(order, wanted).push(path)
        },
{
    order.lemma_filter_push(path, |path: Seq<char>| !wanted.contains(path));
}

impl RefCounts {
    /// What one more path at the end of the candidates adds to the pending paths.
    pub proof fn lemma_pending_push(self, fresh: Seq<Seq<char>>, path: Seq<char>)
        ensures
            self.pending(fresh.push(path)) == if self.has_count(path, 1) {
                self.pending(fresh).push(path)
            } else {
                self.pending(fresh)
            },
    {
        fresh.lemma_filter_push(path, |path: Seq<char>| self.has_count(path, 1));
    }

    /// What one more path at the end of the candidates adds to the unused paths.
    pub proof fn lemma_unused_push(self, order: Seq<Seq<char>>, path: Seq<char>)
        ensures
            self.unused_among(order.push(path)) == if self.has_count(path, 0) {
                self.unused_among(order).push(path)
            } else {
                self.unused_among(order)
            },
    {
        order.lemma_filter_push(path, |path: Seq<char>| self.has_count(path, 0));
    }

    /// What one more path at the end of the candidates adds to the fresh paths.
    pub proof fn lemma_fresh_push(self, paths: Seq<Seq<char>>, path: Seq<char>)
        ensures
            self.fresh(paths.push(path)) == if self.contains(path) {
                self.fresh(paths)
            } else {
                self.fresh(paths).push(path)
            },
    {
        paths.lemma_filter_push(path, |path: Seq<char>| !self.contains(path));
    }

    /// Whether `path` is tracked with exactly `count` consumers.
    pub open spec fn has_count(self, path: Seq<char>, count: u8) -> bool {
        self.counts.contains_key(path) && self.counts[path] == count
    }

    /// The paths of `order` that are tracked and that no consumer holds, in
    /// their order.
    pub open spec fn unused_among(self, order: Seq<Seq<char>>) -> Seq<Seq<char>> {
        order.filter(|path: Seq<char>| self.has_count(path, 0))
    }

    /// The tracked paths that no consumer holds, in the table's order.
    pub open spec fn unused(self) -> Seq<Seq<char>> {
        self.unused_among(self.order)
    }

    /// The paths of `fresh` that are tracked with exactly one consumer, in their
    /// order.
    pub open spec fn pending(self, fresh: Seq<Seq<char>>) -> Seq<Seq<char>> {
        fresh.filter(|path: Seq<char>| self.has_count(path, 1))
    }

    /// Why counting one more consumer for `path` stops, if it does: its count is
    /// as high as the table can hold.
    pub open spec fn require_fault(self, path: Seq<char>) -> Option<Fault> {
        if self.contains(path) && self.counts[path] == u8::MAX {
            Some(Fault::Overflow(path))
        } else {
            None
        }
    }

    /// The table after one more consumer required `path`: a tracked path gains a
    /// consumer, an untracked one is tracked with one. A count that cannot go
    /// higher leaves the table as it was.
    pub open spec fn required(self, path: Seq<char>) -> RefCounts {
        if self.require_fault(path) is Some {
            self
        } else if self.contains(path) {
            self.counted(path, (self.counts[path] + 1) as u8)
        } else {
            self.added(path)
        }
    }

    /// The table after each of `paths` was required once, one after the other
    /// and up to the first that stops, and why that one stopped.
    pub open spec fn after_requires(self, paths: Seq<Seq<char>>) -> (RefCounts, Option<Fault>)
        decreases paths.len(),
    {
        if paths.len() == 0 {
            (self, None)
        } else if self.require_fault(paths[0]) is Some {
            (self, self.require_fault(paths[0]))
        } else {
            self.required(paths[0]).after_requires(paths.drop_first())
        }
    }

    /// The paths of `paths` that are not tracked, in their order.
    pub open spec fn fresh(self, paths: Seq<Seq<char>>) -> Seq<Seq<char>> {
        paths.filter(|path: Seq<char>| !self.contains(path))
    }

    /// Why lowering the count of `path` stops, if it does.
    pub open spec fn decrement_fault(self, path: Seq<char>) -> Option<Fault> {
        if !self.contains(path) {
            Some(Fault::Untracked(path))
        } else if self.counts[path] == 0 {
            Some(Fault::Underflow(path))
        } else {
            None
        }
    }

    /// The table after the count of `path` was asked to go down by one.
    pub open spec fn after_decrement(self, path: Seq<char>) -> RefCounts {
        if self.decrement_fault(path) is None {
            self.counted(path, (self.counts[path] - 1) as u8)
        } else {
            self
        }
    }

    /// The table after the counts of `paths` were asked to go down, one after the
    /// other and up to the first that stops, and why that one stopped.
    pub open spec fn after_decrements(self, paths: Seq<Seq<char>>) -> (RefCounts, Option<Fault>)
        decreases paths.len(),
    {
        if paths.len() == 0 {
            (self, None)
        } else if self.decrement_fault(paths[0]) is Some {
            (self, self.decrement_fault(paths[0]))
        } else {
            self.after_decrement(paths[0]).after_decrements(paths.drop_first())
        }
    }
}

impl Loaded {
    /// The store after `paths` were loaded from `files`, one after the other and
    /// up to the first that stops, and why that one stopped.
    pub open spec fn after_loads(self, paths: Seq<Seq<char>>, files: Seq<ResourceFile>) -> (
        Loaded,
        Option<Fault>,
    )
        decreases paths.len(),
    {
        if paths.len() == 0 {
            (self, None)
        } else if self.load_fault(paths[0], files) is Some {
            (self, self.load_fault(paths[0], files))
        } else {
            self.after_load(paths[0], files).after_loads(paths.drop_first(), files)
        }
    }

    /// The store after `paths` were unloaded, one after the other and up to the
    /// first that stops, and why that one stopped.
    pub open spec fn after_unloads(self, paths: Seq<Seq<char>>) -> (Loaded, Option<Fault>)
        decreases paths.len(),
    {
        if paths.len() == 0 {
            (self, None)
        } else if Loaded::unload_fault(paths[0]) is Some {
            (self, Loaded::unload_fault(paths[0]))
        } else {
            self.after_unload(paths[0]).after_unloads(paths.drop_first())
        }
    }
}

/// Whether `entries` list the paths of `table` in its order, each with its count.
pub open spec fn lists(entries: Seq<(String, u8)>, table: RefCounts) -> bool {
    &&& entries.len() == table.order.len()
    &&& forall|i: int|
        0 <= i < entries.len() ==> (#[trigger] entries[i]).0@ == table.order[i] && entries[i].1
            == table.counts[table.order[i]]
}

impl EngineState {
    /// The state of an engine that was just made for allocators of the given
    /// capacities: it tracks nothing and holds nothing.
    pub open spec fn fresh(allocator_capacity: usize, allocator_capacity_copy: usize) -> EngineState {
        EngineState {
            refcounts: RefCounts::empty(),
            loaded: Loaded::empty(),
            allocator_capacity,
            allocator_capacity_copy,
        }
    }

    /// The state with `refcounts` in place of its table.
    pub open spec fn with_refcounts(self, refcounts: RefCounts) -> EngineState {
        EngineState { refcounts, ..self }
    }

    /// The state with `loaded` in place of its store.
    pub open spec fn with_loaded(self, loaded: Loaded) -> EngineState {
        EngineState { loaded, ..self }
    }

    /// The store holds a payload for exactly the paths that the table tracks.
    pub open spec fn consistent(self) -> bool {
        forall|path: Seq<char>| #[trigger]
            self.loaded.contains(path) <==> self.refcounts.contains(path)
    }

    /// What a change to a level that requires `required` needs of the state to
    /// end with a consistent one: every loaded path is tracked or required, and
    /// every tracked path that the change keeps is loaded, which are the
    /// required ones and those with two consumers or more.
    pub open spec fn carries_over(self, required: Seq<Seq<char>>) -> bool {
        forall|path: Seq<char>|
            (#[trigger] self.loaded.contains(path) ==> self.refcounts.contains(path)
                || required.contains(path)) && (self.refcounts.contains(path) && (
            required.contains(path) || self.refcounts.counts[path] >= 2)
                ==> self.loaded.contains(path))
    }

    /// The state after `path` was released: unloaded, and no longer tracked.
    pub open spec fn after_release(self, path: Seq<char>) -> EngineState {
        if Loaded::unload_fault(path) is Some {
            self
        } else {
            EngineState {
                refcounts: self.refcounts.removed(path),
                loaded: self.loaded.after_unload(path),
                ..self
            }
        }
    }

    /// The state after `paths` were released, one after the other and up to the
    /// first that stops, and why that one stopped.
    pub open spec fn after_releases(self, paths: Seq<Seq<char>>) -> (EngineState, Option<Fault>)
        decreases paths.len(),
    {
        if paths.len() == 0 {
            (self, None)
        } else if Loaded::unload_fault(paths[0]) is Some {
            (self, Loaded::unload_fault(paths[0]))
        } else {
            self.after_release(paths[0]).after_releases(paths.drop_first())
        }
    }

    /// The state after the level changed to one that requires `required`, with
    /// `files` as what the filesystem gives, and why the change stopped early if
    /// it did.
    ///
    /// Each required path gains a consumer, once. Each path that was tracked and
    /// is not required loses one. Each path left without a consumer is released.
    /// Each path that this change began to track is loaded. Every step stops the
    /// change at its first failure, a count that cannot go higher among them, and
    /// leaves what was done before it.
    pub open spec fn after_level(self, required: Seq<Seq<char>>, files: Seq<ResourceFile>) -> (
        EngineState,
        Option<Fault>,
    ) {
        let wanted = distinct(required);
        let fresh = self.refcounts.fresh(wanted);
        let (raised, overflow) = self.refcounts.after_requires(wanted);
        let (lowered, underflow) = raised.after_decrements(outgoing(raised.order, wanted));
        if overflow is Some {
            (self.with_refcounts(raised), overflow)
        } else if underflow is Some {
            (self.with_refcounts(lowered), underflow)
        } else {
            let (released, refusal) = self.with_refcounts(lowered).after_releases(
                lowered.unused(),
            );
            if refusal is Some {
                (released, refusal)
            } else {
                let (loaded, failure) = released.loaded.after_loads(
                    released.refcounts.pending(fresh),
                    files,
                );
                (released.with_loaded(loaded), failure)
            }
        }
    }
}

} // verus!
