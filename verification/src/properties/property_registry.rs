use vstd::prelude::*;
use crate::properties::mesh_registry::MeshRegistry;
use crate::properties::transform_registry::TransformRegistry;
use crate::resource_manager_errors::{frame, framed, ResourceManagerError, ResourceManagerResult};

verus! {

/// The properties of the game objects: for each game object its transform and
/// its mesh, where it has them.
#[derive(Debug)]
pub struct PropertyRegistry<T, M> {
    transform_registry: TransformRegistry<T>,
    mesh_registry: MeshRegistry<M>,
}

impl<T, M> PropertyRegistry<T, M> {
    /// The transform of each game object that has one.
    pub closed spec fn transforms(&self) -> Map<Seq<char>, T> {
        self.transform_registry@
    }

    /// The mesh of each game object that has one.
    pub closed spec fn meshes(&self) -> Map<Seq<char>, M> {
        self.mesh_registry@
    }

    /// Both registries are well formed.
    pub closed spec fn wf(&self) -> bool {
        self.transform_registry.wf() && self.mesh_registry.wf()
    }

    /// A registry with nothing in it.
    pub fn new() -> (registry: Self)
        ensures
            registry.wf(),
            registry.transforms() == Map::<Seq<char>, T>::empty(),
            registry.meshes() == Map::<Seq<char>, M>::empty(),
    {
        PropertyRegistry {
            transform_registry: TransformRegistry::new(),
            mesh_registry: MeshRegistry::new(),
        }
    }

    /// The mesh of the game object `gameobject_id`; a game object without mesh
    /// is reported as not found.
    pub fn get_mesh_of(&self, gameobject_id: &str) -> (found: ResourceManagerResult<&M>)
        requires
            self.wf(),
        ensures
            match found {
                Ok(mesh) => self.meshes().contains_key(gameobject_id@) && *mesh
                    == self.meshes()[gameobject_id@],
                Err(e) => !self.meshes().contains_key(gameobject_id@) && e is NotFoundError
                    && e.text() == framed(
                    "Could not find the mesh linked to the gameobject ",
                    gameobject_id@,
                    " in the mesh registry !",
                ),
            },
    {
        match self.mesh_registry.get(gameobject_id) {
            Some(mesh) => Ok(mesh),
            None => Err(
                ResourceManagerError::NotFoundError(
                    frame(
                        "Could not find the mesh linked to the gameobject ",
                        gameobject_id,
                        " in the mesh registry !",
                    ),
                ),
            ),
        }
    }

    /// The transform of the game object `gameobject_id`; a game object without
    /// transform is reported as not found.
    pub fn get_transform_of(&self, gameobject_id: &str) -> (found: ResourceManagerResult<&T>)
        requires
            self.wf(),
        ensures
            match found {
                Ok(transform) => self.transforms().contains_key(gameobject_id@) && *transform
                    == self.transforms()[gameobject_id@],
                Err(e) => !self.transforms().contains_key(gameobject_id@) && e is NotFoundError
                    && e.text() == framed(
                    "Could not find the transform linked to the gameobject ",
                    gameobject_id@,
                    " in the transform registry !",
                ),
            },
    {
        match self.transform_registry.get(gameobject_id) {
            Some(transform) => Ok(transform),
            None => Err(
                ResourceManagerError::NotFoundError(
                    frame(
                        "Could not find the transform linked to the gameobject ",
                        gameobject_id,
                        " in the transform registry !",
                    ),
                ),
            ),
        }
    }

    /// Gives the game object `gameobject_id` the mesh `mesh` and hands back the
    /// mesh it had before, if any.
    pub fn add_mesh(&mut self, gameobject_id: &str, mesh: M) -> (replaced: Option<M>)
        requires
            old(self).wf(),
        ensures
            final(self).wf(),
            final(self).meshes() == old(self).meshes().insert(gameobject_id@, mesh),
            final(self).transforms() == old(self).transforms(),
            replaced == old(self).meshes().get(gameobject_id@),
    {
        self.mesh_registry.insert(gameobject_id, mesh)
    }

    /// Gives the game object `gameobject_id` the transform `transform` and hands
    /// back the transform it had before, if any.
    pub fn add_transform(&mut self, gameobject_id: &str, transform: T) -> (replaced: Option<T>)
        requires
            old(self).wf(),
        ensures
            final(self).wf(),
            final(self).transforms() == old(self).transforms().insert(gameobject_id@, transform),
            final(self).meshes() == old(self).meshes(),
            replaced == old(self).transforms().get(gameobject_id@),
    {
        self.transform_registry.insert(gameobject_id, transform)
    }

    /// Takes the mesh of the game object `gameobject_id` away and hands it back;
    /// `None` where it had none.
    pub fn remove_mesh(&mut self, gameobject_id: &str) -> (removed: Option<M>)
        requires
            old(self).wf(),
        ensures
            final(self).wf(),
            final(self).meshes() == old(self).meshes().remove(gameobject_id@),
            final(self).transforms() == old(self).transforms(),
            removed == old(self).meshes().get(gameobject_id@),
    {
        self.mesh_registry.remove(gameobject_id)
    }

    /// Takes the transform of the game object `gameobject_id` away and hands it
    /// back; `None` where it had none.
    pub fn remove_transfrom(&mut self, gameobject_id: &str) -> (removed: Option<T>)
        requires
            old(self).wf(),
        ensures
            final(self).wf(),
            final(self).transforms() == old(self).transforms().remove(gameobject_id@),
            final(self).meshes() == old(self).meshes(),
            removed == old(self).transforms().get(gameobject_id@),
    {
        self.transform_registry.remove(gameobject_id)
    }

    /// Whether the game object `gameobject_id` has a mesh.
    pub fn has_mesh(&self, gameobject_id: &str) -> (present: bool)
        requires
            self.wf(),
        ensures
            present == self.meshes().contains_key(gameobject_id@),
    {
        self.mesh_registry.get(gameobject_id).is_some()
    }

    /// Whether the game object `gameobject_id` has a transform.
    pub fn has_transform(&self, gameobject_id: &str) -> (present: bool)
        requires
            self.wf(),
        ensures
            present == self.transforms().contains_key(gameobject_id@),
    {
        self.transform_registry.get(gameobject_id).is_some()
    }

    /// Whether no game object has a transform.
    pub fn is_transform_empty(&self) -> (empty: bool)
        requires
            self.wf(),
        ensures
            empty == self.transforms().is_empty(),
    {
        self.transform_registry.is_empty()
    }

    /// Whether no game object has a mesh.
    pub fn is_mesh_empty(&self) -> (empty: bool)
        requires
            self.wf(),
        ensures
            empty == self.meshes().is_empty(),
    {
        self.mesh_registry.is_empty()
    }
}

impl<T, M> Default for PropertyRegistry<T, M> {
    /// A registry with nothing in it.
    fn default() -> (made: Self)
        ensures
            made.wf(),
            made.transforms() == Map::<Seq<char>, T>::empty(),
            made.meshes() == Map::<Seq<char>, M>::empty(),
    {
        PropertyRegistry::new()
    }
}

} // verus!
