use vstd::prelude::*;
use vstd::string::StringExecFns;

verus! {

/// What can go wrong while the properties of game objects are looked up. Each
/// variant carries a description for people to read.
#[derive(Debug)]
pub enum PropertyManagerError {
    /// A transform was not where it was looked for.
    TransformError(String),
    /// A mesh was not where it was looked for.
    MeshError(String),
}

pub type PropertyManagerResult<T> = Result<T, PropertyManagerError>;

impl PropertyManagerError {
    /// The description that the error carries.
    pub open spec fn text(self) -> Seq<char> {
        match self {
            PropertyManagerError::TransformError(text) => text@,
            PropertyManagerError::MeshError(text) => text@,
        }
    }

    /// The fixed name of the error's variant.
    pub open spec fn label(self) -> &'static str {
        match self {
            PropertyManagerError::TransformError(_) => "TransformError",
            PropertyManagerError::MeshError(_) => "MeshError",
        }
    }

    /// What a message about the error starts with.
    pub open spec fn heading(self) -> &'static str {
        match self {
            PropertyManagerError::TransformError(_) => "Transform registry error: ",
            PropertyManagerError::MeshError(_) => "Mesh registry error: ",
        }
    }

    /// A short fixed name for the kind of error.
    pub fn description(&self) -> (name: &'static str)
        ensures
            name@ == self.label()@,
    {
        match self {
            PropertyManagerError::TransformError(_) => "TransformError",
            PropertyManagerError::MeshError(_) => "MeshError",
        }
    }

    /// The message for people to read: the heading of the variant, then the
    /// description that the error carries.
    pub fn message(&self) -> (message: String)
        ensures
            message@ == self.heading()@ + self.text(),
    {
        match self {
            PropertyManagerError::TransformError(text) => String::from_str(
                "Transform registry error: ",
            ).concat(text.as_str()),
            PropertyManagerError::MeshError(text) => String::from_str(
                "Mesh registry error: ",
            ).concat(text.as_str()),
        }
    }
}

} // verus!
