use vstd::prelude::*;
use vstd::string::StrSliceExecFns;
use crate::text::same_text;

verus! {

broadcast use vstd::string::group_string_axioms;

/// The kinds of resource the engine knows how to decode.
#[derive(Clone, Copy, Debug, PartialEq, Eq, Structural)]
pub enum ResourceKind {
    /// A glTF scene, as JSON text or as a binary container.
    Gltf,
    /// An Ogg Vorbis audio stream.
    Ogg,
    /// A Truevision TGA raster image.
    Tga,
}

/// `path` without the separators at its end.
pub open spec fn trimmed(path: Seq<char>) -> Seq<char>
    decreases path.len(),
{
    if path.len() == 0 || path.last() != '/' {
        path
    } else {
        trimmed(path.drop_last())
    }
}

/// Whether the character at index `i` of `path` is the dot that introduces the
/// extension: the last dot of the last `/`-separated component, unless that dot
/// is the component's first character.
pub open spec fn is_extension_dot(path: Seq<char>, i: int) -> bool {
    &&& 0 < i < path.len()
    &&& path[i] == '.'
    &&& path[i - 1] != '/'
    &&& forall|j: int| i < j < path.len() ==> path[j] != '.' && path[j] != '/'
}

/// The extension of a resource path: the text after the extension dot of the
/// path without the separators at its end, when it has one.
pub open spec fn extension_of(path: Seq<char>) -> Option<Seq<char>> {
    let name = trimmed(path);
    if exists|i: int| is_extension_dot(name, i) {
        let i = choose|i: int| is_extension_dot(name, i);
        Some(name.subrange(i + 1, name.len() as int))
    } else {
        None
    }
}

/// The kind that an extension stands for.
pub open spec fn kind_of_extension(extension: Seq<char>) -> Option<ResourceKind> {
    if extension == seq!['g', 'l', 't', 'f'] {
        Some(ResourceKind::Gltf)
    } else if extension == seq!['o', 'g', 'g'] {
        Some(ResourceKind::Ogg)
    } else if extension == seq!['t', 'g', 'a'] {
        Some(ResourceKind::Tga)
    } else {
        None
    }
}

/// The kind of the resource that a path names, decided by its extension alone.
pub open spec fn kind_of_path(path: Seq<char>) -> Option<ResourceKind> {
    match extension_of(path) {
        Some(extension) => kind_of_extension(extension),
        None => None,
    }
}

/// Finds the extension dot of `path`.
pub fn extension_dot(path: &str) -> (dot: Option<usize>)
    ensures
        match dot {
            Some(i) => is_extension_dot(path@, i as int),
            None => forall|i: int| !is_extension_dot(path@, i),
        },
{
    let length: usize = path.unicode_len();
    let mut found: Option<usize> = None;
    let mut at_component_start: bool = true;
    let mut index: usize = 0;
    for c in it: path.chars()
        invariant
            it.seq() == path@,
            length == path@.len(),
            index == it.index(),
            at_component_start == (index == 0 || path@[index - 1] == '/'),
            match found {
                Some(i) => is_extension_dot(path@.take(index as int), i as int),
                None => forall|i: int| !is_extension_dot(path@.take(index as int), i),
            },
    {
        proof {
            let before = path@.take(index as int);
            let after = path@.take(index + 1);
            assert(c == path@[index as int]);
            assert forall|i: int| is_extension_dot(after, i) && i < index implies c != '.' && c
                != '/' && is_extension_dot(before, i) by {
                assert(after[index as int] == c);
                assert forall|j: int| i < j < before.len() implies before[j] != '.' && before[j]
                    != '/' by {
                    assert(after[j] == before[j]);
                }
            }
            assert forall|i: int| is_extension_dot(before, i) && c != '.' && c
                != '/' implies is_extension_dot(after, i) by {
                assert forall|j: int| i < j < after.len() implies after[j] != '.' && after[j]
                    != '/' by {
                    if j < index {
                        assert(after[j] == before[j]);
                    }
                }
            }
            assert(is_extension_dot(after, index as int) <==> c == '.' && !at_component_start);
        }
        if c == '/' {
            found = None;
            at_component_start = true;
        } else if c == '.' {
            found = if at_component_start { None } else { Some(index) };
            at_component_start = false;
        } else {
            at_component_start = false;
        }
        index = index + 1;
    }
    assert(path@.take(index as int) == path@);
    found
}

/// `path` without the separators at its end, borrowed from it.
pub fn trim_separators(path: &str) -> (name: &str)
    ensures
        name@ == trimmed(path@),
{
    let length: usize = path.unicode_len();
    let mut end: usize = 0;
    let mut index: usize = 0;
    assert(path@.take(0) =~= Seq::empty());
    for c in it: path.chars()
        invariant
            it.seq() == path@,
            length == path@.len(),
            index == it.index(),
            end <= index,
            path@.take(end as int) == trimmed(path@.take(index as int)),
    {
        proof {
            assert(c == path@[index as int]);
            assert(path@.take(index + 1).drop_last() =~= path@.take(index as int));
            assert(path@.take(index + 1).last() == c);
        }
        if c != '/' {
            end = index + 1;
        }
        index = index + 1;
    }
    assert(path@.take(index as int) =~= path@);
    assert(path@.subrange(0, end as int) =~= path@.take(end as int));
    path.substring_char(0, end)
}

/// The extension of `path`, borrowed from it.
pub fn extension(path: &str) -> (found: Option<&str>)
    ensures
        match found {
            Some(text) => extension_of(path@) == Some(text@),
            None => extension_of(path@) is None,
        },
{
    let name = trim_separators(path);
    match extension_dot(name) {
        Some(dot) => {
            let length: usize = name.unicode_len();
            Some(name.substring_char(dot + 1, length))
        },
        None => None,
    }
}

impl ResourceKind {
    /// The kind that `extension` stands for: `gltf`, `ogg` or `tga`, in lower case.
    pub fn from_extension(extension: &str) -> (kind: Option<ResourceKind>)
        ensures
            kind == kind_of_extension(extension@),
    {
        proof {
            reveal_strlit("gltf");
            reveal_strlit("ogg");
            reveal_strlit("tga");
            assert("gltf"@ =~= seq!['g', 'l', 't', 'f']);
            assert("ogg"@ =~= seq!['o', 'g', 'g']);
            assert("tga"@ =~= seq!['t', 'g', 'a']);
        }
        if same_text(extension, "gltf") {
            Some(ResourceKind::Gltf)
        } else if same_text(extension, "ogg") {
            Some(ResourceKind::Ogg)
        } else if same_text(extension, "tga") {
            Some(ResourceKind::Tga)
        } else {
            None
        }
    }

    /// The kind of the resource that `path` names, or `None` when its extension
    /// is missing or stands for no kind the engine decodes.
    pub fn of_path(path: &str) -> (kind: Option<ResourceKind>)
        ensures
            kind == kind_of_path(path@),
    {
        match extension(path) {
            Some(text) => ResourceKind::from_extension(text),
            None => None,
        }
    }
}

} // verus!
