use vstd::prelude::*;
use std::rc::Rc;
use crate::formats::OggStream;
use crate::text::same_text;

verus! {

/// What a file holds, in the form that the engine takes it in.
pub enum FileContent {
    /// The bytes of the file, for the kinds that the engine decodes itself.
    Bytes(Vec<u8>),
    /// For an Ogg Vorbis file: the stream that the decoder opened on its bytes.
    Stream(Rc<OggStream>),
    /// For an Ogg Vorbis file: what the decoder held against its bytes.
    Rejected(Rc<lewton::VorbisError>),
    /// For an Ogg Vorbis file: the decoder gave up on its bytes without a report.
    Aborted,
}

/// What the filesystem gave for one path: the content of the file, or its
/// report of why there is none.
pub struct ResourceFile {
    pub path: String,
    pub content: Result<FileContent, String>,
}

/// The content of a file, with the filesystem's report as plain text.
pub open spec fn content_of(file: ResourceFile) -> Result<FileContent, Seq<char>> {
    match file.content {
        Ok(content) => Ok(content),
        Err(report) => Err(report@),
    }
}

/// Whether `files[i]` is the first file for `path`.
pub open spec fn is_first_for(files: Seq<ResourceFile>, path: Seq<char>, i: int) -> bool {
    &&& 0 <= i < files.len()
    &&& files[i].path@ == path
    &&& forall|j: int| 0 <= j < i ==> (#[trigger] files[j]).path@ != path
}

/// The position of the first file for `path`, if there is one.
pub open spec fn position_of(files: Seq<ResourceFile>, path: Seq<char>) -> Option<int> {
    if exists|i: int| is_first_for(files, path, i) {
        Some(choose|i: int| is_first_for(files, path, i))
    } else {
        None
    }
}

/// What opening `path` gives among `files`: the content of the first file for
/// that path, or `None` where no file is for it.
pub open spec fn opened(files: Seq<ResourceFile>, path: Seq<char>) -> Option<
    Result<FileContent, Seq<char>>,
> {
    match position_of(files, path) {
        Some(i) => Some(content_of(files[i])),
        None => None,
    }
}

/// Finds the first file for `path`.
pub fn find_file<'a>(files: &'a Vec<ResourceFile>, path: &str) -> (found: Option<&'a ResourceFile>)
    ensures
        match found {
            Some(file) => position_of(files@, path@) is Some && *file == files@[position_of(
                files@,
                path@,
            )->0],
            None => position_of(files@, path@) is None,
        },
{
    let mut i: usize = 0;
    while i < files.len()
        invariant
            i <= files.len(),
            forall|j: int| 0 <= j < i ==> (#[trigger] files@[j]).path@ != path@,
        decreases files.len() - i,
    {
        if same_text(files[i].path.as_str(), path) {
            assert(is_first_for(files@, path@, i as int));
            let ghost k = choose|k: int| is_first_for(files@, path@, k);
            assert(k == i);
            return Some(&files[i]);
        }
        i = i + 1;
    }
    assert forall|k: int| !is_first_for(files@, path@, k) by {
        if 0 <= k < files.len() {
            assert(files@[k].path@ != path@);
        }
    }
    None
}

} // verus!
