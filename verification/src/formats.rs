use vstd::prelude::*;
use std::rc::Rc;
use crate::resource_manager_errors::DecodeCause;

verus! {

/// `gltf::Gltf`: a glTF document with its optional binary payload.
#[verifier::external_type_specification]
#[verifier::external_body]
pub struct ExGltf(gltf::Gltf);

/// `gltf::Error`: why the `gltf` crate rejected some data.
#[verifier::external_type_specification]
#[verifier::external_body]
pub struct ExGltfError(gltf::Error);

/// `imagefmt::Image`: a decoded raster image.
#[verifier::external_type_specification]
#[verifier::external_body]
#[verifier::reject_recursive_types(T)]
pub struct ExImage<T>(imagefmt::Image<T>);

/// `imagefmt::Error`: why the `imagefmt` crate rejected some data.
#[verifier::external_type_specification]
#[verifier::external_body]
pub struct ExImageError(imagefmt::Error);

/// `lewton::VorbisError`: why the `lewton` crate rejected some data.
#[verifier::external_type_specification]
#[verifier::external_body]
pub struct ExVorbisError(lewton::VorbisError);

/// An Ogg Vorbis stream read from memory, positioned after its three headers.
///
/// The reader is `lewton::inside_ogg::OggStreamReader` over a cursor. Its type
/// is bounded by `std::io::Read` and `std::io::Seek`, so the verifier sees this
/// struct as an opaque value and never looks at the field.
///
/// The engine does not open such a stream itself: reading the headers can
/// stop the program on some data, and only the caller can contain that.
#[verifier::external_body]
pub struct OggStream {
    pub reader: lewton::inside_ogg::OggStreamReader<std::io::Cursor<Vec<u8>>>,
}

/// A FLAC stream read from memory.
///
/// The reader is `claxon::FlacReader` over a cursor. Its type is bounded by
/// `std::io::Read`, so the verifier sees this struct as an opaque value and
/// never looks at the field.
#[verifier::external_body]
pub struct FlacStream {
    pub reader: claxon::FlacReader<std::io::Cursor<Vec<u8>>>,
}

/// What `gltf::Gltf::from_slice_without_validation` makes of `bytes`: the
/// document as it was read, or what it holds against them.
pub uninterp spec fn gltf_from_slice_without_validation(bytes: Seq<u8>) -> Result<
    gltf::Gltf,
    gltf::Error,
>;

/// How many accessors the JSON of `document` lists.
pub uninterp spec fn gltf_accessor_count(document: gltf::Gltf) -> usize;

/// For each primitive of each mesh of `document`, in their order, the index of
/// the accessor that its attribute `POSITION` names, if it has that attribute.
pub uninterp spec fn gltf_position_accessors(document: gltf::Gltf) -> Seq<Option<usize>>;

/// What `gltf::Document::from_json` makes of the JSON of `document`: the same
/// document with its payload where it is valid, or the list of what is not.
pub uninterp spec fn gltf_validated(document: gltf::Gltf) -> Result<gltf::Gltf, gltf::Error>;

/// What `imagefmt::tga::read` makes of `bytes` when asked for the image's own
/// colour format: the image, or what it holds against them.
pub uninterp spec fn tga_read(bytes: Seq<u8>) -> Result<imagefmt::Image<u8>, imagefmt::Error>;

/// The length that a binary glTF header declares for the whole container: the
/// little-endian 32-bit number at offset 8.
pub open spec fn glb_declared_length(bytes: Seq<u8>) -> int
    recommends
        bytes.len() >= 12,
{
    bytes[8] + 256 * bytes[9] + 65536 * bytes[10] + 16777216 * bytes[11]
}

/// Whether `bytes` start with the magic of a binary glTF container.
pub open spec fn has_glb_magic(bytes: Seq<u8>) -> bool {
    &&& bytes.len() >= 4
    &&& bytes[0] == 0x67
    &&& bytes[1] == 0x6c
    &&& bytes[2] == 0x54
    &&& bytes[3] == 0x46
}

/// Whether `bytes` hold a complete binary glTF header that declares a
/// container shorter than the twelve bytes of the header itself.
pub open spec fn glb_length_below_header(bytes: Seq<u8>) -> bool {
    &&& bytes.len() >= 12
    &&& has_glb_magic(bytes)
    &&& glb_declared_length(bytes) < 12
}

/// Every `POSITION` of `document` names an accessor that the document holds.
pub open spec fn gltf_positions_in_range(document: gltf::Gltf) -> bool {
    all_below(gltf_position_accessors(document), gltf_accessor_count(document))
}

/// Calls `gltf::Gltf::from_slice_without_validation`, which parses JSON or
/// binary glTF and checks nothing else.
///
/// The result is a function of the bytes alone. The binary path subtracts the
/// header's size from the declared length before it checks anything, so a
/// declared length below twelve is kept out.
#[verifier::external_body]
pub(crate) fn parse_gltf(bytes: &[u8]) -> (parsed: Result<gltf::Gltf, gltf::Error>)
    requires
        !glb_length_below_header(bytes@),
    ensures
        parsed == gltf_from_slice_without_validation(bytes@),
{
    gltf::Gltf::from_slice_without_validation(bytes)
}

/// Reads, through `gltf::Document::as_json`, the length of the document's list
/// of accessors.
#[verifier::external_body]
pub(crate) fn accessor_count(document: &gltf::Gltf) -> (count: usize)
    ensures
        count == gltf_accessor_count(*document),
{
    document.document.as_json().accessors.len()
}

/// Looks up, through `gltf::Document::as_json`, the attribute `POSITION` of
/// every primitive of every mesh, in the document's order, and hands out the
/// accessor index that each names as `gltf::json::Index::value` gives it.
#[verifier::external_body]
pub(crate) fn position_accessors(document: &gltf::Gltf) -> (indices: Vec<Option<usize>>)
    ensures
        indices@ == gltf_position_accessors(*document),
{
    let key = gltf::json::validation::Checked::Valid(gltf::json::mesh::Semantic::Positions);
    document.document.as_json().meshes.iter().flat_map(|mesh| mesh.primitives.iter()).map(
        |primitive| primitive.attributes.get(&key).map(|index| index.value()),
    ).collect()
}

/// Calls `gltf::Document::from_json` on the JSON of `document`, which validates
/// it, and puts the binary payload back beside the validated document.
///
/// The validation of a primitive indexes the list of accessors with what its
/// `POSITION` names, unchecked; such an index out of range is kept out. Nothing
/// else in the validation indexes or unwraps.
#[verifier::external_body]
pub(crate) fn validate_gltf(document: gltf::Gltf) -> (validated: Result<gltf::Gltf, gltf::Error>)
    requires
        gltf_positions_in_range(document),
    ensures
        validated == gltf_validated(document),
{
    let blob = document.blob;
    match gltf::Document::from_json(document.document.into_json()) {
        Ok(document) => Ok(gltf::Gltf { document, blob }),
        Err(error) => Err(error),
    }
}

/// Calls `imagefmt::tga::read` on a cursor over `bytes` with `ColFmt::Auto`,
/// which keeps the colour format that the file declares.
///
/// The result is a function of the bytes alone, as long as the machine has the
/// memory for the image that the header declares.
#[verifier::external_body]
pub(crate) fn read_tga(bytes: &[u8]) -> (decoded: Result<imagefmt::Image<u8>, imagefmt::Error>)
    ensures
        decoded == tga_read(bytes@),
{
    let mut cursor = std::io::Cursor::new(bytes);
    imagefmt::tga::read(&mut cursor, imagefmt::ColFmt::Auto)
}

/// Calls `Rc::clone`, which hands out another handle to the same value.
#[verifier::external_body]
pub(crate) fn share<T>(handle: &Rc<T>) -> (shared: Rc<T>)
    ensures
        shared == *handle,
{
    Rc::clone(handle)
}

/// Whether every index of `indices` is below `count`.
pub open spec fn all_below(indices: Seq<Option<usize>>, count: usize) -> bool {
    forall|i: int|
        0 <= i < indices.len() ==> match #[trigger] indices[i] {
            Some(index) => index < count,
            None => true,
        }
}

/// Whether every index of `indices` is below `count`.
pub fn positions_in_range(indices: &Vec<Option<usize>>, count: usize) -> (inside: bool)
    ensures
        inside == all_below(indices@, count),
{
    let mut i: usize = 0;
    while i < indices.len()
        invariant
            i <= indices.len(),
            all_below(indices@.take(i as int), count),
        decreases indices.len() - i,
    {
        match indices[i] {
            Some(index) => {
                if index >= count {
                    return false;
                }
            },
            None => {},
        }
        assert forall|j: int| 0 <= j < i + 1 implies match #[trigger] indices@.take(i + 1)[j] {
            Some(index) => index < count,
            None => true,
        } by {
            if j < i {
                assert(indices@.take(i as int)[j] == indices@.take(i + 1)[j]);
            }
        }
        i = i + 1;
    }
    assert(indices@.take(i as int) =~= indices@);
    true
}

/// What the engine makes of the bytes of a glTF file: the validated document,
/// or why there is none. The bytes are parsed, every `POSITION` is held
/// against the number of accessors, and the document is validated.
pub open spec fn gltf_decoded(bytes: Seq<u8>) -> Result<gltf::Gltf, DecodeCause> {
    if glb_length_below_header(bytes) {
        Err(DecodeCause::GlbLength)
    } else {
        match gltf_from_slice_without_validation(bytes) {
            Err(report) => Err(DecodeCause::Gltf(report)),
            Ok(document) => if !gltf_positions_in_range(document) {
                Err(DecodeCause::GltfPosition)
            } else {
                match gltf_validated(document) {
                    Ok(valid) => Ok(valid),
                    Err(report) => Err(DecodeCause::Gltf(report)),
                }
            },
        }
    }
}

/// What the engine makes of the bytes of a TGA file: the image, or why there
/// is none.
pub open spec fn tga_decoded(bytes: Seq<u8>) -> Result<imagefmt::Image<u8>, DecodeCause> {
    match tga_read(bytes) {
        Ok(image) => Ok(image),
        Err(report) => Err(DecodeCause::Tga(report)),
    }
}

/// Decodes the bytes of a glTF file.
pub fn decode_gltf(bytes: &[u8]) -> (decoded: Result<gltf::Gltf, DecodeCause>)
    ensures
        decoded == gltf_decoded(bytes@),
{
    if declares_glb_length_below_header(bytes) {
        return Err(DecodeCause::GlbLength);
    }
    match parse_gltf(bytes) {
        Err(report) => Err(DecodeCause::Gltf(report)),
        Ok(document) => {
            let count = accessor_count(&document);
            let indices = position_accessors(&document);
            if !positions_in_range(&indices, count) {
                return Err(DecodeCause::GltfPosition);
            }
            match validate_gltf(document) {
                Ok(valid) => Ok(valid),
                Err(report) => Err(DecodeCause::Gltf(report)),
            }
        },
    }
}

/// Decodes the bytes of a TGA file.
pub fn decode_tga(bytes: &[u8]) -> (decoded: Result<imagefmt::Image<u8>, DecodeCause>)
    ensures
        decoded == tga_decoded(bytes@),
{
    match read_tga(bytes) {
        Ok(image) => Ok(image),
        Err(report) => Err(DecodeCause::Tga(report)),
    }
}

/// Whether `bytes` hold a binary glTF header that declares a length below the
/// header's own.
pub fn declares_glb_length_below_header(bytes: &[u8]) -> (below: bool)
    ensures
        below == glb_length_below_header(bytes@),
{
    bytes.len() >= 12 && bytes[0] == 0x67 && bytes[1] == 0x6c && bytes[2] == 0x54 && bytes[3]
        == 0x46 && bytes[11] == 0 && bytes[10] == 0 && bytes[9] == 0 && bytes[8] < 12
}

} // verus!
