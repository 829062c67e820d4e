//! Decoder for the binary triangle-mesh file format.
//!
//! A file is an 80-byte preamble, a little-endian 32-bit facet count, and
//! that many 50-byte facet records. A record is a 12-byte normal, three
//! vertices of three 4-byte components each, and a 2-byte attribute. This
//! module checks the framing and extracts the vertex components as the
//! 32-bit words found in the file, in file order. Each word is the IEEE-754
//! bit pattern of one single-precision coordinate: the caller of `get_data`
//! says how a word becomes a scalar.

use crate::normalize::{
    bounding_extent, bounds, can_normalize, greatest_of, is_plain_coordinate, least_of,
    lemma_coinciding_vertices_are_degenerate, normalize, rescaled, Scalars,
};
use crate::scalar::{arithmetic_is_specified, arithmetic_is_total, exceeds};
use vstd::std_specs::cmp::PartialEqSpec;
use std::ops::{Add, Div, Mul, Sub};
use vstd::prelude::*;

verus! {

/// Bytes of the ignored preamble at the start of a file.
pub const STL_HEADER_BYTES: usize = 80;

/// Bytes of the little-endian facet count that follows the preamble.
pub const STL_NUMBER_FACETS_BYTES: usize = 4;

/// Bytes of one facet record.
pub const STL_FACET_RECORD_BYTES: usize = 50;

/// Bytes of one vertex component.
pub const STL_F32_BYTES: usize = 4;

/// Bytes of the normal that opens a facet record.
pub const STL_NORMAL_BYTES: usize = 12;

/// Vertices of one facet.
pub const STL_VERTICES_PER_FACET: u32 = 3;

/// Vertex components of one facet.
pub const STL_COMPONENTS_PER_FACET: usize = 9;

/// Why a byte sequence is not a mesh file that can be shown.
#[derive(Clone, Copy, Debug, PartialEq, Eq, Structural)]
pub enum FormatErrorKind {
    /// Fewer bytes than the preamble and the facet count take.
    TruncatedHeader,
    /// The bytes after the facet count are not a whole number of records.
    MisalignedPayload,
    /// The declared facet count is not the number of records present.
    FacetCountMismatch,
    /// Bytes are left over after the last declared facet.
    TrailingData,
    /// A facet record ends before its last byte.
    TruncatedFacet,
    /// All vertices coincide on every axis, so the mesh cannot be scaled.
    DegenerateMesh,
}

/// The error of a failed decode.
#[derive(Clone, Copy, Debug, PartialEq, Eq, Structural)]
pub struct InvalidFileContentError {
    pub kind: FormatErrorKind,
}

impl InvalidFileContentError {
    /// The error of the given kind.
    pub fn new(kind: FormatErrorKind) -> (error: Self)
        ensures
            error.kind == kind,
    {
        Self { kind }
    }

    /// The text shown to the user for each kind of error.
    pub open spec fn message_text(kind: FormatErrorKind) -> Seq<char> {
        match kind {
            FormatErrorKind::TruncatedHeader => "STL: header too short"@,
            FormatErrorKind::MisalignedPayload => "STL: payload is not aligned properly"@,
            FormatErrorKind::FacetCountMismatch => "STL: payload does not match specified length"@,
            FormatErrorKind::TrailingData => "STL: Payload is too large"@,
            FormatErrorKind::TruncatedFacet => "STL: facet is cut short"@,
            FormatErrorKind::DegenerateMesh => "STL: mesh has no extent"@,
        }
    }

    /// A human-readable description of the error.
    pub fn message(&self) -> (text: String)
        ensures
            text@ == Self::message_text(self.kind),
    {
        match self.kind {
            FormatErrorKind::TruncatedHeader => "STL: header too short".to_owned(),
            FormatErrorKind::MisalignedPayload => "STL: payload is not aligned properly".to_owned(),
            FormatErrorKind::FacetCountMismatch => {
                "STL: payload does not match specified length".to_owned()
            },
            FormatErrorKind::TrailingData => "STL: Payload is too large".to_owned(),
            FormatErrorKind::TruncatedFacet => "STL: facet is cut short".to_owned(),
            FormatErrorKind::DegenerateMesh => "STL: mesh has no extent".to_owned(),
        }
    }
}

/// The value of four bytes read as a little-endian 32-bit word.
pub open spec fn le_word(b0: u8, b1: u8, b2: u8, b3: u8) -> int {
    b0 as int + 256 * (b1 as int) + 65536 * (b2 as int) + 16777216 * (b3 as int)
}

/// The little-endian word held by the four bytes of `bytes` from `at` on.
pub open spec fn word_at(bytes: Seq<u8>, at: int) -> u32
    recommends
        0 <= at,
        at + 4 <= bytes.len(),
{
    le_word(bytes[at], bytes[at + 1], bytes[at + 2], bytes[at + 3]) as u32
}

/// The facet count that a file declares.
pub open spec fn declared_facets(bytes: Seq<u8>) -> u32
    recommends
        bytes.len() >= 84,
{
    word_at(bytes, 80)
}

/// The first framing rule that a file breaks, if it breaks one.
pub open spec fn header_error(bytes: Seq<u8>) -> Option<FormatErrorKind> {
    if bytes.len() < 84 {
        Some(FormatErrorKind::TruncatedHeader)
    } else if (bytes.len() - 84) % 50 != 0 {
        Some(FormatErrorKind::MisalignedPayload)
    } else if (bytes.len() - 84) / 50 != declared_facets(bytes) {
        Some(FormatErrorKind::FacetCountMismatch)
    } else {
        None
    }
}

/// What is wrong with a payload of `len` bytes that should hold `facets`
/// records, if anything.
pub open spec fn payload_error(len: nat, facets: nat) -> Option<FormatErrorKind> {
    if len < 50 * facets {
        Some(FormatErrorKind::TruncatedFacet)
    } else if len > 50 * facets {
        Some(FormatErrorKind::TrailingData)
    } else {
        None
    }
}

/// Where in a payload the vertex component with flat index `k` starts:
/// behind `k / 9` whole records and the normal of its own record.
pub open spec fn component_offset(k: int) -> int {
    50 * (k / 9) + 12 + 4 * (k % 9)
}

/// The vertex components of the first `facets` records of a payload, in
/// file order: nine words for each facet.
pub open spec fn vertex_words(payload: Seq<u8>, facets: nat) -> Seq<u32> {
    Seq::new(9 * facets, |k: int| word_at(payload, component_offset(k)))
}

/// The words of the vertex components of a well-framed file, in file
/// order.
pub open spec fn file_words(bytes: Seq<u8>) -> Seq<u32>
    recommends
        header_error(bytes) is None,
{
    vertex_words(bytes.skip(84), declared_facets(bytes) as nat)
}

/// Reads the little-endian 32-bit word that starts at `at`.
pub fn read_le_word(bytes: &[u8], at: usize) -> (word: u32)
    requires
        at + 4 <= bytes@.len(),
    ensures
        word == word_at(bytes@, at as int),
{
    let b0: u32 = bytes[at] as u32;
    let b1: u32 = bytes[at + 1] as u32;
    let b2: u32 = bytes[at + 2] as u32;
    let b3: u32 = bytes[at + 3] as u32;
    b0 + 256 * b1 + 65536 * b2 + 16777216 * b3
}

/// Checks the framing of a file and hands back its payload, the bytes
/// behind the facet count, with the declared facet count.
pub fn extract_data(bytes: &[u8]) -> (r: Result<(Vec<u8>, u32), InvalidFileContentError>)
    ensures
        match header_error(bytes@) {
            Some(kind) => r == Err::<(Vec<u8>, u32), _>(InvalidFileContentError { kind }),
            None => {
                &&& r is Ok
                &&& r.unwrap().0@ == bytes@.skip(84)
                &&& r.unwrap().1 == declared_facets(bytes@)
            },
        },
{
    if bytes.len() < STL_HEADER_BYTES + STL_NUMBER_FACETS_BYTES {
        return Err(InvalidFileContentError::new(FormatErrorKind::TruncatedHeader));
    }
    let num_facets: u32 = read_le_word(bytes, STL_HEADER_BYTES);
    let start: usize = STL_HEADER_BYTES + STL_NUMBER_FACETS_BYTES;
    let payload_len: usize = bytes.len() - start;
    if payload_len % STL_FACET_RECORD_BYTES != 0 {
        return Err(InvalidFileContentError::new(FormatErrorKind::MisalignedPayload));
    }
    if payload_len / STL_FACET_RECORD_BYTES != num_facets as usize {
        return Err(InvalidFileContentError::new(FormatErrorKind::FacetCountMismatch));
    }
    let mut payload: Vec<u8> = Vec::new();
    let mut i: usize = start;
    while i < bytes.len()
        invariant
            start == 84,
            start <= i <= bytes@.len(),
            payload@ == bytes@.subrange(84, i as int),
        decreases bytes@.len() - i,
    {
        payload.push(bytes[i]);
        i += 1;
        assert(payload@ =~= bytes@.subrange(84, i as int));
    }
    assert(payload@ =~= bytes@.skip(84));
    Ok((payload, num_facets))
}

/// Walks the facet records of a payload and collects their vertex
/// components, nine words for each facet, skipping each record's normal and
/// attribute field.
pub fn get_vertex_words(payload: &[u8], num_facets: u32) -> (r: Result<
    Vec<u32>,
    InvalidFileContentError,
>)
    ensures
        match payload_error(payload@.len(), num_facets as nat) {
            Some(kind) => r == Err::<Vec<u32>, _>(InvalidFileContentError { kind }),
            None => r is Ok && r.unwrap()@ == vertex_words(payload@, num_facets as nat),
        },
{
    let mut words: Vec<u32> = Vec::new();
    let mut cursor: usize = 0;
    let mut facet: u32 = 0;
    while facet < num_facets
        invariant
            facet <= num_facets,
            cursor == 50 * facet,
            cursor <= payload@.len(),
            words@.len() == 9 * facet,
            forall|k: int|
                0 <= k < words@.len() ==> words@[k] == word_at(payload@, component_offset(k)),
        decreases num_facets - facet,
    {
        if payload.len() - cursor < STL_FACET_RECORD_BYTES {
            return Err(InvalidFileContentError::new(FormatErrorKind::TruncatedFacet));
        }
        let first: usize = cursor + STL_NORMAL_BYTES;
        let mut component: usize = 0;
        while component < STL_COMPONENTS_PER_FACET
            invariant
                facet < num_facets,
                cursor == 50 * facet,
                first == cursor + 12,
                cursor + 50 <= payload@.len(),
                component <= 9,
                words@.len() == 9 * facet + component,
                forall|k: int|
                    0 <= k < words@.len() ==> words@[k] == word_at(
                        payload@,
                        component_offset(k),
                    ),
            decreases 9 - component,
        {
            let word: u32 = read_le_word(payload, first + STL_F32_BYTES * component);
            assert(component_offset(9 * facet + component) == first + 4 * component);
            words.push(word);
            component += 1;
        }
        cursor += STL_FACET_RECORD_BYTES;
        facet += 1;
    }
    if cursor != payload.len() {
        return Err(InvalidFileContentError::new(FormatErrorKind::TrailingData));
    }
    assert(words@ =~= vertex_words(payload@, num_facets as nat));
    Ok(words)
}

/// Whether the vertex count of a well-framed file fits the 32 bits in which
/// it is reported.
pub open spec fn vertex_count_fits(bytes: Seq<u8>) -> bool {
    header_error(bytes) is None ==> 3 * declared_facets(bytes) <= u32::MAX
}

/// Tells whether the vertex count of a file can be reported: it cannot for
/// a well-framed file of more facets than a third of what 32 bits hold.
pub fn can_count_vertices(bytes: &[u8]) -> (yes: bool)
    ensures
        yes == vertex_count_fits(bytes@),
{
    if bytes.len() < STL_HEADER_BYTES + STL_NUMBER_FACETS_BYTES {
        return true;
    }
    let payload_len: usize = bytes.len() - (STL_HEADER_BYTES + STL_NUMBER_FACETS_BYTES);
    if payload_len % STL_FACET_RECORD_BYTES != 0 {
        return true;
    }
    let num_facets: u32 = read_le_word(bytes, STL_HEADER_BYTES);
    if payload_len / STL_FACET_RECORD_BYTES != num_facets as usize {
        return true;
    }
    num_facets <= u32::MAX / STL_VERTICES_PER_FACET
}

/// Decodes a whole file into its vertex components, as the words found in
/// the file, and the number of vertices: three for each declared facet.
pub fn get_raw_data(bytes: &[u8]) -> (r: Result<(Vec<u32>, u32), InvalidFileContentError>)
    requires
        vertex_count_fits(bytes@),
    ensures
        match header_error(bytes@) {
            Some(kind) => r == Err::<(Vec<u32>, u32), _>(InvalidFileContentError { kind }),
            None => {
                &&& r is Ok
                &&& r.unwrap().0@ == file_words(bytes@)
                &&& r.unwrap().1 == 3 * declared_facets(bytes@)
            },
        },
{
    let (payload, num_facets) = match extract_data(bytes) {
        Ok(framed) => framed,
        Err(error) => {
            return Err(error);
        },
    };
    let words = match get_vertex_words(payload.as_slice(), num_facets) {
        Ok(words) => words,
        Err(error) => {
            return Err(error);
        },
    };
    let num_vertices: u32 = STL_VERTICES_PER_FACET * num_facets;
    Ok((words, num_vertices))
}

/// Whether `values` holds, word for word, a result of `from_word` on
/// `words`.
pub open spec fn converted<T, F: Fn(u32) -> T>(from_word: F, words: Seq<u32>, values: Seq<T>) -> bool {
    &&& values.len() == words.len()
    &&& forall|k: int| 0 <= k < words.len() ==> from_word.ensures((words[k],), #[trigger] values[k])
}

/// Turns each word into a scalar, in order.
pub fn convert_words<T, F: Fn(u32) -> T>(words: &[u32], from_word: &F) -> (values: Vec<T>)
    requires
        forall|word: u32| from_word.requires((word,)),
    ensures
        converted(*from_word, words@, values@),
{
    let mut values: Vec<T> = Vec::new();
    let mut k: usize = 0;
    while k < words.len()
        invariant
            k <= words@.len(),
            forall|word: u32| from_word.requires((word,)),
            converted(*from_word, words@.take(k as int), values@),
        decreases words@.len() - k,
    {
        let value: T = from_word(words[k]);
        values.push(value);
        k += 1;
    }
    assert(words@.take(k as int) =~= words@);
    values
}

/// Whether the operators of `T` accept what decoding hands them for the
/// scalars `values` that a file holds: the rescaling with whatever the
/// bounding box comes to.
pub open spec fn can_decode<T>(values: Seq<T>, scalars: Scalars<T>) -> bool where
    T: PartialOrd + Add<Output = T> + Sub<Output = T> + Mul<Output = T> + Div<Output = T>,
 {
    forall|least: Seq<T>, greatest: Seq<T>| #[trigger]
        bounds(values, scalars.lowest, scalars.highest, least, greatest) ==> can_normalize(
            values,
            least,
            greatest,
            scalars.half,
            scalars.zero,
        )
}

/// Where the operators of `T` accept every pair of operands, every file
/// can be decoded.
pub proof fn lemma_total_arithmetic_decodes_all<T>(values: Seq<T>, scalars: Scalars<T>) where
    T: PartialOrd + Add<Output = T> + Sub<Output = T> + Mul<Output = T> + Div<Output = T>,

    requires
        arithmetic_is_total::<T>(),
    ensures
        can_decode(values, scalars),
{
}

/// What decoding makes of the scalars `values` that a file holds: the
/// outcome `r` is the error of a degenerate mesh, or the components
/// rescaled with their bounding box, with the number of vertices.
pub open spec fn decodes_to<T>(
    values: Seq<T>,
    scalars: Scalars<T>,
    r: Result<(Vec<T>, u32), InvalidFileContentError>,
) -> bool where
    T: PartialOrd + Add<Output = T> + Sub<Output = T> + Mul<Output = T> + Div<Output = T>,
 {
    &&& r matches Err(error) ==> error.kind == FormatErrorKind::DegenerateMesh
    &&& r matches Ok(mesh) ==> 3 * mesh.1 == values.len()
    &&& exists|least: Seq<T>, greatest: Seq<T>|
        {
            &&& #[trigger] bounds(values, scalars.lowest, scalars.highest, least, greatest)
            &&& rescaled(
                values,
                least,
                greatest,
                scalars.half,
                scalars.zero,
                match r {
                    Ok(mesh) => Some(mesh.0@),
                    Err(_) => None,
                },
            )
        }
}

/// Decodes a whole file: checks its framing, turns the words of its
/// vertex components into scalars with `from_word`, and rescales the mesh
/// by its bounding box: every component is moved by the translation that
/// brings the middle of the box to the origin, and divided by the largest
/// half-length of the box. The vertices come with their number, three for
/// each declared facet.
pub fn get_data<T, F>(bytes: &[u8], from_word: F, scalars: &Scalars<T>) -> (r: Result<
    (Vec<T>, u32),
    InvalidFileContentError,
>) where
    T: Copy + PartialOrd + Add<Output = T> + Sub<Output = T> + Mul<Output = T> + Div<Output = T>,
    F: Fn(u32) -> T,

    requires
        vertex_count_fits(bytes@),
        forall|word: u32| from_word.requires((word,)),
        header_error(bytes@) is None ==> forall|values: Seq<T>| #[trigger]
            converted(from_word, file_words(bytes@), values) ==> can_decode(values, *scalars),
    ensures
        match header_error(bytes@) {
            Some(kind) => r == Err::<(Vec<T>, u32), _>(InvalidFileContentError { kind }),
            None => exists|values: Seq<T>|
                {
                    &&& converted(from_word, file_words(bytes@), values)
                    &&& #[trigger] decodes_to(values, *scalars, r)
                },
        },
        r matches Ok(mesh) ==> mesh.1 == 3 * declared_facets(bytes@) && mesh.0@.len() == 9
            * declared_facets(bytes@),
{
    let (words, num_vertices) = match get_raw_data(bytes) {
        Ok(raw) => raw,
        Err(error) => {
            return Err(error);
        },
    };
    let values = convert_words(words.as_slice(), &from_word);
    let extent = bounding_extent(values.as_slice(), scalars.lowest, scalars.highest);
    let r = match normalize(values.as_slice(), &extent, scalars.half, scalars.zero) {
        Ok(vertices) => Ok((vertices, num_vertices)),
        Err(error) => Err(error),
    };
    assert(bounds(values@, scalars.lowest, scalars.highest, extent.min@, extent.max@));
    assert(decodes_to(values@, *scalars, r));
    r
}

/// A file whose payload is not a whole number of facet records is refused
/// as misaligned, whatever facet count it declares.
pub proof fn lemma_misaligned_payload_is_refused(bytes: Seq<u8>)
    requires
        bytes.len() >= 84,
        (bytes.len() - 84) % 50 != 0,
    ensures
        header_error(bytes) == Some(FormatErrorKind::MisalignedPayload),
{
}

/// A file with a whole number of facet records is accepted if the count it
/// declares is the number of records, and refused as a mismatch otherwise.
/// So altering the declared count of an accepted file gets it refused.
pub proof fn lemma_altered_count_is_refused(bytes: Seq<u8>, altered: Seq<u8>)
    requires
        header_error(bytes) is None,
        altered.len() == bytes.len(),
        declared_facets(altered) != declared_facets(bytes),
    ensures
        header_error(altered) == Some(FormatErrorKind::FacetCountMismatch),
{
}

/// An accepted file holds nine vertex components for each declared facet,
/// and so three vertices.
pub proof fn lemma_accepted_file_holds_declared_facets(bytes: Seq<u8>)
    requires
        header_error(bytes) is None,
    ensures
        bytes.len() == 84 + 50 * declared_facets(bytes),
        payload_error((bytes.len() - 84) as nat, declared_facets(bytes) as nat) is None,
        file_words(bytes).len() == 3 * (3 * declared_facets(bytes)),
{
}

/// Decoding refuses a mesh whose vertices all lie in one point as
/// degenerate: this holds for scalars whose operators follow their
/// specification, where the point has plain coordinates and `zero` equals
/// itself and does not exceed itself.
pub proof fn lemma_coinciding_vertices_are_refused<T>(
    values: Seq<T>,
    point: Seq<T>,
    scalars: Scalars<T>,
    r: Result<(Vec<T>, u32), InvalidFileContentError>,
) where T: PartialOrd + Add<Output = T> + Sub<Output = T> + Mul<Output = T> + Div<Output = T>
    requires
        arithmetic_is_specified::<T>(),
        values.len() >= 3,
        point.len() == 3,
        forall|k: int| 0 <= k < values.len() ==> values[k] == point[k % 3],
        forall|axis: int| 0 <= axis < 3 ==> is_plain_coordinate(#[trigger] point[axis], scalars),
        scalars.zero.eq_spec(&scalars.zero),
        !exceeds(scalars.zero, scalars.zero),
        decodes_to(values, scalars, r),
    ensures
        r matches Err(error) && error.kind == FormatErrorKind::DegenerateMesh,
{
    lemma_coinciding_vertices_are_degenerate(values, point, scalars);
    let (least, greatest) = choose|least: Seq<T>, greatest: Seq<T>|
        {
            &&& #[trigger] bounds(values, scalars.lowest, scalars.highest, least, greatest)
            &&& rescaled(
                values,
                least,
                greatest,
                scalars.half,
                scalars.zero,
                match r {
                    Ok(mesh) => Some(mesh.0@),
                    Err(_) => None,
                },
            )
        };
    assert(least == least_of(values, scalars.highest));
    assert(greatest == greatest_of(values, scalars.lowest));
}

} // verus!
