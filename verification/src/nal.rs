//! Keyframe detection in an H.264 byte stream.
use vstd::prelude::*;

verus! {

/// The NAL unit type of a coded slice of an IDR picture.
pub const NAL_IDR: u8 = 5;

/// The NAL unit type of a sequence parameter set.
pub const NAL_SPS: u8 = 7;

/// Whether the unit with this header byte opens a keyframe: an IDR slice or a
/// sequence parameter set. The type is in the low five bits.
pub open spec fn is_key_header(header: u8) -> bool {
    header as int % 32 == NAL_IDR || header as int % 32 == NAL_SPS
}

/// Whether the start code 00 00 01 stands at `i`.
pub open spec fn short_start_at(data: Seq<u8>, i: int) -> bool {
    data[i] == 0 && data[i + 1] == 0 && data[i + 2] == 1
}

/// Whether the start code 00 00 00 01 stands at `i`.
pub open spec fn long_start_at(data: Seq<u8>, i: int) -> bool {
    data[i] == 0 && data[i + 1] == 0 && data[i + 2] == 0 && data[i + 3] == 1
}

/// Whether a start code stands at `i` and the unit behind it opens a keyframe.
pub open spec fn key_unit_at(data: Seq<u8>, i: int) -> bool {
    ||| long_start_at(data, i) && is_key_header(data[i + 4])
    ||| short_start_at(data, i) && is_key_header(data[i + 3])
}

/// Whether a unit that opens a keyframe is in `data`. A start code counts where
/// at least five bytes are left from its first byte on.
pub open spec fn has_key_unit(data: Seq<u8>) -> bool {
    exists|i: int| 0 <= i < data.len() - 4 && #[trigger] key_unit_at(data, i)
}

fn is_key_type(header: u8) -> (key: bool)
    ensures
        key == is_key_header(header),
{
    assert(header & 0x1F == header % 32) by (bit_vector);
    let nal_type: u8 = header & 0x1F;
    nal_type == NAL_IDR || nal_type == NAL_SPS
}

/// Detects keyframes by the headers of the NAL units in `data`.
pub fn is_nalu_keyframe(data: &[u8]) -> (key: bool)
    ensures
        key == has_key_unit(data@),
{
    if data.len() < 5 {
        return false;
    }
    let end: usize = data.len() - 4;
    let mut i: usize = 0;
    while i < end
        invariant
            end == data@.len() - 4,
            forall|j: int| 0 <= j < i && j < end ==> !#[trigger] key_unit_at(data@, j),
        decreases data@.len() - i,
    {
        let zeros: bool = data[i] == 0 && data[i + 1] == 0;
        if zeros && data[i + 2] == 0 && data[i + 3] == 1 {
            if is_key_type(data[i + 4]) {
                assert(key_unit_at(data@, i as int));
                return true;
            }
            i += 4;
        } else if zeros && data[i + 2] == 1 {
            if is_key_type(data[i + 3]) {
                assert(key_unit_at(data@, i as int));
                return true;
            }
            i += 3;
        } else {
            i += 1;
        }
    }
    false
}

/// Whether an encoded sample is a keyframe: its bytes say so, or else the
/// encoder has marked it as a point where decoding can start.
pub fn is_keyframe(data: &[u8], clean_point: bool) -> (key: bool)
    ensures
        key == (has_key_unit(data@) || clean_point),
{
    is_nalu_keyframe(data) || clean_point
}

/// A unit that opens a keyframe is found behind a start code of four bytes,
/// whatever stands around it.
pub proof fn key_units_are_found(before: Seq<u8>, header: u8, after: Seq<u8>)
    requires
        is_key_header(header),
    ensures
        has_key_unit(before + seq![0u8, 0u8, 0u8, 1u8, header] + after),
{
    let data = before + seq![0u8, 0u8, 0u8, 1u8, header] + after;
    assert(key_unit_at(data, before.len() as int));
}

/// A unit that opens a keyframe is found behind a start code of three bytes too,
/// if it has a byte behind its header.
pub proof fn key_units_are_found_behind_short_codes(before: Seq<u8>, header: u8, after: Seq<u8>)
    requires
        is_key_header(header),
        after.len() > 0,
    ensures
        has_key_unit(before + seq![0u8, 0u8, 1u8, header] + after),
{
    let data = before + seq![0u8, 0u8, 1u8, header] + after;
    assert(key_unit_at(data, before.len() as int));
}

/// A keyframe stays one when bytes are appended.
pub proof fn key_units_stay(data: Seq<u8>, more: Seq<u8>)
    requires
        has_key_unit(data),
    ensures
        has_key_unit(data + more),
{
    let i = choose|i: int| 0 <= i < data.len() - 4 && #[trigger] key_unit_at(data, i);
    assert(key_unit_at(data + more, i));
}

/// A unit opens a keyframe if and only if the low five bits of its header are 5,
/// an IDR slice, or 7, a sequence parameter set. Delimiters, supplements and
/// ordinary slices do not.
pub proof fn key_units_are_of_two_types(header: u8)
    ensures
        is_key_header(header) <==> header % 32 == 5 || header % 32 == 7,
{
}

/// Data in which no unit behind a start code is of one of the two types is no
/// keyframe. A start code of four bytes ends in one of three.
pub proof fn other_units_are_no_keyframes(data: Seq<u8>)
    requires
        forall|i: int|
            0 <= i && i + 3 < data.len() && #[trigger] data[i] == 0 && data[i + 1] == 0 && data[i
                + 2] == 1 ==> data[i + 3] % 32 != 5 && data[i + 3] % 32 != 7,
    ensures
        !has_key_unit(data),
{
    assert forall|i: int| 0 <= i < data.len() - 4 implies !#[trigger] key_unit_at(data, i) by {
        assert(data[i] == data[i]);
        if long_start_at(data, i) {
            assert(data[i + 1] == 0);
        }
    }
}

/// An IDR slice or a sequence parameter set behind a start code makes a keyframe,
/// wherever it stands: behind four bytes always, behind three where at least one
/// byte follows its header.
pub proof fn key_units_make_keyframes(data: Seq<u8>, i: int)
    requires
        0 <= i,
        i + 4 < data.len(),
        data[i] == 0,
        data[i + 1] == 0,
        ({
            ||| data[i + 2] == 1 && (data[i + 3] % 32 == 5 || data[i + 3] % 32 == 7)
            ||| data[i + 2] == 0 && data[i + 3] == 1 && (data[i + 4] % 32 == 5 || data[i + 4] % 32
                == 7)
        }),
    ensures
        has_key_unit(data),
{
    assert(key_unit_at(data, i));
}

} // verus!
