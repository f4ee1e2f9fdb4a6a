//! The operations a host calls: buffers are named by arena handles, failures by sentinels.
use vstd::prelude::*;
use crate::arena::{Arena, allocated, releasable, released, prefix};
use crate::codec::{parses, header_width_of, header_height_of};
use crate::session::{
    encoding_of_width, encoding_for_width, decode_image, packed, packed_dimensions, tally,
    count_frames, image_status, decode_outcome, render_outcomes,
};

verus! {

/// Allocates a zeroed buffer of `size` bytes in the arena and returns its handle.
pub fn malloc(arena: &mut Arena, size: usize) -> (r: usize)
    requires
        old(arena)@.len() < usize::MAX,
    ensures
        r == old(arena)@.len(),
        final(arena)@ == allocated(old(arena)@, size as nat),
{
    arena.allocate(size)
}

/// Releases the buffer `handle`, which must be live and `size` bytes long; a release that
/// does not match is refused with `false` and changes nothing.
pub fn free(arena: &mut Arena, handle: usize, size: usize) -> (r: bool)
    ensures
        r == releasable(old(arena)@, handle as int, size as nat),
        final(arena)@ == released(old(arena)@, handle as int, size as nat),
{
    arena.release(handle, size)
}

/// Packs the header height and width of the image held in the first `input_size` bytes of
/// buffer `handle`: -1 when that buffer is not live, too short or `input_size` is zero,
/// -2 when the decoder refuses the bytes.
pub fn height_and_width(arena: &Arena, handle: usize, input_size: usize) -> (r: i64)
    ensures
        (input_size == 0 || prefix(arena@, handle as int, input_size as nat) is None) ==> r == -1,
        input_size > 0 && prefix(arena@, handle as int, input_size as nat) is Some ==> {
            let input = prefix(arena@, handle as int, input_size as nat)->Some_0;
            &&& !parses(input) ==> r == -2
            &&& parses(input) ==> r == packed(header_height_of(input), header_width_of(input))
        },
{
    if input_size == 0 {
        return -1;
    }
    match arena.read_prefix(handle, input_size) {
        Some(input) => packed_dimensions(input.as_slice()),
        None => -1,
    }
}

/// Decodes the image in the first `input_size` bytes of buffer `handle` into a new buffer
/// of exactly `output_size` bytes, one byte per sample, and returns its handle.
pub fn decode(arena: &mut Arena, handle: usize, input_size: usize, output_size: usize) -> (r:
    Option<usize>)
    requires
        old(arena)@.len() < usize::MAX,
    ensures
        decoded(old(arena)@, final(arena)@, r, handle, input_size, output_size, 1),
{
    decode_with_sample_size(arena, handle, input_size, output_size, 1)
}

/// What a decode into a new buffer did to the arena, for `bytes_per_sample` of 1, 2 or 4.
///
/// Nothing comes back and nothing changes for an unknown sample width, a zero size, a dead
/// or too short input buffer, bytes the decoder refuses, or an image whose keyframes do not
/// render to exactly `output_size` bytes. Otherwise the result is a fresh handle to the
/// bytes that rasters of the image's keyframe shapes encode to.
pub open spec fn decoded(
    before: Seq<Option<Seq<u8>>>,
    after: Seq<Option<Seq<u8>>>,
    r: Option<usize>,
    handle: usize,
    input_size: usize,
    output_size: usize,
    bytes_per_sample: usize,
) -> bool {
    let input = prefix(before, handle as int, input_size as nat);
    let enc = encoding_of_width(bytes_per_sample as nat);
    &&& r is None ==> after == before
    &&& (enc is None || input_size == 0 || output_size == 0 || input is None || !parses(
        input->Some_0,
    )) ==> r is None
    &&& (enc is Some && input_size > 0 && output_size > 0 && input is Some && parses(input->Some_0))
        ==> {
        let status = image_status(input->Some_0, enc->Some_0, output_size as nat);
        &&& status is Err ==> r is None
        &&& status is Ok ==> r == Some(before.len() as usize) && after[r->Some_0 as int] is Some
            && after == before.push(after[r->Some_0 as int]) && decode_outcome(
            input->Some_0,
            enc->Some_0,
            output_size as nat,
            Ok(after[r->Some_0 as int]->Some_0),
        ) && after[r->Some_0 as int]->Some_0.len() == output_size
    }
}

/// Decodes the image in the first `input_size` bytes of buffer `handle` into a new buffer
/// of exactly `output_size` bytes, with samples of `bytes_per_sample` bytes (1, 2 or 4),
/// and returns its handle.
pub fn decode_with_sample_size(
    arena: &mut Arena,
    handle: usize,
    input_size: usize,
    output_size: usize,
    bytes_per_sample: usize,
) -> (r: Option<usize>)
    requires
        old(arena)@.len() < usize::MAX,
    ensures
        decoded(old(arena)@, final(arena)@, r, handle, input_size, output_size, bytes_per_sample),
{
    let enc = match encoding_for_width(bytes_per_sample) {
        Some(enc) => enc,
        None => {
            return None;
        },
    };
    if input_size == 0 || output_size == 0 {
        return None;
    }
    let input = match arena.read_prefix(handle, input_size) {
        Some(input) => input,
        None => {
            return None;
        },
    };
    match decode_image(input.as_slice(), output_size, enc) {
        Ok(bytes) => {
            let ghost b = bytes@;
            let h = arena.adopt(bytes);
            assert(arena@[h as int] == Some(b));
            Some(h)
        },
        Err(_) => None,
    }
}

/// Counts the keyframes of the image in the first `input_size` bytes of buffer `handle`,
/// rendering each: -1 for a dead or too short buffer or a zero size, -2 for bytes the
/// decoder refuses, -3 when a keyframe fails to render, -4 when there is none.
pub fn frame_count(arena: &Arena, handle: usize, input_size: usize) -> (r: i64)
    ensures
        (input_size == 0 || prefix(arena@, handle as int, input_size as nat) is None) ==> r == -1,
        input_size > 0 && prefix(arena@, handle as int, input_size as nat) is Some ==> {
            let input = prefix(arena@, handle as int, input_size as nat)->Some_0;
            &&& !parses(input) ==> r == -2
            &&& parses(input) ==> r == tally(render_outcomes(input))
        },
{
    if input_size == 0 {
        return -1;
    }
    match arena.read_prefix(handle, input_size) {
        Some(input) => count_frames(input.as_slice()),
        None => -1,
    }
}

} // verus!
