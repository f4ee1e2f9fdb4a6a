//! One decode of an input buffer: parse, render every keyframe, encode.
use vstd::prelude::*;
use crate::codec::{
    parses, header_width_of, header_height_of, keyframes_of, format_of, renders_of, shape_of,
    ParsedImage, open, header_width, header_height, keyframe_count, source_format,
    render, stream_shape, stream_samples,
};
use crate::frame::{
    DecodeError, Frame, FrameModel, SourceFormat, assemble, bytes_view, models, all_fit,
    frame_fits, frame_bytes, frames_bytes, output_samples, source_channels, output_channels,
    lemma_rgb_alpha_opaque, lemma_frame_bytes_len, lemma_encode_run_at, lemma_one_frame_bytes,
    lemma_float_run_in_unit,
};
use crate::sample::{
    sample_width, opaque_bytes, le_word, ONE_BITS, HALF_BITS, lemma_half_is_mid_scale,
};
use crate::sample::SampleEncoding;

verus! {

/// The encoding that a sample width in bytes stands for.
pub open spec fn encoding_of_width(bytes_per_sample: nat) -> Option<SampleEncoding> {
    if bytes_per_sample == 1 {
        Some(SampleEncoding::UInt8)
    } else if bytes_per_sample == 2 {
        Some(SampleEncoding::UInt16Le)
    } else if bytes_per_sample == 4 {
        Some(SampleEncoding::Float32Le)
    } else {
        None
    }
}

/// Picks the encoding for a sample width of 1, 2 or 4 bytes.
pub fn encoding_for_width(bytes_per_sample: usize) -> (r: Option<SampleEncoding>)
    ensures
        r == encoding_of_width(bytes_per_sample as nat),
{
    if bytes_per_sample == 1 {
        Some(SampleEncoding::UInt8)
    } else if bytes_per_sample == 2 {
        Some(SampleEncoding::UInt16Le)
    } else if bytes_per_sample == 4 {
        Some(SampleEncoding::Float32Le)
    } else {
        None
    }
}

/// Height in the high bits from bit 31 on, width modulo 2^31 in the low 31 bits.
pub open spec fn packed(height: u32, width: u32) -> int {
    height as int * 0x8000_0000 + width as int % 0x8000_0000
}

/// Packs image dimensions into one non-negative 64-bit value.
pub fn pack_dimensions(height: u32, width: u32) -> (r: i64)
    ensures
        r == packed(height, width),
        r >= 0,
{
    assert(height as int * 0x8000_0000 <= 0xFFFF_FFFF * 0x8000_0000) by (nonlinear_arith)
        requires height <= 0xFFFF_FFFF;
    (height as i64) * 0x8000_0000 + (width % 0x8000_0000) as i64
}

/// The sentinel a frame count reports for what rendering each keyframe gave, in order,
/// up to the first failure: -4 for no keyframe, -3 when one failed, else the count.
pub open spec fn tally(rendered: Seq<bool>) -> int {
    if rendered.len() == 0 {
        -4
    } else if exists|i: int| 0 <= i < rendered.len() && !#[trigger] rendered[i] {
        -3
    } else {
        rendered.len() as int
    }
}

/// Turns the outcomes of rendering each keyframe into a frame count or a sentinel; a
/// failure anywhere gives a negative sentinel, never a partial count.
pub fn frame_tally(rendered: &Vec<bool>) -> (r: i64)
    requires
        rendered@.len() <= i64::MAX,
    ensures
        r == tally(rendered@),
        r >= 0 ==> r == rendered@.len() && forall|i: int| 0 <= i < r ==> #[trigger] rendered@[i],
        (exists|i: int| 0 <= i < rendered@.len() && !#[trigger] rendered@[i]) ==> r < 0,
{
    if rendered.len() == 0 {
        return -4;
    }
    let mut i: usize = 0;
    while i < rendered.len()
        invariant
            i <= rendered@.len(),
            forall|j: int| 0 <= j < i ==> #[trigger] rendered@[j],
        decreases rendered.len() - i,
    {
        if !rendered[i] {
            assert(!rendered@[i as int]);
            return -3;
        }
        i = i + 1;
    }
    rendered.len() as i64
}

/// Keyframe `k` of a byte string renders, to a raster whose sample count fits in memory.
pub open spec fn keyframe_ok(data: Seq<u8>, k: nat) -> bool {
    &&& renders_of(data, k)
    &&& shape_of(data, k).0 as nat * shape_of(data, k).1 as nat * shape_of(data, k).2 as nat
        <= usize::MAX
}

/// Keyframe `k` of a byte string renders with as many channels as the image's layout has.
pub open spec fn shape_fits(data: Seq<u8>, k: nat) -> bool {
    shape_of(data, k).2 as nat == source_channels(format_of(data))
}

/// Bytes that the first `n` keyframes of a byte string encode to, from their shapes alone.
pub open spec fn decoded_len(data: Seq<u8>, n: nat, enc: SampleEncoding) -> nat
    decreases n,
{
    if n == 0 {
        0
    } else {
        decoded_len(data, (n - 1) as nat, enc) + shape_of(data, (n - 1) as nat).0 as nat
            * shape_of(data, (n - 1) as nat).1 as nat * output_channels(format_of(data))
            * sample_width(enc)
    }
}

/// Rendered rasters that have the shapes of the keyframes of a byte string, whatever their
/// sample values.
pub open spec fn shaped(data: Seq<u8>, fs: Seq<FrameModel>) -> bool {
    &&& fs.len() == keyframes_of(data)
    &&& forall|k: int| 0 <= k < fs.len() ==> shaped_at(data, #[trigger] fs[k], k as nat)
}

/// Whether decoding a parsed byte string into `size` bytes of `enc` samples succeeds, and
/// otherwise why not: an unsupported layout first, then a keyframe that fails to render or
/// renders with the wrong channel count, then a length other than `size`. None of this
/// depends on sample values.
pub open spec fn image_status(data: Seq<u8>, enc: SampleEncoding, size: nat) -> Result<
    (),
    DecodeError,
> {
    if format_of(data) == SourceFormat::Unsupported {
        Err(DecodeError::UnsupportedFormat)
    } else if exists|k: nat| k < keyframes_of(data) && !#[trigger] keyframe_ok(data, k) {
        Err(DecodeError::RenderFailure)
    } else if exists|k: nat| k < keyframes_of(data) && !#[trigger] shape_fits(data, k) {
        Err(DecodeError::RenderFailure)
    } else if decoded_len(data, keyframes_of(data) as nat, enc) != size {
        Err(DecodeError::SizeMismatch)
    } else {
        Ok(())
    }
}

/// Shaped rasters fit the layout exactly when every keyframe has the layout's channels, and
/// then encode to the length the shapes give.
proof fn lemma_shaped_frames(data: Seq<u8>, fs: Seq<FrameModel>, m: nat, enc: SampleEncoding)
    requires
        shaped(data, fs),
        m <= fs.len(),
        format_of(data) != SourceFormat::Unsupported,
    ensures
        all_fit(fs.take(m as int), format_of(data)) <==> forall|k: nat| k < m ==> #[trigger] shape_fits(data, k),
        all_fit(fs.take(m as int), format_of(data)) ==> frames_bytes(fs.take(m as int), format_of(data), enc).len()
            == decoded_len(data, m, enc),
    decreases m,
{
    let fmt = format_of(data);
    let t = fs.take(m as int);
    assert forall|k: nat| k < m implies #[trigger] shape_fits(data, k) == frame_fits(t[k as int], fmt) by {
        assert(t[k as int] == fs[k as int]);
    }
    if all_fit(t, fmt) {
        assert forall|k: nat| k < m implies #[trigger] shape_fits(data, k) by {
            assert(frame_fits(t[k as int], fmt));
        }
    }
    if forall|k: nat| k < m ==> #[trigger] shape_fits(data, k) {
        assert forall|i: int| 0 <= i < t.len() implies frame_fits(#[trigger] t[i], fmt) by {
            assert(shape_fits(data, i as nat));
        }
    }
    if m > 0 {
        lemma_shaped_frames(data, fs, (m - 1) as nat, enc);
        assert(t.drop_last() =~= fs.take(m - 1));
        if all_fit(t, fmt) {
            assert forall|i: int| 0 <= i < m - 1 implies frame_fits(#[trigger] fs.take(m - 1)[i], fmt) by {
                assert(fs.take(m - 1)[i] == t[i]);
            }
            assert(frame_fits(t.last(), fmt));
            lemma_frame_bytes_len(t.last(), fmt, enc);
        }
    }
}

/// One raster has the shape of keyframe `k`.
pub open spec fn shaped_at(data: Seq<u8>, f: FrameModel, k: nat) -> bool {
    &&& f.width == shape_of(data, k).0
    &&& f.height == shape_of(data, k).1
    &&& f.channels == shape_of(data, k).2
    &&& f.samples.len() == f.width as nat * f.height as nat * f.channels as nat
}

/// Renders every keyframe in order into plain rasters; the first failure abandons the rest.
pub(crate) fn render_all(image: &ParsedImage) -> (r: Result<Vec<Frame>, DecodeError>)
    ensures
        match r {
            Ok(frames) => (forall|k: nat| k < keyframes_of(image.source()) ==> #[trigger] keyframe_ok(
                image.source(),
                k,
            )) && shaped(image.source(), models(frames@)),
            Err(e) => e == DecodeError::RenderFailure && exists|k: nat|
                k < keyframes_of(image.source()) && !#[trigger] keyframe_ok(image.source(), k),
        },
{
    let ghost src = image.source();
    let n = keyframe_count(image);
    let mut frames: Vec<Frame> = Vec::new();
    let mut k: usize = 0;
    while k < n
        invariant
            k <= n,
            n == keyframes_of(src),
            src == image.source(),
            frames@.len() == k,
            forall|j: nat| j < k ==> #[trigger] keyframe_ok(src, j),
            forall|j: int| 0 <= j < k ==> shaped_at(src, #[trigger] models(frames@)[j], j as nat),
        decreases n - k,
    {
        let rk = match render(image, k) {
            Some(rk) => rk,
            None => {
                assert(!keyframe_ok(src, k as nat));
                return Err(DecodeError::RenderFailure);
            },
        };
        let (width, height, channels) = stream_shape(&rk);
        let len = match (width as usize).checked_mul(height as usize) {
            Some(wh) => match wh.checked_mul(channels as usize) {
                Some(len) => len,
                None => {
                    assert(!keyframe_ok(src, k as nat));
                    return Err(DecodeError::RenderFailure);
                },
            },
            None => {
                proof {
                    assert(width as nat * height as nat * channels as nat >= width as nat
                        * height as nat || channels == 0) by (nonlinear_arith);
                    if channels == 0 {
                        assert(width as nat * height as nat * channels as nat == 0) by (nonlinear_arith)
                            requires channels == 0;
                    }
                }
                if channels == 0 {
                    0
                } else {
                    assert(!keyframe_ok(src, k as nat));
                    return Err(DecodeError::RenderFailure);
                }
            },
        };
        let samples = stream_samples(&rk, len);
        let ghost before = frames@;
        frames.push(Frame { width, height, channels, samples });
        assert(keyframe_ok(src, k as nat));
        assert forall|j: int| 0 <= j < k + 1 implies shaped_at(src, #[trigger] models(frames@)[j], j as nat) by {
            if j < k {
                assert(frames@[j] == before[j]);
                assert(shaped_at(src, models(before)[j], j as nat));
            }
        }
        k = k + 1;
    }
    Ok(frames)
}

/// What a decode of a parsed byte string gave: success exactly when `image_status` says so,
/// its error otherwise, and on success the bytes that some rasters of the keyframes' shapes
/// encode to, in keyframe order.
pub open spec fn decode_outcome(
    data: Seq<u8>,
    enc: SampleEncoding,
    size: nat,
    r: Result<Seq<u8>, DecodeError>,
) -> bool {
    &&& r is Ok <==> image_status(data, enc, size) is Ok
    &&& r is Err ==> image_status(data, enc, size) == Err::<(), DecodeError>(r->Err_0)
    &&& r is Ok ==> r->Ok_0.len() == size
    &&& r is Ok ==> exists|fs: Seq<FrameModel>|
        shaped(data, fs) && r->Ok_0 == #[trigger] frames_bytes(fs, format_of(data), enc)
}

/// Decodes a whole input into `output_size` bytes of samples in the given encoding.
///
/// Empty input or a zero output size is an invalid argument; input the decoder refuses is
/// a parse failure; otherwise the result is what the image's own keyframes give.
pub fn decode_image(input: &[u8], output_size: usize, enc: SampleEncoding) -> (r: Result<
    Vec<u8>,
    DecodeError,
>)
    ensures
        (input@.len() == 0 || output_size == 0) ==> r == Err::<Vec<u8>, DecodeError>(
            DecodeError::InvalidArgument,
        ),
        input@.len() > 0 && output_size > 0 && !parses(input@) ==> r == Err::<Vec<u8>, DecodeError>(
            DecodeError::ParseFailure,
        ),
        input@.len() > 0 && output_size > 0 && parses(input@) ==> decode_outcome(
            input@,
            enc,
            output_size as nat,
            bytes_view(r),
        ),
{
    if input.len() == 0 || output_size == 0 {
        return Err(DecodeError::InvalidArgument);
    }
    let image = match open(input) {
        Some(image) => image,
        None => {
            return Err(DecodeError::ParseFailure);
        },
    };
    let fmt = source_format(&image);
    if fmt == SourceFormat::Unsupported {
        return Err(DecodeError::UnsupportedFormat);
    }
    let frames = match render_all(&image) {
        Ok(frames) => frames,
        Err(e) => {
            return Err(e);
        },
    };
    let r = assemble(&frames, fmt, enc, output_size);
    proof {
        let fs = models(frames@);
        lemma_shaped_frames(input@, fs, fs.len(), enc);
        assert(fs.take(fs.len() as int) =~= fs);
        if r is Ok {
            assert(shaped(input@, fs) && bytes_view(r) == Ok::<Seq<u8>, DecodeError>(
                frames_bytes(fs, fmt, enc),
            ));
        }
    }
    r
}

/// Reads the header dimensions of an input and packs them, or gives -1 for an empty input
/// and -2 for input the decoder refuses.
pub fn packed_dimensions(input: &[u8]) -> (r: i64)
    ensures
        input@.len() == 0 ==> r == -1,
        input@.len() > 0 && !parses(input@) ==> r == -2,
        input@.len() > 0 && parses(input@) ==> r == packed(
            header_height_of(input@),
            header_width_of(input@),
        ),
{
    if input.len() == 0 {
        return -1;
    }
    match open(input) {
        Some(image) => pack_dimensions(header_height(&image), header_width(&image)),
        None => -2,
    }
}

/// Whether each keyframe of a byte string renders, for as many keyframes as a count can
/// report.
pub open spec fn render_outcomes(data: Seq<u8>) -> Seq<bool> {
    let n: nat = if keyframes_of(data) as nat > i64::MAX as nat {
        i64::MAX as nat
    } else {
        keyframes_of(data) as nat
    };
    Seq::new(n, |k: int| renders_of(data, k as nat))
}

/// Renders the keyframes of an input and counts them: -1 for an empty input, -2 for input
/// the decoder refuses, -3 when a keyframe fails to render and -4 when there is none.
pub fn count_frames(input: &[u8]) -> (r: i64)
    ensures
        input@.len() == 0 ==> r == -1,
        input@.len() > 0 && !parses(input@) ==> r == -2,
        input@.len() > 0 && parses(input@) ==> r == tally(render_outcomes(input@)),
{
    if input.len() == 0 {
        return -1;
    }
    let image = match open(input) {
        Some(image) => image,
        None => {
            return -2;
        },
    };
    let ghost all = render_outcomes(input@);
    let n = keyframe_count(&image);
    let mut rendered: Vec<bool> = Vec::new();
    let mut k: usize = 0;
    while k < n && (k as u64) < (i64::MAX as u64)
        invariant
            k <= n,
            n == keyframes_of(input@),
            image.source() == input@,
            input@.len() > 0,
            parses(input@),
            all == render_outcomes(input@),
            k <= i64::MAX,
            rendered@.len() == k,
            forall|j: int| 0 <= j < k ==> #[trigger] rendered@[j] && all[j],
        decreases n - k,
    {
        let ok = render(&image, k).is_some();
        rendered.push(ok);
        if !ok {
            assert(!all[k as int]);
            assert(!rendered@[k as int]);
            let r = frame_tally(&rendered);
            return r;
        }
        k = k + 1;
    }
    assert(rendered@.len() == all.len());
    assert(rendered@ =~= all);
    frame_tally(&rendered)
}

/// The status of a parsed image with one keyframe that renders.
proof fn lemma_one_keyframe_status(data: Seq<u8>, enc: SampleEncoding, size: nat)
    requires
        keyframes_of(data) == 1,
    ensures
        decoded_len(data, 1, enc) == shape_of(data, 0).0 as nat * shape_of(data, 0).1 as nat
            * output_channels(format_of(data)) * sample_width(enc),
        image_status(data, enc, size) is Ok <==> format_of(data) != SourceFormat::Unsupported
            && keyframe_ok(data, 0) && shape_fits(data, 0) && decoded_len(data, 1, enc) == size,
{
    reveal_with_fuel(decoded_len, 2);
    if keyframe_ok(data, 0) {
        assert forall|k: nat| k < keyframes_of(data) implies #[trigger] keyframe_ok(data, k) by {
            assert(k == 0);
        }
    }
    if shape_fits(data, 0) {
        assert forall|k: nat| k < keyframes_of(data) implies #[trigger] shape_fits(data, k) by {
            assert(k == 0);
        }
    }
}

/// An image with one gray or RGB keyframe that renders with the layout's channels, asked
/// for at width times height times output channels times sample width bytes, decodes.
pub proof fn lemma_single_frame_image_decodes(data: Seq<u8>, enc: SampleEncoding)
    requires
        format_of(data) == SourceFormat::Gray || format_of(data) == SourceFormat::Rgb,
        keyframes_of(data) == 1,
        keyframe_ok(data, 0),
        shape_fits(data, 0),
    ensures
        image_status(
            data,
            enc,
            shape_of(data, 0).0 as nat * shape_of(data, 0).1 as nat * output_channels(
                format_of(data),
            ) * sample_width(enc),
        ) is Ok,
{
    let size = shape_of(data, 0).0 as nat * shape_of(data, 0).1 as nat * output_channels(
        format_of(data),
    ) * sample_width(enc);
    lemma_one_keyframe_status(data, enc, size);
}

/// An image with one keyframe decodes only at its width times height times output
/// channels times sample width bytes.
pub proof fn lemma_single_frame_image_length(data: Seq<u8>, enc: SampleEncoding, size: nat)
    requires
        keyframes_of(data) == 1,
        image_status(data, enc, size) is Ok,
    ensures
        size == shape_of(data, 0).0 as nat * shape_of(data, 0).1 as nat * output_channels(
            format_of(data),
        ) * sample_width(enc),
{
    lemma_one_keyframe_status(data, enc, size);
}

/// The one raster of shaped rasters for a single-keyframe image, and what it encodes to.
proof fn lemma_one_shaped(data: Seq<u8>, fs: Seq<FrameModel>, enc: SampleEncoding, size: nat)
    requires
        keyframes_of(data) == 1,
        shaped(data, fs),
        image_status(data, enc, size) is Ok,
    ensures
        frame_fits(fs[0], format_of(data)),
        frames_bytes(fs, format_of(data), enc) == frame_bytes(fs[0], format_of(data), enc),
        fs[0].width == shape_of(data, 0).0 && fs[0].height == shape_of(data, 0).1,
{
    lemma_one_keyframe_status(data, enc, size);
    assert(fs =~= seq![fs[0]]);
    lemma_one_frame_bytes(fs[0], format_of(data), enc);
}

/// In what an RGB image with one keyframe decodes to, whatever its samples, the fourth
/// sample of every pixel is fully opaque, in every sample width.
pub proof fn lemma_rgb_image_alpha_opaque(
    data: Seq<u8>,
    fs: Seq<FrameModel>,
    enc: SampleEncoding,
    size: nat,
    p: int,
)
    requires
        format_of(data) == SourceFormat::Rgb,
        keyframes_of(data) == 1,
        image_status(data, enc, size) is Ok,
        shaped(data, fs),
        0 <= p < shape_of(data, 0).0 as nat * shape_of(data, 0).1 as nat,
    ensures
        (4 * p + 4) * sample_width(enc) <= frames_bytes(fs, SourceFormat::Rgb, enc).len(),
        frames_bytes(fs, SourceFormat::Rgb, enc).subrange(
            (4 * p + 3) * sample_width(enc),
            (4 * p + 4) * sample_width(enc),
        ) == opaque_bytes(enc),
{
    lemma_one_shaped(data, fs, enc, size);
    lemma_rgb_alpha_opaque(fs[0], enc, p);
}

/// A gray image with one keyframe whose every sample is 0.5 decodes, two bytes per sample,
/// to 32768 in every sample.
pub proof fn lemma_half_gray_image(data: Seq<u8>, fs: Seq<FrameModel>, size: nat, i: int)
    requires
        format_of(data) == SourceFormat::Gray,
        keyframes_of(data) == 1,
        image_status(data, SampleEncoding::UInt16Le, size) is Ok,
        shaped(data, fs),
        forall|j: int| 0 <= j < fs[0].samples.len() ==> #[trigger] fs[0].samples[j] == HALF_BITS,
        0 <= i < size / 2,
    ensures
        2 * i + 2 <= frames_bytes(fs, SourceFormat::Gray, SampleEncoding::UInt16Le).len(),
        frames_bytes(fs, SourceFormat::Gray, SampleEncoding::UInt16Le).subrange(2 * i, 2 * i + 2)
            == seq![0u8, 0x80u8],
{
    let enc = SampleEncoding::UInt16Le;
    lemma_one_shaped(data, fs, enc, size);
    lemma_one_keyframe_status(data, enc, size);
    let f = fs[0];
    lemma_frame_bytes_len(f, SourceFormat::Gray, enc);
    assert(f.samples.len() == f.width as nat * f.height as nat);
    assert(frame_bytes(f, SourceFormat::Gray, enc).len() == f.samples.len() * 2);
    lemma_encode_run_at(f.samples, i, enc);
    lemma_half_is_mid_scale();
}

/// Every four-byte sample of what any sequence of frames encodes to as floats reads back
/// within [0.0, 1.0].
pub proof fn lemma_float_frames_in_unit(fs: Seq<FrameModel>, fmt: SourceFormat, i: int)
    requires
        0 <= i,
        4 * i + 4 <= frames_bytes(fs, fmt, SampleEncoding::Float32Le).len(),
    ensures
        le_word(frames_bytes(fs, fmt, SampleEncoding::Float32Le).subrange(4 * i, 4 * i + 4))
            <= ONE_BITS,
    decreases fs.len(),
{
    let enc = SampleEncoding::Float32Le;
    if fs.len() > 0 {
        let a = frames_bytes(fs.drop_last(), fmt, enc);
        let t = output_samples(fs.last().samples, fmt);
        let b = frame_bytes(fs.last(), fmt, enc);
        lemma_float_frames_len(fs.drop_last(), fmt);
        let q = a.len() / 4;
        assert(b.len() == t.len() * 4);
        if 4 * i + 4 <= a.len() {
            lemma_float_frames_in_unit(fs.drop_last(), fmt, i);
            assert((a + b).subrange(4 * i, 4 * i + 4) =~= a.subrange(4 * i, 4 * i + 4));
        } else {
            let j = i - q;
            assert(0 <= j < t.len());
            lemma_float_run_in_unit(t, j);
            assert((a + b).subrange(4 * i, 4 * i + 4) =~= b.subrange(4 * j, 4 * j + 4));
        }
    }
}

proof fn lemma_float_frames_len(fs: Seq<FrameModel>, fmt: SourceFormat)
    ensures
        frames_bytes(fs, fmt, SampleEncoding::Float32Le).len() % 4 == 0,
    decreases fs.len(),
{
    if fs.len() > 0 {
        lemma_float_frames_len(fs.drop_last(), fmt);
        let a = frames_bytes(fs.drop_last(), fmt, SampleEncoding::Float32Le);
        let b = frame_bytes(fs.last(), fmt, SampleEncoding::Float32Le);
        let n = output_samples(fs.last().samples, fmt).len();
        assert(b.len() == n * 4);
        assert((a.len() + n * 4) % 4 == 0) by (nonlinear_arith)
            requires a.len() % 4 == 0;
    }
}

/// A single still image whose keyframe renders counts as one frame.
pub proof fn lemma_still_image_counts_one(data: Seq<u8>)
    requires
        keyframes_of(data) == 1,
        renders_of(data, 0),
    ensures
        tally(render_outcomes(data)) == 1,
{
    let o = render_outcomes(data);
    assert(o.len() == 1);
    assert(o[0]);
    assert(!exists|i: int| 0 <= i < o.len() && !#[trigger] o[i]);
}

/// A keyframe that fails to render makes the count a negative sentinel, and the decode fail.
pub proof fn lemma_failed_keyframe(data: Seq<u8>, k: nat, enc: SampleEncoding, size: nat)
    requires
        k < keyframes_of(data),
        k < i64::MAX,
        !renders_of(data, k),
    ensures
        tally(render_outcomes(data)) < 0,
        image_status(data, enc, size) is Err,
{
    let o = render_outcomes(data);
    assert(!o[k as int]);
    assert(!keyframe_ok(data, k));
}

} // verus!
