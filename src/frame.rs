//! Encoding of rendered frames into one flat output buffer.
use vstd::prelude::*;
use vstd::arithmetic::div_mod::{lemma_fundamental_div_mod, lemma_fundamental_div_mod_converse};
use crate::sample::{
    ONE_BITS, SampleEncoding, sample_width, sample_bytes, opaque_bytes, le_word, push_sample,
    lemma_one_is_opaque, lemma_float_sample_in_unit,
};

verus! {

/// Pixel layout of a decoded image.
#[derive(Clone, Copy, Debug, PartialEq, Eq, Structural)]
pub enum SourceFormat {
    Gray,
    Rgb,
    Rgba,
    /// Any layout the encoder does not handle (gray with alpha, CMYK).
    Unsupported,
}

/// Why a decode produced no buffer.
#[derive(Clone, Copy, Debug, PartialEq, Eq, Structural)]
pub enum DecodeError {
    /// Missing input, a zero length, a zero output size or an unknown sample width.
    InvalidArgument,
    /// The codestream could not be parsed.
    ParseFailure,
    /// A keyframe could not be rendered, or rendered with an unexpected shape.
    RenderFailure,
    /// The pixel layout is not gray, RGB or RGBA.
    UnsupportedFormat,
    /// The encoded length differs from the size the host asked for.
    SizeMismatch,
}

/// One rendered keyframe: channel-interleaved samples as single-precision bit patterns.
#[derive(Debug)]
pub struct Frame {
    pub width: u32,
    pub height: u32,
    pub channels: u32,
    pub samples: Vec<u32>,
}

/// What a rendered frame holds, as plain values.
pub struct FrameModel {
    pub width: u32,
    pub height: u32,
    pub channels: u32,
    pub samples: Seq<u32>,
}

impl View for Frame {
    type V = FrameModel;

    open spec fn view(&self) -> FrameModel {
        FrameModel {
            width: self.width,
            height: self.height,
            channels: self.channels,
            samples: self.samples@,
        }
    }
}

/// The models of a sequence of frames.
pub open spec fn models(frames: Seq<Frame>) -> Seq<FrameModel> {
    frames.map_values(|f: Frame| f@)
}

/// Channels each pixel of a rendered frame has in a format.
pub open spec fn source_channels(fmt: SourceFormat) -> nat {
    match fmt {
        SourceFormat::Gray => 1,
        SourceFormat::Rgb => 3,
        SourceFormat::Rgba => 4,
        SourceFormat::Unsupported => 0,
    }
}

/// Channels each pixel of the output has in a format: color is always given four.
pub open spec fn output_channels(fmt: SourceFormat) -> nat {
    match fmt {
        SourceFormat::Gray => 1,
        SourceFormat::Rgb => 4,
        SourceFormat::Rgba => 4,
        SourceFormat::Unsupported => 0,
    }
}

/// A frame whose sample count and channel count fit a supported format.
pub open spec fn frame_fits(f: FrameModel, fmt: SourceFormat) -> bool {
    &&& fmt != SourceFormat::Unsupported
    &&& f.channels as nat == source_channels(fmt)
    &&& f.samples.len() == f.width as nat * f.height as nat * f.channels as nat
}

/// RGB samples with an opaque fourth channel after every third sample.
pub open spec fn with_alpha(s: Seq<u32>) -> Seq<u32> {
    Seq::new(
        (s.len() / 3 * 4) as nat,
        |i: int| if i % 4 == 3 { ONE_BITS } else { s[i / 4 * 3 + i % 4] },
    )
}

/// The samples of a frame as the output lays them out, alpha included.
pub open spec fn output_samples(s: Seq<u32>, fmt: SourceFormat) -> Seq<u32> {
    if fmt == SourceFormat::Rgb {
        with_alpha(s)
    } else {
        s
    }
}

/// Each sample of `s` encoded in turn.
pub open spec fn encode_run(s: Seq<u32>, enc: SampleEncoding) -> Seq<u8> {
    Seq::new(
        s.len() * sample_width(enc),
        |j: int| sample_bytes(s[j / sample_width(enc) as int], enc)[j % sample_width(enc) as int],
    )
}

/// The encoded bytes of one frame.
pub open spec fn frame_bytes(f: FrameModel, fmt: SourceFormat, enc: SampleEncoding) -> Seq<u8> {
    encode_run(output_samples(f.samples, fmt), enc)
}

/// The encoded bytes of all frames, in order.
pub open spec fn frames_bytes(frames: Seq<FrameModel>, fmt: SourceFormat, enc: SampleEncoding) -> Seq<u8>
    decreases frames.len(),
{
    if frames.len() == 0 {
        Seq::empty()
    } else {
        frames_bytes(frames.drop_last(), fmt, enc) + frame_bytes(frames.last(), fmt, enc)
    }
}

/// Every frame has the shape that the format asks for.
pub open spec fn all_fit(frames: Seq<FrameModel>, fmt: SourceFormat) -> bool {
    forall|i: int| 0 <= i < frames.len() ==> frame_fits(#[trigger] frames[i], fmt)
}

/// What assembling rendered frames gives for a requested output size.
pub open spec fn assembled(
    frames: Seq<FrameModel>,
    fmt: SourceFormat,
    enc: SampleEncoding,
    size: nat,
) -> Result<Seq<u8>, DecodeError> {
    if fmt == SourceFormat::Unsupported {
        Err(DecodeError::UnsupportedFormat)
    } else if !all_fit(frames, fmt) {
        Err(DecodeError::RenderFailure)
    } else if frames_bytes(frames, fmt, enc).len() != size {
        Err(DecodeError::SizeMismatch)
    } else {
        Ok(frames_bytes(frames, fmt, enc))
    }
}

/// A byte buffer result seen as a sequence of bytes.
pub open spec fn bytes_view(r: Result<Vec<u8>, DecodeError>) -> Result<Seq<u8>, DecodeError> {
    match r {
        Ok(v) => Ok(v@),
        Err(e) => Err(e),
    }
}

/// Appending one more sample extends the encoding by that sample's bytes.
proof fn lemma_encode_run_push(s: Seq<u32>, i: int, enc: SampleEncoding)
    requires
        0 <= i < s.len(),
    ensures
        encode_run(s.take(i + 1), enc) == encode_run(s.take(i), enc) + sample_bytes(s[i], enc),
{
    let a = encode_run(s.take(i + 1), enc);
    let b = encode_run(s.take(i), enc) + sample_bytes(s[i], enc);
    let w = sample_width(enc) as int;
    assert(sample_bytes(s[i], enc).len() == w);
    assert(a.len() == b.len()) by (nonlinear_arith)
        requires a.len() == (i + 1) * w, b.len() == i * w + w;
    assert forall|j: int| 0 <= j < a.len() implies a[j] == b[j] by {
        if j < i * w {
            lemma_fundamental_div_mod(j, w);
            assert(j / w < i && j / w >= 0 && 0 <= j % w < w) by (nonlinear_arith)
                requires j < i * w, j >= 0, w >= 1, j == w * (j / w) + j % w, 0 <= j % w < w;
        } else {
            lemma_fundamental_div_mod_converse(j, w, i, j - i * w);
        }
    }
    assert(a =~= b);
}

/// The bytes at sample index `i` of an encoding are that sample's bytes.
pub proof fn lemma_encode_run_at(s: Seq<u32>, i: int, enc: SampleEncoding)
    requires
        0 <= i < s.len(),
    ensures
        encode_run(s, enc).len() == s.len() * sample_width(enc),
        (i + 1) * sample_width(enc) <= encode_run(s, enc).len(),
        encode_run(s, enc).subrange(i * sample_width(enc), (i + 1) * sample_width(enc))
            == sample_bytes(s[i], enc),
{
    let w = sample_width(enc) as int;
    let r = encode_run(s, enc);
    assert((i + 1) * w <= s.len() * w) by (nonlinear_arith)
        requires i + 1 <= s.len(), w >= 1;
    let sub = r.subrange(i * w, (i + 1) * w);
    assert(sub.len() == w) by (nonlinear_arith)
        requires sub.len() == (i + 1) * w - i * w;
    assert forall|j: int| 0 <= j < w implies sub[j] == sample_bytes(s[i], enc)[j] by {
        lemma_fundamental_div_mod_converse(i * w + j, w, i, j);
    }
    assert(sub =~= sample_bytes(s[i], enc));
}

/// Appends the encoding of every sample of `s`.
pub fn push_run(s: &Vec<u32>, enc: SampleEncoding, out: &mut Vec<u8>)
    ensures
        final(out)@ == old(out)@ + encode_run(s@, enc),
{
    let ghost start = out@;
    let mut i: usize = 0;
    while i < s.len()
        invariant
            i <= s.len(),
            out@ == start + encode_run(s@.take(i as int), enc),
        decreases s.len() - i,
    {
        proof {
            lemma_encode_run_push(s@, i as int, enc);
        }
        push_sample(s[i], enc, out);
        assert(out@ =~= start + encode_run(s@.take(i as int + 1), enc));
        i = i + 1;
    }
    assert(s@.take(s@.len() as int) =~= s@);
}

/// The RGB samples with an opaque alpha sample inserted after each pixel.
pub fn insert_alpha(s: &Vec<u32>) -> (r: Vec<u32>)
    ensures
        r@ == with_alpha(s@),
{
    let n = s.len() / 3;
    let mut r: Vec<u32> = Vec::new();
    let mut p: usize = 0;
    while p < n
        invariant
            n == s.len() / 3,
            p <= n,
            r@.len() == 4 * p,
            forall|i: int| 0 <= i < 4 * p ==> r@[i] == #[trigger] with_alpha(s@)[i],
        decreases n - p,
    {
        assert(3 * p + 2 < s.len());
        r.push(s[3 * p]);
        r.push(s[3 * p + 1]);
        r.push(s[3 * p + 2]);
        r.push(ONE_BITS);
        assert forall|i: int| 4 * p <= i < 4 * p + 4 implies r@[i] == #[trigger] with_alpha(s@)[i] by {
            lemma_fundamental_div_mod_converse(i, 4, p as int, i - 4 * p);
            assert(i < with_alpha(s@).len());
        }
        p = p + 1;
    }
    assert(r@ =~= with_alpha(s@));
    r
}

/// Whether a frame has the shape that a format asks for.
pub fn fits(f: &Frame, fmt: SourceFormat) -> (r: bool)
    ensures
        r == frame_fits(f@, fmt),
{
    let want: u32 = match fmt {
        SourceFormat::Gray => 1,
        SourceFormat::Rgb => 3,
        SourceFormat::Rgba => 4,
        SourceFormat::Unsupported => { return false; },
    };
    if f.channels != want {
        return false;
    }
    let len = f.samples.len();
    let total = (f.width as usize).checked_mul(f.height as usize);
    match total {
        Some(wh) => match wh.checked_mul(f.channels as usize) {
            Some(t) => t == len,
            None => {
                false
            },
        },
        None => {
            assert(f.width as nat * f.height as nat * f.channels as nat >= f.width as nat
                * f.height as nat) by (nonlinear_arith)
                requires f.channels >= 1;
            false
        },
    }
}

/// Appends the encoded bytes of one frame.
pub fn push_frame(f: &Frame, fmt: SourceFormat, enc: SampleEncoding, out: &mut Vec<u8>)
    ensures
        final(out)@ == old(out)@ + frame_bytes(f@, fmt, enc),
{
    if fmt == SourceFormat::Rgb {
        let expanded = insert_alpha(&f.samples);
        push_run(&expanded, enc, out);
    } else {
        push_run(&f.samples, enc, out);
    }
}

/// Encodes every frame into one buffer, which must come out exactly `size` bytes long.
pub fn assemble(frames: &Vec<Frame>, fmt: SourceFormat, enc: SampleEncoding, size: usize) -> (r:
    Result<Vec<u8>, DecodeError>)
    ensures
        bytes_view(r) == assembled(models(frames@), fmt, enc, size as nat),
{
    if fmt == SourceFormat::Unsupported {
        return Err(DecodeError::UnsupportedFormat);
    }
    let mut i: usize = 0;
    while i < frames.len()
        invariant
            i <= frames.len(),
            fmt != SourceFormat::Unsupported,
            forall|j: int| 0 <= j < i ==> frame_fits(#[trigger] models(frames@)[j], fmt),
        decreases frames.len() - i,
    {
        if !fits(&frames[i], fmt) {
            assert(!frame_fits(models(frames@)[i as int], fmt));
            return Err(DecodeError::RenderFailure);
        }
        i = i + 1;
    }
    let mut out: Vec<u8> = Vec::new();
    let mut k: usize = 0;
    while k < frames.len()
        invariant
            k <= frames.len(),
            fmt != SourceFormat::Unsupported,
            all_fit(models(frames@), fmt),
            out@ == frames_bytes(models(frames@).take(k as int), fmt, enc),
        decreases frames.len() - k,
    {
        push_frame(&frames[k], fmt, enc, &mut out);
        assert(models(frames@).take(k as int + 1).drop_last() =~= models(frames@).take(k as int));
        k = k + 1;
    }
    assert(models(frames@).take(frames@.len() as int) =~= models(frames@));
    if out.len() != size {
        return Err(DecodeError::SizeMismatch);
    }
    Ok(out)
}

/// Number of output samples a fitting frame has: its pixels times the output channels.
proof fn lemma_output_samples_len(f: FrameModel, fmt: SourceFormat)
    requires
        frame_fits(f, fmt),
    ensures
        output_samples(f.samples, fmt).len() == f.width as nat * f.height as nat
            * output_channels(fmt),
{
    let px = f.width as nat * f.height as nat;
    if fmt == SourceFormat::Rgb {
        assert(f.samples.len() == px * 3);
        lemma_fundamental_div_mod_converse(f.samples.len() as int, 3, px as int, 0);
    }
}

/// A fitting frame encodes to its pixels times the output channels times the sample width.
pub proof fn lemma_frame_bytes_len(f: FrameModel, fmt: SourceFormat, enc: SampleEncoding)
    requires
        frame_fits(f, fmt),
    ensures
        frame_bytes(f, fmt, enc).len() == f.width as nat * f.height as nat * output_channels(fmt)
            * sample_width(enc),
{
    lemma_output_samples_len(f, fmt);
}

/// A single gray or RGB frame, asked for at exactly width times height times output
/// channels times sample width bytes, is encoded in full and at that length.
pub proof fn lemma_single_frame_decodes(f: FrameModel, fmt: SourceFormat, enc: SampleEncoding)
    requires
        fmt == SourceFormat::Gray || fmt == SourceFormat::Rgb,
        frame_fits(f, fmt),
    ensures
        assembled(
            seq![f],
            fmt,
            enc,
            f.width as nat * f.height as nat * output_channels(fmt) * sample_width(enc),
        ) == Ok::<Seq<u8>, DecodeError>(frame_bytes(f, fmt, enc)),
        frame_bytes(f, fmt, enc).len() == f.width as nat * f.height as nat * output_channels(fmt)
            * sample_width(enc),
{
    lemma_frame_bytes_len(f, fmt, enc);
    lemma_one_frame_bytes(f, fmt, enc);
    let fs = seq![f];
    assert(all_fit(fs, fmt));
}

/// Whatever a single frame decodes to in one byte per sample is width times height times
/// the output channel count long.
pub proof fn lemma_single_frame_length(f: FrameModel, fmt: SourceFormat, size: nat)
    requires
        assembled(seq![f], fmt, SampleEncoding::UInt8, size) is Ok,
    ensures
        size == f.width as nat * f.height as nat * output_channels(fmt),
        assembled(seq![f], fmt, SampleEncoding::UInt8, size)->Ok_0.len() == size,
{
    let fs = seq![f];
    assert(fs[0] == f);
    assert(frame_fits(f, fmt));
    lemma_frame_bytes_len(f, fmt, SampleEncoding::UInt8);
    lemma_one_frame_bytes(f, fmt, SampleEncoding::UInt8);
}

/// In the output of an RGB frame, the fourth sample of every pixel is fully opaque.
pub proof fn lemma_rgb_alpha_opaque(f: FrameModel, enc: SampleEncoding, p: int)
    requires
        frame_fits(f, SourceFormat::Rgb),
        0 <= p < f.width as nat * f.height as nat,
    ensures
        (4 * p + 4) * sample_width(enc) <= frame_bytes(f, SourceFormat::Rgb, enc).len(),
        frame_bytes(f, SourceFormat::Rgb, enc).subrange(
            (4 * p + 3) * sample_width(enc),
            (4 * p + 4) * sample_width(enc),
        ) == opaque_bytes(enc),
{
    lemma_output_samples_len(f, SourceFormat::Rgb);
    let t = with_alpha(f.samples);
    let px = f.width as nat * f.height as nat;
    assert(t.len() == px * 4);
    assert(4 * p + 3 < px * 4);
    lemma_fundamental_div_mod_converse(4 * p + 3, 4, p, 3);
    assert(t[4 * p + 3] == ONE_BITS);
    lemma_encode_run_at(t, 4 * p + 3, enc);
    lemma_one_is_opaque(enc);
}

/// Every four-byte sample of a frame encoded as floats reads back within [0.0, 1.0].
pub proof fn lemma_float_output_in_unit(f: FrameModel, fmt: SourceFormat, i: int)
    requires
        frame_fits(f, fmt),
        0 <= i < f.width as nat * f.height as nat * output_channels(fmt),
    ensures
        4 * i + 4 <= frame_bytes(f, fmt, SampleEncoding::Float32Le).len(),
        le_word(frame_bytes(f, fmt, SampleEncoding::Float32Le).subrange(4 * i, 4 * i + 4))
            <= ONE_BITS,
{
    lemma_output_samples_len(f, fmt);
    lemma_float_run_in_unit(output_samples(f.samples, fmt), i);
}

pub proof fn lemma_float_run_in_unit(t: Seq<u32>, i: int)
    requires
        0 <= i < t.len(),
    ensures
        4 * i + 4 <= encode_run(t, SampleEncoding::Float32Le).len(),
        le_word(encode_run(t, SampleEncoding::Float32Le).subrange(4 * i, 4 * i + 4)) <= ONE_BITS,
{
    lemma_encode_run_at(t, i, SampleEncoding::Float32Le);
    let sub = encode_run(t, SampleEncoding::Float32Le).subrange(4 * i, 4 * i + 4);
    assert(sub == sample_bytes(t[i], SampleEncoding::Float32Le));
    lemma_float_sample_in_unit(t[i]);
}

/// The bytes of a one-frame sequence are that frame's bytes.
pub proof fn lemma_one_frame_bytes(f: FrameModel, fmt: SourceFormat, enc: SampleEncoding)
    ensures
        frames_bytes(seq![f], fmt, enc) == frame_bytes(f, fmt, enc),
{
    let fs = seq![f];
    assert(fs.drop_last() =~= Seq::<FrameModel>::empty());
    assert(fs.last() == f);
    reveal_with_fuel(frames_bytes, 2);
    assert(Seq::<u8>::empty() + frame_bytes(f, fmt, enc) =~= frame_bytes(f, fmt, enc));
}

} // verus!
