//! The calls into the jxl-oxide decoder that the library relies on.
use vstd::prelude::*;
use crate::frame::SourceFormat;

verus! {

/// A parsed JPEG XL image, opaque to the proofs.
#[verifier::external_type_specification]
#[verifier::external_body]
pub struct ExJxlImage(jxl_oxide::JxlImage);

/// One rendered keyframe, opaque to the proofs.
#[verifier::external_type_specification]
#[verifier::external_body]
pub struct ExRender(jxl_oxide::Render);

/// Whether the decoder accepts a byte string as a complete JPEG XL image.
pub uninterp spec fn parses(data: Seq<u8>) -> bool;

/// The width in the header of the image that a byte string holds.
pub uninterp spec fn header_width_of(data: Seq<u8>) -> u32;

/// The height in the header of the image that a byte string holds.
pub uninterp spec fn header_height_of(data: Seq<u8>) -> u32;

/// How many keyframes the decoder loads from a byte string.
pub uninterp spec fn keyframes_of(data: Seq<u8>) -> usize;

/// The pixel layout the decoder renders a byte string in.
pub uninterp spec fn format_of(data: Seq<u8>) -> SourceFormat;

/// Whether keyframe `k` of a byte string renders.
pub uninterp spec fn renders_of(data: Seq<u8>, k: nat) -> bool;

/// Width, height and channel count of the raster that keyframe `k` of a byte string renders to.
pub uninterp spec fn shape_of(data: Seq<u8>, k: nat) -> (u32, u32, u32);

/// A parsed image together with the bytes it was parsed from.
pub struct ParsedImage {
    inner: jxl_oxide::JxlImage,
    source: Ghost<Seq<u8>>,
}

impl ParsedImage {
    /// The bytes this image was parsed from.
    pub closed spec fn source(&self) -> Seq<u8> {
        self.source@
    }
}

/// A rendered keyframe together with the bytes and the keyframe index it came from.
pub struct RenderedKeyframe {
    inner: jxl_oxide::Render,
    source: Ghost<Seq<u8>>,
    index: Ghost<nat>,
}

impl RenderedKeyframe {
    /// The bytes of the image this keyframe was rendered from.
    pub closed spec fn source(&self) -> Seq<u8> {
        self.source@
    }

    /// The index of the keyframe.
    pub closed spec fn index(&self) -> nat {
        self.index@
    }
}

/// Relies on `JxlImageBuilder::read`: whether the image is accepted depends on the bytes
/// alone, and a reader that yields no byte at all is refused before any parsing.
#[verifier::external_body]
fn open_image(data: &[u8]) -> (r: Option<jxl_oxide::JxlImage>)
    ensures
        r is Some == parses(data@),
        data@.len() == 0 ==> r is None,
{
    jxl_oxide::JxlImage::builder().read(data).ok()
}

/// Parses a byte string, keeping track of the bytes the image came from.
pub(crate) fn open(data: &[u8]) -> (r: Option<ParsedImage>)
    ensures
        r is Some == parses(data@),
        r is Some ==> r->Some_0.source() == data@,
{
    match open_image(data) {
        Some(inner) => Some(ParsedImage { inner, source: Ghost(data@) }),
        None => None,
    }
}

/// Relies on `ImageHeader::size`: the width stored in the image header.
#[verifier::external_body]
pub(crate) fn header_width(image: &ParsedImage) -> (r: u32)
    ensures
        r == header_width_of(image.source()),
{
    image.inner.image_header().size.width
}

/// Relies on `ImageHeader::size`: the height stored in the image header.
#[verifier::external_body]
pub(crate) fn header_height(image: &ParsedImage) -> (r: u32)
    ensures
        r == header_height_of(image.source()),
{
    image.inner.image_header().size.height
}

/// Relies on `JxlImage::num_loaded_keyframes`: how many keyframes were loaded.
#[verifier::external_body]
pub(crate) fn keyframe_count(image: &ParsedImage) -> (r: usize)
    ensures
        r == keyframes_of(image.source()),
{
    image.inner.num_loaded_keyframes()
}

/// Relies on `JxlImage::pixel_format`: the layout rendered frames have; layouts with gray
/// alpha or a black channel are reported as unsupported.
#[verifier::external_body]
pub(crate) fn source_format(image: &ParsedImage) -> (r: SourceFormat)
    ensures
        r == format_of(image.source()),
{
    match image.inner.pixel_format() {
        jxl_oxide::PixelFormat::Gray => SourceFormat::Gray,
        jxl_oxide::PixelFormat::Rgb => SourceFormat::Rgb,
        jxl_oxide::PixelFormat::Rgba => SourceFormat::Rgba,
        jxl_oxide::PixelFormat::Graya => SourceFormat::Unsupported,
        jxl_oxide::PixelFormat::Cmyk => SourceFormat::Unsupported,
        jxl_oxide::PixelFormat::Cmyka => SourceFormat::Unsupported,
    }
}

/// Relies on `JxlImage::render_frame`: renders one keyframe, or fails (also for an index
/// past the loaded keyframes).
#[verifier::external_body]
fn render_keyframe(image: &ParsedImage, index: usize) -> (r: Option<jxl_oxide::Render>)
    ensures
        r is Some == renders_of(image.source(), index as nat),
{
    image.inner.render_frame(index).ok()
}

/// Renders keyframe `index`, keeping track of where the render came from.
pub(crate) fn render(image: &ParsedImage, index: usize) -> (r: Option<RenderedKeyframe>)
    ensures
        r is Some == renders_of(image.source(), index as nat),
        r is Some ==> r->Some_0.source() == image.source() && r->Some_0.index() == index as nat,
{
    match render_keyframe(image, index) {
        Some(inner) => Some(
            RenderedKeyframe { inner, source: Ghost(image.source()), index: Ghost(index as nat) },
        ),
        None => None,
    }
}

/// Relies on `Render::stream` and `ImageStream::{width, height, channels}`: the shape of
/// the interleaved raster a render streams out.
#[verifier::external_body]
pub(crate) fn stream_shape(render: &RenderedKeyframe) -> (r: (u32, u32, u32))
    ensures
        r == shape_of(render.source(), render.index()),
{
    let stream = render.inner.stream();
    (stream.width(), stream.height(), stream.channels())
}

/// Relies on `FrameBuffer::new` and `ImageStream::write_to_buffer`: streams the first `len`
/// interleaved samples of a render into a buffer of exactly `len` samples, each handed back
/// as its single-precision bit pattern. The sample values depend on the machine (the color
/// transfer picks a code path by CPU features), so nothing is promised of them.
#[verifier::external_body]
pub(crate) fn stream_samples(render: &RenderedKeyframe, len: usize) -> (r: Vec<u32>)
    ensures
        r@.len() == len,
{
    let mut fb = jxl_oxide::FrameBuffer::new(len, 1, 1);
    render.inner.stream().write_to_buffer(fb.buf_mut());
    fb.buf().iter().map(|s| s.to_bits()).collect()
}

} // verus!
