//! Decoded pages, and the two calls into the PNG decoder that produce them.

use crate::atlas::info::PageInfo;
use vstd::prelude::*;

verus! {

/// What the header of a PNG image says of the frame that the decoder hands
/// out: its size in pixels, the samples per pixel, the bytes per row, and the
/// bytes of the whole frame.
#[derive(Clone, Copy, Debug, PartialEq, Eq, Structural)]
pub struct PngHeader {
    pub width: u32,
    pub height: u32,
    pub samples: usize,
    pub line_size: usize,
    pub buffer_size: usize,
}

/// The header that the decoder reads from `bytes`, where it accepts them.
pub uninterp spec fn png_header(bytes: Seq<u8>) -> Option<PngHeader>;

/// The frame that the decoder writes over a buffer that holds `buffer`,
/// where it can decode `bytes` to the end.
pub uninterp spec fn png_frame(bytes: Seq<u8>, buffer: Seq<u8>) -> Option<Seq<u8>>;

/// `png::Decoder::new` on the bytes with the default limits and
/// transformations, then `Decoder::read_info`, which reads up to the image
/// data and fails where the header is missing or invalid or the frame would
/// not fit in memory. The fields are those of `png::OutputInfo`, with
/// `ColorType::samples` (one to four) and `OutputInfo::buffer_size` (the row
/// size times the height) in place of the colour type. With the default
/// transformations every sample of the frame takes one byte, so a row takes
/// as many bytes as it has samples.
#[verifier::external_body]
pub(crate) fn read_png_header(bytes: &[u8]) -> (res: Result<PngHeader, png::DecodingError>)
    ensures
        res is Ok <==> png_header(bytes@) is Some,
        res matches Ok(header) ==> png_header(bytes@) == Some(header) && 1 <= header.samples <= 4
            && header.line_size == header.width * header.samples && header.buffer_size
            == header.line_size * header.height,
{
    let (info, _) = png::Decoder::new(bytes).read_info()?;
    Ok(
        PngHeader {
            width: info.width,
            height: info.height,
            samples: info.color_type.samples(),
            line_size: info.line_size,
            buffer_size: info.buffer_size(),
        },
    )
}

/// `png::Decoder::new` and `Decoder::read_info` as above, then
/// `Reader::next_frame`, which decodes the first frame into the buffer and
/// fails where the buffer is too small or the image data are corrupt or cut
/// short. The buffer keeps its length.
#[verifier::external_body]
pub(crate) fn read_png_frame(bytes: &[u8], buffer: &mut Vec<u8>) -> (res: Result<
    (),
    png::DecodingError,
>)
    ensures
        final(buffer)@.len() == old(buffer)@.len(),
        res is Ok <==> png_frame(bytes@, old(buffer)@) is Some,
        res is Ok ==> png_frame(bytes@, old(buffer)@) == Some(final(buffer)@),
{
    let (_, mut reader) = png::Decoder::new(bytes).read_info()?;
    reader.next_frame(buffer)
}

/// `png::DecodingError::LimitsExceeded`, the error with which the decoder
/// turns down an image that is too large for it.
#[verifier::external_body]
pub(crate) fn limits_exceeded() -> png::DecodingError {
    png::DecodingError::LimitsExceeded
}

/// One decoded page: its pixels, row after row, and its shape.
#[derive(Debug)]
pub struct HieroPage {
    pixels: Vec<u8>,
    info: PageInfo,
}

/// What a [`HieroPage`] holds, as mathematical values.
pub struct PageView {
    pub pixels: Seq<u8>,
    pub info: PageInfo,
}

impl View for HieroPage {
    type V = PageView;

    closed spec fn view(&self) -> PageView {
        PageView { pixels: self.pixels@, info: self.info }
    }
}

/// The shape of the page that a header announces. A row size beyond 32 bits
/// is cut to 32 bits.
pub open spec fn page_info_of(header: PngHeader) -> PageInfo {
    PageInfo {
        width: header.width,
        height: header.height,
        samples: header.samples as u32,
        line_size: header.line_size as u32,
    }
}

impl HieroPage {
    /// A page of the shape that `header` announces, without pixels yet.
    pub fn from_header(header: PngHeader) -> (res: Self)
        ensures
            res@ == (PageView { pixels: Seq::empty(), info: page_info_of(header) }),
    {
        Self {
            pixels: Vec::new(),
            info: PageInfo {
                width: header.width,
                height: header.height,
                samples: #[verifier::truncate]
                (header.samples as u32),
                line_size: #[verifier::truncate]
                (header.line_size as u32),
            },
        }
    }

    /// The pixels of the page.
    pub fn pixels(&self) -> (res: &Vec<u8>)
        ensures
            res@ == self@.pixels,
    {
        &self.pixels
    }

    /// The shape of the page.
    pub fn info(&self) -> (res: PageInfo)
        ensures
            res == self@.info,
    {
        self.info
    }

    /// The same page with other pixels.
    pub fn with_pixels(self, data: Vec<u8>) -> (res: Self)
        ensures
            res@ == (PageView { pixels: data@, info: self@.info }),
    {
        Self { pixels: data, info: self.info }
    }
}

impl Default for HieroPage {
    fn default() -> (res: Self)
        ensures
            res@ == (PageView {
                pixels: Seq::empty(),
                info: PageInfo { width: 0, height: 0, samples: 0, line_size: 0 },
            }),
    {
        Self { pixels: Vec::new(), info: PageInfo::default() }
    }
}

} // verus!
