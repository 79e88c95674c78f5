//! The image service: decoding requests into pixels, removing the
//! background, and encoding the result.

use vstd::prelude::*;
use crate::buffer::{RgbaBuffer, bytes_from_pixels, pixels_from_bytes};
use crate::codec::{
    base64_decode,
    base64_decoding,
    base64_encode,
    base64_encoding,
    decode_rgba,
    describe_decode_error,
    describe_image_error,
    encode_rgba,
    encoded_image,
};
use crate::grid::Grid;
use crate::model::AppError;
use crate::pixel::Pixel;
use crate::remover::{BackgroundRemover, removed_background};
use crate::text::str_equal;

verus! {

/// The image encodings that results can be delivered in.
#[derive(Clone, Copy, Debug, PartialEq, Eq, Structural)]
pub enum OutputFormat {
    Png,
    Jpeg,
    WebP,
}

/// The format a format name selects: `png`, `jpg` or `jpeg`, and `webp` by
/// name; PNG for every other name.
pub open spec fn format_named(name: Seq<char>) -> OutputFormat {
    if name == "jpg"@ || name == "jpeg"@ {
        OutputFormat::Jpeg
    } else if name == "webp"@ {
        OutputFormat::WebP
    } else {
        OutputFormat::Png
    }
}

/// The image that raw RGBA bytes of the given dimensions describe.
pub open spec fn raw_image(width: u32, height: u32, data: Seq<u8>) -> Grid<Pixel> {
    Grid { width: width as nat, height: height as nat, cells: pixels_from_bytes(data) }
}

/// Image processing as a service.
pub struct ImageProcessService;

impl ImageProcessService {
    pub fn new() -> (service: Self)
        ensures
            service == ImageProcessService,
    {
        ImageProcessService
    }

    /// Decodes the base64 text of an image into its bytes. Text that is not
    /// valid base64 is refused with `Base64Decode`.
    pub fn decode_base64_image(&self, data: &str) -> (result: Result<Vec<u8>, AppError>)
        ensures
            match base64_decoding(data@) {
                Some(bytes) => result matches Ok(decoded) && decoded@ == bytes,
                None => result matches Err(error) && error is Base64Decode,
            },
    {
        match base64_decode(data) {
            Ok(bytes) => Ok(bytes),
            Err(error) => Err(AppError::Base64Decode(describe_decode_error(&error))),
        }
    }

    /// Removes the background of a decoded image given as raw RGBA bytes.
    /// Bytes that are not exactly four per pixel are refused with
    /// `ImageProcessing`.
    pub fn process_decoded(&self, width: u32, height: u32, data: Vec<u8>) -> (result: Result<
        RgbaBuffer,
        AppError,
    >)
        ensures
            data@.len() == 4 * (width * height) ==> (result matches Ok(output) && output@
                == removed_background(raw_image(width, height, data@), 30, 2)),
            data@.len() != 4 * (width * height) ==> (result matches Err(error) && error
                is ImageProcessing),
    {
        match RgbaBuffer::from_raw(width, height, &data) {
            None => Err(
                AppError::ImageProcessing(
                    "pixel data does not match the image dimensions".to_string(),
                ),
            ),
            Some(image) => {
                let remover = BackgroundRemover::new();
                match remover.remove_background(image) {
                    Ok(output) => Ok(output),
                    Err(error) => Err(AppError::ImageProcessing(describe_image_error(&error))),
                }
            },
        }
    }

    /// Decodes an encoded image and removes its background. Whatever the
    /// decoder makes of the bytes, a result is the background-removed form
    /// of some well-formed image, and a failure is an `ImageProcessing`
    /// error.
    pub fn process_image_data(&self, image_data: Vec<u8>) -> (result: Result<RgbaBuffer, AppError>)
        ensures
            result matches Ok(output) ==> exists|source: Grid<Pixel>|
                source.wf() && output@ == #[trigger] removed_background(source, 30, 2),
            result matches Err(error) ==> error is ImageProcessing,
    {
        match decode_rgba(image_data.as_slice()) {
            Err(error) => Err(AppError::ImageProcessing(describe_image_error(&error))),
            Ok((width, height, data)) => {
                let result = self.process_decoded(width, height, data);
                proof {
                    if result is Ok {
                        let source = raw_image(width, height, data@);
                        assert(source.wf());
                        assert(result.unwrap()@ == removed_background(source, 30, 2));
                    }
                }
                result
            },
        }
    }

    /// The format that a format name selects.
    pub fn output_format(&self, name: &str) -> (format: OutputFormat)
        ensures
            format == format_named(name@),
    {
        if str_equal(name, "jpg") || str_equal(name, "jpeg") {
            OutputFormat::Jpeg
        } else if str_equal(name, "webp") {
            OutputFormat::WebP
        } else {
            OutputFormat::Png
        }
    }

    /// Encodes an image in the named format and returns the encoding as
    /// base64 text. An image the encoder refuses gives `ImageProcessing`.
    pub fn image_to_base64(&self, image: RgbaBuffer, format: &str) -> (result: Result<
        String,
        AppError,
    >)
        ensures
            match encoded_image(
                format_named(format@),
                image@.width,
                image@.height,
                bytes_from_pixels(image@.cells),
            ) {
                Some(bytes) => result matches Ok(text) && text@ == base64_encoding(bytes),
                None => result matches Err(error) && error is ImageProcessing,
            },
    {
        let target = self.output_format(format);
        let (width, height) = image.dimensions();
        let count = image.pixel_count();
        let data = image.to_raw();
        match encode_rgba(width, height, data, target) {
            Ok(bytes) => Ok(base64_encode(bytes.as_slice())),
            Err(error) => Err(AppError::ImageProcessing(describe_image_error(&error))),
        }
    }
}

impl Default for ImageProcessService {
    fn default() -> (service: Self)
        ensures
            service == ImageProcessService,
    {
        Self::new()
    }
}

} // verus!
