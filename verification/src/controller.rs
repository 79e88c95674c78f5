//! The decisions of the request handlers: where an image comes from, which
//! format it goes out in, and what a form upload adds up to.

use vstd::prelude::*;
use vstd::utf8::{decode_utf8, valid_utf8};
use crate::buffer::{RgbaBuffer, bytes_from_pixels};
use crate::codec::{
    base64_encoding,
    encoded_image,
    lowercase,
    text_from_utf8,
    to_lowercase,
};
use crate::grid::Grid;
use crate::model::{AppError, CommonResp, ProcessImageData, ProcessImageRequest};
use crate::pixel::Pixel;
use crate::service::{ImageProcessService, format_named};
use crate::text::str_equal;

verus! {

/// Where the image of a request comes from.
#[derive(Debug)]
pub enum ImageSource {
    /// Download it from this URL.
    Url(String),
    /// Decode it from this base64 text.
    Base64(String),
}

/// What a field of a form upload is for, going by its name.
#[derive(Clone, Copy, Debug, PartialEq, Eq, Structural)]
pub enum FormField {
    /// The field named `image`: the image file.
    Image,
    /// The field named `format`: the output format.
    Format,
    /// Any other field; its content is not read.
    Other,
}

/// What the fields of a form upload have added up to so far.
#[derive(Debug)]
pub struct FormUpload {
    pub image_data: Option<Vec<u8>>,
    pub output_format: String,
}

/// The field kind that a field name selects.
pub open spec fn field_named(name: Seq<char>) -> FormField {
    if name == "image"@ {
        FormField::Image
    } else if name == "format"@ {
        FormField::Format
    } else {
        FormField::Other
    }
}

/// The output format that the bytes of a `format` field name: their text
/// where they are valid UTF-8, and `png` otherwise.
pub open spec fn format_text(data: Seq<u8>) -> Seq<char> {
    if valid_utf8(data) {
        decode_utf8(data)
    } else {
        "png"@
    }
}

/// The text the response carries for an image delivered in a named format:
/// the base64 form of its encoding, where the encoder accepts the image.
pub open spec fn delivered_text(image: Grid<Pixel>, format: Seq<char>) -> Option<Seq<char>> {
    match encoded_image(
        format_named(format),
        image.width,
        image.height,
        bytes_from_pixels(image.cells),
    ) {
        Some(bytes) => Some(base64_encoding(bytes)),
        None => None,
    }
}

impl FormUpload {
    /// An upload with no image yet and output format `png`.
    pub fn new() -> (upload: Self)
        ensures
            upload.image_data is None,
            upload.output_format@ == "png"@,
    {
        FormUpload { image_data: None, output_format: "png".to_string() }
    }

    /// Takes in the content of one field. An `image` field replaces the
    /// image, a `format` field replaces the output format, and any other
    /// field changes nothing.
    pub fn accept(&mut self, field: FormField, data: Vec<u8>)
        ensures
            field == FormField::Image ==> final(self).image_data == Some(data)
                && final(self).output_format == old(self).output_format,
            field == FormField::Format ==> final(self).image_data == old(self).image_data
                && final(self).output_format@ == format_text(data@),
            field == FormField::Other ==> *final(self) == *old(self),
    {
        match field {
            FormField::Image => {
                self.image_data = Some(data);
            },
            FormField::Format => {
                self.output_format = match text_from_utf8(data) {
                    Some(text) => text,
                    None => "png".to_string(),
                };
            },
            FormField::Other => {},
        }
    }

    /// The image and output format of a finished upload. An upload without
    /// an image is refused with `InvalidInput`.
    pub fn finish(self) -> (result: Result<(Vec<u8>, String), AppError>)
        ensures
            match self.image_data {
                Some(data) => result == Ok::<(Vec<u8>, String), AppError>(
                    (data, self.output_format),
                ),
                None => result matches Err(AppError::InvalidInput(text)) && text@
                    == "未找到图片文件"@,
            },
    {
        match self.image_data {
            Some(data) => Ok((data, self.output_format)),
            None => Err(AppError::InvalidInput("未找到图片文件".to_string())),
        }
    }
}

/// Handles image processing requests.
pub struct ImageController {
    service: ImageProcessService,
}

impl ImageController {
    /// The service this controller hands its work to.
    pub closed spec fn service_model(&self) -> ImageProcessService {
        self.service
    }

    pub fn new() -> (controller: Self)
        ensures
            controller.service_model() == ImageProcessService,
    {
        ImageController { service: ImageProcessService::new() }
    }

    /// Where the image of a request comes from. A request must name exactly
    /// one of URL and inline data; both or neither is refused with
    /// `InvalidInput`.
    pub fn image_source(&self, request: &ProcessImageRequest) -> (result: Result<
        ImageSource,
        AppError,
    >)
        ensures
            match (request.image_url, request.image_data) {
                (Some(url), None) => result matches Ok(ImageSource::Url(chosen)) && chosen@
                    == url@,
                (None, Some(data)) => result matches Ok(ImageSource::Base64(chosen)) && chosen@
                    == data@,
                (Some(_), Some(_)) => result matches Err(AppError::InvalidInput(text)) && text@
                    == "请只提供image_url或image_data中的一个"@,
                (None, None) => result matches Err(AppError::InvalidInput(text)) && text@
                    == "请提供image_url或image_data"@,
            },
    {
        match (&request.image_url, &request.image_data) {
            (Some(url), None) => Ok(ImageSource::Url(url.clone())),
            (None, Some(data)) => Ok(ImageSource::Base64(data.clone())),
            (Some(_), Some(_)) => Err(
                AppError::InvalidInput("请只提供image_url或image_data中的一个".to_string()),
            ),
            (None, None) => Err(AppError::InvalidInput("请提供image_url或image_data".to_string())),
        }
    }

    /// The output format of a request: the requested one, or `png` where
    /// none is given, in lower case.
    pub fn requested_format(&self, request: &ProcessImageRequest) -> (format: String)
        ensures
            format@ == lowercase(
                match request.output_format {
                    Some(name) => name@,
                    None => "png"@,
                },
            ),
    {
        match &request.output_format {
            Some(name) => to_lowercase(name.as_str()),
            None => to_lowercase("png"),
        }
    }

    /// What a form field is for, going by its name.
    pub fn form_field(&self, name: &str) -> (field: FormField)
        ensures
            field == field_named(name@),
    {
        if str_equal(name, "image") {
            FormField::Image
        } else if str_equal(name, "format") {
            FormField::Format
        } else {
            FormField::Other
        }
    }

    /// Wraps a processed image for the response: encodes it in the named
    /// format and reports that format next to the text.
    pub fn deliver(&self, image: RgbaBuffer, output_format: String) -> (result: Result<
        CommonResp<ProcessImageData>,
        AppError,
    >)
        ensures
            match delivered_text(image@, output_format@) {
                Some(text) => result matches Ok(response) && response.code == 0
                    && response.message@ == "success"@ && (response.data matches Some(data)
                    && data.processed_image@ == text && data.format == output_format),
                None => result matches Err(error) && error is ImageProcessing,
            },
    {
        match self.service.image_to_base64(image, output_format.as_str()) {
            Ok(text) => Ok(
                CommonResp::success(
                    ProcessImageData { processed_image: text, format: output_format },
                ),
            ),
            Err(error) => Err(error),
        }
    }
}

impl Default for ImageController {
    fn default() -> (controller: Self)
        ensures
            controller.service_model() == ImageProcessService,
    {
        Self::new()
    }
}

} // verus!
