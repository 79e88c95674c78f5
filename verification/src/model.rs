//! Requests, response envelopes and errors of the image service.

use vstd::prelude::*;

verus! {

/// A request to process one image, given either by URL or inline as base64.
#[derive(Debug)]
pub struct ProcessImageRequest {
    /// Where to download the image from.
    pub image_url: Option<String>,
    /// The image itself, base64 encoded.
    pub image_data: Option<String>,
    /// Requested output format; PNG where absent.
    pub output_format: Option<String>,
}

/// A processed image, ready to be sent.
#[derive(Debug)]
pub struct ProcessImageData {
    /// The encoded image, as base64 text.
    pub processed_image: String,
    /// The format the image is encoded in.
    pub format: String,
}

/// The envelope around every response.
#[derive(Debug)]
pub struct CommonResp<T> {
    pub data: Option<T>,
    pub message: String,
    pub code: i32,
}

impl<T> CommonResp<T> {
    /// The envelope of a successful response: code 0 and message `success`.
    pub fn success(data: T) -> (response: Self)
        ensures
            response.data == Some(data),
            response.message@ == "success"@,
            response.code == 0,
    {
        CommonResp { data: Some(data), message: "success".to_string(), code: 0 }
    }

    /// The envelope of a failed response: code -1 and no data.
    pub fn error(message: String) -> (response: Self)
        ensures
            response.data is None,
            response.message == message,
            response.code == -1,
    {
        CommonResp { data: None, message, code: -1 }
    }
}

/// What can go wrong while serving a request. Each variant carries the
/// detail text of its cause.
#[derive(Debug)]
pub enum AppError {
    ImageDownload(String),
    ImageProcessing(String),
    Base64Decode(String),
    InvalidInput(String),
    Internal(String),
}

impl AppError {
    /// The detail text carried by the error.
    pub open spec fn detail(self) -> Seq<char> {
        match self {
            AppError::ImageDownload(detail) => detail@,
            AppError::ImageProcessing(detail) => detail@,
            AppError::Base64Decode(detail) => detail@,
            AppError::InvalidInput(detail) => detail@,
            AppError::Internal(detail) => detail@,
        }
    }

    /// The text that introduces the detail in the error's message.
    pub open spec fn prefix(self) -> Seq<char> {
        match self {
            AppError::ImageDownload(_) => "图片下载失败: "@,
            AppError::ImageProcessing(_) => "图片处理失败: "@,
            AppError::Base64Decode(_) => "Base64解码失败: "@,
            AppError::InvalidInput(_) => "输入错误: "@,
            AppError::Internal(_) => "内部服务器错误: "@,
        }
    }

    /// The HTTP status an error is reported with: 400 where the request is
    /// at fault, 500 otherwise.
    pub open spec fn status(self) -> u16 {
        match self {
            AppError::InvalidInput(_) => 400,
            AppError::ImageDownload(_) => 400,
            AppError::Base64Decode(_) => 400,
            _ => 500,
        }
    }

    /// The message shown to the client: the variant's prefix, then the detail.
    pub fn message(&self) -> (text: String)
        ensures
            text@ == self.prefix() + self.detail(),
    {
        match self {
            AppError::ImageDownload(detail) => String::from_str("图片下载失败: ").concat(
                detail.as_str(),
            ),
            AppError::ImageProcessing(detail) => String::from_str("图片处理失败: ").concat(
                detail.as_str(),
            ),
            AppError::Base64Decode(detail) => String::from_str("Base64解码失败: ").concat(
                detail.as_str(),
            ),
            AppError::InvalidInput(detail) => String::from_str("输入错误: ").concat(detail.as_str()),
            AppError::Internal(detail) => String::from_str("内部服务器错误: ").concat(
                detail.as_str(),
            ),
        }
    }

    /// The HTTP status the error is reported with.
    pub fn status_code(&self) -> (code: u16)
        ensures
            code == self.status(),
    {
        match self {
            AppError::InvalidInput(_) => 400,
            AppError::ImageDownload(_) => 400,
            AppError::Base64Decode(_) => 400,
            _ => 500,
        }
    }

    /// The envelope an error is reported in.
    pub fn response(&self) -> (response: CommonResp<()>)
        ensures
            response.data is None,
            response.message@ == self.prefix() + self.detail(),
            response.code == -1,
    {
        CommonResp::error(self.message())
    }
}

} // verus!
