//! The calls into the `base64` and `image` crates, and into the parts of
//! `std` that handle text. Their contracts are taken on trust: they state
//! what the crates' sources and documentation show, and nothing here proves
//! them.

use vstd::prelude::*;
use vstd::utf8::{decode_utf8, valid_utf8};
use crate::service::OutputFormat;

verus! {

/// The error type of `base64` decoding, carried through as an opaque value.
#[verifier::external_type_specification]
#[verifier::external_body]
pub struct ExDecodeError(base64::DecodeError);

/// The error type of the `image` crate, carried through as an opaque value.
#[verifier::external_type_specification]
#[verifier::external_body]
pub struct ExImageError(image::ImageError);

/// The bytes that a text decodes to under standard padded base64, or `None`
/// where the text is not valid base64.
pub uninterp spec fn base64_decoding(text: Seq<char>) -> Option<Seq<u8>>;

/// The standard padded base64 text of a byte sequence.
pub uninterp spec fn base64_encoding(bytes: Seq<u8>) -> Seq<char>;

/// The encoding of an RGBA image of the given size in the given format,
/// or `None` where the encoder refuses the image.
pub uninterp spec fn encoded_image(
    format: OutputFormat,
    width: nat,
    height: nat,
    rgba: Seq<u8>,
) -> Option<Seq<u8>>;

/// The lower-case form of a text, as Unicode defines it.
pub uninterp spec fn lowercase(text: Seq<char>) -> Seq<char>;

/// Calls `Engine::decode` of `base64` on the `STANDARD` engine. The result
/// depends on the text alone: it is the decoded bytes when the text is valid
/// base64 and an error otherwise.
#[verifier::external_body]
pub(crate) fn base64_decode(data: &str) -> (result: Result<Vec<u8>, base64::DecodeError>)
    ensures
        result is Ok <==> base64_decoding(data@) is Some,
        result matches Ok(bytes) ==> base64_decoding(data@) == Some(bytes@),
{
    base64::Engine::decode(&base64::engine::general_purpose::STANDARD, data)
}

/// Calls `Engine::encode` of `base64` on the `STANDARD` engine. The text
/// depends on the bytes alone. The call fails only where the encoded length
/// overflows `usize`, which no byte slice in memory is long enough for.
#[verifier::external_body]
pub(crate) fn base64_encode(bytes: &[u8]) -> (text: String)
    ensures
        text@ == base64_encoding(bytes@),
{
    base64::Engine::encode(&base64::engine::general_purpose::STANDARD, bytes)
}

/// Formats a `base64::DecodeError` through its `Display` impl. Nothing is
/// claimed of the text.
#[verifier::external_body]
pub(crate) fn describe_decode_error(error: &base64::DecodeError) -> (text: String) {
    error.to_string()
}

/// Formats an `image::ImageError` through its `Display` impl. Nothing is
/// claimed of the text.
#[verifier::external_body]
pub(crate) fn describe_image_error(error: &image::ImageError) -> (text: String) {
    error.to_string()
}

/// Calls `image::load_from_memory`, which guesses the format and decodes,
/// then `DynamicImage::to_rgba8`, and hands back width, height and the raw
/// RGBA bytes. Which formats are recognised depends on the decoders
/// registered in the process, so nothing is claimed of the result; callers
/// check the bytes against the dimensions themselves.
#[verifier::external_body]
pub(crate) fn decode_rgba(bytes: &[u8]) -> (result: Result<(u32, u32, Vec<u8>), image::ImageError>) {
    let decoded = image::load_from_memory(bytes)?.to_rgba8();
    let (width, height) = decoded.dimensions();
    Ok((width, height, decoded.into_raw()))
}

/// Wraps raw RGBA bytes with `ImageBuffer::from_raw` and calls
/// `DynamicImage::write_to` with an in-memory cursor. The encoders work from
/// the format, the dimensions and the bytes alone; `write_to` converts the
/// colour type where a format cannot hold RGBA. The encoders insist on
/// exactly four bytes per pixel. Dimensions that `from_raw` refuses come
/// back as the crate's dimension mismatch error.
#[verifier::external_body]
pub(crate) fn encode_rgba(width: u32, height: u32, data: Vec<u8>, format: OutputFormat) -> (result:
    Result<Vec<u8>, image::ImageError>)
    requires
        data@.len() == 4 * (width * height),
    ensures
        result is Ok <==> encoded_image(format, width as nat, height as nat, data@) is Some,
        result matches Ok(bytes) ==> encoded_image(format, width as nat, height as nat, data@)
            == Some(bytes@),
{
    let target = match format {
        OutputFormat::Png => image::ImageFormat::Png,
        OutputFormat::Jpeg => image::ImageFormat::Jpeg,
        OutputFormat::WebP => image::ImageFormat::WebP,
    };
    let buffer = match image::RgbaImage::from_raw(width, height, data) {
        Some(buffer) => buffer,
        None => return Err(image::ImageError::Parameter(image::error::ParameterError::from_kind(
            image::error::ParameterErrorKind::DimensionMismatch,
        ))),
    };
    let mut bytes: Vec<u8> = Vec::new();
    image::DynamicImage::ImageRgba8(buffer).write_to(&mut std::io::Cursor::new(&mut bytes), target)?;
    Ok(bytes)
}

/// Calls `str::to_lowercase`, whose result depends on the text alone.
#[verifier::external_body]
pub(crate) fn to_lowercase(text: &str) -> (lower: String)
    ensures
        lower@ == lowercase(text@),
{
    text.to_lowercase()
}

/// Calls `String::from_utf8`, which succeeds exactly on valid UTF-8 and then
/// holds the characters that the bytes encode.
#[verifier::external_body]
pub(crate) fn text_from_utf8(bytes: Vec<u8>) -> (text: Option<String>)
    ensures
        text is Some <==> valid_utf8(bytes@),
        text matches Some(s) ==> s@ == decode_utf8(bytes@),
{
    String::from_utf8(bytes).ok()
}

} // verus!
