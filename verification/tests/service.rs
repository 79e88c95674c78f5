use image_processor::buffer::RgbaBuffer;
use image_processor::controller::{FormField, FormUpload, ImageController, ImageSource};
use image_processor::model::{AppError, CommonResp, ProcessImageRequest};
use image_processor::pixel::Pixel;
use image_processor::service::{ImageProcessService, OutputFormat};

const WHITE: Pixel = Pixel { r: 255, g: 255, b: 255, a: 255 };
const BLACK: Pixel = Pixel { r: 0, g: 0, b: 0, a: 255 };

fn request(url: Option<&str>, data: Option<&str>, format: Option<&str>) -> ProcessImageRequest {
    ProcessImageRequest {
        image_url: url.map(|s| s.to_string()),
        image_data: data.map(|s| s.to_string()),
        output_format: format.map(|s| s.to_string()),
    }
}

fn sample_image() -> RgbaBuffer {
    let mut image = RgbaBuffer::from_pixel(10, 10, WHITE);
    image.put_pixel(5, 5, BLACK);
    image
}

#[test]
fn success_envelope() {
    let response = CommonResp::success(7u8);
    assert_eq!(response.data, Some(7));
    assert_eq!(response.message, "success");
    assert_eq!(response.code, 0);
}

#[test]
fn error_envelope() {
    let response = CommonResp::<u8>::error("boom".to_string());
    assert_eq!(response.data, None);
    assert_eq!(response.message, "boom");
    assert_eq!(response.code, -1);
}

#[test]
fn error_messages_and_status_codes() {
    let cases = [
        (AppError::ImageDownload("timeout".to_string()), "图片下载失败: timeout", 400),
        (AppError::ImageProcessing("bad".to_string()), "图片处理失败: bad", 500),
        (AppError::Base64Decode("pad".to_string()), "Base64解码失败: pad", 400),
        (AppError::InvalidInput("none".to_string()), "输入错误: none", 400),
        (AppError::Internal("oops".to_string()), "内部服务器错误: oops", 500),
    ];
    for (error, message, status) in cases {
        assert_eq!(error.message(), message);
        assert_eq!(error.status_code(), status);
        let response = error.response();
        assert_eq!(response.message, message);
        assert_eq!(response.code, -1);
        assert!(response.data.is_none());
    }
}

#[test]
fn base64_text_is_decoded() {
    let service = ImageProcessService::new();
    assert_eq!(service.decode_base64_image("aGVsbG8=").ok().unwrap(), b"hello".to_vec());
    assert_eq!(service.decode_base64_image("").ok().unwrap(), Vec::<u8>::new());
    assert_eq!(service.decode_base64_image("AAEC/w==").ok().unwrap(), vec![0, 1, 2, 255]);
}

#[test]
fn invalid_base64_is_refused() {
    let service = ImageProcessService::new();
    for text in ["not base64!", "aGVsbG8", "aGVsbG8=="] {
        match service.decode_base64_image(text) {
            Err(AppError::Base64Decode(_)) => {}
            other => panic!("unexpected result {:?}", other.map(|bytes| bytes.len())),
        }
    }
}

#[test]
fn format_names() {
    let service = ImageProcessService::new();
    assert_eq!(service.output_format("png"), OutputFormat::Png);
    assert_eq!(service.output_format("jpg"), OutputFormat::Jpeg);
    assert_eq!(service.output_format("jpeg"), OutputFormat::Jpeg);
    assert_eq!(service.output_format("webp"), OutputFormat::WebP);
    assert_eq!(service.output_format("gif"), OutputFormat::Png);
    assert_eq!(service.output_format("PNG"), OutputFormat::Png);
    assert_eq!(service.output_format("JPEG"), OutputFormat::Png);
    assert_eq!(service.output_format(""), OutputFormat::Png);
}

#[test]
fn encoded_images_carry_their_format_signature() {
    let service = ImageProcessService::new();
    let png = service.image_to_base64(sample_image(), "png").ok().unwrap();
    let png_bytes = service.decode_base64_image(&png).ok().unwrap();
    assert_eq!(&png_bytes[..8], b"\x89PNG\r\n\x1a\n");
    let jpeg = service.image_to_base64(sample_image(), "jpg").ok().unwrap();
    let jpeg_bytes = service.decode_base64_image(&jpeg).ok().unwrap();
    assert_eq!(&jpeg_bytes[..3], &[0xff, 0xd8, 0xff]);
    let webp = service.image_to_base64(sample_image(), "webp").ok().unwrap();
    let webp_bytes = service.decode_base64_image(&webp).ok().unwrap();
    assert_eq!(&webp_bytes[..4], b"RIFF");
    assert_eq!(&webp_bytes[8..12], b"WEBP");
    let other = service.image_to_base64(sample_image(), "tiff").ok().unwrap();
    assert_eq!(other, png);
}

#[test]
fn base64_of_known_bytes() {
    // The text of an encoded image decodes back to the same bytes, and the
    // padding is the standard one.
    let service = ImageProcessService::new();
    let text = service.image_to_base64(sample_image(), "png").ok().unwrap();
    assert_eq!(text.len() % 4, 0);
    assert!(text.starts_with("iVBORw0KGgo"));
    assert!(text.bytes().all(|b| b.is_ascii_alphanumeric() || b == b'+' || b == b'/' || b == b'='));
}

#[test]
fn encoded_image_is_processed_end_to_end() {
    let service = ImageProcessService::new();
    let text = service.image_to_base64(sample_image(), "png").ok().unwrap();
    let bytes = service.decode_base64_image(&text).ok().unwrap();
    let output = service.process_image_data(bytes).ok().unwrap();
    assert_eq!(output.dimensions(), (10, 10));
    for y in 0..10 {
        for x in 0..10 {
            let expected = if (x, y) == (5, 5) {
                Pixel { r: 0, g: 0, b: 0, a: 10 }
            } else {
                Pixel { r: 255, g: 255, b: 255, a: 0 }
            };
            assert_eq!(output.get_pixel(x, y), expected);
        }
    }
}

#[test]
fn bytes_that_are_no_image_are_refused() {
    let service = ImageProcessService::new();
    match service.process_image_data(b"definitely not an image".to_vec()) {
        Err(AppError::ImageProcessing(_)) => {}
        _ => panic!("expected an image processing error"),
    }
    match service.process_image_data(Vec::new()) {
        Err(AppError::ImageProcessing(_)) => {}
        _ => panic!("expected an image processing error"),
    }
}

#[test]
fn decoded_pixels_are_processed() {
    let service = ImageProcessService::new();
    let output = service.process_decoded(10, 10, sample_image().to_raw()).ok().unwrap();
    assert_eq!(output.get_pixel(5, 5), Pixel { r: 0, g: 0, b: 0, a: 10 });
    assert_eq!(output.get_pixel(0, 0), Pixel { r: 255, g: 255, b: 255, a: 0 });
    match service.process_decoded(10, 9, sample_image().to_raw()) {
        Err(AppError::ImageProcessing(_)) => {}
        _ => panic!("expected an image processing error"),
    }
}

#[test]
fn request_names_exactly_one_source() {
    let controller = ImageController::new();
    match controller.image_source(&request(Some("http://a/b.png"), None, None)) {
        Ok(ImageSource::Url(url)) => assert_eq!(url, "http://a/b.png"),
        _ => panic!("expected a URL"),
    }
    match controller.image_source(&request(None, Some("aGk="), None)) {
        Ok(ImageSource::Base64(data)) => assert_eq!(data, "aGk="),
        _ => panic!("expected inline data"),
    }
    match controller.image_source(&request(Some("u"), Some("d"), None)) {
        Err(AppError::InvalidInput(text)) => {
            assert_eq!(text, "请只提供image_url或image_data中的一个")
        }
        _ => panic!("expected invalid input"),
    }
    match controller.image_source(&request(None, None, Some("png"))) {
        Err(AppError::InvalidInput(text)) => assert_eq!(text, "请提供image_url或image_data"),
        _ => panic!("expected invalid input"),
    }
}

#[test]
fn requested_format_defaults_to_png_and_is_lower_cased() {
    let controller = ImageController::new();
    assert_eq!(controller.requested_format(&request(None, None, None)), "png");
    assert_eq!(controller.requested_format(&request(None, None, Some("JPEG"))), "jpeg");
    assert_eq!(controller.requested_format(&request(None, None, Some("WebP"))), "webp");
    assert_eq!(controller.requested_format(&request(None, None, Some("ÄB"))), "äb");
}

#[test]
fn form_fields_by_name() {
    let controller = ImageController::new();
    assert_eq!(controller.form_field("image"), FormField::Image);
    assert_eq!(controller.form_field("format"), FormField::Format);
    assert_eq!(controller.form_field("Image"), FormField::Other);
    assert_eq!(controller.form_field(""), FormField::Other);
}

#[test]
fn form_upload_collects_image_and_format() {
    let mut upload = FormUpload::new();
    assert!(upload.image_data.is_none());
    assert_eq!(upload.output_format, "png");
    upload.accept(FormField::Other, vec![1, 2, 3]);
    assert!(upload.image_data.is_none());
    assert_eq!(upload.output_format, "png");
    upload.accept(FormField::Format, b"webp".to_vec());
    assert_eq!(upload.output_format, "webp");
    upload.accept(FormField::Image, vec![9, 8]);
    upload.accept(FormField::Format, vec![0xff, 0xfe]);
    assert_eq!(upload.output_format, "png");
    upload.accept(FormField::Format, "JPG".as_bytes().to_vec());
    let (data, format) = upload.finish().ok().unwrap();
    assert_eq!(data, vec![9, 8]);
    assert_eq!(format, "JPG");
}

#[test]
fn form_upload_without_image_is_refused() {
    let mut upload = FormUpload::new();
    upload.accept(FormField::Format, b"png".to_vec());
    match upload.finish() {
        Err(AppError::InvalidInput(text)) => assert_eq!(text, "未找到图片文件"),
        _ => panic!("expected invalid input"),
    }
}

#[test]
fn processed_image_is_wrapped_for_the_response() {
    let controller = ImageController::new();
    let service = ImageProcessService::new();
    let text = service.image_to_base64(sample_image(), "png").ok().unwrap();
    let bytes = service.decode_base64_image(&text).ok().unwrap();
    let processed = service.process_image_data(bytes).ok().unwrap();
    let response = controller.deliver(processed, "png".to_string()).ok().unwrap();
    assert_eq!(response.code, 0);
    assert_eq!(response.message, "success");
    let data = response.data.unwrap();
    assert_eq!(data.format, "png");
    let png = service.decode_base64_image(&data.processed_image).ok().unwrap();
    let reread = image::load_from_memory(&png).unwrap().to_rgba8();
    assert_eq!(reread.dimensions(), (10, 10));
    assert_eq!(reread.get_pixel(5, 5).0, [0, 0, 0, 10]);
    assert_eq!(reread.get_pixel(4, 5).0[3], 0);

    let delivered = controller.deliver(sample_image(), "JPEG".to_string()).ok().unwrap();
    let data = delivered.data.unwrap();
    assert_eq!(data.format, "JPEG");
    // An upper-case name selects no format of its own: the image is a PNG.
    assert!(data.processed_image.starts_with("iVBORw0KGgo"));
}

#[test]
fn empty_image_is_encoded_or_refused_without_panic() {
    let service = ImageProcessService::new();
    for format in ["png", "jpg", "webp"] {
        for (width, height) in [(0, 0), (0, 3), (3, 0)] {
            match service.image_to_base64(RgbaBuffer::new(width, height), format) {
                Ok(text) => assert!(!text.is_empty()),
                Err(AppError::ImageProcessing(_)) => {}
                Err(_) => panic!("unexpected error kind"),
            }
        }
    }
}

#[test]
fn defaults_match_new() {
    let remover = image_processor::remover::BackgroundRemover::default();
    assert_eq!(remover.color_tolerance(), 30);
    assert_eq!(remover.edge_blur(), 2);
    let controller = ImageController::default();
    assert_eq!(controller.form_field("image"), FormField::Image);
    let service = ImageProcessService::default();
    assert_eq!(service.output_format("webp"), OutputFormat::WebP);
}
