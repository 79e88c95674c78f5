use image_processor::buffer::RgbaBuffer;
use image_processor::mask::Mask;
use image_processor::pixel::Pixel;

#[test]
fn new_buffer_is_transparent_black() {
    let image = RgbaBuffer::new(3, 2);
    assert_eq!(image.width(), 3);
    assert_eq!(image.height(), 2);
    assert_eq!(image.dimensions(), (3, 2));
    assert_eq!(image.pixel_count(), 6);
    for y in 0..2 {
        for x in 0..3 {
            assert_eq!(image.get_pixel(x, y), Pixel { r: 0, g: 0, b: 0, a: 0 });
        }
    }
}

#[test]
fn put_pixel_changes_one_pixel() {
    let mut image = RgbaBuffer::new(3, 2);
    let colour = Pixel { r: 1, g: 2, b: 3, a: 4 };
    image.put_pixel(2, 1, colour);
    for y in 0..2 {
        for x in 0..3 {
            let expected = if (x, y) == (2, 1) { colour } else { Pixel { r: 0, g: 0, b: 0, a: 0 } };
            assert_eq!(image.get_pixel(x, y), expected);
        }
    }
}

#[test]
fn raw_bytes_are_row_major_rgba() {
    let data: Vec<u8> = (0u8..24).collect();
    let image = RgbaBuffer::from_raw(3, 2, &data).unwrap();
    assert_eq!(image.get_pixel(0, 0), Pixel { r: 0, g: 1, b: 2, a: 3 });
    assert_eq!(image.get_pixel(2, 0), Pixel { r: 8, g: 9, b: 10, a: 11 });
    assert_eq!(image.get_pixel(0, 1), Pixel { r: 12, g: 13, b: 14, a: 15 });
    assert_eq!(image.get_pixel(2, 1), Pixel { r: 20, g: 21, b: 22, a: 23 });
    assert_eq!(image.to_raw(), data);
}

#[test]
fn raw_bytes_of_the_wrong_length_are_refused() {
    let data: Vec<u8> = vec![0; 24];
    assert!(RgbaBuffer::from_raw(3, 2, &data).is_some());
    assert!(RgbaBuffer::from_raw(2, 2, &data).is_none());
    assert!(RgbaBuffer::from_raw(3, 3, &data).is_none());
    assert!(RgbaBuffer::from_raw(0, 0, &data).is_none());
    assert!(RgbaBuffer::from_raw(0, 7, &Vec::new()).is_some());
    let short: Vec<u8> = vec![0; 23];
    assert!(RgbaBuffer::from_raw(3, 2, &short).is_none());
    assert!(RgbaBuffer::from_raw(u32::MAX, u32::MAX, &data).is_none());
}

#[test]
fn mask_cells_are_independent() {
    let mut mask = Mask::filled(4, 3, true);
    assert_eq!((mask.width(), mask.height(), mask.area()), (4, 3, 12));
    mask.set(3, 0, false);
    mask.set(0, 1, false);
    for y in 0..3 {
        for x in 0..4 {
            assert_eq!(mask.get(x, y), !((x, y) == (3, 0) || (x, y) == (0, 1)));
        }
    }
    mask.set(3, 0, true);
    assert!(mask.get(3, 0));
}

#[test]
fn clones_are_independent_copies() {
    let mut image = RgbaBuffer::from_pixel(2, 2, Pixel { r: 5, g: 6, b: 7, a: 8 });
    let copy = image.clone();
    image.put_pixel(0, 0, Pixel { r: 0, g: 0, b: 0, a: 0 });
    assert_eq!(copy.get_pixel(0, 0), Pixel { r: 5, g: 6, b: 7, a: 8 });
    assert_eq!(copy.dimensions(), (2, 2));
    let mut mask = Mask::filled(2, 1, true);
    let kept = mask.clone();
    mask.set(1, 0, false);
    assert!(kept.get(1, 0));
    assert!(!mask.get(1, 0));
}
