use image_cropper::image_processing::{
    CropBox, CropError, Image, PixelBuffer,
};

/// A 2x2 24-bit BMP whose decoded RGBA rows, top to bottom, are:
/// red, green / blue, white.
fn tiny_bmp() -> Vec<u8> {
    let mut b: Vec<u8> = Vec::new();
    // file header: magic, file size, reserved, offset of pixel data
    b.extend_from_slice(b"BM");
    b.extend_from_slice(&70u32.to_le_bytes());
    b.extend_from_slice(&[0, 0, 0, 0]);
    b.extend_from_slice(&54u32.to_le_bytes());
    // info header: size, width, height, planes, bits per pixel, the rest zero
    b.extend_from_slice(&40u32.to_le_bytes());
    b.extend_from_slice(&2i32.to_le_bytes());
    b.extend_from_slice(&2i32.to_le_bytes());
    b.extend_from_slice(&1u16.to_le_bytes());
    b.extend_from_slice(&24u16.to_le_bytes());
    b.extend_from_slice(&[0; 24]);
    // pixel rows, bottom-up, BGR, each row padded to four bytes
    b.extend_from_slice(&[255, 0, 0, 255, 255, 255, 0, 0]); // blue, white
    b.extend_from_slice(&[0, 0, 255, 0, 255, 0, 0, 0]); // red, green
    assert_eq!(b.len(), 70);
    b
}

const RED: [u8; 4] = [255, 0, 0, 255];
const GREEN: [u8; 4] = [0, 255, 0, 255];
const BLUE: [u8; 4] = [0, 0, 255, 255];
const WHITE: [u8; 4] = [255, 255, 255, 255];

fn rgba_2x2() -> Vec<u8> {
    let mut p = Vec::new();
    p.extend_from_slice(&RED);
    p.extend_from_slice(&GREEN);
    p.extend_from_slice(&BLUE);
    p.extend_from_slice(&WHITE);
    p
}

#[test]
fn image_name_from_path() {
    let img = Image::new("/a/b/photo.jpg".to_string());
    assert_eq!(img.get_image_name(), "photo.jpg");
}

#[test]
fn image_name_without_directories() {
    let img = Image::new("photo.jpg".to_string());
    assert_eq!(img.get_image_name(), "photo.jpg");
}

#[test]
fn image_name_of_path_without_final_component() {
    assert_eq!(Image::new("".to_string()).get_image_name(), "None");
    assert_eq!(Image::new("/a/b/".to_string()).get_image_name(), "None");
}

#[test]
fn extract_returns_one_buffer_per_box_in_order() {
    let buf = PixelBuffer { width: 2, height: 2, pixels: rgba_2x2() };
    let mut img = Image::new("/data/a.bmp".to_string());
    img.add_crop_box(CropBox { x: 1, y: 0, height: 1, width: 1 });
    img.add_crop_box(CropBox { x: 0, y: 1, height: 1, width: 1 });
    img.add_crop_box(CropBox { x: 0, y: 0, height: 2, width: 1 });
    let crops = img.crop_all_in_buffer(&buf).unwrap();
    assert_eq!(crops.len(), 3);
    assert_eq!(crops[0].pixels, GREEN.to_vec());
    assert_eq!(crops[1].pixels, BLUE.to_vec());
    let mut left_column = RED.to_vec();
    left_column.extend_from_slice(&BLUE);
    assert_eq!(crops[2].pixels, left_column);
    assert_eq!((crops[0].width, crops[0].height), (1, 1));
    assert_eq!((crops[2].width, crops[2].height), (1, 2));
}

#[test]
fn extract_with_no_boxes_returns_nothing() {
    let buf = PixelBuffer { width: 2, height: 2, pixels: rgba_2x2() };
    let img = Image::new("/data/a.bmp".to_string());
    let crops = img.crop_all_in_buffer(&buf).unwrap();
    assert!(crops.is_empty());
}

#[test]
fn full_bounds_crop_is_pixel_identical() {
    let buf = PixelBuffer { width: 2, height: 2, pixels: rgba_2x2() };
    let mut img = Image::new("/data/a.bmp".to_string());
    img.add_crop_box(CropBox { x: 0, y: 0, height: 2, width: 2 });
    let crops = img.crop_all_in_buffer(&buf).unwrap();
    assert_eq!(crops.len(), 1);
    assert_eq!(crops[0].width, 2);
    assert_eq!(crops[0].height, 2);
    assert_eq!(crops[0].pixels, rgba_2x2());
}

#[test]
fn out_of_bounds_box_fails_with_its_index() {
    let buf = PixelBuffer { width: 2, height: 2, pixels: rgba_2x2() };
    let mut img = Image::new("/data/a.bmp".to_string());
    img.add_crop_box(CropBox { x: 0, y: 0, height: 1, width: 1 });
    img.add_crop_box(CropBox { x: 1, y: 1, height: 2, width: 1 });
    let err = img.crop_all_in_buffer(&buf).unwrap_err();
    assert_eq!(err.index, 1);
    assert_eq!(err.crop_box, CropBox { x: 1, y: 1, height: 2, width: 1 });
    assert_eq!(err.image_width, 2);
    assert_eq!(err.image_height, 2);
}

#[test]
fn decode_reads_dimensions_and_pixels() {
    let img = Image::new("/data/tiny.bmp".to_string());
    let buf = img.get_image_data(&tiny_bmp()).unwrap();
    assert_eq!(buf.width, 2);
    assert_eq!(buf.height, 2);
    assert_eq!(buf.pixels, rgba_2x2());
}

#[test]
fn decode_failure_carries_the_path() {
    let img = Image::new("/data/not-an-image.bmp".to_string());
    let err = img.get_image_data(&[1, 2, 3, 4]).unwrap_err();
    assert_eq!(err.path, "/data/not-an-image.bmp");
    assert!(!err.message.is_empty());
}

#[test]
fn crop_all_boxes_end_to_end() {
    let mut img = Image::new("/data/tiny.bmp".to_string());
    img.add_crop_box(CropBox { x: 0, y: 0, height: 2, width: 2 });
    img.add_crop_box(CropBox { x: 1, y: 1, height: 1, width: 1 });
    let crops = img.crop_all_boxes(&tiny_bmp()).unwrap();
    assert_eq!(crops.len(), 2);
    assert_eq!(crops[0].pixels, rgba_2x2());
    assert_eq!(crops[1].pixels, WHITE.to_vec());
}

#[test]
fn crop_all_boxes_on_undecodable_bytes() {
    let mut img = Image::new("/data/bad.bmp".to_string());
    img.add_crop_box(CropBox { x: 0, y: 0, height: 1, width: 1 });
    match img.crop_all_boxes(&[9, 9, 9]) {
        Err(CropError::Decode(e)) => assert_eq!(e.path, "/data/bad.bmp"),
        other => panic!("expected a decode error, got {:?}", other),
    }
}

#[test]
fn crop_all_boxes_validates_against_decoded_bounds() {
    let mut img = Image::new("/data/tiny.bmp".to_string());
    img.add_crop_box(CropBox { x: 0, y: 0, height: 3, width: 1 });
    match img.crop_all_boxes(&tiny_bmp()) {
        Err(CropError::Validation(e)) => {
            assert_eq!(e.index, 0);
            assert_eq!(e.image_width, 2);
            assert_eq!(e.image_height, 2);
        }
        other => panic!("expected a validation error, got {:?}", other),
    }
}
