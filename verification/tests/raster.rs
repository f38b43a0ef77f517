use photomosaic::color::Rgba;
use photomosaic::raster::Raster;

const CLEAR: Rgba = Rgba { r: 0, g: 0, b: 0, a: 0 };

fn px(v: u8) -> Rgba {
    Rgba { r: v, g: v.wrapping_add(1), b: v.wrapping_add(2), a: 255 }
}

fn numbered(width: u32, height: u32) -> Raster {
    let pixels: Vec<Rgba> = (0..width * height).map(|k| px(k as u8)).collect();
    Raster::from_pixels(width, height, pixels).unwrap()
}

#[test]
fn new_raster_is_fully_transparent() {
    let raster = Raster::new(3, 2);
    assert_eq!((raster.width(), raster.height()), (3, 2));
    assert_eq!(raster.to_pixels(), vec![CLEAR; 6]);
    let empty = Raster::new(0, 7);
    assert_eq!((empty.width(), empty.height()), (0, 7));
    assert!(empty.to_pixels().is_empty());
}

#[test]
fn from_pixels_wants_one_pixel_per_position() {
    assert!(Raster::from_pixels(2, 2, vec![CLEAR; 3]).is_none());
    assert!(Raster::from_pixels(2, 2, vec![CLEAR; 5]).is_none());
    assert!(Raster::from_pixels(0, 2, vec![CLEAR; 1]).is_none());
    assert!(Raster::from_pixels(2, 2, vec![CLEAR; 4]).is_some());
    assert!(Raster::from_pixels(0, 0, vec![]).is_some());
}

#[test]
fn pixels_are_stored_row_by_row() {
    let raster = numbered(3, 2);
    assert_eq!(raster.get_pixel(0, 0), px(0));
    assert_eq!(raster.get_pixel(2, 0), px(2));
    assert_eq!(raster.get_pixel(0, 1), px(3));
    assert_eq!(raster.get_pixel(2, 1), px(5));
}

#[test]
fn put_pixel_changes_one_position() {
    let mut raster = numbered(3, 3);
    raster.put_pixel(1, 2, CLEAR);
    for y in 0..3 {
        for x in 0..3 {
            let expected = if (x, y) == (1, 2) { CLEAR } else { px((y * 3 + x) as u8) };
            assert_eq!(raster.get_pixel(x, y), expected);
        }
    }
}

#[test]
fn fill_block_changes_the_block_only() {
    let mut raster = numbered(4, 4);
    raster.fill_block(1, 2, 2, 2, CLEAR);
    for y in 0..4 {
        for x in 0..4 {
            let inside = (1..3).contains(&x) && (2..4).contains(&y);
            let expected = if inside { CLEAR } else { px((y * 4 + x) as u8) };
            assert_eq!(raster.get_pixel(x, y), expected);
        }
    }
    let mut untouched = numbered(2, 2);
    untouched.fill_block(1, 1, 0, 0, CLEAR);
    assert_eq!(untouched.to_pixels(), numbered(2, 2).to_pixels());
}

#[test]
fn blit_copies_the_source_into_the_block() {
    let mut raster = Raster::new(5, 4);
    let source = numbered(2, 3);
    raster.blit(&source, 3, 1);
    for y in 0..4 {
        for x in 0..5 {
            let inside = (3..5).contains(&x) && (1..4).contains(&y);
            let expected = if inside { source.get_pixel(x - 3, y - 1) } else { CLEAR };
            assert_eq!(raster.get_pixel(x, y), expected);
        }
    }
}

#[test]
fn bytes_hold_four_channels_per_pixel() {
    let pixels = vec![Rgba { r: 1, g: 2, b: 3, a: 4 }, Rgba { r: 5, g: 6, b: 7, a: 8 }];
    let raster = Raster::from_pixels(2, 1, pixels.clone()).unwrap();
    assert_eq!(raster.to_rgba_bytes(), vec![1, 2, 3, 4, 5, 6, 7, 8]);
    let back = Raster::from_rgba_bytes(2, 1, &vec![1, 2, 3, 4, 5, 6, 7, 8]).unwrap();
    assert_eq!(back.to_pixels(), pixels);
    assert_eq!((back.width(), back.height()), (2, 1));
}

#[test]
fn from_rgba_bytes_wants_four_bytes_per_position() {
    assert!(Raster::from_rgba_bytes(1, 1, &vec![1, 2, 3]).is_none());
    assert!(Raster::from_rgba_bytes(1, 1, &vec![1, 2, 3, 4, 5]).is_none());
    assert!(Raster::from_rgba_bytes(2, 1, &vec![1, 2, 3, 4]).is_none());
    assert!(Raster::from_rgba_bytes(1, 2, &vec![0; 8]).is_some());
    assert!(Raster::from_rgba_bytes(0, 5, &vec![]).is_some());
}
