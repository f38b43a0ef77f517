use std::cmp::Ordering;

use photomosaic::catalog::Catalog;
use photomosaic::color::{Rgb, Rgba};
use photomosaic::order::{compare_colors, compare_tiles};
use photomosaic::raster::Raster;

fn rgb(r: u8, g: u8, b: u8) -> Rgb {
    Rgb { r, g, b }
}

#[test]
fn colours_are_ordered_channel_by_channel() {
    assert_eq!(compare_colors(&rgb(1, 2, 3), &rgb(1, 2, 3)), Ordering::Equal);
    assert_eq!(compare_colors(&rgb(1, 200, 200), &rgb(2, 0, 0)), Ordering::Less);
    assert_eq!(compare_colors(&rgb(2, 0, 0), &rgb(1, 200, 200)), Ordering::Greater);
    assert_eq!(compare_colors(&rgb(1, 2, 200), &rgb(1, 3, 0)), Ordering::Less);
    assert_eq!(compare_colors(&rgb(1, 3, 0), &rgb(1, 2, 200)), Ordering::Greater);
    assert_eq!(compare_colors(&rgb(1, 2, 3), &rgb(1, 2, 4)), Ordering::Less);
    assert_eq!(compare_colors(&rgb(1, 2, 4), &rgb(1, 2, 3)), Ordering::Greater);
}

#[test]
fn colour_order_is_the_order_of_the_padded_digits() {
    let samples = [0u8, 1, 9, 10, 99, 100, 199, 200, 255];
    for r in samples {
        for g in samples {
            for b in [0u8, 7, 255] {
                let a = rgb(r, g, b);
                let a_text = format!("{:03}{:03}{:03}", a.r, a.g, a.b);
                for other in [rgb(9, 100, 7), rgb(100, 9, 255), rgb(r, g, 8), rgb(r, 99, b)] {
                    let o_text = format!("{:03}{:03}{:03}", other.r, other.g, other.b);
                    assert_eq!(compare_colors(&a, &other), a_text.cmp(&o_text));
                }
            }
        }
    }
}

#[test]
fn tiles_are_ordered_by_their_average_colour() {
    let mut catalog = Catalog::new(1);
    let thumb = || Raster::from_pixels(1, 1, vec![Rgba { r: 0, g: 0, b: 0, a: 0 }]).unwrap();
    catalog.push("z".to_string(), rgb(5, 5, 5), thumb());
    catalog.push("a".to_string(), rgb(5, 6, 0), thumb());
    catalog.push("m".to_string(), rgb(5, 5, 5), thumb());
    let tile = |id: usize| catalog.get(id).unwrap();
    assert_eq!(compare_tiles(tile(0), tile(1)), Ordering::Less);
    assert_eq!(compare_tiles(tile(1), tile(0)), Ordering::Greater);
    assert_eq!(compare_tiles(tile(0), tile(2)), Ordering::Equal);
}
