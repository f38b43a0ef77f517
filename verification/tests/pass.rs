use photomosaic::catalog::Catalog;
use photomosaic::color::{Rgb, Rgba};
use photomosaic::mosaic::{assemble, match_cells};
use photomosaic::raster::Raster;

fn solid(size: u32, px: Rgba) -> Raster {
    let mut pixels = Vec::new();
    for _ in 0..(size * size) {
        pixels.push(px);
    }
    Raster::from_pixels(size, size, pixels).unwrap()
}

fn black_and_white(size: u32) -> Catalog {
    let mut catalog = Catalog::new(size);
    let black = Rgba { r: 0, g: 0, b: 0, a: 255 };
    let white = Rgba { r: 255, g: 255, b: 255, a: 255 };
    assert_eq!(
        catalog.push("black.png".to_string(), Rgb { r: 0, g: 0, b: 0 }, solid(size, black)),
        Some(0)
    );
    assert_eq!(
        catalog.push("white.png".to_string(), Rgb { r: 255, g: 255, b: 255 }, solid(size, white)),
        Some(1)
    );
    catalog
}

#[test]
fn unique_pass_depletes_and_refills_the_pool() {
    let catalog = black_and_white(2);
    let cells = vec![
        Rgba { r: 10, g: 10, b: 10, a: 255 },
        Rgba { r: 240, g: 240, b: 240, a: 255 },
        Rgba { r: 90, g: 90, b: 90, a: 0 },
        Rgba { r: 5, g: 5, b: 5, a: 255 },
    ];
    let grid = Raster::from_pixels(2, 2, cells).unwrap();
    let results = match_cells(&catalog, &grid, 50, true);
    assert_eq!(results, vec![Some(0), Some(1), None, Some(0)]);

    let canvas = assemble(&catalog, &results, 2, 2, 2);
    assert_eq!((canvas.width(), canvas.height()), (4, 4));
    let black = Rgba { r: 0, g: 0, b: 0, a: 255 };
    let white = Rgba { r: 255, g: 255, b: 255, a: 255 };
    let clear = Rgba { r: 0, g: 0, b: 0, a: 0 };
    for y in 0..4 {
        for x in 0..4 {
            let expected = match (x / 2, y / 2) {
                (0, 0) => black,
                (1, 0) => white,
                (0, 1) => clear,
                _ => black,
            };
            assert_eq!(canvas.get_pixel(x, y), expected);
        }
    }
}

fn grid_of(width: u32, height: u32, cells: Vec<Rgba>) -> Raster {
    Raster::from_pixels(width, height, cells).unwrap()
}

fn mixed_cells() -> Vec<Rgba> {
    let mut cells = Vec::new();
    for k in 0..24u32 {
        let v = (k * 37 % 256) as u8;
        let a = if k % 5 == 0 { 0 } else { 255 };
        cells.push(Rgba { r: v, g: 255 - v, b: v / 2, a });
    }
    cells
}

#[test]
fn zero_threshold_leaves_every_cell_unmatched() {
    let catalog = black_and_white(2);
    let mut cells = mixed_cells();
    cells.push(Rgba { r: 0, g: 0, b: 0, a: 255 });
    cells.push(Rgba { r: 255, g: 255, b: 255, a: 255 });
    let grid = grid_of(13, 2, cells);
    for unique in [false, true] {
        let results = match_cells(&catalog, &grid, 0, unique);
        assert_eq!(results, vec![None; 26]);
    }
}

#[test]
fn single_tile_matches_every_opaque_cell() {
    let mut catalog = Catalog::new(1);
    let t = Rgba { r: 40, g: 50, b: 60, a: 255 };
    catalog.push("t.png".to_string(), t.color(), solid(1, t));
    let cells = mixed_cells();
    let grid = grid_of(6, 4, cells.clone());
    let results = match_cells(&catalog, &grid, 442, false);
    for (k, cell) in cells.iter().enumerate() {
        let expected = if cell.a > 125 { Some(0) } else { None };
        assert_eq!(results[k], expected);
    }
}

#[test]
fn two_passes_over_the_same_inputs_agree() {
    let catalog = black_and_white(2);
    let again = black_and_white(2);
    let grid = grid_of(6, 4, mixed_cells());
    for unique in [false, true] {
        let first = match_cells(&catalog, &grid, 300, unique);
        let second = match_cells(&catalog, &grid, 300, unique);
        let third = match_cells(&again, &grid_of(6, 4, mixed_cells()), 300, unique);
        assert_eq!(first, second);
        assert_eq!(first, third);
    }
}

#[test]
fn cell_at_the_cutoff_is_skipped() {
    let catalog = black_and_white(1);
    let cells = vec![
        Rgba { r: 0, g: 0, b: 0, a: 125 },
        Rgba { r: 0, g: 0, b: 0, a: 126 },
        Rgba { r: 0, g: 0, b: 0, a: 0 },
        Rgba { r: 0, g: 0, b: 0, a: 255 },
    ];
    let results = match_cells(&catalog, &grid_of(4, 1, cells), 10, false);
    assert_eq!(results, vec![None, Some(0), None, Some(0)]);
}

#[test]
fn skipped_cell_does_not_touch_the_pool() {
    let catalog = black_and_white(1);
    let near_black = Rgba { r: 1, g: 1, b: 1, a: 255 };
    let hidden = Rgba { r: 1, g: 1, b: 1, a: 0 };
    let with_gap = match_cells(&catalog, &grid_of(3, 1, vec![near_black, hidden, near_black]), 50, true);
    assert_eq!(with_gap, vec![Some(0), None, Some(0)]);
}

#[test]
fn cells_are_visited_row_by_row() {
    let mut catalog = Catalog::new(1);
    let a = Rgba { r: 100, g: 100, b: 100, a: 255 };
    let b = Rgba { r: 110, g: 110, b: 110, a: 255 };
    catalog.push("a".to_string(), a.color(), solid(1, a));
    catalog.push("b".to_string(), b.color(), solid(1, b));
    let near_a = Rgba { r: 101, g: 101, b: 101, a: 255 };
    let cells = vec![near_a, near_a, near_a, near_a];
    let results = match_cells(&catalog, &grid_of(2, 2, cells), 100, true);
    assert_eq!(results, vec![Some(0), Some(1), Some(0), Some(1)]);
}

#[test]
fn canvas_size_does_not_depend_on_the_matches() {
    let catalog = black_and_white(3);
    let none = vec![None; 10];
    let all = vec![Some(1); 10];
    for results in [none, all] {
        let canvas = assemble(&catalog, &results, 5, 2, 3);
        assert_eq!((canvas.width(), canvas.height()), (15, 6));
    }
    let empty = assemble(&catalog, &vec![], 0, 0, 3);
    assert_eq!((empty.width(), empty.height()), (0, 0));
    let flat = assemble(&catalog, &vec![None; 4], 4, 1, 0);
    assert_eq!((flat.width(), flat.height()), (0, 0));
}

#[test]
fn unmatched_cells_render_as_transparent_blocks() {
    let catalog = black_and_white(3);
    let results = vec![Some(1), None, None, Some(0), None, Some(1)];
    let canvas = assemble(&catalog, &results, 3, 2, 3);
    let clear = Rgba { r: 0, g: 0, b: 0, a: 0 };
    for (k, outcome) in results.iter().enumerate() {
        let (column, row) = (k as u32 % 3, k as u32 / 3);
        let mut seen = 0;
        for dy in 0..3 {
            for dx in 0..3 {
                let got = canvas.get_pixel(column * 3 + dx, row * 3 + dy);
                match outcome {
                    None => assert_eq!(got, clear),
                    Some(id) => {
                        assert_eq!(got, catalog.get(*id).unwrap().img().get_pixel(dx, dy))
                    }
                }
                seen += 1;
            }
        }
        assert_eq!(seen, 9);
    }
}

#[test]
fn thumbnails_are_copied_pixel_by_pixel() {
    let mut catalog = Catalog::new(2);
    let pixels: Vec<Rgba> = (0..4u8).map(|k| Rgba { r: k, g: 10 + k, b: 20 + k, a: 200 + k }).collect();
    let thumb = Raster::from_pixels(2, 2, pixels.clone()).unwrap();
    catalog.push("t".to_string(), Rgb { r: 1, g: 1, b: 1 }, thumb);
    let canvas = assemble(&catalog, &vec![None, Some(0)], 2, 1, 2);
    assert_eq!(canvas.get_pixel(2, 0), pixels[0]);
    assert_eq!(canvas.get_pixel(3, 0), pixels[1]);
    assert_eq!(canvas.get_pixel(2, 1), pixels[2]);
    assert_eq!(canvas.get_pixel(3, 1), pixels[3]);
    assert_eq!(canvas.get_pixel(1, 1).a, 0);
}
