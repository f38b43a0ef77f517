use photomosaic::catalog::Catalog;
use photomosaic::color::{Rgb, Rgba};
use photomosaic::matcher::{Matcher, MAX_ATTEMPTS};
use photomosaic::raster::Raster;

fn catalog_of(colors: &[(u8, u8, u8)]) -> Catalog {
    let mut catalog = Catalog::new(1);
    for (k, (r, g, b)) in colors.iter().enumerate() {
        let thumb = Raster::from_pixels(1, 1, vec![Rgba { r: *r, g: *g, b: *b, a: 255 }]).unwrap();
        let id = catalog.push(format!("tile{}", k), Rgb { r: *r, g: *g, b: *b }, thumb);
        assert_eq!(id, Some(k));
    }
    catalog
}

fn rgb(r: u8, g: u8, b: u8) -> Rgb {
    Rgb { r, g, b }
}

#[test]
fn one_retry_is_all_there_is() {
    assert_eq!(MAX_ATTEMPTS, 2);
}

#[test]
fn pool_starts_empty_and_is_filled_on_first_use() {
    let catalog = catalog_of(&[(0, 0, 0), (100, 100, 100), (200, 200, 200)]);
    let mut matcher = Matcher::new(&catalog);
    assert_eq!(matcher.pool_len(), 0);
    assert_eq!(matcher.find(false, 50, &rgb(101, 100, 100)), Some(1));
    assert_eq!(matcher.pool_ids(), vec![0, 1, 2]);
}

#[test]
fn zero_threshold_matches_nothing() {
    let catalog = catalog_of(&[(0, 0, 0), (255, 255, 255)]);
    let mut matcher = Matcher::new(&catalog);
    for unique in [false, true] {
        assert_eq!(matcher.find(unique, 0, &rgb(0, 0, 0)), None);
        assert_eq!(matcher.find(unique, 0, &rgb(255, 255, 255)), None);
        assert_eq!(matcher.find(unique, 0, &rgb(7, 8, 9)), None);
        assert_eq!(matcher.pool_ids(), vec![0, 1]);
    }
}

#[test]
fn distance_must_stay_strictly_below_the_threshold() {
    let catalog = catalog_of(&[(0, 0, 0)]);
    let mut matcher = Matcher::new(&catalog);
    assert_eq!(matcher.find(false, 5, &rgb(3, 4, 0)), None);
    assert_eq!(matcher.find(false, 6, &rgb(3, 4, 0)), Some(0));
    assert_eq!(matcher.find(false, 1, &rgb(0, 0, 0)), Some(0));
    assert_eq!(matcher.find(false, 1, &rgb(0, 0, 1)), None);
}

#[test]
fn nearest_tile_wins() {
    let catalog = catalog_of(&[(0, 0, 0), (90, 90, 90), (100, 100, 100), (120, 120, 120)]);
    let mut matcher = Matcher::new(&catalog);
    assert_eq!(matcher.find(false, 1000, &rgb(104, 104, 104)), Some(2));
    assert_eq!(matcher.find(false, 1000, &rgb(111, 111, 111)), Some(3));
    assert_eq!(matcher.find(false, 1000, &rgb(10, 10, 10)), Some(0));
}

#[test]
fn earliest_of_equally_near_tiles_wins() {
    let catalog = catalog_of(&[(50, 50, 50), (10, 0, 0), (0, 10, 0), (0, 0, 10)]);
    let mut matcher = Matcher::new(&catalog);
    assert_eq!(matcher.find(false, 100, &rgb(0, 0, 0)), Some(1));
    assert_eq!(matcher.find(true, 100, &rgb(0, 0, 0)), Some(1));
    assert_eq!(matcher.find(true, 100, &rgb(0, 0, 0)), Some(2));
    assert_eq!(matcher.find(true, 100, &rgb(0, 0, 0)), Some(3));
    assert_eq!(matcher.pool_ids(), vec![0]);
}

#[test]
fn unique_match_leaves_the_pool_and_others_stay() {
    let catalog = catalog_of(&[(0, 0, 0), (100, 100, 100), (200, 200, 200)]);
    let mut matcher = Matcher::new(&catalog);
    assert_eq!(matcher.find(true, 50, &rgb(100, 100, 100)), Some(1));
    assert_eq!(matcher.pool_ids(), vec![0, 2]);
    assert_eq!(matcher.find(false, 50, &rgb(0, 0, 0)), Some(0));
    assert_eq!(matcher.pool_ids(), vec![0, 2]);
    assert_eq!(matcher.find(true, 50, &rgb(0, 0, 0)), Some(0));
    assert_eq!(matcher.pool_ids(), vec![2]);
}

#[test]
fn failed_scan_refills_the_pool_and_tries_once_more() {
    let catalog = catalog_of(&[(0, 0, 0), (255, 255, 255)]);
    let mut matcher = Matcher::new(&catalog);
    assert_eq!(matcher.find(true, 50, &rgb(0, 0, 0)), Some(0));
    assert_eq!(matcher.pool_ids(), vec![1]);
    assert_eq!(matcher.find(true, 50, &rgb(1, 1, 1)), Some(0));
    assert_eq!(matcher.pool_ids(), vec![1]);
    assert_eq!(matcher.find(false, 50, &rgb(2, 2, 2)), Some(0));
    assert_eq!(matcher.pool_ids(), vec![0, 1]);
}

#[test]
fn emptied_pool_is_refilled_before_the_scan() {
    let catalog = catalog_of(&[(0, 0, 0), (255, 255, 255)]);
    let mut matcher = Matcher::new(&catalog);
    assert_eq!(matcher.find(true, 50, &rgb(10, 10, 10)), Some(0));
    assert_eq!(matcher.find(true, 50, &rgb(240, 240, 240)), Some(1));
    assert_eq!(matcher.pool_len(), 0);
    assert_eq!(matcher.find(true, 50, &rgb(5, 5, 5)), Some(0));
    assert_eq!(matcher.pool_ids(), vec![1]);
}

#[test]
fn no_match_leaves_a_full_pool() {
    let catalog = catalog_of(&[(0, 0, 0), (10, 10, 10), (255, 255, 255)]);
    let mut matcher = Matcher::new(&catalog);
    assert_eq!(matcher.find(true, 20, &rgb(1, 1, 1)), Some(0));
    assert_eq!(matcher.pool_ids(), vec![1, 2]);
    assert_eq!(matcher.find(true, 20, &rgb(128, 128, 128)), None);
    assert_eq!(matcher.pool_ids(), vec![0, 1, 2]);
}

#[test]
fn empty_catalog_matches_nothing() {
    let catalog = catalog_of(&[]);
    let mut matcher = Matcher::new(&catalog);
    assert_eq!(matcher.find(true, 1000, &rgb(0, 0, 0)), None);
    assert_eq!(matcher.find(false, 1000, &rgb(0, 0, 0)), None);
    assert_eq!(matcher.pool_len(), 0);
}

#[test]
fn saturating_threshold_matches_the_farthest_colour() {
    let catalog = catalog_of(&[(0, 0, 0)]);
    let mut matcher = Matcher::new(&catalog);
    assert_eq!(matcher.find(false, 441, &rgb(255, 255, 255)), None);
    assert_eq!(matcher.find(false, 442, &rgb(255, 255, 255)), Some(0));
    assert_eq!(matcher.find(false, usize::MAX, &rgb(255, 255, 255)), Some(0));
}
