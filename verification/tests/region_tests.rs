use barcode_pipeline::geometry::{ExpansionPolicy, Point, Quadrilateral};
use barcode_pipeline::raster::Raster;
use barcode_pipeline::region::extract;

fn pt(x: i64, y: i64) -> Point {
    Point::new(x, y)
}

#[test]
fn whole_frame_extraction_reproduces_the_image() {
    let data: Vec<u8> = (0u8..8).map(|v| v * 30).collect();
    let img = Raster::from_vec(4, 2, data.clone()).unwrap();
    let quad = Quadrilateral::new(pt(0, 0), pt(4, 0), pt(4, 2), pt(0, 2));
    let out = extract(&img, &quad, ExpansionPolicy::AsIs).unwrap();
    assert_eq!(out.width, 4);
    assert_eq!(out.height, 2);
    assert_eq!(out.data, data);
}

#[test]
fn tall_region_is_rotated_to_landscape() {
    // A 2-wide, 4-tall region: the crop comes back quarter-turned, so
    // its width is the region's height.
    let mut data = vec![0u8; 8 * 8];
    for y in 0..8 {
        for x in 0..8 {
            data[y * 8 + x] = (10 * y + x) as u8;
        }
    }
    let img = Raster::from_vec(8, 8, data).unwrap();
    let quad = Quadrilateral::new(pt(0, 0), pt(2, 0), pt(2, 4), pt(0, 4));
    let out = extract(&img, &quad, ExpansionPolicy::AsIs).unwrap();
    assert_eq!(out.width, 4);
    assert_eq!(out.height, 2);
    // Clockwise rotation: result column x reads the source rows bottom-up.
    // Source crop rows are (0, 1), (10, 11), (20, 21), (30, 31).
    assert_eq!(out.data, vec![30, 20, 10, 0, 31, 21, 11, 1]);
}

#[test]
fn interior_rectangle_is_cropped_exactly() {
    let mut data = vec![0u8; 8 * 4];
    for y in 0..4 {
        for x in 0..8 {
            data[y * 8 + x] = (10 * y + x) as u8;
        }
    }
    let img = Raster::from_vec(8, 4, data).unwrap();
    let quad = Quadrilateral::new(pt(2, 1), pt(6, 1), pt(6, 3), pt(2, 3));
    let out = extract(&img, &quad, ExpansionPolicy::AsIs).unwrap();
    assert_eq!(out.width, 4);
    assert_eq!(out.height, 2);
    assert_eq!(out.data, vec![12, 13, 14, 15, 22, 23, 24, 25]);
}

#[test]
fn zero_area_region_fails_with_geometry_error() {
    let img = Raster::from_vec(4, 4, vec![0; 16]).unwrap();
    let quad = Quadrilateral::new(pt(1, 1), pt(1, 1), pt(1, 1), pt(1, 1));
    let e = extract(&img, &quad, ExpansionPolicy::AsIs).unwrap_err();
    assert_eq!(e.code, barcode_pipeline::error::CODE_GEOMETRY);
}

#[test]
fn negative_corners_fill_with_black() {
    // A quad hanging past the top-left of the image: samples before
    // the image start are black, the rest are read normally.
    let img = Raster::from_vec(2, 2, vec![200; 4]).unwrap();
    let quad = Quadrilateral::new(pt(-2, 0), pt(2, 0), pt(2, 2), pt(-2, 2));
    let out = extract(&img, &quad, ExpansionPolicy::AsIs).unwrap();
    assert_eq!(out.width, 4);
    assert_eq!(out.height, 2);
    assert_eq!(out.data, vec![0, 0, 200, 200, 0, 0, 200, 200]);
}

#[test]
fn out_of_bounds_samples_fill_with_black() {
    // A quad hanging past the right edge of a tiny image: the part of
    // the crop outside the source is black.
    let img = Raster::from_vec(2, 2, vec![200; 4]).unwrap();
    let quad = Quadrilateral::new(pt(2, 0), pt(6, 0), pt(6, 2), pt(2, 2));
    let out = extract(&img, &quad, ExpansionPolicy::AsIs).unwrap();
    assert_eq!(out.width, 4);
    assert_eq!(out.height, 2);
    assert!(out.data.iter().all(|&v| v == 0));
}
