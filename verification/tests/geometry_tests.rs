use barcode_pipeline::geometry::{derive_rectification, ExpansionPolicy, Point, Quadrilateral};

fn quad(c: [(i64, i64); 4]) -> Quadrilateral {
    Quadrilateral::new(
        Point::new(c[0].0, c[0].1),
        Point::new(c[1].0, c[1].1),
        Point::new(c[2].0, c[2].1),
        Point::new(c[3].0, c[3].1),
    )
}

#[test]
fn square_quad_does_not_rotate() {
    let q = quad([(0, 0), (10, 0), (10, 10), (0, 10)]);
    let rect = derive_rectification(&q, ExpansionPolicy::AsIs).unwrap();
    assert_eq!(rect.width, 10);
    assert_eq!(rect.height, 10);
    assert!(!rect.rotate90);
}

#[test]
fn wide_quad_does_not_rotate() {
    let q = quad([(0, 0), (40, 0), (40, 10), (0, 10)]);
    let rect = derive_rectification(&q, ExpansionPolicy::AsIs).unwrap();
    assert_eq!(rect.width, 40);
    assert_eq!(rect.height, 10);
    assert!(!rect.rotate90);
}

#[test]
fn tall_quad_rotates() {
    let q = quad([(0, 0), (10, 0), (10, 40), (0, 40)]);
    let rect = derive_rectification(&q, ExpansionPolicy::AsIs).unwrap();
    assert_eq!(rect.width, 10);
    assert_eq!(rect.height, 40);
    assert!(rect.rotate90);
}

#[test]
fn skewed_quad_measures_longer_edges() {
    // Top edge 3-4-5 triangle: length 5; bottom edge length 4.
    let q = quad([(0, 0), (4, 3), (4, 8), (0, 8)]);
    let rect = derive_rectification(&q, ExpansionPolicy::AsIs).unwrap();
    assert_eq!(rect.width, 5);
    assert_eq!(rect.height, 8);
}

#[test]
fn expansion_scales_corners_about_the_centre() {
    let q = quad([(0, 0), (4, 0), (4, 4), (0, 4)]);
    let rect = derive_rectification(&q, ExpansionPolicy::ScaleFromCentroid(2)).unwrap();
    // Centre (2, 2); each corner moves twice as far from it.
    assert_eq!(rect.src.p0, Point::new(-2, -2));
    assert_eq!(rect.src.p1, Point::new(6, -2));
    assert_eq!(rect.src.p2, Point::new(6, 6));
    assert_eq!(rect.src.p3, Point::new(-2, 6));
}

#[test]
fn expansion_by_one_is_identity() {
    let q = quad([(3, 5), (13, 5), (13, 11), (3, 11)]);
    let rect = derive_rectification(&q, ExpansionPolicy::ScaleFromCentroid(1)).unwrap();
    assert_eq!(rect.src, q);
}

#[test]
fn degenerate_quad_is_rejected_with_geometry_code() {
    let q = quad([(5, 5), (5, 5), (5, 5), (5, 5)]);
    let e = derive_rectification(&q, ExpansionPolicy::AsIs).unwrap_err();
    assert_eq!(e.code, barcode_pipeline::error::CODE_GEOMETRY);
}

#[test]
fn out_of_range_corner_is_rejected() {
    let q = quad([(-20000, 0), (10, 0), (10, 10), (0, 10)]);
    let e = derive_rectification(&q, ExpansionPolicy::AsIs).unwrap_err();
    assert_eq!(e.code, barcode_pipeline::error::CODE_GEOMETRY);
}

#[test]
fn slightly_negative_corner_is_accepted() {
    // A detector may round a corner just past the image edge; the
    // region is still rectified, with black fill outside the image.
    let q = quad([(-1, -1), (9, -1), (9, 9), (-1, 9)]);
    let rect = derive_rectification(&q, ExpansionPolicy::AsIs).unwrap();
    assert_eq!(rect.width, 10);
    assert_eq!(rect.height, 10);
}

#[test]
fn expansion_with_negative_centre_sums_uses_floor() {
    // The corners' x sum is negative and not divisible by four: the
    // centre's x coordinate rounds down.
    let q = quad([(-3, -3), (0, -3), (0, 5), (-3, 5)]);
    let rect = derive_rectification(&q, ExpansionPolicy::ScaleFromCentroid(2)).unwrap();
    // Centre is (floor(-6/4), floor(4/4)) == (-2, 1).
    assert_eq!(rect.src.p0, Point::new(-4, -7));
    assert_eq!(rect.src.p1, Point::new(2, -7));
    assert_eq!(rect.src.p2, Point::new(2, 9));
    assert_eq!(rect.src.p3, Point::new(-4, 9));
}

#[test]
fn expansion_preserves_the_four_corner_centroid() {
    // An asymmetric quad whose corner sums are divisible by four: the
    // expanded corners keep the four-corner centroid exactly.
    let q = quad([(0, 0), (8, 0), (8, 8), (0, 16)]);
    let rect = derive_rectification(&q, ExpansionPolicy::ScaleFromCentroid(2)).unwrap();
    // Centre is (16/4, 24/4) == (4, 6).
    assert_eq!(rect.src.p0, Point::new(-4, -6));
    assert_eq!(rect.src.p1, Point::new(12, -6));
    assert_eq!(rect.src.p2, Point::new(12, 10));
    assert_eq!(rect.src.p3, Point::new(-4, 26));
    let xs = rect.src.p0.x + rect.src.p1.x + rect.src.p2.x + rect.src.p3.x;
    let ys = rect.src.p0.y + rect.src.p1.y + rect.src.p2.y + rect.src.p3.y;
    assert_eq!((xs / 4, ys / 4), (4, 6));
}

#[test]
fn exception_renders_code_and_message() {
    let e = barcode_pipeline::Exception::new(200, "No barcode detected");
    assert_eq!(e.to_string(), "200, No barcode detected");
    let n = barcode_pipeline::Exception::new(-17, "backwards");
    assert_eq!(n.to_string(), "-17, backwards");
    let z = barcode_pipeline::Exception::new(0, "zero");
    assert_eq!(z.to_string(), "0, zero");
}
