use std::cell::RefCell;

use barcode_pipeline::enhance::{BaseStrategy, EnhancementConfig};
use barcode_pipeline::error::{CODE_DECODE, CODE_NO_BARCODE};
use barcode_pipeline::geometry::{ExpansionPolicy, Point, Quadrilateral};
use barcode_pipeline::pipeline::{
    candidate_quads, decode_candidates, detect_and_decode, CandidateObserver, DetectDecode,
    NullObserver,
};
use barcode_pipeline::raster::Raster;
use barcode_pipeline::Exception;

struct StubCodec {
    success: bool,
    points: Vec<Point>,
    payloads: Vec<Vec<u8>>,
    calls: RefCell<usize>,
}

impl DetectDecode for StubCodec {
    fn detect(&self, _image: &Raster) -> Result<(bool, Vec<Point>), Exception> {
        Ok((self.success, self.points.clone()))
    }

    fn decode(&self, _image: &Raster, _quad: &Quadrilateral) -> Result<Vec<u8>, Exception> {
        let mut calls = self.calls.borrow_mut();
        let payload = self.payloads[*calls].clone();
        *calls += 1;
        Ok(payload)
    }
}

struct CountingObserver {
    rectified: usize,
    enhanced: usize,
}

impl CandidateObserver for CountingObserver {
    fn on_rectified(&mut self, _index: usize, _raster: &Raster) {
        self.rectified += 1;
    }

    fn on_enhanced(&mut self, _index: usize, _raster: &Raster) {
        self.enhanced += 1;
    }
}

fn gray_image(width: usize, height: usize) -> Raster {
    let mut data = Vec::new();
    for i in 0..width * height {
        data.push((i % 251) as u8);
    }
    Raster::from_vec(width, height, data).unwrap()
}

fn config() -> EnhancementConfig {
    EnhancementConfig::Single(BaseStrategy::GlobalContrast)
}

fn pt(x: i64, y: i64) -> Point {
    Point::new(x, y)
}

#[test]
fn failed_detection_reports_no_barcode() {
    let image = gray_image(32, 32);
    let codec = StubCodec {
        success: false,
        points: vec![pt(0, 0), pt(8, 0), pt(8, 4), pt(0, 4)],
        payloads: vec![],
        calls: RefCell::new(0),
    };
    let mut obs = NullObserver;
    let e = detect_and_decode(&image, config(), ExpansionPolicy::AsIs, &codec, &mut obs)
        .unwrap_err();
    assert_eq!(e.code, CODE_NO_BARCODE);
}

#[test]
fn point_count_not_multiple_of_four_reports_no_barcode() {
    let image = gray_image(32, 32);
    let codec = StubCodec {
        success: true,
        points: vec![pt(0, 0), pt(8, 0), pt(8, 4), pt(0, 4), pt(1, 1)],
        payloads: vec![],
        calls: RefCell::new(0),
    };
    let mut obs = NullObserver;
    let e = detect_and_decode(&image, config(), ExpansionPolicy::AsIs, &codec, &mut obs)
        .unwrap_err();
    assert_eq!(e.code, CODE_NO_BARCODE);
}

#[test]
fn zero_points_reports_no_barcode() {
    let image = gray_image(32, 32);
    let codec = StubCodec {
        success: true,
        points: vec![],
        payloads: vec![],
        calls: RefCell::new(0),
    };
    let mut obs = NullObserver;
    let e = detect_and_decode(&image, config(), ExpansionPolicy::AsIs, &codec, &mut obs)
        .unwrap_err();
    assert_eq!(e.code, CODE_NO_BARCODE);
}

#[test]
fn two_candidates_decode_in_detection_order() {
    let image = gray_image(64, 64);
    let quad_a = [pt(0, 0), pt(8, 0), pt(8, 4), pt(0, 4)];
    let quad_b = [pt(16, 16), pt(24, 16), pt(24, 20), pt(16, 20)];
    let mut points = Vec::new();
    points.extend_from_slice(&quad_a);
    points.extend_from_slice(&quad_b);
    let codec = StubCodec {
        success: true,
        points,
        payloads: vec![b"A1".to_vec(), b"B2".to_vec()],
        calls: RefCell::new(0),
    };
    let mut obs = CountingObserver { rectified: 0, enhanced: 0 };
    let infos = detect_and_decode(&image, config(), ExpansionPolicy::AsIs, &codec, &mut obs)
        .unwrap();
    assert_eq!(infos.len(), 2);
    assert_eq!(infos[0].code, "A1");
    assert_eq!(infos[1].code, "B2");
    assert_eq!(infos[0].category, "");
    assert_eq!(infos[1].category, "");
    assert_eq!(infos[0].points, quad_a.to_vec());
    assert_eq!(infos[1].points, quad_b.to_vec());
    assert_eq!(obs.rectified, 2);
    assert_eq!(obs.enhanced, 2);
}

#[test]
fn invalid_utf8_payload_is_a_decode_error() {
    let image = gray_image(32, 32);
    let codec = StubCodec {
        success: true,
        points: vec![pt(0, 0), pt(8, 0), pt(8, 4), pt(0, 4)],
        payloads: vec![vec![0xFF, 0xFE]],
        calls: RefCell::new(0),
    };
    let mut obs = NullObserver;
    let e = detect_and_decode(&image, config(), ExpansionPolicy::AsIs, &codec, &mut obs)
        .unwrap_err();
    assert_eq!(e.code, CODE_DECODE);
}

#[test]
fn degenerate_candidate_aborts_the_pass() {
    let image = gray_image(32, 32);
    let codec = StubCodec {
        success: true,
        points: vec![pt(5, 5), pt(5, 5), pt(5, 5), pt(5, 5)],
        payloads: vec![],
        calls: RefCell::new(0),
    };
    let mut obs = NullObserver;
    let e = detect_and_decode(&image, config(), ExpansionPolicy::AsIs, &codec, &mut obs)
        .unwrap_err();
    assert_eq!(e.code, barcode_pipeline::error::CODE_GEOMETRY);
}

struct FailingDecoder;

impl DetectDecode for FailingDecoder {
    fn detect(&self, _image: &Raster) -> Result<(bool, Vec<Point>), Exception> {
        Ok((true, vec![pt(0, 0), pt(8, 0), pt(8, 4), pt(0, 4)]))
    }

    fn decode(&self, _image: &Raster, _quad: &Quadrilateral) -> Result<Vec<u8>, Exception> {
        // A capability may use any code of its own, even one that
        // collides with the library's no-barcode code.
        Err(Exception::new(200, "scan noise"))
    }
}

struct FailingDetector;

impl DetectDecode for FailingDetector {
    fn detect(&self, _image: &Raster) -> Result<(bool, Vec<Point>), Exception> {
        Err(Exception::new(0, "camera unplugged"))
    }

    fn decode(&self, _image: &Raster, _quad: &Quadrilateral) -> Result<Vec<u8>, Exception> {
        Ok(Vec::new())
    }
}

#[test]
fn decode_capability_failure_is_recoded_as_decode_error() {
    let image = gray_image(32, 32);
    let mut obs = NullObserver;
    let e = detect_and_decode(
        &image,
        config(),
        ExpansionPolicy::AsIs,
        &FailingDecoder,
        &mut obs,
    )
    .unwrap_err();
    assert_eq!(e.code, CODE_DECODE);
    assert!(e.message.contains("scan noise"));
}

#[test]
fn detect_capability_failure_is_recoded_as_detect_error() {
    let image = gray_image(32, 32);
    let mut obs = NullObserver;
    let e = detect_and_decode(
        &image,
        config(),
        ExpansionPolicy::AsIs,
        &FailingDetector,
        &mut obs,
    )
    .unwrap_err();
    assert_eq!(e.code, barcode_pipeline::error::CODE_DETECT);
    assert!(e.message.contains("camera unplugged"));
}

#[test]
fn build_record_carries_text_and_source_corners() {
    let quad = Quadrilateral::new(pt(0, 0), pt(8, 0), pt(8, 4), pt(0, 4));
    let info = barcode_pipeline::pipeline::build_record(b"A1".to_vec(), &quad).unwrap();
    assert_eq!(info.code, "A1");
    assert_eq!(info.category, "");
    assert_eq!(info.points, vec![pt(0, 0), pt(8, 0), pt(8, 4), pt(0, 4)]);
}

#[test]
fn build_record_rejects_invalid_utf8() {
    let quad = Quadrilateral::new(pt(0, 0), pt(8, 0), pt(8, 4), pt(0, 4));
    let e = barcode_pipeline::pipeline::build_record(vec![0xC0, 0x80], &quad).unwrap_err();
    assert_eq!(e.code, CODE_DECODE);
}

#[test]
fn candidate_quads_partitions_in_order() {
    let points = vec![
        pt(0, 0),
        pt(8, 0),
        pt(8, 4),
        pt(0, 4),
        pt(16, 16),
        pt(24, 16),
        pt(24, 20),
        pt(16, 20),
    ];
    let quads = candidate_quads(true, &points).unwrap();
    assert_eq!(quads.len(), 2);
    assert_eq!(quads[0], Quadrilateral::new(pt(0, 0), pt(8, 0), pt(8, 4), pt(0, 4)));
    assert_eq!(
        quads[1],
        Quadrilateral::new(pt(16, 16), pt(24, 16), pt(24, 20), pt(16, 20))
    );
}

#[test]
fn decode_candidates_rejects_unusable_outcomes() {
    let image = gray_image(16, 16);
    let codec = StubCodec {
        success: true,
        points: vec![],
        payloads: vec![],
        calls: RefCell::new(0),
    };
    let mut obs = NullObserver;
    let points = vec![pt(0, 0), pt(1, 0), pt(2, 0)];
    let e = decode_candidates(
        &image,
        true,
        &points,
        config(),
        ExpansionPolicy::AsIs,
        &codec,
        &mut obs,
    )
    .unwrap_err();
    assert_eq!(e.code, CODE_NO_BARCODE);
}
