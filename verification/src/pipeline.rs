//! Pipeline orchestrator: drive detection, rectification, enhancement
//! and decoding over every candidate of one image.
//!
//! Detection and symbol decoding are opaque, injected capabilities: the
//! orchestrator is generic over a `DetectDecode` implementation, so the
//! verified pipeline can be exercised with deterministic stubs as well
//! as a real detector.  Nothing is assumed about what the capability
//! returns; the orchestrator's contracts state what holds of its own
//! result for every possible capability outcome.
//!
//! Per-candidate failure aborts the whole pass and surfaces as the
//! call's error, mirroring the first-failure policy of the original
//! behaviour this design preserves.  Every surfaced error carries one
//! of the library's category codes: failures of the injected
//! capabilities are re-coded into the detection and decode categories,
//! with the capability's own message kept.

use vstd::prelude::*;

use crate::dto::{corner_seq, CodeInfo};
use crate::enhance::EnhancementConfig;
use crate::error::{Exception, CODE_DECODE, CODE_DETECT, CODE_GEOMETRY, CODE_NO_BARCODE};
use crate::geometry::{rectification_ok, ExpansionPolicy, Point, Quadrilateral};
use crate::raster::Raster;
use crate::region::{extract, extract_height, extract_width};

verus! {

/// The external detect and decode capability.
///
/// `detect` scans a raster and reports whether localization succeeded,
/// with a flat sequence of corner points, four per candidate.  `decode`
/// reads a symbol out of a rectified raster bounded by the given
/// quadrilateral and returns its raw byte payload.
pub trait DetectDecode {
    /// Locates candidate barcode regions.
    fn detect(&self, image: &Raster) -> Result<(bool, Vec<Point>), Exception>;

    /// Extracts a symbol payload from a rectified region.
    fn decode(&self, image: &Raster, quad: &Quadrilateral) -> Result<Vec<u8>, Exception>;
}

/// A per-candidate tracing hook: the orchestrator reports each
/// rectified crop and each enhanced crop to it.  Embeddings that only
/// want decoded results install `NullObserver`.
pub trait CandidateObserver {
    /// Called with each candidate's rectified crop.
    fn on_rectified(&mut self, index: usize, raster: &Raster);

    /// Called with each candidate's enhanced crop.
    fn on_enhanced(&mut self, index: usize, raster: &Raster);
}

/// The observer that ignores every report.
pub struct NullObserver;

impl CandidateObserver for NullObserver {
    fn on_rectified(&mut self, index: usize, raster: &Raster) {
    }

    fn on_enhanced(&mut self, index: usize, raster: &Raster) {
    }
}

/// Candidate `i` of a flat point sequence: points `4i` to `4i + 3`.
pub open spec fn quad_of(ps: Seq<Point>, i: int) -> Quadrilateral {
    Quadrilateral { p0: ps[4 * i], p1: ps[4 * i + 1], p2: ps[4 * i + 2], p3: ps[4 * i + 3] }
}

/// The detection outcome carries usable candidate geometry: detection
/// succeeded and handed back a positive multiple of four points.
pub open spec fn detection_usable(success: bool, ps: Seq<Point>) -> bool {
    success && ps.len() >= 4 && ps.len() % 4 == 0
}

/// Partitions a detection outcome into candidate quadrilaterals.
///
/// Fails with `CODE_NO_BARCODE` exactly when detection reported failure
/// or returned a point count that is not a positive multiple of four;
/// otherwise group `i` of four consecutive points becomes candidate
/// `i`, preserving detection order.
pub fn candidate_quads(success: bool, points: &Vec<Point>) -> (r: Result<
    Vec<Quadrilateral>,
    Exception,
>)
    ensures
        r is Ok <==> detection_usable(success, points@),
        r matches Ok(qs) ==> {
            &&& qs@.len() == points@.len() / 4
            &&& forall|i: int| 0 <= i < qs@.len() ==> qs@[i] == quad_of(points@, i)
        },
        r matches Err(e) ==> e.code == CODE_NO_BARCODE,
{
    let n = points.len();
    if !success || n < 4 || n % 4 != 0 {
        return Err(Exception::new(CODE_NO_BARCODE, "No barcode detected"));
    }
    let count = n / 4;
    let mut quads: Vec<Quadrilateral> = Vec::new();
    let mut i: usize = 0;
    while i < count
        invariant
            n == points@.len(),
            n % 4 == 0,
            count == n / 4,
            i <= count,
            quads@.len() == i,
            forall|j: int| 0 <= j < i ==> quads@[j] == quad_of(points@, j),
        decreases count - i,
    {
        proof {
            assert(4 * i + 3 < n) by (nonlinear_arith)
                requires
                    0 <= i < count,
                    count == n / 4,
                    n % 4 == 0,
                    n == (n / 4) * 4 + n % 4,
            ;
            vstd::arithmetic::div_mod::lemma_fundamental_div_mod(n as int, 4);
        }
        let base = 4 * i;
        let q = Quadrilateral {
            p0: points[base],
            p1: points[base + 1],
            p2: points[base + 2],
            p3: points[base + 3],
        };
        quads.push(q);
        i = i + 1;
    }
    Ok(quads)
}

/// Relies on String::from_utf8: it succeeds exactly on valid UTF-8
/// input, and the returned string's characters are the decoding of the
/// input bytes.
#[verifier::external_body]
fn bytes_to_text(bytes: Vec<u8>) -> (r: Option<String>)
    ensures
        r is Some <==> vstd::utf8::valid_utf8(bytes@),
        r matches Some(t) ==> t@ == vstd::utf8::decode_utf8(bytes@),
{
    match String::from_utf8(bytes) {
        Ok(s) => Some(s),
        Err(_) => None,
    }
}

/// Builds the result record for one candidate from the decode
/// capability's payload.
///
/// Succeeds exactly when the payload is valid UTF-8; its decoding
/// becomes the record's symbol text, alongside the candidate's
/// *original* source-space corners and an empty category tag.  Invalid
/// UTF-8 is a fatal decode error, never silently replaced.
pub fn build_record(bytes: Vec<u8>, quad: &Quadrilateral) -> (r: Result<CodeInfo, Exception>)
    ensures
        r is Ok <==> vstd::utf8::valid_utf8(bytes@),
        r matches Ok(info) ==> {
            &&& info.code@ == vstd::utf8::decode_utf8(bytes@)
            &&& info.points@ == corner_seq(*quad)
            &&& info.wf()
        },
        r matches Err(e) ==> e.code == CODE_DECODE,
{
    let code = match bytes_to_text(bytes) {
        Option::None => {
            return Err(Exception::new(CODE_DECODE, "decoded payload is not valid text"));
        },
        Option::Some(t) => t,
    };
    let mut corner_vec: Vec<Point> = Vec::new();
    corner_vec.push(quad.p0);
    corner_vec.push(quad.p1);
    corner_vec.push(quad.p2);
    corner_vec.push(quad.p3);
    proof {
        assert(corner_vec@ =~= corner_seq(*quad));
    }
    Ok(CodeInfo { code, category: String::new(), points: corner_vec })
}

/// Candidate `i` of a detection outcome is viable: its quadrilateral
/// admits a rectification and the rectified crop fits the configured
/// enhancement.
pub open spec fn candidate_viable(
    ps: Seq<Point>,
    i: int,
    config: EnhancementConfig,
    e: ExpansionPolicy,
) -> bool {
    rectification_ok(quad_of(ps, i), e) && config.fits(
        extract_width(quad_of(ps, i), e),
        extract_height(quad_of(ps, i), e),
    )
}

/// Decodes every candidate of one detection outcome.
///
/// The detection outcome is passed in as plain values, so this function
/// is the pipeline's decision core: exactly when the outcome is not
/// usable it fails with `CODE_NO_BARCODE`.  Otherwise each candidate is
/// rectified, enhanced and handed to the decode capability in
/// detection order, and on overall success the result holds one record
/// per candidate, in order, carrying the candidate's *original*
/// source-space corners and an empty category tag.  The first
/// per-candidate failure aborts the pass; in particular, a usable
/// outcome whose first candidate is not viable yields the geometry
/// error before any capability is consulted.  Every error carries a
/// category code, and on a usable outcome only the geometry and
/// decode categories can surface: a decode-capability failure is
/// re-coded as a decode error, keeping its message.
pub fn decode_candidates<D: DetectDecode, O: CandidateObserver>(
    image: &Raster,
    success: bool,
    points: &Vec<Point>,
    config: EnhancementConfig,
    expansion: ExpansionPolicy,
    codec: &D,
    observer: &mut O,
) -> (r: Result<Vec<CodeInfo>, Exception>)
    requires
        image.wf(),
        image.width <= 0x4000,
        image.height <= 0x4000,
        config.valid(),
    ensures
        !detection_usable(success, points@) ==> (r matches Err(e) && e.code == CODE_NO_BARCODE),
        detection_usable(success, points@) && !candidate_viable(points@, 0, config, expansion)
            ==> (r matches Err(e) && e.code == CODE_GEOMETRY),
        r matches Err(e) ==> e.code == CODE_NO_BARCODE || e.code == CODE_GEOMETRY || e.code
            == CODE_DECODE,
        detection_usable(success, points@) ==> (r matches Err(e) ==> e.code == CODE_GEOMETRY
            || e.code == CODE_DECODE),
        r matches Ok(infos) ==> {
            &&& detection_usable(success, points@)
            &&& infos@.len() == points@.len() / 4
            &&& forall|i: int|
                0 <= i < infos@.len() ==> (#[trigger] infos@[i]).points@ == corner_seq(
                    quad_of(points@, i),
                ) && infos@[i].wf()
            &&& forall|i: int|
                0 <= i < infos@.len() ==> candidate_viable(points@, i, config, expansion)
        },
{
    let quads = match candidate_quads(success, points) {
        Err(e) => {
            return Err(e);
        },
        Ok(qs) => qs,
    };
    let count = quads.len();
    let mut infos: Vec<CodeInfo> = Vec::new();
    let mut i: usize = 0;
    while i < count
        invariant
            image.wf(),
            image.width <= 0x4000,
            image.height <= 0x4000,
            config.valid(),
            detection_usable(success, points@),
            count == quads@.len(),
            quads@.len() == points@.len() / 4,
            forall|j: int| 0 <= j < count ==> quads@[j] == quad_of(points@, j),
            i <= count,
            infos@.len() == i,
            forall|j: int|
                0 <= j < i ==> (#[trigger] infos@[j]).points@ == corner_seq(quad_of(points@, j))
                    && infos@[j].wf(),
            forall|j: int| 0 <= j < i ==> candidate_viable(points@, j, config, expansion),
        decreases count - i,
    {
        let quad = quads[i];
        let crop = match extract(image, &quad, expansion) {
            Err(e) => {
                return Err(e);
            },
            Ok(c) => c,
        };
        observer.on_rectified(i, &crop);
        if !enhancement_fits(config, crop.width, crop.height) {
            return Err(
                Exception::new(
                    crate::error::CODE_GEOMETRY,
                    "candidate region too large for the configured enhancement",
                ),
            );
        }
        let enhanced = crate::enhance::apply_enhancement(config, &crop);
        observer.on_enhanced(i, &enhanced);
        let dest = Quadrilateral {
            p0: Point { x: 0, y: 0 },
            p1: Point { x: enhanced.width as i64, y: 0 },
            p2: Point { x: enhanced.width as i64, y: enhanced.height as i64 },
            p3: Point { x: 0, y: enhanced.height as i64 },
        };
        let bytes = match codec.decode(&enhanced, &dest) {
            Err(e) => {
                let mut msg = String::from_str("the decode capability failed: ");
                msg.append(e.message.as_str());
                return Err(Exception { code: CODE_DECODE, message: msg });
            },
            Ok(b) => b,
        };
        let info = match build_record(bytes, &quad) {
            Err(e) => {
                return Err(e);
            },
            Ok(record) => record,
        };
        infos.push(info);
        i = i + 1;
    }
    Ok(infos)
}

/// Whether the configured enhancement can run on a crop of the given
/// dimensions without outgrowing the supported sample count.
fn enhancement_fits(config: EnhancementConfig, w: usize, h: usize) -> (b: bool)
    requires
        config.valid(),
        1 <= w <= 0xB504,
        1 <= h <= 0xB504,
    ensures
        b == config.fits(w as int, h as int),
{
    match config {
        EnhancementConfig::Single(_) => {
            proof {
                assert(w * h <= 0xFFFF_FFFF) by (nonlinear_arith)
                    requires
                        1 <= w <= 0xB504,
                        1 <= h <= 0xB504,
                ;
            }
            true
        },
        EnhancementConfig::ScaleEnhanceRescale { factor, inner } => {
            proof {
                assert(w * factor <= 0xB5040 && h * factor <= 0xB5040) by (nonlinear_arith)
                    requires
                        1 <= w <= 0xB504,
                        1 <= h <= 0xB504,
                        1 <= factor <= 16,
                ;
            }
            let sw: u64 = (w as u64) * (factor as u64);
            let sh: u64 = (h as u64) * (factor as u64);
            proof {
                assert((sw as int) * (sh as int) == (w * factor) * (h * factor)
                    && (sw as int) * (sh as int) <= 0xB5040 * 0xB5040) by (nonlinear_arith)
                    requires
                        sw == w * factor,
                        sh == h * factor,
                        0 <= sw <= 0xB5040,
                        0 <= sh <= 0xB5040,
                ;
            }
            sw * sh <= 0xFFFF_FFFF
        },
    }
}

/// Runs the whole pipeline on one image: detect candidates, then
/// rectify, enhance and decode each.
///
/// Nothing is assumed about the injected capability, so the contract
/// states what holds of every outcome: any successful result is a list
/// of well-formed records, each carrying exactly four source-space
/// corner points and an empty category tag.  The exact relation
/// between the detection outcome and the result is stated on
/// `decode_candidates`, which this function applies to whatever the
/// capability returned.
pub fn detect_and_decode<D: DetectDecode, O: CandidateObserver>(
    image: &Raster,
    config: EnhancementConfig,
    expansion: ExpansionPolicy,
    codec: &D,
    observer: &mut O,
) -> (r: Result<Vec<CodeInfo>, Exception>)
    requires
        image.wf(),
        image.width <= 0x4000,
        image.height <= 0x4000,
        config.valid(),
    ensures
        r matches Ok(infos) ==> forall|i: int|
            0 <= i < infos@.len() ==> (#[trigger] infos@[i]).wf(),
        r matches Err(e) ==> e.code == CODE_DETECT || e.code == CODE_NO_BARCODE || e.code
            == CODE_GEOMETRY || e.code == CODE_DECODE,
{
    match codec.detect(image) {
        Err(e) => {
            let mut msg = String::from_str("the detect capability failed: ");
            msg.append(e.message.as_str());
            Err(Exception { code: CODE_DETECT, message: msg })
        },
        Ok((success, points)) => decode_candidates(
            image,
            success,
            &points,
            config,
            expansion,
            codec,
            observer,
        ),
    }
}

} // verus!
