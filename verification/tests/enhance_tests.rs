use barcode_pipeline::enhance::{
    adaptive_local_contrast, apply_enhancement, gradient_emphasis, morphological_close,
    BaseStrategy, EnhancementConfig, GradientMode,
};
use barcode_pipeline::raster::Raster;

fn raster(width: usize, height: usize, data: Vec<u8>) -> Raster {
    Raster::from_vec(width, height, data).unwrap()
}

#[test]
fn global_contrast_stretches_histogram() {
    let img = raster(4, 1, vec![10, 10, 20, 40]);
    let out = apply_enhancement(
        EnhancementConfig::Single(BaseStrategy::GlobalContrast),
        &img,
    );
    // Counts: 10 -> 2, 20 -> 1, 40 -> 1; map(v) = (cdf(v) - 2) * 255 / 2.
    assert_eq!(out.data, vec![0, 0, 127, 255]);
}

#[test]
fn global_contrast_keeps_flat_raster_flat() {
    let img = raster(3, 3, vec![80; 9]);
    let out = apply_enhancement(
        EnhancementConfig::Single(BaseStrategy::GlobalContrast),
        &img,
    );
    assert_eq!(out.data, vec![80; 9]);
}

#[test]
fn gradient_threshold_marks_edges() {
    let img = raster(4, 1, vec![0, 0, 255, 255]);
    let out = gradient_emphasis(&img, false, GradientMode::Threshold(128));
    assert_eq!(out.data, vec![0, 255, 255, 0]);
}

#[test]
fn gradient_on_flat_raster_stays_flat() {
    let img = raster(8, 8, vec![77; 64]);
    let out = gradient_emphasis(&img, true, GradientMode::Threshold(10));
    assert_eq!(out.data, vec![0; 64]);
    let all_white = gradient_emphasis(&img, false, GradientMode::Threshold(0));
    assert_eq!(all_white.data, vec![255; 64]);
    let blended = gradient_emphasis(&img, true, GradientMode::Blend(0));
    // Weight zero keeps only the equalized base, which is flat at 77.
    assert_eq!(blended.data, vec![77; 64]);
}

#[test]
fn adaptive_on_flat_raster_stays_flat() {
    let img = Raster::new_filled(8, 8, 77);
    let out = adaptive_local_contrast(&img, 4, 2);
    assert_eq!(out.data, vec![77; 64]);
}

#[test]
fn morphological_close_bridges_and_trims() {
    let img = raster(5, 1, vec![0, 255, 0, 0, 0]);
    let out = morphological_close(&img, 3, 1);
    assert_eq!(out.data, vec![255, 255, 0, 0, 0]);
}

#[test]
fn morphological_close_fills_small_gap() {
    let img = raster(7, 1, vec![255, 255, 0, 255, 255, 0, 0]);
    let out = morphological_close(&img, 3, 1);
    assert_eq!(out.data, vec![255, 255, 255, 255, 255, 0, 0]);
}

#[test]
fn scale_round_trip_with_identity_kernel_preserves_input() {
    let img = raster(4, 2, vec![10, 20, 30, 40, 50, 60, 70, 80]);
    let out = apply_enhancement(
        EnhancementConfig::ScaleEnhanceRescale {
            factor: 2,
            inner: BaseStrategy::MorphologicalClose { kernel_w: 1, kernel_h: 1 },
        },
        &img,
    );
    assert_eq!(out.width, 4);
    assert_eq!(out.height, 2);
    assert_eq!(out.data, vec![10, 20, 30, 40, 50, 60, 70, 80]);
}

#[test]
fn adaptive_bands_equalize_independently() {
    // Two one-row bands with different content: each band is equalized
    // against its own histogram, then blurred.
    let img = raster(2, 2, vec![10, 40, 10, 40]);
    let out = adaptive_local_contrast(&img, 1, 1000);
    // Per band: counts 10 -> 1, 40 -> 1; map(10) = 0, map(40) = 255.
    // The 3x3 blur then mixes the two columns: for the left column the
    // window holds six samples of 0 and three of 255 (weights 12 and 4),
    // giving (4*255 + 8) / 16 = 64; symmetrically 191 on the right.
    assert_eq!(out.data, vec![64, 191, 64, 191]);
}
