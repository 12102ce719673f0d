use vtk_parser::raycast::{
    composite_pixel, gamma_correct, isqrt, sample_volume, transparent, BoundsSample,
    CompositingParams, Fx3, Mode, Rgba, Shading, FX,
};
use vtk_parser::spoints::StructuredPoints;

fn cube(byte: u8) -> StructuredPoints {
    StructuredPoints {
        dims: (2, 2, 2),
        origin: (b"0".to_vec(), b"0".to_vec(), b"0".to_vec()),
        spacing: (b"1".to_vec(), b"1".to_vec(), b"1".to_vec()),
        data: vec![byte; 8],
        datatype: b"unsigned_char".to_vec(),
        dataname: b"s".to_vec(),
        numcomp: 1,
        tablename: b"default".to_vec(),
    }
}

fn base_params(mode: Mode) -> CompositingParams {
    CompositingParams {
        steps: 200,
        dx: 655,
        use_noise: false,
        gamma_num: 1,
        gamma_den: 1,
        mode,
        colour: Fx3 { x: FX, y: FX, z: FX },
        iso: 19660,
        grad_step: 1280,
        shading: Shading {
            ambient: Fx3 { x: FX, y: 0, z: 0 },
            amb_str: FX,
            diffuse: Fx3 { x: FX, y: 0, z: 0 },
            dif_str: FX,
            specular: Fx3 { x: FX, y: FX, z: FX },
            spe_str: 328,
            shininess: 300,
            light: Fx3 { x: 0, y: 0, z: FX },
        },
    }
}

fn full_segment() -> (BoundsSample, BoundsSample) {
    (
        BoundsSample { pos: Fx3 { x: 0, y: 0, z: 0 }, alpha: FX },
        BoundsSample { pos: Fx3 { x: FX, y: FX, z: FX }, alpha: FX },
    )
}

#[test]
fn zero_front_alpha_is_fully_transparent() {
    let vol = cube(255);
    let params = base_params(Mode::MaximumIntensityProjection);
    let front = BoundsSample { pos: Fx3 { x: 0, y: 0, z: 0 }, alpha: 0 };
    let back = BoundsSample { pos: Fx3 { x: FX, y: FX, z: FX }, alpha: FX };
    let out = composite_pixel(&vol, &params, &front, &back, 0);
    assert_eq!(out, transparent());
    let params_iso = base_params(Mode::IsosurfaceExtraction);
    let out = composite_pixel(&vol, &params_iso, &front, &back, 12345);
    assert_eq!(out, transparent());
}

#[test]
fn zero_length_segment_is_fully_transparent() {
    let vol = cube(255);
    let params = base_params(Mode::MaximumIntensityProjection);
    let here = BoundsSample { pos: Fx3 { x: FX / 2, y: FX / 2, z: FX / 2 }, alpha: FX };
    let out = composite_pixel(&vol, &params, &here, &here, 0);
    assert_eq!(out, transparent());
}

#[test]
fn mip_over_a_zero_field_is_fully_transparent() {
    let vol = cube(0);
    let params = base_params(Mode::MaximumIntensityProjection);
    let (front, back) = full_segment();
    let out = composite_pixel(&vol, &params, &front, &back, 0);
    assert_eq!(out, transparent());
}

#[test]
fn mip_over_a_bright_field_is_opaque_with_the_projection_colour() {
    let vol = cube(255);
    let params = base_params(Mode::MaximumIntensityProjection);
    let (front, back) = full_segment();
    let out = composite_pixel(&vol, &params, &front, &back, 0);
    // Every sample of the uniformly full field is exactly one, the
    // projection colour is white and gamma is one, so each channel is one.
    assert_eq!(out, Rgba { r: FX, g: FX, b: FX, a: FX });
}

#[test]
fn mip_with_jitter_still_sees_the_uniform_field() {
    let vol = cube(255);
    let mut params = base_params(Mode::MaximumIntensityProjection);
    params.use_noise = true;
    let (front, back) = full_segment();
    let out = composite_pixel(&vol, &params, &front, &back, FX - 1);
    assert_eq!(out, Rgba { r: FX, g: FX, b: FX, a: FX });
}

#[test]
fn mip_scales_the_colour_by_the_brightest_sample() {
    // A uniform field of half intensity: every sample is 128/255, and the
    // output channel is that value times the colour, gamma one.
    let vol = cube(128);
    let params = base_params(Mode::MaximumIntensityProjection);
    let (front, back) = full_segment();
    let out = composite_pixel(&vol, &params, &front, &back, 0);
    let half = (128i64 * FX) / 255;
    assert_eq!(out, Rgba { r: half, g: half, b: half, a: FX });
}

#[test]
fn iso_below_threshold_is_fully_transparent() {
    // Threshold 0.9; the field never exceeds 0.5 anywhere.
    let vol = cube(127);
    let mut params = base_params(Mode::IsosurfaceExtraction);
    params.iso = (9 * FX) / 10;
    let (front, back) = full_segment();
    let out = composite_pixel(&vol, &params, &front, &back, 0);
    assert_eq!(out, transparent());
}

#[test]
fn iso_hit_on_a_uniform_field_shades_ambient_only() {
    // The gradient of a uniform field is zero, so diffuse and specular
    // vanish and the pixel is the ambient term alone: full-strength red.
    let vol = cube(255);
    let params = base_params(Mode::IsosurfaceExtraction);
    let (front, back) = full_segment();
    let out = composite_pixel(&vol, &params, &front, &back, 0);
    assert_eq!(out, Rgba { r: FX, g: 0, b: 0, a: FX });
}

#[test]
fn iso_hit_with_a_gradient_lights_all_three_terms() {
    // The field ramps from dark to bright along z, so at the hit the
    // normal is exactly the z axis.  Marching along z with the light on
    // the z axis makes every shading dot product exactly one, so each
    // term is its strength times its colour, with no rounding left over:
    // ambient red a tenth, diffuse green saturated, and specular blue
    // 328 * (300 + 8) / 8 in fixed point.
    let mut vol = cube(0);
    vol.data = vec![0, 0, 0, 0, 255, 255, 255, 255];
    let mut params = base_params(Mode::IsosurfaceExtraction);
    params.shading.ambient = Fx3 { x: FX, y: 0, z: 0 };
    params.shading.amb_str = FX / 10;
    params.shading.diffuse = Fx3 { x: 0, y: FX, z: 0 };
    params.shading.dif_str = FX;
    params.shading.specular = Fx3 { x: 0, y: 0, z: FX };
    params.shading.spe_str = 328;
    params.shading.light = Fx3 { x: 0, y: 0, z: FX };
    let front = BoundsSample { pos: Fx3 { x: FX / 2, y: FX / 2, z: 0 }, alpha: FX };
    let back = BoundsSample { pos: Fx3 { x: FX / 2, y: FX / 2, z: FX }, alpha: FX };
    let out = composite_pixel(&vol, &params, &front, &back, 0);
    assert_eq!(out, Rgba { r: FX / 10, g: FX, b: 12628, a: FX });
}

#[test]
fn sampling_reads_corners_and_interpolates() {
    let mut vol = cube(0);
    vol.data = vec![0, 32, 64, 96, 128, 160, 192, 224];
    // The origin maps to the first sample, the far corner to the last.
    assert_eq!(sample_volume(&vol, &Fx3 { x: 0, y: 0, z: 0 }), 0);
    let last = (224i64 * FX) / 255;
    assert_eq!(sample_volume(&vol, &Fx3 { x: FX, y: FX, z: FX }), last);
    // Halfway along x interpolates the first two samples evenly.
    let second = (32i64 * FX) / 255;
    let mid = (0 * (FX - FX / 2) + second * (FX / 2)) / FX;
    assert_eq!(sample_volume(&vol, &Fx3 { x: FX / 2, y: 0, z: 0 }), mid);
    // Sampling clamps to the volume's edge.
    assert_eq!(sample_volume(&vol, &Fx3 { x: -FX, y: -FX, z: -FX }), 0);
    assert_eq!(sample_volume(&vol, &Fx3 { x: 2 * FX, y: 2 * FX, z: 2 * FX }), last);
}

#[test]
fn integer_square_root_brackets() {
    assert_eq!(isqrt(0), 0);
    assert_eq!(isqrt(1), 1);
    assert_eq!(isqrt(3), 1);
    assert_eq!(isqrt(4), 2);
    assert_eq!(isqrt(12884901888), 113511);
    assert_eq!(isqrt(i64::MAX), 3037000499);
}

#[test]
fn gamma_with_unit_exponent_is_the_identity() {
    for c in [0i64, 1, 1000, 32768, 65535, FX] {
        assert_eq!(gamma_correct(c, 1, 1), c);
    }
}

#[test]
fn gamma_round_trip_is_close_to_the_identity() {
    // Correcting with gamma two and then gamma one half is the identity up
    // to fixed-point truncation.
    for c in [0i64, 4096, 16384, 32768, 50000, FX] {
        let once = gamma_correct(c, 2, 1);
        let back = gamma_correct(once, 1, 2);
        assert!((back - c).abs() <= 4, "round trip drifted: {} -> {} -> {}", c, once, back);
    }
}

#[test]
fn gamma_brightens_dark_channels_for_gamma_above_one() {
    // Display gamma 2.2 as the rational 11/5: a mid-grey comes out
    // brighter, and the endpoints stay fixed.
    let mid = gamma_correct(FX / 4, 11, 5);
    assert!(mid > FX / 4);
    assert_eq!(gamma_correct(0, 11, 5), 0);
    assert_eq!(gamma_correct(FX, 11, 5), FX);
}
