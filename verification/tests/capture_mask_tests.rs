use nexfilm_engine::raw_backend::{
    capture_quality_mask, cfa_from_filters, channel_levels, copy_pitched_rows, libraw_orientation,
    usable_masked_areas, demosaic_layout, demosaic_neighbour, orient_pixels, smart_auto_codes, CfaPattern,
    QualityFlag, QualityFlags, ReferenceFit,
};

fn fit() -> Option<ReferenceFit> {
    Some(ReferenceFit { fits_geometry: true, mismatches: Vec::new() })
}

#[test]
fn bad_pixels_are_masked_from_areas_and_lists() {
    let mask = capture_quality_mask(4, 4, 16, &fit(), &fit(), &vec![[1, 1, 3, 2]], &vec![15], &vec![5, 100])
        .unwrap();
    assert!(mask.corrects);
    // Rows 1..3 and column 1 are inside the rectangle: samples 5 and 9.
    let expected_bad = [5usize, 9, 15];
    for i in 0..16 {
        let bad = expected_bad.contains(&i);
        assert_eq!(mask.quality.valid[i], !bad, "sample {i}");
        assert_eq!(mask.quality.flags[i].contains(&QualityFlag::BadPixel), bad, "sample {i}");
    }
}

#[test]
fn a_missing_reference_masks_every_sample_and_skips_bad_pixels() {
    let mask = capture_quality_mask(2, 2, 4, &None, &fit(), &vec![[0, 0, 2, 2]], &vec![], &vec![0]).unwrap();
    assert!(!mask.corrects);
    for i in 0..4 {
        assert!(!mask.quality.valid[i]);
        assert_eq!(mask.quality.flags[i].flags(), vec![QualityFlag::MissingReference]);
    }
}

#[test]
fn reference_mismatches_and_geometry_reach_every_sample() {
    let dark = Some(ReferenceFit { fits_geometry: true, mismatches: vec![QualityFlag::IsoMismatch] });
    let open = Some(ReferenceFit { fits_geometry: false, mismatches: Vec::new() });
    let mask = capture_quality_mask(2, 1, 2, &dark, &open, &vec![], &vec![], &vec![]).unwrap();
    assert!(!mask.corrects);
    assert_eq!(mask.quality.flags[1].flags(), vec![QualityFlag::GeometryMismatch, QualityFlag::IsoMismatch]);

    let open = Some(ReferenceFit { fits_geometry: true, mismatches: vec![QualityFlag::CameraMismatch] });
    let mask = capture_quality_mask(2, 1, 2, &dark, &open, &vec![], &vec![], &vec![]).unwrap();
    assert!(mask.corrects);
    assert_eq!(mask.quality.flags[0], QualityFlags((1 << 10) | (1 << 12)));
    assert!(!mask.quality.valid[0]);
}

#[test]
fn a_wrong_sample_count_is_refused() {
    assert_eq!(
        capture_quality_mask(4, 4, 15, &fit(), &fit(), &vec![], &vec![], &vec![]).unwrap_err(),
        "Raw mosaic sample count mismatch"
    );
}

#[test]
fn demosaic_layout_checks_cfa_sizes_and_active_area() {
    let bayer = CfaPattern::Bayer { filters: 0x94949494 };
    assert!(demosaic_layout(bayer, 4, 4, 16, 16, [0, 0, 4, 4]).is_ok());
    assert_eq!(
        demosaic_layout(CfaPattern::XTrans, 4, 4, 16, 16, [0, 0, 4, 4]).unwrap_err(),
        "Measured CFA demosaic requires a Bayer CFA"
    );
    assert_eq!(
        demosaic_layout(bayer, 4, 4, 16, 15, [0, 0, 4, 4]).unwrap_err(),
        "Raw mosaic and quality mask dimensions do not match"
    );
    assert_eq!(
        demosaic_layout(bayer, 4, 4, 16, 16, [1, 0, 4, 4]).unwrap_err(),
        "Raw active area is outside the unpacked mosaic"
    );
    assert_eq!(
        demosaic_layout(bayer, 4, 4, 16, 16, [0, 0, 0, 4]).unwrap_err(),
        "Raw active area is outside the unpacked mosaic"
    );
}

#[test]
fn demosaic_neighbours_stay_in_the_active_area_and_keep_the_raw_phase() {
    let filters = 0x94949494;
    let valid = vec![true; 36];
    let area = [1, 1, 4, 4];
    // The corner of the active area sees only the four sites inside it.
    let seen: Vec<(usize, u32)> =
        (0..9).filter_map(|k| demosaic_neighbour(filters, 6, 6, area, &valid, 1, 1, k)).collect();
    assert_eq!(seen.len(), 4);
    assert_eq!(seen[0].0, 7);
    // Raw site (1, 1) keeps the phase of full raw coordinates.
    assert_eq!(seen[0].1, nexfilm_engine::raw_backend::bayer_rgb_channel(filters, 1, 1));
    let mut invalid = valid.clone();
    invalid[8] = false;
    assert_eq!(demosaic_neighbour(filters, 6, 6, area, &invalid, 1, 1, 5), None);
    assert_eq!(demosaic_neighbour(filters, 6, 6, area, &valid, 1, 1, 5).map(|n| n.0), Some(8));
}

#[test]
fn orientation_turns_the_pixel_order() {
    // A 3 x 2 image: rows [0 1 2] and [3 4 5].
    let values: Vec<u8> = (0..6).collect();
    assert_eq!(orient_pixels(&values, 3, 2, 0), values);
    assert_eq!(orient_pixels(&values, 3, 2, 3), vec![5, 4, 3, 2, 1, 0]);
    // Flip 6 turns clockwise: the 2 x 3 result reads [3 0], [4 1], [5 2].
    assert_eq!(orient_pixels(&values, 3, 2, 6), vec![3, 0, 4, 1, 5, 2]);
    // Flip 5 turns counter-clockwise: [2 5], [1 4], [0 3].
    assert_eq!(orient_pixels(&values, 3, 2, 5), vec![2, 5, 1, 4, 0, 3]);
}

#[test]
fn opposite_turns_restore_the_image() {
    let values: Vec<u16> = (0..12).collect();
    let clockwise = orient_pixels(&values, 4, 3, 6);
    assert_eq!(orient_pixels(&clockwise, 3, 4, 5), values);
    let counter = orient_pixels(&values, 4, 3, 5);
    assert_eq!(orient_pixels(&counter, 3, 4, 6), values);
    let half = orient_pixels(&values, 4, 3, 3);
    assert_eq!(orient_pixels(&half, 4, 3, 3), values);
}

#[test]
fn pitched_rows_are_copied_without_their_padding() {
    // Two rows of three samples stored four samples (eight bytes) apart.
    let raw = [1u16, 2, 3, 99, 4, 5, 6];
    assert_eq!(copy_pitched_rows(&raw, 3, 2, 8).unwrap(), vec![1, 2, 3, 4, 5, 6]);
    assert_eq!(
        copy_pitched_rows(&raw, 3, 2, 4).unwrap_err(),
        "LibRaw returned invalid raw mosaic dimensions"
    );
    assert_eq!(copy_pitched_rows(&raw, 0, 2, 8).unwrap_err(), "LibRaw returned invalid raw mosaic dimensions");
}

#[test]
fn libraw_metadata_is_read_as_documented() {
    assert_eq!(cfa_from_filters(9), CfaPattern::XTrans);
    assert_eq!(cfa_from_filters(0), CfaPattern::Unknown);
    assert_eq!(cfa_from_filters(0x94949494), CfaPattern::Bayer { filters: 0x94949494 });
    assert_eq!(libraw_orientation(-1), 0);
    assert_eq!(libraw_orientation(6), 6);
    assert_eq!(libraw_orientation(70_000), u16::MAX);
    let (black, white) = channel_levels(10, [1, 2, 3, u32::MAX], [0, 4000, 0, 5000], 16383);
    assert_eq!(black, [11, 12, 13, u32::MAX]);
    assert_eq!(white, [16383, 4000, 16383, 5000]);
    let areas = vec![[0, 0, 0, 0], [0, 0, 10, 4], [1, -1, 2, 2], [2, 3, 4, 5]];
    assert_eq!(usable_masked_areas(&areas), vec![[0, 0, 10, 4], [2, 3, 4, 5]]);
}

#[test]
fn smart_auto_keeps_the_first_three_channels_of_each_pixel() {
    // Two 8-bit pixels of four channels each.
    let data = [10u8, 20, 30, 99, 40, 50, 60, 98];
    let codes = smart_auto_codes(2, 1, 4, 8, &data, true).unwrap();
    assert_eq!(codes.codes, vec![10, 20, 30, 40, 50, 60]);
    assert_eq!(codes.full_scale, 255);
    // One 16-bit pixel of three channels, in either byte order.
    let wide = [0x34u8, 0x12, 0xff, 0x00, 0x00, 0x01];
    assert_eq!(smart_auto_codes(1, 1, 3, 16, &wide, true).unwrap().codes, vec![0x1234, 0x00ff, 0x0100]);
    assert_eq!(smart_auto_codes(1, 1, 3, 16, &wide, false).unwrap().codes, vec![0x3412, 0xff00, 0x0001]);
    assert_eq!(smart_auto_codes(1, 1, 3, 16, &wide, true).unwrap().full_scale, 65535);
}

#[test]
fn smart_auto_refuses_short_or_unusual_output() {
    assert_eq!(
        smart_auto_codes(1, 1, 1, 8, &[0], true).err().unwrap(),
        "LibRaw Smart Auto output has 1 channels"
    );
    assert_eq!(
        smart_auto_codes(1, 1, 3, 12, &[0; 6], true).err().unwrap(),
        "Unsupported LibRaw Smart Auto bit depth: 12"
    );
    assert_eq!(
        smart_auto_codes(2, 2, 3, 8, &[0; 11], true).err().unwrap(),
        "LibRaw Smart Auto output is truncated"
    );
    assert_eq!(smart_auto_codes(0, 5, 3, 8, &[], true).unwrap().codes, Vec::<u16>::new());
}

#[test]
fn orientation_moves_pixels_and_quality_together() {
    // A 2 x 3 capture turned clockwise becomes 3 x 2.
    let values: Vec<u32> = (0..6).collect();
    assert_eq!(orient_pixels(&values, 2, 3, 6), vec![4, 2, 0, 5, 3, 1]);
    let mut valid = vec![true; 6];
    valid[5] = false;
    let oriented = orient_pixels(&valid, 2, 3, 6);
    assert!(!oriented[3]);
    assert_eq!(oriented.iter().filter(|v| !**v).count(), 1);
}
