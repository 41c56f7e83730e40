use std::collections::BTreeMap;

use neftodng::exif_tags::{Rational, TagValue, LENS_MAKE, LENS_MODEL, LENS_SPEC};
use neftodng::verify::{
    compare_lens_tags, compare_samples, verify_decoded, DecodedImage, RawImageData, VerifyError,
};

fn floats(values: &[f32]) -> RawImageData {
    RawImageData::Float(values.iter().map(|v| v.to_bits()).collect())
}

#[test]
fn identical_samples_verify() {
    let a = RawImageData::Integer(vec![1, 2, 3, 4]);
    let b = RawImageData::Integer(vec![1, 2, 3, 4]);

    assert_eq!(compare_samples(&a, &b), Ok(()));
}

#[test]
fn a_single_differing_sample_is_caught() {
    // The case a size check cannot see: right shape, wrong content.
    let a = RawImageData::Integer(vec![1, 2, 3, 4]);
    let b = RawImageData::Integer(vec![1, 2, 9, 4]);

    assert_eq!(
        compare_samples(&a, &b),
        Err(VerifyError::Pixels {
            differing: 1,
            total: 4
        })
    );
}

#[test]
fn a_truncated_sample_run_is_caught() {
    let a = RawImageData::Integer(vec![1, 2, 3, 4]);
    let b = RawImageData::Integer(vec![1, 2]);

    assert_eq!(
        compare_samples(&a, &b),
        Err(VerifyError::SampleCount {
            source: 4,
            written: 2
        })
    );
}

#[test]
fn a_change_of_sample_format_is_caught() {
    let a = RawImageData::Integer(vec![1, 2]);
    let b = floats(&[1.0, 2.0]);

    assert_eq!(compare_samples(&a, &b), Err(VerifyError::Format));
}

#[test]
fn float_samples_compare_by_exact_bits() {
    let a = floats(&[1.5, 2.5]);
    let b = floats(&[1.5, 2.5]);
    assert_eq!(compare_samples(&a, &b), Ok(()));

    // One ULP away — the smallest representable difference, which a literal
    // like 2.5000001 cannot express because it rounds back to 2.5.
    let one_ulp_off = f32::from_bits(2.5f32.to_bits() + 1);
    let c = floats(&[1.5, one_ulp_off]);
    assert!(
        compare_samples(&a, &c).is_err(),
        "a lossless conversion must reproduce bits exactly, not approximately"
    );
}

#[test]
fn every_differing_sample_is_counted() {
    let a = RawImageData::Integer(vec![1, 2, 3, 4, 5]);
    let b = RawImageData::Integer(vec![0, 2, 0, 4, 0]);
    assert_eq!(compare_samples(&a, &b), Err(VerifyError::Pixels { differing: 3, total: 5 }));
}

#[test]
fn negative_and_positive_zero_are_different_bits() {
    let a = floats(&[0.0]);
    let b = floats(&[-0.0]);
    assert_eq!(compare_samples(&a, &b), Err(VerifyError::Pixels { differing: 1, total: 1 }));
}

#[test]
fn float_against_integer_is_a_format_change_too() {
    assert_eq!(
        compare_samples(&floats(&[1.0]), &RawImageData::Integer(vec![1])),
        Err(VerifyError::Format)
    );
}

#[test]
fn empty_images_match() {
    assert_eq!(
        compare_samples(&RawImageData::Integer(vec![]), &RawImageData::Integer(vec![])),
        Ok(())
    );
}

#[test]
fn different_geometry_is_caught_before_the_samples() {
    let src = DecodedImage { width: 4, height: 2, data: RawImageData::Integer(vec![0; 8]) };
    let dst = DecodedImage { width: 2, height: 4, data: RawImageData::Integer(vec![0; 8]) };
    assert_eq!(
        verify_decoded(&src, &dst),
        Err(VerifyError::Dimensions { source: (4, 2), written: (2, 4) })
    );
}

#[test]
fn same_geometry_falls_through_to_the_samples() {
    let src = DecodedImage { width: 2, height: 1, data: RawImageData::Integer(vec![7, 8]) };
    let same = DecodedImage { width: 2, height: 1, data: RawImageData::Integer(vec![7, 8]) };
    let other = DecodedImage { width: 2, height: 1, data: RawImageData::Integer(vec![7, 9]) };
    assert_eq!(verify_decoded(&src, &same), Ok(()));
    assert_eq!(
        verify_decoded(&src, &other),
        Err(VerifyError::Pixels { differing: 1, total: 2 })
    );
}

#[test]
fn verification_failures_explain_themselves() {
    assert_eq!(
        VerifyError::Unreadable("bad header".to_string()).message(),
        "verification failed: DNG could not be read back (bad header)"
    );
    assert_eq!(
        VerifyError::Dimensions { source: (6048, 4024), written: (4024, 6048) }.message(),
        "verification failed: 4024x6048 written from a 6048x4024 source"
    );
    assert_eq!(
        VerifyError::SampleCount { source: 4, written: 2 }.message(),
        "verification failed: 2 samples written from 4"
    );
    assert_eq!(
        VerifyError::Pixels { differing: 1, total: 4 }.message(),
        "verification failed: 1 of 4 samples differ from the original"
    );
    assert_eq!(VerifyError::Format.message(), "verification failed: sample format changed");
}

#[test]
fn a_silently_corrupted_dng_is_rejected() {
    // Same number of samples and same geometry, so a size check would pass it.
    let original: Vec<u16> = (0..4096u32).map(|i| (i * 7 % 4096) as u16).collect();
    let mut corrupted = original.clone();
    for i in (1000..1100).step_by(10) {
        corrupted[i] ^= 0x0100;
    }
    let src = DecodedImage { width: 64, height: 64, data: RawImageData::Integer(original) };
    let dst = DecodedImage { width: 64, height: 64, data: RawImageData::Integer(corrupted) };

    assert_eq!(
        verify_decoded(&src, &dst),
        Err(VerifyError::Pixels { differing: 10, total: 4096 }),
        "a corrupted DNG must be rejected"
    );
}

#[test]
fn a_dng_holding_a_different_photo_is_rejected() {
    let a = DecodedImage { width: 2, height: 2, data: RawImageData::Integer(vec![10, 20, 30, 40]) };
    let b = DecodedImage { width: 2, height: 2, data: RawImageData::Integer(vec![11, 21, 31, 41]) };
    assert!(verify_decoded(&a, &b).is_err(), "a DNG of a different photo must not verify");
}

fn text(s: &str) -> TagValue {
    TagValue::Text(s.to_string())
}

#[test]
fn lens_tags_survive_despite_a_change_of_case_and_representation() {
    let mut nef = BTreeMap::new();
    nef.insert(LENS_MAKE, text("NIKON"));
    nef.insert(LENS_SPEC, TagValue::Numbers(vec![Rational::Unsigned(240, 10)]));
    let mut dng = BTreeMap::new();
    dng.insert(LENS_MAKE, text("Nikon"));
    dng.insert(LENS_SPEC, TagValue::Numbers(vec![Rational::Unsigned(24, 1)]));
    dng.insert(LENS_MODEL, text("extra"));
    assert_eq!(compare_lens_tags(&nef, &dng), Ok(()));
    assert_eq!(compare_lens_tags(&BTreeMap::new(), &dng), Ok(()), "absent tags are not required");
}

#[test]
fn a_file_that_dropped_the_lens_tags_is_rejected() {
    let mut nef = BTreeMap::new();
    nef.insert(LENS_MODEL, text("NIKKOR Z 24-200mm"));
    let e = compare_lens_tags(&nef, &BTreeMap::new()).unwrap_err();
    assert_eq!(
        e,
        VerifyError::LensTag { tag: LENS_MODEL, source: "NIKKOR Z 24-200mm".to_string(), written: None }
    );
    assert_eq!(
        e.message(),
        "verification failed: lens model is missing from the DNG (was NIKKOR Z 24-200mm)"
    );
}

#[test]
fn a_changed_lens_tag_is_reported_first_in_order() {
    let mut nef = BTreeMap::new();
    nef.insert(LENS_MAKE, text("NIKON"));
    nef.insert(LENS_MODEL, text("A"));
    let mut dng = BTreeMap::new();
    dng.insert(LENS_MAKE, text("Canon"));
    dng.insert(LENS_MODEL, text("B"));
    let e = compare_lens_tags(&nef, &dng).unwrap_err();
    assert_eq!(e.message(), "verification failed: lens make changed from NIKON to Canon");
}
