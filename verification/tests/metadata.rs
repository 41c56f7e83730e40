use neftodng::exif_tags::Rational;
use neftodng::metadata::{
    compare_metadata, compare_shot_data, Area, ColorMatrix, MetadataField, RenderMetadata, ShotField,
};
use neftodng::verify::VerifyError;

fn sample() -> RenderMetadata {
    RenderMetadata {
        components: 1,
        cfa: "RGGB".to_string(),
        black_levels: vec![Rational::Unsigned(1008, 1); 4],
        white_levels: vec![15520],
        active_area: Some(Area { x: 0, y: 0, width: 6064, height: 4040 }),
        crop_area: Some(Area { x: 8, y: 8, width: 6048, height: 4024 }),
        color_matrices: vec![
            ColorMatrix { illuminant: 17, coefficients: vec![0.5f32.to_bits(), 0.25f32.to_bits()] },
            ColorMatrix { illuminant: 21, coefficients: vec![0.75f32.to_bits(), 0.125f32.to_bits()] },
        ],
    }
}

#[test]
fn colour_and_level_metadata_survives_a_real_conversion() {
    let mut written = sample();
    // The matrices may come back in another order, and a level as another
    // representation of the same number.
    written.color_matrices.reverse();
    written.black_levels[0] = Rational::Unsigned(10080, 10);
    assert_eq!(compare_metadata(&sample(), &written), Ok(()));
}

#[test]
fn a_wrong_white_level_is_detected() {
    let mut written = sample();
    written.white_levels = vec![12000];
    let e = compare_metadata(&sample(), &written).unwrap_err();
    assert_eq!(e, VerifyError::Metadata(MetadataField::WhiteLevel));
    assert_eq!(e.message(), "verification failed: white level differs from the original");
}

#[test]
fn a_wrong_colour_matrix_is_detected() {
    let mut written = sample();
    written.color_matrices[0].coefficients[0] = (0.5f32 + 0.25).to_bits();
    assert_eq!(
        compare_metadata(&sample(), &written),
        Err(VerifyError::Metadata(MetadataField::ColorMatrix))
    );
}

#[test]
fn an_illuminant_that_disappears_or_appears_is_detected() {
    let mut fewer = sample();
    fewer.color_matrices.pop();
    assert_eq!(
        compare_metadata(&sample(), &fewer),
        Err(VerifyError::Metadata(MetadataField::ColorMatrix))
    );
    assert_eq!(
        compare_metadata(&fewer, &sample()),
        Err(VerifyError::Metadata(MetadataField::ColorMatrix))
    );
}

#[test]
fn geometry_and_levels_are_each_checked_in_turn() {
    let mut w = sample();
    w.components = 3;
    assert_eq!(compare_metadata(&sample(), &w), Err(VerifyError::Metadata(MetadataField::Components)));
    let mut w = sample();
    w.cfa = "BGGR".to_string();
    assert_eq!(compare_metadata(&sample(), &w), Err(VerifyError::Metadata(MetadataField::CfaLayout)));
    let mut w = sample();
    w.black_levels[3] = Rational::Unsigned(1009, 1);
    assert_eq!(compare_metadata(&sample(), &w), Err(VerifyError::Metadata(MetadataField::BlackLevel)));
    let mut w = sample();
    w.active_area = None;
    assert_eq!(compare_metadata(&sample(), &w), Err(VerifyError::Metadata(MetadataField::ActiveArea)));
    let mut w = sample();
    w.crop_area = Some(Area { x: 0, y: 8, width: 6048, height: 4024 });
    assert_eq!(compare_metadata(&sample(), &w), Err(VerifyError::Metadata(MetadataField::CropArea)));
}

fn shot(items: &[(&str, Option<&str>)]) -> Vec<ShotField> {
    items
        .iter()
        .map(|(n, v)| ShotField { name: n.to_string(), value: v.map(str::to_string) })
        .collect()
}

#[test]
fn lens_and_shot_data_survive_a_real_conversion() {
    let s = shot(&[("capture time", Some("2026:07:21 10:00:00")), ("GPS", None)]);
    assert_eq!(compare_shot_data(&s, &s), Ok(()));
}

#[test]
fn changed_or_lost_shot_data_is_detected_by_name() {
    let s = shot(&[("capture time", Some("2026:07:21 10:00:00")), ("ISO", Some("100"))]);
    let changed = shot(&[("capture time", Some("2026:07:21 10:00:00")), ("ISO", Some("200"))]);
    let lost = shot(&[("capture time", Some("2026:07:21 10:00:00")), ("ISO", None)]);
    let short = shot(&[("capture time", Some("2026:07:21 10:00:00"))]);
    assert_eq!(compare_shot_data(&s, &changed), Err(VerifyError::ShotData("ISO".to_string())));
    assert_eq!(compare_shot_data(&s, &lost), Err(VerifyError::ShotData("ISO".to_string())));
    assert_eq!(compare_shot_data(&s, &short), Err(VerifyError::ShotData("ISO".to_string())));
    assert_eq!(
        VerifyError::ShotData("ISO".to_string()).message(),
        "verification failed: ISO differs from the original"
    );
}

#[test]
fn a_source_that_cannot_be_decoded_is_named_as_such() {
    assert_eq!(
        VerifyError::SourceUnreadable("bad".to_string()).message(),
        "verification failed: the source could not be decoded (bad)"
    );
    assert_eq!(
        VerifyError::Metadata(MetadataField::WhiteBalance).message(),
        "verification failed: white balance differs from the original"
    );
}
