use neftodng::exif_tags::{
    compared_tag_name, is_compared_tag, read_lens_tags_from, Rational, TagValue, LENS_MAKE,
    LENS_MODEL, LENS_SERIAL, LENS_SPEC,
};

fn numbers(values: &[(u32, u32)]) -> TagValue {
    TagValue::Numbers(values.iter().map(|&(n, d)| Rational::Unsigned(n, d)).collect())
}

#[test]
fn dng_case_normalisation_is_not_a_difference() {
    // Measured: the NEF says NIKON, the DNG says Nikon.
    let nef = TagValue::Text("NIKON".to_string());
    let dng = TagValue::Text("Nikon".to_string());

    assert!(nef.equivalent(&dng));
}

#[test]
fn trailing_padding_is_not_a_difference() {
    let a = TagValue::Text("Nikon ".to_string());
    let b = TagValue::Text("Nikon".to_string());

    assert!(a.equivalent(&b));
}

#[test]
fn a_genuinely_different_lens_is_a_difference() {
    let a = TagValue::Text("NIKKOR Z 24-200mm f/4-6.3 VR".to_string());
    let b = TagValue::Text("NIKKOR Z 50mm f/1.8 S".to_string());

    assert!(!a.equivalent(&b));
}

#[test]
fn rationals_are_compared_by_value_not_representation() {
    // Measured: the NEF stores 240/10, the DNG stores 24/1.
    let nef = numbers(&[(24, 1), (200, 1), (4, 1), (63, 10)]);
    let dng = numbers(&[(24, 1), (200, 1), (4, 1), (63, 10)]);
    assert!(nef.equivalent(&dng));

    let different = numbers(&[(24, 1), (70, 1), (4, 1), (63, 10)]);
    assert!(!nef.equivalent(&different));
}

#[test]
fn text_and_numbers_never_match_each_other() {
    let a = TagValue::Text("24".to_string());
    let b = numbers(&[(24, 1)]);

    assert!(!a.equivalent(&b));
}

#[test]
fn a_file_that_is_not_tiff_yields_nothing_rather_than_failing() {
    assert!(read_lens_tags_from(b"not a tiff at all").is_empty());
    assert!(read_lens_tags_from(&[]).is_empty());
}

#[test]
fn a_truncated_ifd_does_not_panic() {
    // Valid header claiming an IFD far beyond the end of the buffer.
    let mut b = vec![0x49, 0x49, 0x2A, 0x00];
    b.extend_from_slice(&9999u32.to_le_bytes());
    assert!(read_lens_tags_from(&b).is_empty());
}

#[test]
fn different_representations_of_one_number_are_equivalent() {
    let nef = numbers(&[(240, 10), (2000, 10), (40, 10), (63, 10)]);
    let dng = numbers(&[(24, 1), (200, 1), (4, 1), (63, 10)]);
    assert!(nef.equivalent(&dng));
    assert!(dng.equivalent(&nef));
}

#[test]
fn lists_of_different_lengths_differ() {
    let a = numbers(&[(24, 1), (200, 1)]);
    let b = numbers(&[(24, 1)]);
    assert!(!a.equivalent(&b));
}

#[test]
fn a_zero_denominator_counts_as_zero() {
    assert!(numbers(&[(5, 0)]).equivalent(&numbers(&[(0, 1)])));
    assert!(!numbers(&[(5, 0)]).equivalent(&numbers(&[(5, 1)])));
}

#[test]
fn signed_rationals_compare_by_value() {
    let a = TagValue::Numbers(vec![Rational::Signed(-3, 2)]);
    let b = TagValue::Numbers(vec![Rational::Signed(3, -2)]);
    let c = TagValue::Numbers(vec![Rational::Signed(3, 2)]);
    assert!(a.equivalent(&b));
    assert!(!a.equivalent(&c));
    // An unsigned and a signed rational denoting one number are equivalent too.
    assert!(c.equivalent(&numbers(&[(3, 2)])));
}

#[test]
fn the_tolerance_is_one_part_in_a_million() {
    // 1000000/1000000 against 1000001/1000000: a relative difference of 1e-6.
    assert!(numbers(&[(1_000_000, 1_000_000)]).equivalent(&numbers(&[(1_000_001, 1_000_000)])));
    // 1 against 1000003/1000000: three parts in a million.
    assert!(!numbers(&[(1, 1)]).equivalent(&numbers(&[(1_000_003, 1_000_000)])));
}

#[test]
fn leading_whitespace_is_ignored_but_inner_text_is_not() {
    assert!(TagValue::Text("  nikon\t".to_string()).equivalent(&TagValue::Text("NIKON".to_string())));
    assert!(!TagValue::Text("NI KON".to_string()).equivalent(&TagValue::Text("NIKON".to_string())));
}

#[test]
fn values_are_described_for_error_messages() {
    assert_eq!(TagValue::Text("Nikon".to_string()).describe(), "Nikon");
    assert_eq!(numbers(&[(240, 10), (63, 10)]).describe(), "[240/10, 63/10]");
    assert_eq!(TagValue::Numbers(vec![Rational::Signed(-3, 2)]).describe(), "[-3/2]");
    assert_eq!(TagValue::Numbers(vec![]).describe(), "[]");
}

#[test]
fn the_compared_tags_are_the_four_lens_tags() {
    for t in [LENS_MAKE, LENS_MODEL, LENS_SERIAL, LENS_SPEC] {
        assert!(is_compared_tag(t));
    }
    assert!(!is_compared_tag(0x8769));
    assert_eq!(compared_tag_name(LENS_MAKE), "lens make");
    assert_eq!(compared_tag_name(LENS_MODEL), "lens model");
    assert_eq!(compared_tag_name(LENS_SERIAL), "lens serial number");
    assert_eq!(compared_tag_name(LENS_SPEC), "lens specification");
}

fn entry(out: &mut Vec<u8>, little: bool, tag: u16, typ: u16, count: u32, value: [u8; 4]) {
    if little {
        out.extend_from_slice(&tag.to_le_bytes());
        out.extend_from_slice(&typ.to_le_bytes());
        out.extend_from_slice(&count.to_le_bytes());
    } else {
        out.extend_from_slice(&tag.to_be_bytes());
        out.extend_from_slice(&typ.to_be_bytes());
        out.extend_from_slice(&count.to_be_bytes());
    }
    out.extend_from_slice(&value);
}

fn u16b(v: u16, little: bool) -> [u8; 2] {
    if little { v.to_le_bytes() } else { v.to_be_bytes() }
}

fn u32b(v: u32, little: bool) -> [u8; 4] {
    if little { v.to_le_bytes() } else { v.to_be_bytes() }
}

/// A small TIFF: the lens model in IFD0, and the lens make (inline) and lens
/// specification in the EXIF sub-IFD.
fn sample_tiff(little: bool, model: &[u8]) -> Vec<u8> {
    let ifd0 = 8u32;
    let exif = ifd0 + 30;
    let model_at = exif + 30;
    let spec_at = model_at + model.len() as u32;

    let mut b = if little { vec![0x49, 0x49, 0x2A, 0x00] } else { vec![0x4D, 0x4D, 0x00, 0x2A] };
    b.extend_from_slice(&u32b(ifd0, little));

    b.extend_from_slice(&u16b(2, little));
    entry(&mut b, little, LENS_MODEL, 2, model.len() as u32, u32b(model_at, little));
    entry(&mut b, little, 0x8769, 4, 1, u32b(exif, little));
    b.extend_from_slice(&[0, 0, 0, 0]);

    b.extend_from_slice(&u16b(2, little));
    entry(&mut b, little, LENS_MAKE, 2, 4, *b"NIK\0");
    entry(&mut b, little, LENS_SPEC, 5, 4, u32b(spec_at, little));
    b.extend_from_slice(&[0, 0, 0, 0]);

    b.extend_from_slice(model);
    for (n, d) in [(240u32, 10u32), (2000, 10), (40, 10), (63, 10)] {
        b.extend_from_slice(&u32b(n, little));
        b.extend_from_slice(&u32b(d, little));
    }
    b
}

#[test]
fn lens_tags_are_read_from_ifd0_and_the_exif_sub_ifd() {
    for little in [true, false] {
        let found = read_lens_tags_from(&sample_tiff(little, b"NIKKOR Z 24-200mm\0"));

        assert_eq!(found.len(), 3, "little-endian: {little}");
        assert_eq!(found[&LENS_MODEL], TagValue::Text("NIKKOR Z 24-200mm".to_string()));
        assert_eq!(found[&LENS_MAKE], TagValue::Text("NIK".to_string()));
        assert_eq!(found[&LENS_SPEC], numbers(&[(240, 10), (2000, 10), (40, 10), (63, 10)]));
        assert!(!found.contains_key(&0x8769), "the pointer itself is not a lens tag");
    }
}

#[test]
fn invalid_utf8_in_text_is_replaced_not_kept() {
    let found = read_lens_tags_from(&sample_tiff(true, b"\xFFZ 50mm\0\0"));
    assert_eq!(found[&LENS_MODEL], TagValue::Text("\u{FFFD}Z 50mm".to_string()));
}

#[test]
fn a_value_running_past_the_end_is_left_out() {
    let mut b = sample_tiff(true, b"NIKKOR Z 24-200mm\0");
    // Cut into the lens specification's rationals.
    b.truncate(b.len() - 4);
    let found = read_lens_tags_from(&b);
    assert_eq!(found.len(), 2);
    assert!(!found.contains_key(&LENS_SPEC));
}
