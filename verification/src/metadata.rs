//! What a renderer reads from a decoded image besides its samples, and the
//! shot data a photograph carries, with the checks that a written file kept
//! them.
//!
//! Identical samples are not enough: a file with the right pixels but a wrong
//! white level or colour matrix renders wrongly. Everything here round-trips
//! exactly through a conversion, so equality is demanded. White balance is the
//! one exception, compared within a relative tolerance by the caller, because
//! DNG stores it as rationals.

use vstd::prelude::*;

use crate::exif_tags::{denom, numer, Rational};
use crate::verify::VerifyError;

verus! {

/// A rectangle of the sensor.
#[derive(Debug, Clone, Copy, PartialEq, Eq)]
pub struct Area {
    pub x: usize,
    pub y: usize,
    pub width: usize,
    pub height: usize,
}

/// One colour matrix: the illuminant it is for, by its EXIF light-source code,
/// and the bit patterns of its single-precision coefficients.
pub struct ColorMatrix {
    pub illuminant: u16,
    pub coefficients: Vec<u32>,
}

/// What a renderer depends on besides the samples.
pub struct RenderMetadata {
    /// Components per pixel.
    pub components: usize,
    /// The colour filter array pattern, as the decoder names it.
    pub cfa: String,
    pub black_levels: Vec<Rational>,
    pub white_levels: Vec<u32>,
    pub active_area: Option<Area>,
    pub crop_area: Option<Area>,
    /// One matrix per illuminant, in no particular order.
    pub color_matrices: Vec<ColorMatrix>,
}

/// Which part of the metadata a written file changed.
#[derive(Debug, Clone, Copy, PartialEq, Eq)]
pub enum MetadataField {
    Components,
    CfaLayout,
    BlackLevel,
    WhiteLevel,
    ActiveArea,
    CropArea,
    ColorMatrix,
    WhiteBalance,
}

/// How a field is named in a message.
pub open spec fn field_name(f: MetadataField) -> Seq<char> {
    match f {
        MetadataField::Components => "components per pixel"@,
        MetadataField::CfaLayout => "CFA layout"@,
        MetadataField::BlackLevel => "black level"@,
        MetadataField::WhiteLevel => "white level"@,
        MetadataField::ActiveArea => "active area"@,
        MetadataField::CropArea => "crop area"@,
        MetadataField::ColorMatrix => "colour matrix"@,
        MetadataField::WhiteBalance => "white balance"@,
    }
}

/// The name of a field, for messages.
pub fn field_name_str(f: MetadataField) -> (r: &'static str)
    ensures
        r@ == field_name(f),
{
    match f {
        MetadataField::Components => "components per pixel",
        MetadataField::CfaLayout => "CFA layout",
        MetadataField::BlackLevel => "black level",
        MetadataField::WhiteLevel => "white level",
        MetadataField::ActiveArea => "active area",
        MetadataField::CropArea => "crop area",
        MetadataField::ColorMatrix => "colour matrix",
        MetadataField::WhiteBalance => "white balance",
    }
}

/// Two rationals denote the same number.
pub open spec fn same_value(a: Rational, b: Rational) -> bool {
    numer(a) * denom(b) == numer(b) * denom(a)
}

/// Two lists of levels hold the same numbers, in order.
pub open spec fn same_levels(a: Seq<Rational>, b: Seq<Rational>) -> bool {
    &&& a.len() == b.len()
    &&& forall|i: int| 0 <= i < a.len() ==> #[trigger] same_value(a[i], b[i])
}

/// Whether `ms` has a matrix for the illuminant of `m` with the same
/// coefficients.
pub open spec fn has_matrix(ms: Seq<ColorMatrix>, m: ColorMatrix) -> bool {
    exists|j: int|
        0 <= j < ms.len() && (#[trigger] ms[j]).illuminant == m.illuminant && ms[j].coefficients@
            =~= m.coefficients@
}

/// Two sets of colour matrices agree: every matrix of each is in the other, so
/// none changed, appeared or disappeared.
pub open spec fn same_matrices(a: Seq<ColorMatrix>, b: Seq<ColorMatrix>) -> bool {
    &&& forall|i: int| 0 <= i < a.len() ==> has_matrix(b, #[trigger] a[i])
    &&& forall|j: int| 0 <= j < b.len() ==> has_matrix(a, #[trigger] b[j])
}

/// The first field, in the order of [`MetadataField`], in which the written
/// metadata differs from the source's.
pub open spec fn metadata_verdict(s: RenderMetadata, w: RenderMetadata) -> Option<MetadataField> {
    if s.components != w.components {
        Some(MetadataField::Components)
    } else if s.cfa@ != w.cfa@ {
        Some(MetadataField::CfaLayout)
    } else if !same_levels(s.black_levels@, w.black_levels@) {
        Some(MetadataField::BlackLevel)
    } else if s.white_levels@ != w.white_levels@ {
        Some(MetadataField::WhiteLevel)
    } else if s.active_area != w.active_area {
        Some(MetadataField::ActiveArea)
    } else if s.crop_area != w.crop_area {
        Some(MetadataField::CropArea)
    } else if !same_matrices(s.color_matrices@, w.color_matrices@) {
        Some(MetadataField::ColorMatrix)
    } else {
        None
    }
}

fn parts(r: Rational) -> (p: (i64, i64))
    ensures
        p.0 == numer(r),
        p.1 == denom(r),
{
    match r {
        Rational::Unsigned(n, d) => if d == 0 {
            (0, 1)
        } else {
            (n as i64, d as i64)
        },
        Rational::Signed(n, d) => if d == 0 {
            (0, 1)
        } else if d < 0 {
            (-(n as i64), -(d as i64))
        } else {
            (n as i64, d as i64)
        },
    }
}

fn same_value_exec(a: Rational, b: Rational) -> (r: bool)
    ensures
        r == same_value(a, b),
{
    let (p, q) = parts(a);
    let (u, v) = parts(b);
    assert(-0x8000_0000 <= p <= 0xffff_ffff && 1 <= q <= 0xffff_ffff);
    assert(-0x8000_0000 <= u <= 0xffff_ffff && 1 <= v <= 0xffff_ffff);
    assert(-0x8000_0000 * 0xffff_ffff <= p * v <= 0xffff_ffff * 0xffff_ffff) by (nonlinear_arith)
        requires
            -0x8000_0000 <= p <= 0xffff_ffff,
            1 <= v <= 0xffff_ffff,
    ;
    assert(-0x8000_0000 * 0xffff_ffff <= u * q <= 0xffff_ffff * 0xffff_ffff) by (nonlinear_arith)
        requires
            -0x8000_0000 <= u <= 0xffff_ffff,
            1 <= q <= 0xffff_ffff,
    ;
    (p as i128) * (v as i128) == (u as i128) * (q as i128)
}

fn same_levels_exec(a: &Vec<Rational>, b: &Vec<Rational>) -> (r: bool)
    ensures
        r == same_levels(a@, b@),
{
    if a.len() != b.len() {
        return false;
    }
    let mut i: usize = 0;
    while i < a.len()
        invariant
            a@.len() == b@.len(),
            i <= a@.len(),
            forall|j: int| 0 <= j < i ==> #[trigger] same_value(a@[j], b@[j]),
        decreases a@.len() - i,
    {
        if !same_value_exec(a[i], b[i]) {
            return false;
        }
        i = i + 1;
    }
    true
}

fn same_words(a: &Vec<u32>, b: &Vec<u32>) -> (r: bool)
    ensures
        r == (a@ == b@),
{
    if a.len() != b.len() {
        return false;
    }
    let mut i: usize = 0;
    while i < a.len()
        invariant
            a@.len() == b@.len(),
            i <= a@.len(),
            forall|j: int| 0 <= j < i ==> a@[j] == b@[j],
        decreases a@.len() - i,
    {
        if a[i] != b[i] {
            return false;
        }
        i = i + 1;
    }
    assert(a@ =~= b@);
    true
}

fn same_area(a: &Option<Area>, b: &Option<Area>) -> (r: bool)
    ensures
        r == (*a == *b),
{
    match (a, b) {
        (None, None) => true,
        (Some(x), Some(y)) => x.x == y.x && x.y == y.y && x.width == y.width && x.height
            == y.height,
        _ => false,
    }
}

fn has_matrix_exec(ms: &Vec<ColorMatrix>, m: &ColorMatrix) -> (r: bool)
    ensures
        r == has_matrix(ms@, *m),
{
    let mut j: usize = 0;
    while j < ms.len()
        invariant
            j <= ms@.len(),
            forall|k: int|
                0 <= k < j ==> !((#[trigger] ms@[k]).illuminant == m.illuminant
                    && ms@[k].coefficients@ =~= m.coefficients@),
        decreases ms@.len() - j,
    {
        if ms[j].illuminant == m.illuminant && same_words(&ms[j].coefficients, &m.coefficients) {
            assert(ms@[j as int] == ms[j as int]);
            return true;
        }
        j = j + 1;
    }
    false
}

fn all_in(a: &Vec<ColorMatrix>, b: &Vec<ColorMatrix>) -> (r: bool)
    ensures
        r == forall|i: int| 0 <= i < a@.len() ==> has_matrix(b@, #[trigger] a@[i]),
{
    let mut i: usize = 0;
    while i < a.len()
        invariant
            i <= a@.len(),
            forall|k: int| 0 <= k < i ==> has_matrix(b@, #[trigger] a@[k]),
        decreases a@.len() - i,
    {
        if !has_matrix_exec(b, &a[i]) {
            return false;
        }
        i = i + 1;
    }
    true
}

/// Check that a written file kept what a renderer depends on: components per
/// pixel, CFA layout, black and white levels, active and crop area, and the
/// colour matrix of every illuminant. The first field that differs, in the
/// order of [`MetadataField`], is reported.
pub fn compare_metadata(source: &RenderMetadata, written: &RenderMetadata) -> (r: Result<
    (),
    VerifyError,
>)
    ensures
        r == match metadata_verdict(*source, *written) {
            None => Ok(()),
            Some(f) => Err(VerifyError::Metadata(f)),
        },
{
    if source.components != written.components {
        return Err(VerifyError::Metadata(MetadataField::Components));
    }
    if !source.cfa.eq(&written.cfa) {
        return Err(VerifyError::Metadata(MetadataField::CfaLayout));
    }
    if !same_levels_exec(&source.black_levels, &written.black_levels) {
        return Err(VerifyError::Metadata(MetadataField::BlackLevel));
    }
    if !same_words(&source.white_levels, &written.white_levels) {
        return Err(VerifyError::Metadata(MetadataField::WhiteLevel));
    }
    if !same_area(&source.active_area, &written.active_area) {
        return Err(VerifyError::Metadata(MetadataField::ActiveArea));
    }
    if !same_area(&source.crop_area, &written.crop_area) {
        return Err(VerifyError::Metadata(MetadataField::CropArea));
    }
    if !all_in(&source.color_matrices, &written.color_matrices) || !all_in(
        &written.color_matrices,
        &source.color_matrices,
    ) {
        return Err(VerifyError::Metadata(MetadataField::ColorMatrix));
    }
    Ok(())
}

/// One item of shot data — a time, an exposure setting, a serial number, a
/// GPS reading — by name, with its value as text, or none when the file does
/// not carry it.
pub struct ShotField {
    pub name: String,
    pub value: Option<String>,
}

/// Whether two items are the same item with the same value.
pub open spec fn same_field(a: ShotField, b: ShotField) -> bool {
    &&& a.name@ == b.name@
    &&& match (a.value, b.value) {
        (None, None) => true,
        (Some(x), Some(y)) => x@ == y@,
        _ => false,
    }
}

/// The first item, from index `i` on, in which the written shot data differs
/// from the source's; an item one list has and the other lacks counts too.
pub open spec fn first_shot_difference(s: Seq<ShotField>, w: Seq<ShotField>, i: int) -> Option<
    Seq<char>,
>
    decreases s.len() + w.len() - i,
{
    if i < 0 || (i >= s.len() && i >= w.len()) {
        None
    } else if i >= s.len() {
        Some(w[i].name@)
    } else if i >= w.len() {
        Some(s[i].name@)
    } else if !same_field(s[i], w[i]) {
        Some(s[i].name@)
    } else {
        first_shot_difference(s, w, i + 1)
    }
}

fn same_field_exec(a: &ShotField, b: &ShotField) -> (r: bool)
    ensures
        r == same_field(*a, *b),
{
    if !a.name.eq(&b.name) {
        return false;
    }
    match (&a.value, &b.value) {
        (None, None) => true,
        (Some(x), Some(y)) => x.eq(y),
        _ => false,
    }
}

/// Check that a written file kept the shot data of its source: the same items,
/// in the same order, with the same values. The first that differs is
/// reported by name.
pub fn compare_shot_data(source: &Vec<ShotField>, written: &Vec<ShotField>) -> (r: Result<
    (),
    VerifyError,
>)
    ensures
        match first_shot_difference(source@, written@, 0) {
            None => r is Ok,
            Some(name) => r matches Err(VerifyError::ShotData(n)) && n@ == name,
        },
{
    let mut i: usize = 0;
    while i < source.len() || i < written.len()
        invariant
            first_shot_difference(source@, written@, 0) == first_shot_difference(
                source@,
                written@,
                i as int,
            ),
            i <= source@.len() || i <= written@.len(),
        decreases source@.len() + written@.len() - i,
    {
        if i >= source.len() {
            return Err(VerifyError::ShotData(written[i].name.clone()));
        }
        if i >= written.len() {
            return Err(VerifyError::ShotData(source[i].name.clone()));
        }
        if !same_field_exec(&source[i], &written[i]) {
            return Err(VerifyError::ShotData(source[i].name.clone()));
        }
        i = i + 1;
    }
    Ok(())
}

/// Unchanged metadata always passes: a written file that kept everything is
/// never rejected on its metadata.
pub proof fn law_unchanged_metadata_passes(m: RenderMetadata)
    ensures
        metadata_verdict(m, m) is None,
{
    assert forall|i: int| 0 <= i < m.color_matrices@.len() implies has_matrix(
        m.color_matrices@,
        #[trigger] m.color_matrices@[i],
    ) by {
        assert(m.color_matrices@[i].illuminant == m.color_matrices@[i].illuminant);
    }
}

proof fn lemma_same_shot_data_from(s: Seq<ShotField>, i: int)
    requires
        0 <= i,
    ensures
        first_shot_difference(s, s, i) is None,
    decreases s.len() - i,
{
    if i < s.len() {
        lemma_same_shot_data_from(s, i + 1);
    }
}

/// Unchanged shot data always passes.
pub proof fn law_unchanged_shot_data_passes(s: Seq<ShotField>)
    ensures
        first_shot_difference(s, s, 0) is None,
{
    lemma_same_shot_data_from(s, 0);
}

proof fn lemma_levels_explicit(sb: Seq<Rational>, wb: Seq<Rational>)
    ensures
        same_levels(sb, wb) <==> {
            &&& sb.len() == wb.len()
            &&& forall|i: int|
                0 <= i < sb.len() ==> numer(#[trigger] sb[i]) * denom(wb[i]) == numer(wb[i]) * denom(
                    sb[i],
                )
        },
{
    if sb.len() == wb.len() && forall|i: int|
        0 <= i < sb.len() ==> numer(#[trigger] sb[i]) * denom(wb[i]) == numer(wb[i]) * denom(sb[i]) {
        assert forall|i: int| 0 <= i < sb.len() implies #[trigger] same_value(sb[i], wb[i]) by {
            assert(numer(sb[i]) * denom(wb[i]) == numer(wb[i]) * denom(sb[i]));
        }
    }
    if same_levels(sb, wb) {
        assert forall|i: int| 0 <= i < sb.len() implies numer(#[trigger] sb[i]) * denom(wb[i])
            == numer(wb[i]) * denom(sb[i]) by {
            assert(same_value(sb[i], wb[i]));
        }
    }
}

/// A matrix counts as kept exactly when the other file has a matrix for the
/// same illuminant with the same coefficient bits.
pub proof fn law_matrix_kept_means_same_illuminant_and_bits(ms: Seq<ColorMatrix>, m: ColorMatrix)
    ensures
        has_matrix(ms, m) <==> exists|j: int|
            #![trigger ms[j]]
            0 <= j < ms.len() && ms[j].illuminant == m.illuminant && ms[j].coefficients@
                =~= m.coefficients@,
{
}

/// The metadata check passes exactly when the written file kept every field:
/// the same components per pixel, CFA pattern, white levels, active area and
/// crop area, black levels denoting the same numbers in order, and for every
/// illuminant of either file a matrix of the other with the same coefficient
/// bits (see `law_matrix_kept_means_same_illuminant_and_bits`). When it
/// fails, the field it names is one that changed.
pub proof fn law_metadata_passes_iff_everything_kept(s: RenderMetadata, w: RenderMetadata)
    ensures
        metadata_verdict(s, w) is None <==> {
            &&& s.components == w.components
            &&& s.cfa@ == w.cfa@
            &&& s.black_levels@.len() == w.black_levels@.len()
            &&& forall|i: int|
                0 <= i < s.black_levels@.len() ==> numer(#[trigger] s.black_levels@[i]) * denom(
                    w.black_levels@[i],
                ) == numer(w.black_levels@[i]) * denom(s.black_levels@[i])
            &&& s.white_levels@ == w.white_levels@
            &&& s.active_area == w.active_area
            &&& s.crop_area == w.crop_area
            &&& forall|i: int|
                0 <= i < s.color_matrices@.len() ==> has_matrix(
                    w.color_matrices@,
                    #[trigger] s.color_matrices@[i],
                )
            &&& forall|j: int|
                0 <= j < w.color_matrices@.len() ==> has_matrix(
                    s.color_matrices@,
                    #[trigger] w.color_matrices@[j],
                )
        },
        metadata_verdict(s, w) == Some(MetadataField::Components) ==> s.components != w.components,
        metadata_verdict(s, w) == Some(MetadataField::CfaLayout) ==> s.cfa@ != w.cfa@,
        metadata_verdict(s, w) == Some(MetadataField::WhiteLevel) ==> s.white_levels@
            != w.white_levels@,
        metadata_verdict(s, w) == Some(MetadataField::ActiveArea) ==> s.active_area != w.active_area,
        metadata_verdict(s, w) == Some(MetadataField::CropArea) ==> s.crop_area != w.crop_area,
        metadata_verdict(s, w) != Some(MetadataField::WhiteBalance),
{
    lemma_levels_explicit(s.black_levels@, w.black_levels@);
}

proof fn lemma_shot_from(s: Seq<ShotField>, w: Seq<ShotField>, i: int)
    requires
        0 <= i,
    ensures
        first_shot_difference(s, w, i) is None <==> {
            &&& (s.len() <= i && w.len() <= i) || s.len() == w.len()
            &&& forall|k: int| i <= k < s.len() && k < w.len() ==> same_field(#[trigger] s[k], w[k])
        },
    decreases s.len() + w.len() - i,
{
    if !(i >= s.len() && i >= w.len()) && i < s.len() && i < w.len() && same_field(s[i], w[i]) {
        lemma_shot_from(s, w, i + 1);
    }
}

/// The shot-data check passes exactly when both files carry the same items,
/// in the same order, with the same names and the same values, present or
/// absent alike.
pub proof fn law_shot_data_passes_iff_every_item_kept(s: Seq<ShotField>, w: Seq<ShotField>)
    ensures
        first_shot_difference(s, w, 0) is None <==> {
            &&& s.len() == w.len()
            &&& forall|k: int|
                0 <= k < s.len() ==> {
                    &&& (#[trigger] s[k]).name@ == w[k].name@
                    &&& s[k].value is Some <==> w[k].value is Some
                    &&& s[k].value is Some ==> s[k].value->0@ == w[k].value->0@
                }
        },
{
    lemma_shot_from(s, w, 0);
    assert forall|k: int| 0 <= k < s.len() && k < w.len() implies same_field(#[trigger] s[k], w[k]) == {
        &&& s[k].name@ == w[k].name@
        &&& s[k].value is Some <==> w[k].value is Some
        &&& s[k].value is Some ==> s[k].value->0@ == w[k].value->0@
    } by {}
}


} // verus!
