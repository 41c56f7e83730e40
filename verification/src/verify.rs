//! Proving a written DNG holds the same raw data as the NEF it came from.
//!
//! This exists so that "converted without errors" can be relied on when
//! deciding to delete originals. Verification runs against the `.part` file
//! before it is renamed, so a `.dng` only ever appears once it has been proven
//! to match.
//!
//! The decoded images are handed in as plain values: integer samples as they
//! are, floating-point samples by their bit patterns, so that comparison is by
//! exact bits.

use vstd::prelude::*;

use std::collections::BTreeMap;

use crate::exif_tags::{
    compared_tag_name, describe_model, equivalent_models, is_compared, models, tag_name, TagModel, TagValue,
    LENS_MAKE, LENS_MODEL, LENS_SERIAL, LENS_SPEC,
};
use crate::metadata::{field_name, field_name_str, MetadataField};
use crate::text::{concat2, concat3, decimal, decimal_string};

verus! {

/// Why a written file could not be shown to match its source.
#[derive(Debug, PartialEq, Eq)]
pub enum VerifyError {
    /// The written file could not be decoded at all.
    Unreadable(String),
    /// The source could not be decoded for the comparison.
    SourceUnreadable(String),
    /// The images describe different geometry.
    Dimensions { source: (usize, usize), written: (usize, usize) },
    /// Different number of samples, so they cannot be the same image.
    SampleCount { source: usize, written: usize },
    /// Same shape, different content. The dangerous case: a plausible file
    /// holding wrong data.
    Pixels { differing: usize, total: usize },
    /// One is integer data and the other floating point.
    Format,
    /// A lens tag the source holds is missing from the written file, or says
    /// something else there. The values are as `TagValue::describe` shows
    /// them.
    LensTag { tag: u16, source: String, written: Option<String> },
    /// Something a renderer depends on besides the samples changed.
    Metadata(MetadataField),
    /// An item of shot data, named here, was lost, added or changed.
    ShotData(String),
}

impl Clone for VerifyError {
    fn clone(&self) -> (r: Self)
        ensures
            r == *self,
    {
        match self {
            VerifyError::Unreadable(m) => VerifyError::Unreadable(m.clone()),
            VerifyError::SourceUnreadable(m) => VerifyError::SourceUnreadable(m.clone()),
            VerifyError::Metadata(f) => VerifyError::Metadata(*f),
            VerifyError::ShotData(n) => VerifyError::ShotData(n.clone()),
            VerifyError::Dimensions { source, written } => VerifyError::Dimensions {
                source: (source.0, source.1),
                written: (written.0, written.1),
            },
            VerifyError::SampleCount { source, written } => VerifyError::SampleCount {
                source: *source,
                written: *written,
            },
            VerifyError::Pixels { differing, total } => VerifyError::Pixels {
                differing: *differing,
                total: *total,
            },
            VerifyError::Format => VerifyError::Format,
            VerifyError::LensTag { tag, source, written } => VerifyError::LensTag {
                tag: *tag,
                source: source.clone(),
                written: match written {
                    Some(w) => Some(w.clone()),
                    None => None,
                },
            },
        }
    }
}

/// The raw samples of a decoded image.
pub enum RawImageData {
    /// Integer samples.
    Integer(Vec<u16>),
    /// Floating-point samples, each held by its IEEE-754 bit pattern.
    Float(Vec<u32>),
}

/// The samples of an image, as plain sequences.
pub enum SamplesModel {
    Integer(Seq<u16>),
    Float(Seq<u32>),
}

impl View for RawImageData {
    type V = SamplesModel;

    open spec fn view(&self) -> SamplesModel {
        match self {
            RawImageData::Integer(v) => SamplesModel::Integer(v@),
            RawImageData::Float(v) => SamplesModel::Float(v@),
        }
    }
}

/// A decoded image: its geometry and its samples.
pub struct DecodedImage {
    pub width: usize,
    pub height: usize,
    pub data: RawImageData,
}

/// How many of the first `n` positions hold different samples.
pub open spec fn differing_upto<T>(a: Seq<T>, b: Seq<T>, n: nat) -> nat
    decreases n,
{
    if n == 0 {
        0
    } else {
        differing_upto(a, b, (n - 1) as nat) + if a[n - 1] != b[n - 1] {
            1nat
        } else {
            0nat
        }
    }
}

/// The verdict on two sample runs: their lengths must agree and no sample may
/// differ.
pub open spec fn samples_verdict<T>(a: Seq<T>, b: Seq<T>) -> Result<(), VerifyError> {
    if a.len() != b.len() {
        Err(VerifyError::SampleCount { source: a.len() as usize, written: b.len() as usize })
    } else if differing_upto(a, b, a.len()) == 0 {
        Ok(())
    } else {
        Err(
            VerifyError::Pixels {
                differing: differing_upto(a, b, a.len()) as usize,
                total: a.len() as usize,
            },
        )
    }
}

/// The verdict on two images' samples: they must be of one format, and agree.
pub open spec fn compare_spec(a: SamplesModel, b: SamplesModel) -> Result<(), VerifyError> {
    match (a, b) {
        (SamplesModel::Integer(x), SamplesModel::Integer(y)) => samples_verdict(x, y),
        (SamplesModel::Float(x), SamplesModel::Float(y)) => samples_verdict(x, y),
        _ => Err(VerifyError::Format),
    }
}

/// The verdict on two decoded images: same geometry, then same samples.
pub open spec fn verify_spec(
    source: (usize, usize),
    source_data: SamplesModel,
    written: (usize, usize),
    written_data: SamplesModel,
) -> Result<(), VerifyError> {
    if source != written {
        Err(VerifyError::Dimensions { source, written })
    } else {
        compare_spec(source_data, written_data)
    }
}

proof fn lemma_differing_bound<T>(a: Seq<T>, b: Seq<T>, n: nat)
    ensures
        differing_upto(a, b, n) <= n,
    decreases n,
{
    if n > 0 {
        lemma_differing_bound(a, b, (n - 1) as nat);
    }
}

proof fn lemma_no_difference<T>(a: Seq<T>, b: Seq<T>, n: nat)
    requires
        n <= a.len(),
        n <= b.len(),
    ensures
        differing_upto(a, b, n) == 0 <==> forall|i: int| 0 <= i < n ==> a[i] == b[i],
    decreases n,
{
    if n > 0 {
        lemma_no_difference(a, b, (n - 1) as nat);
        if differing_upto(a, b, n) == 0 {
            assert forall|i: int| 0 <= i < n implies a[i] == b[i] by {
                if i < n - 1 {
                } else {
                }
            }
        }
    }
}

fn count_integer_differences(a: &Vec<u16>, b: &Vec<u16>) -> (r: Result<(), VerifyError>)
    ensures
        r == samples_verdict(a@, b@),
{
    if a.len() != b.len() {
        return Err(VerifyError::SampleCount { source: a.len(), written: b.len() });
    }
    let n = a.len();
    let mut differing: usize = 0;
    let mut i: usize = 0;
    while i < n
        invariant
            n == a@.len(),
            n == b@.len(),
            i <= n,
            differing == differing_upto(a@, b@, i as nat),
        decreases n - i,
    {
        proof {
            lemma_differing_bound(a@, b@, i as nat);
        }
        if a[i] != b[i] {
            differing = differing + 1;
        }
        i = i + 1;
    }
    if differing == 0 {
        Ok(())
    } else {
        Err(VerifyError::Pixels { differing, total: n })
    }
}

fn count_bit_differences(a: &Vec<u32>, b: &Vec<u32>) -> (r: Result<(), VerifyError>)
    ensures
        r == samples_verdict(a@, b@),
{
    if a.len() != b.len() {
        return Err(VerifyError::SampleCount { source: a.len(), written: b.len() });
    }
    let n = a.len();
    let mut differing: usize = 0;
    let mut i: usize = 0;
    while i < n
        invariant
            n == a@.len(),
            n == b@.len(),
            i <= n,
            differing == differing_upto(a@, b@, i as nat),
        decreases n - i,
    {
        proof {
            lemma_differing_bound(a@, b@, i as nat);
        }
        if a[i] != b[i] {
            differing = differing + 1;
        }
        i = i + 1;
    }
    if differing == 0 {
        Ok(())
    } else {
        Err(VerifyError::Pixels { differing, total: n })
    }
}

/// Compare the raw samples of a source and a written image.
///
/// Floating-point samples are compared by exact bits, not approximately: a
/// lossless conversion that merely rounds to something close has still lost
/// data.
pub fn compare_samples(source: &RawImageData, written: &RawImageData) -> (r: Result<
    (),
    VerifyError,
>)
    ensures
        r == compare_spec(source@, written@),
{
    match source {
        RawImageData::Integer(a) => match written {
            RawImageData::Integer(b) => count_integer_differences(a, b),
            RawImageData::Float(_) => Err(VerifyError::Format),
        },
        RawImageData::Float(a) => match written {
            RawImageData::Float(b) => count_bit_differences(a, b),
            RawImageData::Integer(_) => Err(VerifyError::Format),
        },
    }
}

/// Prove a decoded written image carries the same raw data as the decoded
/// source: the same geometry, then the same samples.
pub fn verify_decoded(source: &DecodedImage, written: &DecodedImage) -> (r: Result<(), VerifyError>)
    ensures
        r == verify_spec(
            (source.width, source.height),
            source.data@,
            (written.width, written.height),
            written.data@,
        ),
{
    if source.width != written.width || source.height != written.height {
        return Err(
            VerifyError::Dimensions {
                source: (source.width, source.height),
                written: (written.width, written.height),
            },
        );
    }
    compare_samples(&source.data, &written.data)
}

/// The message shown for a verification failure.
pub open spec fn verify_message(e: VerifyError) -> Seq<char> {
    match e {
        VerifyError::Unreadable(m) => "verification failed: DNG could not be read back ("@ + m@
            + ")"@,
        VerifyError::SourceUnreadable(m) => "verification failed: the source could not be decoded ("@
            + m@ + ")"@,
        VerifyError::Metadata(f) => "verification failed: "@ + field_name(f)
            + " differs from the original"@,
        VerifyError::ShotData(n) => "verification failed: "@ + n@ + " differs from the original"@,
        VerifyError::Dimensions { source, written } => "verification failed: "@ + decimal(
            written.0 as nat,
        ) + "x"@ + decimal(written.1 as nat) + " written from a "@ + decimal(source.0 as nat)
            + "x"@ + decimal(source.1 as nat) + " source"@,
        VerifyError::SampleCount { source, written } => "verification failed: "@ + decimal(
            written as nat,
        ) + " samples written from "@ + decimal(source as nat),
        VerifyError::Pixels { differing, total } => "verification failed: "@ + decimal(
            differing as nat,
        ) + " of "@ + decimal(total as nat) + " samples differ from the original"@,
        VerifyError::Format => "verification failed: sample format changed"@,
        VerifyError::LensTag { tag, source, written } => match written {
            Some(w) => "verification failed: "@ + tag_name(tag) + " changed from "@ + source@
                + " to "@ + w@,
            None => "verification failed: "@ + tag_name(tag) + " is missing from the DNG (was "@
                + source@ + ")"@,
        },
    }
}

impl VerifyError {
    /// The message shown for this failure.
    pub fn message(&self) -> (r: String)
        ensures
            r@ == verify_message(*self),
    {
        match self {
            VerifyError::Unreadable(m) => concat3(
                "verification failed: DNG could not be read back (",
                m.as_str(),
                ")",
            ),
            VerifyError::SourceUnreadable(m) => concat3(
                "verification failed: the source could not be decoded (",
                m.as_str(),
                ")",
            ),
            VerifyError::Metadata(f) => concat3(
                "verification failed: ",
                field_name_str(*f),
                " differs from the original",
            ),
            VerifyError::ShotData(n) => concat3(
                "verification failed: ",
                n.as_str(),
                " differs from the original",
            ),
            VerifyError::Dimensions { source, written } => {
                let mut s = String::from_str("verification failed: ");
                let a = decimal_string(written.0 as u64);
                s.append(a.as_str());
                s.append("x");
                let b = decimal_string(written.1 as u64);
                s.append(b.as_str());
                s.append(" written from a ");
                let c = decimal_string(source.0 as u64);
                s.append(c.as_str());
                s.append("x");
                let d = decimal_string(source.1 as u64);
                s.append(d.as_str());
                s.append(" source");
                s
            },
            VerifyError::SampleCount { source, written } => {
                let a = decimal_string(*written as u64);
                let b = decimal_string(*source as u64);
                let s = concat3("verification failed: ", a.as_str(), " samples written from ");
                concat2(s.as_str(), b.as_str())
            },
            VerifyError::Pixels { differing, total } => {
                let a = decimal_string(*differing as u64);
                let b = decimal_string(*total as u64);
                let s = concat3("verification failed: ", a.as_str(), " of ");
                concat3(s.as_str(), b.as_str(), " samples differ from the original")
            },
            VerifyError::Format => String::from_str("verification failed: sample format changed"),
            VerifyError::LensTag { tag, source, written } => {
                let name = compared_tag_name(*tag);
                let head = concat2("verification failed: ", name);
                match written {
                    Some(w) => {
                        let a = concat3(head.as_str(), " changed from ", source.as_str());
                        concat3(a.as_str(), " to ", w.as_str())
                    },
                    None => {
                        let a = concat2(head.as_str(), " is missing from the DNG (was ");
                        concat3(a.as_str(), source.as_str(), ")")
                    },
                }
            },
        }
    }
}

/// Whether the written file lost or changed `tag`, which the source holds: a
/// tag absent from the source is not required in the output, and one present
/// must survive with an equivalent value.
pub open spec fn tag_lost(source: Map<u16, TagModel>, written: Map<u16, TagModel>, tag: u16) -> bool {
    &&& source.dom().contains(tag)
    &&& !(written.dom().contains(tag) && equivalent_models(source[tag], written[tag]))
}

/// The error reporting that `tag` was lost or changed.
pub open spec fn reports_lost(
    e: VerifyError,
    source: Map<u16, TagModel>,
    written: Map<u16, TagModel>,
    tag: u16,
) -> bool {
    e matches VerifyError::LensTag { tag: t, source: s, written: w } && t == tag && s@
        == describe_model(source[tag]) && match w {
        Some(x) => written.dom().contains(tag) && x@ == describe_model(written[tag]),
        None => !written.dom().contains(tag),
    }
}

/// The first lens tag, in the order make, model, serial number and
/// specification, that the written file lost or changed.
pub open spec fn first_lost_tag(source: Map<u16, TagModel>, written: Map<u16, TagModel>) -> Option<
    u16,
> {
    if tag_lost(source, written, LENS_MAKE) {
        Some(LENS_MAKE)
    } else if tag_lost(source, written, LENS_MODEL) {
        Some(LENS_MODEL)
    } else if tag_lost(source, written, LENS_SERIAL) {
        Some(LENS_SERIAL)
    } else if tag_lost(source, written, LENS_SPEC) {
        Some(LENS_SPEC)
    } else {
        None
    }
}

fn check_tag(source: &BTreeMap<u16, TagValue>, written: &BTreeMap<u16, TagValue>, tag: u16) -> (r:
    Result<(), VerifyError>)
    ensures
        match r {
            Ok(()) => !tag_lost(models(source@), models(written@), tag),
            Err(e) => tag_lost(models(source@), models(written@), tag) && reports_lost(
                e,
                models(source@),
                models(written@),
                tag,
            ),
        },
{
    broadcast use vstd::std_specs::btree::group_btree_axioms, vstd::laws_cmp::group_laws_cmp;

    match source.get(&tag) {
        None => Ok(()),
        Some(a) => match written.get(&tag) {
            Some(b) => {
                if a.equivalent(b) {
                    Ok(())
                } else {
                    Err(VerifyError::LensTag { tag, source: a.describe(), written: Some(b.describe()) })
                }
            },
            None => Err(VerifyError::LensTag { tag, source: a.describe(), written: None }),
        },
    }
}

/// Check that the written file kept the lens tags of the source: every
/// compared tag the source holds must be in the written file with an
/// equivalent value. The first that is not, in the order make, model, serial
/// number and specification, is reported.
pub fn compare_lens_tags(source: &BTreeMap<u16, TagValue>, written: &BTreeMap<u16, TagValue>) -> (r:
    Result<(), VerifyError>)
    ensures
        match first_lost_tag(models(source@), models(written@)) {
            None => r is Ok,
            Some(tag) => r matches Err(e) && reports_lost(e, models(source@), models(written@), tag),
        },
{
    match check_tag(source, written, LENS_MAKE) {
        Err(e) => return Err(e),
        Ok(()) => {},
    }
    match check_tag(source, written, LENS_MODEL) {
        Err(e) => return Err(e),
        Ok(()) => {},
    }
    match check_tag(source, written, LENS_SERIAL) {
        Err(e) => return Err(e),
        Ok(()) => {},
    }
    check_tag(source, written, LENS_SPEC)
}

/// The lens check passes exactly when no compared tag the source holds was
/// lost or changed in the written file.
pub proof fn law_lens_check_passes_iff_nothing_lost(
    source: Map<u16, TagModel>,
    written: Map<u16, TagModel>,
)
    ensures
        first_lost_tag(source, written) is None <==> forall|tag: u16|
            is_compared(tag) && #[trigger] source.dom().contains(tag) ==> written.dom().contains(tag)
                && equivalent_models(source[tag], written[tag]),
        forall|tag: u16|
            #![trigger source.dom().contains(tag)]
            is_compared(tag) && source.dom().contains(tag) && !written.dom().contains(tag)
                ==> first_lost_tag(source, written) is Some,
{
    if first_lost_tag(source, written) is None {
        assert(!tag_lost(source, written, LENS_MAKE));
        assert(!tag_lost(source, written, LENS_MODEL));
        assert(!tag_lost(source, written, LENS_SERIAL));
        assert(!tag_lost(source, written, LENS_SPEC));
    }
}

/// Identical samples verify; and a verdict of success means every sample
/// matched and the runs had one length.
pub proof fn law_success_means_identical(source: SamplesModel, written: SamplesModel)
    ensures
        compare_spec(source, written) is Ok <==> match (source, written) {
            (SamplesModel::Integer(x), SamplesModel::Integer(y)) => x == y,
            (SamplesModel::Float(x), SamplesModel::Float(y)) => x == y,
            _ => false,
        },
{
    match (source, written) {
        (SamplesModel::Integer(x), SamplesModel::Integer(y)) => {
            if x.len() == y.len() {
                lemma_no_difference(x, y, x.len());
                if differing_upto(x, y, x.len()) == 0 {
                    assert(x =~= y);
                }
            }
        },
        (SamplesModel::Float(x), SamplesModel::Float(y)) => {
            if x.len() == y.len() {
                lemma_no_difference(x, y, x.len());
                if differing_upto(x, y, x.len()) == 0 {
                    assert(x =~= y);
                }
            }
        },
        _ => {},
    }
}

/// How many samples an image holds.
pub open spec fn sample_count(m: SamplesModel) -> nat {
    match m {
        SamplesModel::Integer(x) => x.len(),
        SamplesModel::Float(x) => x.len(),
    }
}

/// A reported difference is at least one sample and never exceeds the number of
/// samples compared.
pub proof fn law_differences_are_bounded(source: SamplesModel, written: SamplesModel)
    requires
        sample_count(source) <= usize::MAX,
    ensures
        compare_spec(source, written) matches Err(VerifyError::Pixels { differing, total }) ==> 0
            < differing <= total,
{
    match (source, written) {
        (SamplesModel::Integer(x), SamplesModel::Integer(y)) => {
            lemma_differing_bound(x, y, x.len());
        },
        (SamplesModel::Float(x), SamplesModel::Float(y)) => {
            lemma_differing_bound(x, y, x.len());
        },
        _ => {},
    }
}

} // verus!
