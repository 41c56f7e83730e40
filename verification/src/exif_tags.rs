//! A deliberately small TIFF/EXIF tag reader.
//!
//! Lens metadata has to be compared straight from the bytes of both files, so
//! this reads the handful of tags needed to compare them. Only what
//! verification needs is supported: ASCII and RATIONAL/SRATIONAL values in IFD0
//! and the EXIF sub-IFD.
//!
//! Rational values are kept exactly as the file stores them, numerator and
//! denominator, and are compared by the value they denote.

use std::collections::BTreeMap;
use vstd::prelude::*;
use vstd::utf8::*;

use crate::text::{
    ascii_lower, chars_of, concat3, decimal, decimal_string, eq_ignore_ascii_case, ranges_eq_ignore_ascii_case,
    signed_decimal, signed_decimal_string, trim, trim_bounds, trim_end, trim_start, trim_end_nul, trim_end_nul_bound,
};

verus! {

/// EXIF tag numbers this module knows about.
pub const LENS_MAKE: u16 = 0xA433;

pub const LENS_MODEL: u16 = 0xA434;

pub const LENS_SERIAL: u16 = 0xA435;

pub const LENS_SPEC: u16 = 0xA432;

/// The tag that points at the EXIF sub-IFD.
pub const EXIF_POINTER: u16 = 0x8769;

/// Whether `tag` is one of the tags compared during verification.
pub open spec fn is_compared(tag: u16) -> bool {
    tag == LENS_MAKE || tag == LENS_MODEL || tag == LENS_SERIAL || tag == LENS_SPEC
}

/// Whether `tag` is one of the tags compared during verification.
pub fn is_compared_tag(tag: u16) -> (r: bool)
    ensures
        r == is_compared(tag),
{
    tag == LENS_MAKE || tag == LENS_MODEL || tag == LENS_SERIAL || tag == LENS_SPEC
}

/// The name of a compared tag, for error messages.
pub open spec fn tag_name(tag: u16) -> Seq<char> {
    if tag == LENS_MAKE {
        "lens make"@
    } else if tag == LENS_MODEL {
        "lens model"@
    } else if tag == LENS_SERIAL {
        "lens serial number"@
    } else if tag == LENS_SPEC {
        "lens specification"@
    } else {
        "unknown tag"@
    }
}

/// The name of a compared tag, for error messages.
pub fn compared_tag_name(tag: u16) -> (r: &'static str)
    ensures
        r@ == tag_name(tag),
{
    if tag == LENS_MAKE {
        "lens make"
    } else if tag == LENS_MODEL {
        "lens model"
    } else if tag == LENS_SERIAL {
        "lens serial number"
    } else if tag == LENS_SPEC {
        "lens specification"
    } else {
        "unknown tag"
    }
}

/// One stored rational, exactly as the file holds it: RATIONAL values are
/// unsigned, SRATIONAL values signed.
#[derive(Debug, Clone, Copy, PartialEq, Eq)]
pub enum Rational {
    Unsigned(u32, u32),
    Signed(i32, i32),
}

/// The numerator of the value a rational denotes, over a positive denominator.
/// A zero denominator denotes the value 0.
pub open spec fn numer(r: Rational) -> int {
    match r {
        Rational::Unsigned(n, d) => if d == 0 {
            0
        } else {
            n as int
        },
        Rational::Signed(n, d) => if d == 0 {
            0
        } else if d < 0 {
            -n
        } else {
            n as int
        },
    }
}

/// The positive denominator of the value a rational denotes.
pub open spec fn denom(r: Rational) -> int {
    match r {
        Rational::Unsigned(n, d) => if d == 0 {
            1
        } else {
            d as int
        },
        Rational::Signed(n, d) => if d == 0 {
            1
        } else if d < 0 {
            -d
        } else {
            d as int
        },
    }
}

pub open spec fn abs(x: int) -> int {
    if x < 0 {
        -x
    } else {
        x
    }
}

pub open spec fn max3(a: int, b: int, c: int) -> int {
    if a >= b && a >= c {
        a
    } else if b >= c {
        b
    } else {
        c
    }
}

/// Two rationals are the same number up to a relative tolerance of one part in
/// a million: |x - y| <= 1e-6 * max(|x|, |y|, 1), written over the common
/// positive denominator so that no rounding is involved.
pub open spec fn close(x: Rational, y: Rational) -> bool {
    let p = numer(x);
    let q = denom(x);
    let r = numer(y);
    let s = denom(y);
    1_000_000 * abs(p * s - r * q) <= max3(abs(p) * s, abs(r) * q, q * s)
}

/// A tag value in the only two shapes this reader needs.
#[derive(Debug, Clone, PartialEq)]
pub enum TagValue {
    Text(String),
    /// Rationals, compared by the number they denote, because DNG re-encodes
    /// them with different numerators and denominators for the same number.
    Numbers(Vec<Rational>),
}

/// What a tag value holds, as plain sequences.
pub enum TagModel {
    Text(Seq<char>),
    Numbers(Seq<Rational>),
}

impl View for TagValue {
    type V = TagModel;

    open spec fn view(&self) -> TagModel {
        match self {
            TagValue::Text(s) => TagModel::Text(s@),
            TagValue::Numbers(v) => TagModel::Numbers(v@),
        }
    }
}

/// Whether two values mean the same thing: text up to ASCII case and
/// surrounding whitespace, numbers by value, and never text against numbers.
pub open spec fn equivalent_models(a: TagModel, b: TagModel) -> bool {
    match (a, b) {
        (TagModel::Text(x), TagModel::Text(y)) => eq_ignore_ascii_case(trim(x), trim(y)),
        (TagModel::Numbers(x), TagModel::Numbers(y)) => {
            &&& x.len() == y.len()
            &&& forall|i: int| 0 <= i < x.len() ==> #[trigger] close(x[i], y[i])
        },
        _ => false,
    }
}

/// The decimal text of one rational, as `numerator/denominator`.
pub open spec fn rational_text(r: Rational) -> Seq<char> {
    match r {
        Rational::Unsigned(n, d) => decimal(n as nat) + "/"@ + decimal(d as nat),
        Rational::Signed(n, d) => signed_decimal(n as int) + "/"@ + signed_decimal(d as int),
    }
}

/// The rationals of `rs`, separated by `, `.
pub open spec fn rationals_text(rs: Seq<Rational>) -> Seq<char>
    decreases rs.len(),
{
    if rs.len() == 0 {
        seq![]
    } else if rs.len() == 1 {
        rational_text(rs[0])
    } else {
        rationals_text(rs.drop_last()) + ", "@ + rational_text(rs.last())
    }
}

/// How a value is shown in an error message.
pub open spec fn describe_model(v: TagModel) -> Seq<char> {
    match v {
        TagModel::Text(s) => s,
        TagModel::Numbers(rs) => "["@ + rationals_text(rs) + "]"@,
    }
}

proof fn lemma_mul_bound(a: int, b: int, bound_a: int, bound_b: int)
    requires
        -bound_a <= a <= bound_a,
        0 <= b <= bound_b,
    ensures
        -(bound_a * bound_b) <= a * b <= bound_a * bound_b,
{
    assert(-(bound_a * bound_b) <= a * b <= bound_a * bound_b) by (nonlinear_arith)
        requires
            -bound_a <= a <= bound_a,
            0 <= b <= bound_b,
    ;
}

fn normalized(r: Rational) -> (out: (i64, i64))
    ensures
        out.0 == numer(r),
        out.1 == denom(r),
        -4294967296 <= out.0 <= 4294967296,
        1 <= out.1 <= 4294967296,
{
    match r {
        Rational::Unsigned(n, d) => if d == 0 {
            (0, 1)
        } else {
            (n as i64, d as i64)
        },
        Rational::Signed(n, d) => if d == 0 {
            (0, 1)
        } else if d < 0 {
            (-(n as i64), -(d as i64))
        } else {
            (n as i64, d as i64)
        },
    }
}

fn close_exec(x: Rational, y: Rational) -> (res: bool)
    ensures
        res == close(x, y),
{
    let (p, q) = normalized(x);
    let (r, s) = normalized(y);
    let b: i128 = 4294967296;
    proof {
        lemma_mul_bound(p as int, s as int, b as int, b as int);
        lemma_mul_bound(r as int, q as int, b as int, b as int);
        lemma_mul_bound(q as int, s as int, b as int, b as int);
        assert(b * b == 18446744073709551616i128);
    }
    let ps: i128 = (p as i128) * (s as i128);
    let rq: i128 = (r as i128) * (q as i128);
    let diff: i128 = ps - rq;
    let ad: i128 = if diff < 0 {
        -diff
    } else {
        diff
    };
    let lhs: i128 = 1_000_000i128 * ad;
    let ap: i128 = if p < 0 {
        -(p as i128)
    } else {
        p as i128
    };
    let ar: i128 = if r < 0 {
        -(r as i128)
    } else {
        r as i128
    };
    proof {
        lemma_mul_bound(ap as int, s as int, b as int, b as int);
        lemma_mul_bound(ar as int, q as int, b as int, b as int);
    }
    let aps: i128 = ap * (s as i128);
    let arq: i128 = ar * (q as i128);
    let qs: i128 = (q as i128) * (s as i128);
    let m: i128 = if aps >= arq && aps >= qs {
        aps
    } else if arq >= qs {
        arq
    } else {
        qs
    };
    lhs <= m
}

impl TagValue {
    /// Whether two values mean the same thing.
    ///
    /// Text is compared case-insensitively and ignoring surrounding whitespace,
    /// because DNG normalises `NIKON` to `Nikon`. Numbers are compared by value,
    /// because `240/10` and `24/1` are the same focal length.
    pub fn equivalent(&self, other: &Self) -> (r: bool)
        ensures
            r == equivalent_models(self@, other@),
    {
        match self {
            TagValue::Text(a) => match other {
                TagValue::Text(b) => {
                    let va = chars_of(a.as_str());
                    let vb = chars_of(b.as_str());
                    let (a0, a1) = trim_bounds(&va);
                    let (b0, b1) = trim_bounds(&vb);
                    ranges_eq_ignore_ascii_case(&va, a0, a1, &vb, b0, b1)
                },
                TagValue::Numbers(_) => false,
            },
            TagValue::Numbers(a) => match other {
                TagValue::Text(_) => false,
                TagValue::Numbers(b) => numbers_close(a, b),
            },
        }
    }

    /// The value as shown in an error message: text as it is, numbers as a
    /// bracketed list of `numerator/denominator`.
    pub fn describe(&self) -> (r: String)
        ensures
            r@ == describe_model(self@),
    {
        match self {
            TagValue::Text(s) => s.clone(),
            TagValue::Numbers(rs) => {
                let mut out = String::from_str("[");
                let n = rs.len();
                let mut i: usize = 0;
                while i < n
                    invariant
                        n == rs@.len(),
                        i <= n,
                        out@ == "["@ + rationals_text(rs@.subrange(0, i as int)),
                    decreases n - i,
                {
                    if i > 0 {
                        out.append(", ");
                    }
                    let t = rational_string(rs[i]);
                    out.append(t.as_str());
                    proof {
                        let prev = rs@.subrange(0, i as int);
                        let next = rs@.subrange(0, i + 1);
                        assert(next.drop_last() =~= prev);
                        assert(next.last() == rs@[i as int]);
                        if i == 0 {
                            assert(prev.len() == 0);
                        }
                    }
                    i = i + 1;
                }
                out.append("]");
                assert(rs@.subrange(0, n as int) =~= rs@);
                out
            },
        }
    }
}

fn numbers_close(a: &Vec<Rational>, b: &Vec<Rational>) -> (r: bool)
    ensures
        r == (a@.len() == b@.len() && forall|i: int| 0 <= i < a@.len() ==> #[trigger] close(a@[i], b@[i])),
{
    if a.len() != b.len() {
        return false;
    }
    let n = a.len();
    let mut i: usize = 0;
    while i < n
        invariant
            n == a@.len(),
            n == b@.len(),
            i <= n,
            forall|j: int| 0 <= j < i ==> #[trigger] close(a@[j], b@[j]),
        decreases n - i,
    {
        if !close_exec(a[i], b[i]) {
            assert(!close(a@[i as int], b@[i as int]));
            return false;
        }
        i = i + 1;
    }
    true
}

fn rational_string(r: Rational) -> (s: String)
    ensures
        s@ == rational_text(r),
{
    match r {
        Rational::Unsigned(n, d) => {
            let a = decimal_string(n as u64);
            let b = decimal_string(d as u64);
            concat3(a.as_str(), "/", b.as_str())
        },
        Rational::Signed(n, d) => {
            let a = signed_decimal_string(n as i64);
            let b = signed_decimal_string(d as i64);
            concat3(a.as_str(), "/", b.as_str())
        },
    }
}

// ---- reading TIFF -------------------------------------------------------
/// The byte order a TIFF header announces: `Some(true)` for little-endian
/// (`II*\0`), `Some(false)` for big-endian (`MM\0*`), `None` for anything else.
pub open spec fn byte_order(b: Seq<u8>) -> Option<bool> {
    if b.len() < 4 {
        None
    } else if b[0] == 0x49 && b[1] == 0x49 && b[2] == 0x2A && b[3] == 0x00 {
        Some(true)
    } else if b[0] == 0x4D && b[1] == 0x4D && b[2] == 0x00 && b[3] == 0x2A {
        Some(false)
    } else {
        None
    }
}

/// The 16-bit value stored at `at`, in the given byte order; the bytes are
/// assumed to be there.
pub open spec fn u16_value(b: Seq<u8>, at: int, little: bool) -> u16 {
    if little {
        (b[at] + 256 * b[at + 1]) as u16
    } else {
        (256 * b[at] + b[at + 1]) as u16
    }
}

/// The 32-bit value stored at `at`, in the given byte order; the bytes are
/// assumed to be there.
pub open spec fn u32_value(b: Seq<u8>, at: int, little: bool) -> u32 {
    if little {
        (b[at] + 256 * b[at + 1] + 65536 * b[at + 2] + 16777216 * b[at + 3]) as u32
    } else {
        (16777216 * b[at] + 65536 * b[at + 1] + 256 * b[at + 2] + b[at + 3]) as u32
    }
}

/// The 16-bit value at `at`, when two bytes are there.
pub open spec fn read_u16_spec(b: Seq<u8>, at: int, little: bool) -> Option<u16> {
    if 0 <= at && at + 2 <= b.len() {
        Some(u16_value(b, at, little))
    } else {
        None
    }
}

/// The 32-bit value at `at`, when four bytes are there.
pub open spec fn read_u32_spec(b: Seq<u8>, at: int, little: bool) -> Option<u32> {
    if 0 <= at && at + 4 <= b.len() {
        Some(u32_value(b, at, little))
    } else {
        None
    }
}

/// One directory entry: tag, type, count, and where its value or the offset
/// of its value is stored.
#[derive(Clone, Copy)]
pub struct IfdEntry {
    pub tag: u16,
    pub typ: u16,
    pub count: u32,
    pub value_at: u64,
}

/// How many entries the directory at `ifd` declares; 0 when its count cannot
/// be read.
pub open spec fn entry_count(b: Seq<u8>, ifd: int, little: bool) -> nat {
    match read_u16_spec(b, ifd, little) {
        Some(c) => c as nat,
        None => 0,
    }
}

/// The `i`-th entry of the directory at `ifd`, when its twelve bytes' first
/// eight can be read.
pub open spec fn entry_spec(b: Seq<u8>, ifd: int, little: bool, i: int) -> Option<IfdEntry> {
    let at = ifd + 2 + i * 12;
    match (
        read_u16_spec(b, at, little),
        read_u16_spec(b, at + 2, little),
        read_u32_spec(b, at + 4, little),
    ) {
        (Some(tag), Some(typ), Some(count)) => Some(
            IfdEntry { tag, typ, count, value_at: (at + 8) as u64 },
        ),
        _ => None,
    }
}

/// The byte size of an entry's value, for the types this reader handles.
pub open spec fn value_size(e: IfdEntry) -> Option<int> {
    if e.typ == 2 {
        Some(e.count as int)
    } else if e.typ == 5 || e.typ == 10 {
        Some(e.count * 8)
    } else {
        None
    }
}

/// The `i`-th rational stored from `start`, unsigned or signed.
pub open spec fn rational_at(b: Seq<u8>, start: int, i: int, little: bool, signed: bool) -> Rational {
    let n = u32_value(b, start + 8 * i, little);
    let d = u32_value(b, start + 8 * i + 4, little);
    if signed {
        Rational::Signed(n as i32, d as i32)
    } else {
        Rational::Unsigned(n, d)
    }
}

/// What `String::from_utf8_lossy` makes of these bytes.
pub uninterp spec fn lossy_utf8(bytes: Seq<u8>) -> Seq<char>;

/// The text an ASCII value holds: valid UTF-8 decoded as it is, anything else
/// as `String::from_utf8_lossy` makes of it.
pub open spec fn text_of(bytes: Seq<u8>) -> Seq<char> {
    if valid_utf8(bytes) {
        decode_utf8(bytes)
    } else {
        lossy_utf8(bytes)
    }
}

/// The value of a compared entry, when its type is handled and its bytes lie
/// within the file. Values of four bytes or fewer are stored in the entry
/// itself; larger ones at the offset stored there.
pub open spec fn decode_spec(b: Seq<u8>, little: bool, e: IfdEntry) -> Option<TagModel> {
    if !is_compared(e.tag) {
        None
    } else {
        match value_size(e) {
            None => None,
            Some(size) => {
                let start_opt = if size > 4 {
                    match read_u32_spec(b, e.value_at as int, little) {
                        Some(o) => Some(o as int),
                        None => None,
                    }
                } else {
                    Some(e.value_at as int)
                };
                match start_opt {
                    None => None,
                    Some(start) => if start + size <= b.len() {
                        if e.typ == 2 {
                            Some(
                                TagModel::Text(
                                    trim_end_nul(text_of(b.subrange(start, start + size))),
                                ),
                            )
                        } else {
                            Some(
                                TagModel::Numbers(
                                    Seq::new(
                                        e.count as nat,
                                        |i: int| rational_at(b, start, i, little, e.typ == 10),
                                    ),
                                ),
                            )
                        }
                    } else {
                        None
                    },
                }
            },
        }
    }
}

/// The tags found among the first `n` entries of the directory at `ifd`,
/// added to `m`; a later entry for the same tag replaces an earlier one.
pub open spec fn collect_upto(
    b: Seq<u8>,
    ifd: int,
    little: bool,
    m: Map<u16, TagModel>,
    n: nat,
) -> Map<u16, TagModel>
    decreases n,
{
    if n == 0 {
        m
    } else {
        let prev = collect_upto(b, ifd, little, m, (n - 1) as nat);
        match entry_spec(b, ifd, little, n - 1) {
            Some(e) => match decode_spec(b, little, e) {
                Some(v) => prev.insert(e.tag, v),
                None => prev,
            },
            None => prev,
        }
    }
}

/// The tags of the directory at `ifd`, added to `m`.
pub open spec fn collect_spec(b: Seq<u8>, ifd: int, little: bool, m: Map<u16, TagModel>) -> Map<
    u16,
    TagModel,
> {
    collect_upto(b, ifd, little, m, entry_count(b, ifd, little))
}

/// The first of the first `n` readable entries whose tag is `want`.
pub open spec fn first_with_tag(b: Seq<u8>, ifd: int, little: bool, want: u16, n: nat) -> Option<
    IfdEntry,
>
    decreases n,
{
    if n == 0 {
        None
    } else {
        match first_with_tag(b, ifd, little, want, (n - 1) as nat) {
            Some(e) => Some(e),
            None => match entry_spec(b, ifd, little, n - 1) {
                Some(e) => if e.tag == want {
                    Some(e)
                } else {
                    None
                },
                None => None,
            },
        }
    }
}

/// The offset held by the first entry tagged `want`, when it can be read.
pub open spec fn pointer_spec(b: Seq<u8>, ifd: int, little: bool, want: u16) -> Option<u32> {
    match first_with_tag(b, ifd, little, want, entry_count(b, ifd, little)) {
        Some(e) => read_u32_spec(b, e.value_at as int, little),
        None => None,
    }
}

/// The compared tags of a TIFF-based file: those of IFD0, then those of the
/// EXIF sub-IFD, which win where both hold the same tag. A file that is not
/// TIFF, or whose IFD0 offset cannot be read, holds none.
pub open spec fn lens_tags(b: Seq<u8>) -> Map<u16, TagModel> {
    match byte_order(b) {
        None => Map::empty(),
        Some(little) => match read_u32_spec(b, 4, little) {
            None => Map::empty(),
            Some(ifd0) => {
                let first = collect_spec(b, ifd0 as int, little, Map::empty());
                match pointer_spec(b, ifd0 as int, little, EXIF_POINTER) {
                    Some(off) => collect_spec(b, off as int, little, first),
                    None => first,
                }
            },
        },
    }
}

/// A map of tag values, seen as what the values hold.
pub open spec fn models(m: Map<u16, TagValue>) -> Map<u16, TagModel> {
    Map::new(|k: u16| m.dom().contains(k), |k: u16| m[k]@)
}

/// Calls `String::from_utf8_lossy`: bytes that are not valid UTF-8 become
/// U+FFFD, valid UTF-8 is decoded as it is.
#[verifier::external_body]
fn utf8_lossy(bytes: &[u8]) -> (s: String)
    ensures
        !valid_utf8(bytes@) ==> s@ == lossy_utf8(bytes@),
        valid_utf8(bytes@) ==> s@ == decode_utf8(bytes@),
{
    String::from_utf8_lossy(bytes).into_owned()
}

fn byte_order_exec(b: &[u8]) -> (r: Option<bool>)
    ensures
        r == byte_order(b@),
{
    if b.len() < 4 {
        None
    } else if b[0] == 0x49 && b[1] == 0x49 && b[2] == 0x2A && b[3] == 0x00 {
        Some(true)
    } else if b[0] == 0x4D && b[1] == 0x4D && b[2] == 0x00 && b[3] == 0x2A {
        Some(false)
    } else {
        None
    }
}

fn read_u16(b: &[u8], at: u64, little: bool) -> (r: Option<u16>)
    ensures
        r == read_u16_spec(b@, at as int, little),
{
    let len = b.len() as u64;
    if at > len || len - at < 2 {
        return None;
    }
    let i = at as usize;
    let b0 = b[i] as u16;
    let b1 = b[i + 1] as u16;
    if little {
        Some(b0 + 256 * b1)
    } else {
        Some(256 * b0 + b1)
    }
}

fn read_u32(b: &[u8], at: u64, little: bool) -> (r: Option<u32>)
    ensures
        r == read_u32_spec(b@, at as int, little),
{
    let len = b.len() as u64;
    if at > len || len - at < 4 {
        return None;
    }
    let i = at as usize;
    let b0 = b[i] as u32;
    let b1 = b[i + 1] as u32;
    let b2 = b[i + 2] as u32;
    let b3 = b[i + 3] as u32;
    if little {
        Some(b0 + 256 * b1 + 65536 * b2 + 16777216 * b3)
    } else {
        Some(16777216 * b0 + 65536 * b1 + 256 * b2 + b3)
    }
}

fn entry_count_exec(b: &[u8], ifd: u64, little: bool) -> (r: u16)
    ensures
        r == entry_count(b@, ifd as int, little),
{
    match read_u16(b, ifd, little) {
        Some(c) => c,
        None => 0,
    }
}

fn entry_at(b: &[u8], ifd: u64, little: bool, i: u64) -> (r: Option<IfdEntry>)
    requires
        ifd <= 0x1_0000_0000,
        i < 0x1_0000,
    ensures
        r == entry_spec(b@, ifd as int, little, i as int),
{
    let at = ifd + 2 + i * 12;
    let tag = read_u16(b, at, little);
    let typ = read_u16(b, at + 2, little);
    let count = read_u32(b, at + 4, little);
    match (tag, typ, count) {
        (Some(tag), Some(typ), Some(count)) => Some(IfdEntry { tag, typ, count, value_at: at + 8 }),
        _ => None,
    }
}

fn pointer(b: &[u8], ifd: u64, little: bool, want: u16) -> (r: Option<u32>)
    requires
        ifd <= 0x1_0000_0000,
    ensures
        r == pointer_spec(b@, ifd as int, little, want),
{
    let count = entry_count_exec(b, ifd, little) as u64;
    let mut i: u64 = 0;
    while i < count
        invariant
            ifd <= 0x1_0000_0000,
            count == entry_count(b@, ifd as int, little),
            count < 0x1_0000,
            i <= count,
            first_with_tag(b@, ifd as int, little, want, i as nat) is None,
        decreases count - i,
    {
        match entry_at(b, ifd, little, i) {
            Some(e) => {
                if e.tag == want {
                    proof {
                        assert(first_with_tag(b@, ifd as int, little, want, (i + 1) as nat) == Some(
                            e,
                        ));
                        lemma_first_with_tag_stable(b@, ifd as int, little, want, (i + 1) as nat, count as nat);
                    }
                    return read_u32(b, e.value_at, little);
                }
            },
            None => {},
        }
        i = i + 1;
    }
    None
}

proof fn lemma_first_with_tag_stable(b: Seq<u8>, ifd: int, little: bool, want: u16, n: nat, m: nat)
    requires
        n <= m,
        first_with_tag(b, ifd, little, want, n) is Some,
    ensures
        first_with_tag(b, ifd, little, want, m) == first_with_tag(b, ifd, little, want, n),
    decreases m - n,
{
    if n < m {
        lemma_first_with_tag_stable(b, ifd, little, want, n, (m - 1) as nat);
    }
}

fn decode(b: &[u8], little: bool, e: IfdEntry) -> (r: Option<TagValue>)
    ensures
        r is Some <==> decode_spec(b@, little, e) is Some,
        r is Some ==> decode_spec(b@, little, e) == Some(r->0@),
{
    if !is_compared_tag(e.tag) {
        return None;
    }
    let size: u64 = if e.typ == 2 {
        e.count as u64
    } else if e.typ == 5 || e.typ == 10 {
        (e.count as u64) * 8
    } else {
        return None;
    };
    let start: u64 = if size > 4 {
        match read_u32(b, e.value_at, little) {
            Some(o) => o as u64,
            None => return None,
        }
    } else {
        e.value_at
    };
    let len = b.len() as u64;
    if start > len || len - start < size {
        return None;
    }
    let s = start as usize;
    let t = (start + size) as usize;
    if e.typ == 2 {
        let raw = &b[s..t];
        let text = utf8_lossy(raw);
        let chars = chars_of(text.as_str());
        let end = trim_end_nul_bound(&chars);
        let kept = text.as_str().substring_char(0, end);
        let value = TagValue::Text(String::from_str(kept));
        proof {
            assert(raw@ == b@.subrange(s as int, t as int));
        }
        Some(value)
    } else {
        let signed = e.typ == 10;
        let count = e.count as u64;
        let mut values: Vec<Rational> = Vec::new();
        let mut i: u64 = 0;
        while i < count
            invariant
                count == e.count,
                count * 8 == size,
                start + size <= len,
                len == b@.len(),
                signed == (e.typ == 10),
                i <= count,
                values@ =~= Seq::new(i as nat, |j: int| rational_at(b@, start as int, j, little, signed)),
            decreases count - i,
        {
            let at = start + 8 * i;
            let n = read_u32(b, at, little);
            let d = read_u32(b, at + 4, little);
            match (n, d) {
                (Some(n), Some(d)) => {
                    let r = if signed {
                        Rational::Signed(n as i32, d as i32)
                    } else {
                        Rational::Unsigned(n, d)
                    };
                    values.push(r);
                },
                _ => {
                    assert(false);
                },
            }
            i = i + 1;
        }
        Some(TagValue::Numbers(values))
    }
}

fn collect(b: &[u8], ifd: u64, little: bool, out: &mut BTreeMap<u16, TagValue>)
    requires
        ifd <= 0x1_0000_0000,
    ensures
        models(final(out)@) == collect_spec(b@, ifd as int, little, models(old(out)@)),
{
    let ghost start = models(out@);
    let count = entry_count_exec(b, ifd, little) as u64;
    let mut i: u64 = 0;
    while i < count
        invariant
            ifd <= 0x1_0000_0000,
            count == entry_count(b@, ifd as int, little),
            count < 0x1_0000,
            i <= count,
            models(out@) == collect_upto(b@, ifd as int, little, start, i as nat),
        decreases count - i,
    {
        match entry_at(b, ifd, little, i) {
            Some(e) => {
                match decode(b, little, e) {
                    Some(v) => {
                        let ghost vm = v@;
                        let ghost before = out@;
                        out.insert(e.tag, v);
                        assert(models(out@) =~= models(before).insert(e.tag, vm));
                    },
                    None => {},
                }
            },
            None => {},
        }
        i = i + 1;
    }
}

/// The compared tags of a TIFF-based file held in `bytes`.
///
/// Returns whatever was found; a malformed or unexpected file yields an empty
/// map rather than an error, because this is a supplementary check and must
/// never fail a conversion on its own.
pub fn read_lens_tags_from(bytes: &[u8]) -> (found: BTreeMap<u16, TagValue>)
    ensures
        models(found@) == lens_tags(bytes@),
{
    let mut found: BTreeMap<u16, TagValue> = BTreeMap::new();
    assert(models(found@) =~= Map::empty());
    let little = match byte_order_exec(bytes) {
        Some(l) => l,
        None => return found,
    };
    let ifd0 = match read_u32(bytes, 4, little) {
        Some(o) => o as u64,
        None => return found,
    };
    collect(bytes, ifd0, little, &mut found);
    match pointer(bytes, ifd0, little, EXIF_POINTER) {
        Some(off) => {
            collect(bytes, off as u64, little, &mut found);
        },
        None => {},
    }
    found
}

// ---- laws -------------------------------------------------------------------
proof fn lemma_max3_swap(a: int, b: int, c: int)
    ensures
        max3(a, b, c) == max3(b, a, c),
{
}

/// Every value means the same thing as itself.
pub proof fn law_equivalence_is_reflexive(v: TagModel)
    ensures
        equivalent_models(v, v),
{
    match v {
        TagModel::Text(x) => {},
        TagModel::Numbers(x) => {
            assert forall|i: int| 0 <= i < x.len() implies #[trigger] close(x[i], x[i]) by {
                let p = numer(x[i]);
                let q = denom(x[i]);
                assert(p * q - p * q == 0);
                assert(q * q >= 0) by (nonlinear_arith);
                assert(abs(p) * q >= 0) by (nonlinear_arith)
                    requires
                        q >= 1,
                ;
            }
        },
    }
}

/// Whether two values mean the same thing does not depend on which is named
/// first.
pub proof fn law_equivalence_is_symmetric(a: TagModel, b: TagModel)
    ensures
        equivalent_models(a, b) == equivalent_models(b, a),
{
    match (a, b) {
        (TagModel::Text(x), TagModel::Text(y)) => {
            let tx = trim(x);
            let ty = trim(y);
            if eq_ignore_ascii_case(tx, ty) {
                assert forall|i: int| 0 <= i < ty.len() implies #[trigger] ascii_lower(ty[i])
                    == ascii_lower(tx[i]) by {
                    assert(ascii_lower(tx[i]) == ascii_lower(ty[i]));
                }
            }
            if eq_ignore_ascii_case(ty, tx) {
                assert forall|i: int| 0 <= i < tx.len() implies #[trigger] ascii_lower(tx[i])
                    == ascii_lower(ty[i]) by {
                    assert(ascii_lower(ty[i]) == ascii_lower(tx[i]));
                }
            }
        },
        (TagModel::Numbers(x), TagModel::Numbers(y)) => {
            if x.len() == y.len() {
                assert forall|i: int| 0 <= i < x.len() implies close(x[i], y[i]) == close(
                    y[i],
                    x[i],
                ) by {
                    let p = numer(x[i]);
                    let q = denom(x[i]);
                    let r = numer(y[i]);
                    let s = denom(y[i]);
                    assert(p * s - r * q == -(r * q - p * s));
                    assert(q * s == s * q) by (nonlinear_arith);
                    lemma_max3_swap(abs(p) * s, abs(r) * q, q * s);
                }
                if equivalent_models(a, b) {
                    assert forall|i: int| 0 <= i < y.len() implies #[trigger] close(y[i], x[i]) by {
                        assert(close(x[i], y[i]));
                    }
                }
                if equivalent_models(b, a) {
                    assert forall|i: int| 0 <= i < x.len() implies #[trigger] close(x[i], y[i]) by {
                        assert(close(y[i], x[i]));
                    }
                }
            }
        },
        _ => {},
    }
}

proof fn lemma_collect_keeps_lens_tags(
    b: Seq<u8>,
    ifd: int,
    little: bool,
    m: Map<u16, TagModel>,
    n: nat,
)
    requires
        forall|k: u16| m.dom().contains(k) ==> is_compared(k),
    ensures
        forall|k: u16| #[trigger] collect_upto(b, ifd, little, m, n).dom().contains(k) ==> is_compared(k),
    decreases n,
{
    if n > 0 {
        lemma_collect_keeps_lens_tags(b, ifd, little, m, (n - 1) as nat);
        let prev = collect_upto(b, ifd, little, m, (n - 1) as nat);
        match entry_spec(b, ifd, little, n - 1) {
            Some(e) => match decode_spec(b, little, e) {
                Some(v) => {
                    assert(is_compared(e.tag));
                    assert(collect_upto(b, ifd, little, m, n) == prev.insert(e.tag, v));
                },
                None => {},
            },
            None => {},
        }
    }
}

/// Only the compared lens tags are ever read, whatever the file holds.
pub proof fn law_only_lens_tags_are_read(bytes: Seq<u8>)
    ensures
        forall|k: u16| #[trigger] lens_tags(bytes).dom().contains(k) ==> is_compared(k),
{
    match byte_order(bytes) {
        None => {},
        Some(little) => match read_u32_spec(bytes, 4, little) {
            None => {},
            Some(ifd0) => {
                let e = Map::<u16, TagModel>::empty();
                lemma_collect_keeps_lens_tags(
                    bytes,
                    ifd0 as int,
                    little,
                    e,
                    entry_count(bytes, ifd0 as int, little),
                );
                let first = collect_spec(bytes, ifd0 as int, little, e);
                match pointer_spec(bytes, ifd0 as int, little, EXIF_POINTER) {
                    Some(off) => {
                        lemma_collect_keeps_lens_tags(
                            bytes,
                            off as int,
                            little,
                            first,
                            entry_count(bytes, off as int, little),
                        );
                    },
                    None => {},
                }
            },
        },
    }
}

/// A file that does not start with a TIFF header yields no tags at all, rather
/// than an error.
pub proof fn law_non_tiff_yields_nothing(bytes: Seq<u8>)
    requires
        byte_order(bytes) is None,
    ensures
        lens_tags(bytes) == Map::<u16, TagModel>::empty(),
{
}

/// Two texts mean the same thing exactly when, with surrounding whitespace
/// trimmed, they have the same length and agree character by character up to
/// ASCII case. In particular a text that is not blank never matches an empty
/// or shorter one.
pub proof fn law_text_equivalence_is_trimmed_equality_up_to_case(x: Seq<char>, y: Seq<char>)
    ensures
        equivalent_models(TagModel::Text(x), TagModel::Text(y)) <==> {
            &&& trim(x).len() == trim(y).len()
            &&& forall|i: int|
                0 <= i < trim(x).len() ==> #[trigger] ascii_lower(trim(x)[i]) == ascii_lower(
                    trim(y)[i],
                )
        },
        trim(x).len() != trim(y).len() ==> !equivalent_models(TagModel::Text(x), TagModel::Text(y)),
        trim(x).len() > 0 ==> !equivalent_models(TagModel::Text(x), TagModel::Text(Seq::empty())),
{
    let e = Seq::<char>::empty();
    assert(trim_start(e) == e);
    assert(trim_end(e) == e);
}

/// Two lists of numbers mean the same thing only when they have the same
/// length and each pair is within one part in a million of each other.
pub proof fn law_number_equivalence_is_pairwise(x: Seq<Rational>, y: Seq<Rational>)
    ensures
        equivalent_models(TagModel::Numbers(x), TagModel::Numbers(y)) <==> {
            &&& x.len() == y.len()
            &&& forall|i: int|
                0 <= i < x.len() ==> {
                    let p = numer(#[trigger] x[i]);
                    let q = denom(x[i]);
                    let r = numer(y[i]);
                    let s = denom(y[i]);
                    1_000_000 * abs(p * s - r * q) <= max3(abs(p) * s, abs(r) * q, q * s)
                }
        },
        forall|t: Seq<char>| !#[trigger] equivalent_models(TagModel::Numbers(x), TagModel::Text(t)),
{
    let rhs = x.len() == y.len() && forall|i: int|
        0 <= i < x.len() ==> {
            let p = numer(#[trigger] x[i]);
            let q = denom(x[i]);
            let r = numer(y[i]);
            let s = denom(y[i]);
            1_000_000 * abs(p * s - r * q) <= max3(abs(p) * s, abs(r) * q, q * s)
        };
    if equivalent_models(TagModel::Numbers(x), TagModel::Numbers(y)) {
        assert forall|i: int| 0 <= i < x.len() implies {
            let p = numer(#[trigger] x[i]);
            let q = denom(x[i]);
            let r = numer(y[i]);
            let s = denom(y[i]);
            1_000_000 * abs(p * s - r * q) <= max3(abs(p) * s, abs(r) * q, q * s)
        } by {
            assert(close(x[i], y[i]));
        }
    }
    if rhs {
        assert forall|i: int| 0 <= i < x.len() implies #[trigger] close(x[i], y[i]) by {
            let p = numer(x[i]);
        }
    }
}

} // verus!
