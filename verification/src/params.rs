//! Transformation parameters as parsed from a URL query string: the
//! output format and fit-mode vocabularies and the typed parameter set,
//! with a fully specified parser. Segments are split at `&`, a segment's
//! key ends at its first `=`, values are taken literally, unknown keys
//! are ignored, and a repeated known key is an error.
use vstd::prelude::*;
use crate::fetch::spec_eq_ignore_case;
use crate::fetch::spec_lower_val;
use crate::fetch::eq_ignore_ascii_case;
use crate::text::spec_first_index_of;
use crate::text::spec_int_shape;
use crate::text::spec_int_value;
use crate::text::parse_i64;
use crate::text::first_index_of;
use crate::text::ct_str_eq;

verus! {

/// Supported output image formats, as clients name them.
#[derive(Debug, Clone, Copy, PartialEq, Eq, Structural)]
pub enum Format {
    JPEG,
    WEBP,
    AVIF,
}

/// The canonical uppercase name of a format.
pub open spec fn spec_format_label(f: Format) -> Seq<char> {
    match f {
        Format::JPEG => "JPEG"@,
        Format::WEBP => "WEBP"@,
        Format::AVIF => "AVIF"@,
    }
}

impl Format {
    /// The canonical uppercase name of the format.
    pub fn name(&self) -> (r: String)
        ensures
            r@ == spec_format_label(*self),
    {
        match self {
            Format::JPEG => String::from_str("JPEG"),
            Format::WEBP => String::from_str("WEBP"),
            Format::AVIF => String::from_str("AVIF"),
        }
    }

    /// Parses a format name, accepting any capitalization; anything
    /// else is rejected with a message naming the offender.
    pub fn from_str(s: &str) -> (r: Result<Format, String>)
        ensures
            (r == Result::<Format, String>::Ok(Format::JPEG)) <==> spec_eq_ignore_case(
                s@,
                "jpeg"@,
            ),
            (r == Result::<Format, String>::Ok(Format::WEBP)) <==> spec_eq_ignore_case(
                s@,
                "webp"@,
            ),
            (r == Result::<Format, String>::Ok(Format::AVIF)) <==> spec_eq_ignore_case(
                s@,
                "avif"@,
            ),
            r matches Err(m) ==> m@ == "Invalid format: "@ + s@,
    {
        proof {
            reveal_strlit("jpeg");
            reveal_strlit("webp");
            reveal_strlit("avif");
            lemma_format_labels_distinct(s@);
        }
        if eq_ignore_ascii_case(s, "jpeg") {
            Result::Ok(Format::JPEG)
        } else if eq_ignore_ascii_case(s, "webp") {
            Result::Ok(Format::WEBP)
        } else if eq_ignore_ascii_case(s, "avif") {
            Result::Ok(Format::AVIF)
        } else {
            let mut m = String::from_str("Invalid format: ");
            m.append(s);
            Result::Err(m)
        }
    }
}

/// A string cannot name two different formats, whatever its
/// capitalization: the names differ in their first character.
proof fn lemma_format_labels_distinct(s: Seq<char>)
    ensures
        !(spec_eq_ignore_case(s, "jpeg"@) && spec_eq_ignore_case(s, "webp"@)),
        !(spec_eq_ignore_case(s, "jpeg"@) && spec_eq_ignore_case(s, "avif"@)),
        !(spec_eq_ignore_case(s, "webp"@) && spec_eq_ignore_case(s, "avif"@)),
{
    reveal_strlit("jpeg");
    reveal_strlit("webp");
    reveal_strlit("avif");
    if spec_eq_ignore_case(s, "jpeg"@) && spec_eq_ignore_case(s, "webp"@) {
        assert(spec_lower_val(s[0]) == spec_lower_val("jpeg"@[0]));
        assert(spec_lower_val(s[0]) == spec_lower_val("webp"@[0]));
    }
    if spec_eq_ignore_case(s, "jpeg"@) && spec_eq_ignore_case(s, "avif"@) {
        assert(spec_lower_val(s[0]) == spec_lower_val("jpeg"@[0]));
        assert(spec_lower_val(s[0]) == spec_lower_val("avif"@[0]));
    }
    if spec_eq_ignore_case(s, "webp"@) && spec_eq_ignore_case(s, "avif"@) {
        assert(spec_lower_val(s[0]) == spec_lower_val("webp"@[0]));
        assert(spec_lower_val(s[0]) == spec_lower_val("avif"@[0]));
    }
}

/// Fit modes for image transformation. Parsed for clients but not
/// consumed by the resize policy, which scales proportionally or
/// honors both dimensions exactly.
#[derive(Debug, Clone, Copy, PartialEq, Eq, Structural)]
pub enum FitMode {
    Cover,
    Contain,
}

/// The lowercase name of a fit mode.
pub open spec fn spec_fit_label(m: FitMode) -> Seq<char> {
    match m {
        FitMode::Cover => "cover"@,
        FitMode::Contain => "contain"@,
    }
}

impl FitMode {
    /// The lowercase name of the fit mode.
    pub fn name(&self) -> (r: String)
        ensures
            r@ == spec_fit_label(*self),
    {
        match self {
            FitMode::Cover => String::from_str("cover"),
            FitMode::Contain => String::from_str("contain"),
        }
    }

    /// Parses a fit mode name, accepting any capitalization.
    pub fn from_str(s: &str) -> (r: Result<FitMode, String>)
        ensures
            (r == Result::<FitMode, String>::Ok(FitMode::Cover)) <==> spec_eq_ignore_case(
                s@,
                "cover"@,
            ),
            (r == Result::<FitMode, String>::Ok(FitMode::Contain)) <==> spec_eq_ignore_case(
                s@,
                "contain"@,
            ),
            r matches Err(m) ==> m@ == "Invalid fit mode: "@ + s@,
    {
        proof {
            reveal_strlit("cover");
            reveal_strlit("contain");
            if spec_eq_ignore_case(s@, "cover"@) && spec_eq_ignore_case(s@, "contain"@) {
                assert(s@.len() == 5 && s@.len() == 7);
            }
        }
        if eq_ignore_ascii_case(s, "cover") {
            Result::Ok(FitMode::Cover)
        } else if eq_ignore_ascii_case(s, "contain") {
            Result::Ok(FitMode::Contain)
        } else {
            let mut m = String::from_str("Invalid fit mode: ");
            m.append(s);
            Result::Err(m)
        }
    }
}

/// Parameters for an image transformation, as parsed from a URL query
/// string. Immutable once parsed.
#[derive(Debug, Clone, Copy, PartialEq, Eq, Structural)]
pub struct TransformParams {
    /// Desired width of the output image.
    pub width: Option<u32>,
    /// Desired height of the output image.
    pub height: Option<u32>,
    /// Output image format.
    pub format: Option<Format>,
    /// Quality of the output image, 1 to 100.
    pub quality: Option<u8>,
    /// Fit mode, parsed from the `fit` key.
    pub fit_mode: Option<FitMode>,
}

/// An unsigned decimal value within `bound`; a sign is rejected.
pub open spec fn spec_parse_bounded(v: Seq<char>, bound: int) -> Option<int> {
    if spec_int_shape(v) && (v.len() > 0 && v[0] != '-') && 0 <= spec_int_value(v) <= bound {
        Option::Some(spec_int_value(v))
    } else {
        Option::None
    }
}

/// The key and value of one query segment: the key ends at the first
/// `=`; a segment without `=` is all key with an empty value.
pub open spec fn spec_segment_pair(sg: Seq<char>) -> (Seq<char>, Seq<char>) {
    let i = spec_first_index_of(sg, '=');
    if i == -1 {
        (sg, Seq::<char>::empty())
    } else {
        (sg.subrange(0, i), sg.skip(i + 1))
    }
}

/// Applies one nonempty query segment to the parameters gathered so
/// far: known keys must parse and must not repeat; unknown keys are
/// ignored.
pub open spec fn spec_apply_segment(acc: TransformParams, sg: Seq<char>) -> Option<
    TransformParams,
> {
    let kv = spec_segment_pair(sg);
    if kv.0 == "width"@ {
        if acc.width is Some {
            Option::None
        } else {
            match spec_parse_bounded(kv.1, 0xffffffff) {
                Option::Some(x) => Option::Some(
                    TransformParams { width: Option::Some(x as u32), ..acc },
                ),
                Option::None => Option::None,
            }
        }
    } else if kv.0 == "height"@ {
        if acc.height is Some {
            Option::None
        } else {
            match spec_parse_bounded(kv.1, 0xffffffff) {
                Option::Some(x) => Option::Some(
                    TransformParams { height: Option::Some(x as u32), ..acc },
                ),
                Option::None => Option::None,
            }
        }
    } else if kv.0 == "quality"@ {
        if acc.quality is Some {
            Option::None
        } else {
            match spec_parse_bounded(kv.1, 0xff) {
                Option::Some(x) => Option::Some(
                    TransformParams { quality: Option::Some(x as u8), ..acc },
                ),
                Option::None => Option::None,
            }
        }
    } else if kv.0 == "format"@ {
        if acc.format is Some {
            Option::None
        } else if spec_eq_ignore_case(kv.1, "jpeg"@) {
            Option::Some(TransformParams { format: Option::Some(Format::JPEG), ..acc })
        } else if spec_eq_ignore_case(kv.1, "webp"@) {
            Option::Some(TransformParams { format: Option::Some(Format::WEBP), ..acc })
        } else if spec_eq_ignore_case(kv.1, "avif"@) {
            Option::Some(TransformParams { format: Option::Some(Format::AVIF), ..acc })
        } else {
            Option::None
        }
    } else if kv.0 == "fit"@ {
        if acc.fit_mode is Some {
            Option::None
        } else if spec_eq_ignore_case(kv.1, "cover"@) {
            Option::Some(TransformParams { fit_mode: Option::Some(FitMode::Cover), ..acc })
        } else if spec_eq_ignore_case(kv.1, "contain"@) {
            Option::Some(TransformParams { fit_mode: Option::Some(FitMode::Contain), ..acc })
        } else {
            Option::None
        }
    } else {
        Option::Some(acc)
    }
}

/// Folds the query string from position `p` onward into the parameters
/// gathered so far: the next segment runs to the next `&` or the end;
/// empty segments are skipped.
pub open spec fn spec_parse_from(s: Seq<char>, p: int, acc: TransformParams) -> Option<
    TransformParams,
>
    recommends
        0 <= p <= s.len(),
    decreases s.len() - p when 0 <= p <= s.len() via spec_parse_from_decreases
{
    if p >= s.len() {
        Option::Some(acc)
    } else {
        let rest = s.skip(p);
        let amp = spec_first_index_of(rest, '&');
        let e: int = if amp == -1 {
            s.len() as int
        } else {
            p + amp
        };
        let sg = s.subrange(p, e);
        let next: int = if e < s.len() {
            e + 1
        } else {
            e
        };
        if sg.len() == 0 {
            spec_parse_from(s, next, acc)
        } else {
            match spec_apply_segment(acc, sg) {
                Option::Some(acc2) => spec_parse_from(s, next, acc2),
                Option::None => Option::None,
            }
        }
    }
}

#[via_fn]
proof fn spec_parse_from_decreases(s: Seq<char>, p: int, acc: TransformParams) {
    if p < s.len() {
        crate::text::lemma_first_index_range(s.skip(p), '&');
    }
}

/// The parameter set an entire query string parses to, starting from
/// the all-absent parameters.
pub open spec fn spec_parse_query(s: Seq<char>) -> Option<TransformParams> {
    spec_parse_from(
        s,
        0,
        TransformParams {
            width: Option::None,
            height: Option::None,
            format: Option::None,
            quality: Option::None,
            fit_mode: Option::None,
        },
    )
}

impl TransformParams {
    /// Parses a URL query string into a parameter set: segments split
    /// at `&`, keys end at the first `=`, values are taken literally.
    /// Unknown keys are ignored; a repeated or malformed known key is
    /// rejected.
    pub fn from_str(s: &str) -> (r: Result<TransformParams, String>)
        ensures
            match r {
                Result::Ok(tp) => spec_parse_query(s@) == Option::Some(tp),
                Result::Err(_) => spec_parse_query(s@) is None,
            },
    {
        let n = s.unicode_len();
        let mut acc = TransformParams {
            width: Option::None,
            height: Option::None,
            format: Option::None,
            quality: Option::None,
            fit_mode: Option::None,
        };
        let mut p: usize = 0;
        while p < n
            invariant
                0 <= p <= n,
                n == s@.len(),
                spec_parse_query(s@) == spec_parse_from(s@, p as int, acc),
            decreases n - p,
        {
            // find the end of this segment
            let mut e: usize = p;
            while e < n && !(s.get_char(e) == '&')
                invariant
                    p <= e <= n,
                    n == s@.len(),
                    forall|j: int| p <= j < e ==> s@[j] != '&',
                decreases n - e,
            {
                e = e + 1;
            }
            proof {
                let rest = s@.skip(p as int);
                assert(forall|j: int|
                    0 <= j < e - p ==> #[trigger] rest[j] == s@[j + p]);
                crate::text::lemma_first_index_of(rest, '&', e as int - p as int);
                assert(s@.subrange(p as int, e as int) =~= rest.subrange(0, e - p as int));
            }
            let segment = s.substring_char(p, e);
            proof {
                assert(segment@ == s@.subrange(p as int, e as int));
            }
            let next: usize = if e < n {
                e + 1
            } else {
                e
            };
            if segment.unicode_len() > 0 {
                match apply_segment_exec(&acc, segment) {
                    Option::Some(acc2) => {
                        acc = acc2;
                    },
                    Option::None => {
                        return Result::Err(String::from_str("invalid query string"));
                    },
                }
            }
            p = next;
        }
        Result::Ok(acc)
    }
}

/// Applies one nonempty segment, mirroring `spec_apply_segment`.
fn apply_segment_exec(acc: &TransformParams, sg: &str) -> (r: Option<TransformParams>)
    requires
        sg@.len() > 0,
    ensures
        r == spec_apply_segment(*acc, sg@),
{
    let n = sg.unicode_len();
    let (has_eq, eq_at) = first_index_of(sg, '=');
    let key: &str;
    let value: &str;
    if has_eq {
        key = sg.substring_char(0, eq_at);
        value = sg.substring_char(eq_at + 1, n);
        proof {
            assert(key@ == sg@.subrange(0, eq_at as int));
            assert(value@ =~= sg@.skip(eq_at + 1));
        }
    } else {
        key = sg;
        value = "";
        proof {
            reveal_strlit("");
            assert(value@ =~= Seq::<char>::empty());
        }
    }
    proof {
        assert(spec_segment_pair(sg@) == (key@, value@));
    }
    if ct_str_eq(key, "width") {
        match &acc.width {
            Option::Some(_) => Option::None,
            Option::None => {
                match parse_bounded_exec(value, 0xffffffff) {
                    Option::Some(x) => Option::Some(
                        TransformParams { width: Option::Some(x as u32), ..*acc },
                    ),
                    Option::None => Option::None,
                }
            },
        }
    } else if ct_str_eq(key, "height") {
        match &acc.height {
            Option::Some(_) => Option::None,
            Option::None => {
                match parse_bounded_exec(value, 0xffffffff) {
                    Option::Some(x) => Option::Some(
                        TransformParams { height: Option::Some(x as u32), ..*acc },
                    ),
                    Option::None => Option::None,
                }
            },
        }
    } else if ct_str_eq(key, "quality") {
        match &acc.quality {
            Option::Some(_) => Option::None,
            Option::None => {
                match parse_bounded_exec(value, 0xff) {
                    Option::Some(x) => Option::Some(
                        TransformParams { quality: Option::Some(x as u8), ..*acc },
                    ),
                    Option::None => Option::None,
                }
            },
        }
    } else if ct_str_eq(key, "format") {
        match &acc.format {
            Option::Some(_) => Option::None,
            Option::None => {
                if eq_ignore_ascii_case(value, "jpeg") {
                    Option::Some(TransformParams { format: Option::Some(Format::JPEG), ..*acc })
                } else if eq_ignore_ascii_case(value, "webp") {
                    Option::Some(TransformParams { format: Option::Some(Format::WEBP), ..*acc })
                } else if eq_ignore_ascii_case(value, "avif") {
                    Option::Some(TransformParams { format: Option::Some(Format::AVIF), ..*acc })
                } else {
                    Option::None
                }
            },
        }
    } else if ct_str_eq(key, "fit") {
        match &acc.fit_mode {
            Option::Some(_) => Option::None,
            Option::None => {
                if eq_ignore_ascii_case(value, "cover") {
                    Option::Some(TransformParams { fit_mode: Option::Some(FitMode::Cover), ..*acc })
                } else if eq_ignore_ascii_case(value, "contain") {
                    Option::Some(
                        TransformParams { fit_mode: Option::Some(FitMode::Contain), ..*acc },
                    )
                } else {
                    Option::None
                }
            },
        }
    } else {
        Option::Some(*acc)
    }
}

/// Parses an unsigned decimal value within `bound`, mirroring
/// `spec_parse_bounded`.
fn parse_bounded_exec(v: &str, bound: u64) -> (r: Option<u64>)
    requires
        bound <= 0x7fffffffffffffff,
    ensures
        match r {
            Option::Some(x) => spec_parse_bounded(v@, bound as int) == Option::Some(x as int),
            Option::None => spec_parse_bounded(v@, bound as int) is None,
        },
{
    let n = v.unicode_len();
    if n == 0 {
        return Option::None;
    }
    if v.get_char(0) == '-' {
        return Option::None;
    }
    match parse_i64(v) {
        Option::Some(x) => {
            if 0 <= x && x as u64 <= bound {
                Option::Some(x as u64)
            } else {
                Option::None
            }
        },
        Option::None => {
            proof {
                if spec_int_shape(v@) && v@[0] != '-' {
                    // the value did not fit in an i64, so it exceeds any
                    // bound a u64 can hold
                    assert(spec_int_value(v@) >= 0) by {
                        if v@[0] == '+' {
                            crate::text::lemma_digits_val_nonneg(v@.skip(1));
                        } else {
                            crate::text::lemma_digits_val_nonneg(v@);
                        }
                    }
                    assert(spec_int_value(v@) > i64::MAX);
                }
            }
            Option::None
        },
    }
}

} // verus!
