//! Validation of untrusted remote content, defense in depth: status
//! check, declared content-type check, declared and streamed size
//! enforcement, and a final decode check. The network transport sits
//! with the caller; every accept/reject decision is made — and
//! specified — here, one function per step of the sequence.
use vstd::prelude::*;
use crate::errors::ImageKitError;
use crate::transform::Image;
use crate::transform::decode_image;
use crate::transform::spec_decoded_dims;

verus! {

/// Step one: a non-2xx upstream status fails the fetch.
pub fn check_status(status: u16) -> (r: Result<(), ImageKitError>)
    ensures
        r is Ok <==> 200 <= status <= 299,
        r matches Err(e) ==> e is NetworkError,
{
    if 200 <= status && status <= 299 {
        Result::Ok(())
    } else {
        Result::Err(ImageKitError::NetworkError(String::from_str("upstream status not success")))
    }
}

/// Whether `c` may appear in a MIME type token.
pub open spec fn spec_token_char(c: char) -> bool {
    ||| 'a' as u32 <= c as u32 <= 'z' as u32
    ||| 'A' as u32 <= c as u32 <= 'Z' as u32
    ||| '0' as u32 <= c as u32 <= '9' as u32
    ||| c == '!' || c == '#' || c == '$' || c == '%' || c == '&' || c == '\'' || c == '*'
    ||| c == '+' || c == '-' || c == '.' || c == '^' || c == '_' || c == '`' || c == '|'
    ||| c == '~'
}

/// The ASCII-lowercased scalar value of a character.
pub open spec fn spec_lower_val(c: char) -> int {
    if 65 <= c as u32 <= 90 {
        c as u32 + 32
    } else {
        (c as u32) as int
    }
}

/// ASCII-case-insensitive equality of character sequences.
pub open spec fn spec_eq_ignore_case(a: Seq<char>, b: Seq<char>) -> bool {
    a.len() == b.len() && forall|i: int|
        0 <= i < a.len() ==> spec_lower_val(#[trigger] a[i]) == spec_lower_val(b[i])
}

/// ASCII-case-insensitive equality of two strings.
pub fn eq_ignore_ascii_case(a: &str, b: &str) -> (r: bool)
    ensures
        r == spec_eq_ignore_case(a@, b@),
{
    let n = a.unicode_len();
    let m = b.unicode_len();
    if n != m {
        return false;
    }
    let mut i: usize = 0;
    while i < n
        invariant
            0 <= i <= n,
            n == a@.len(),
            n == b@.len(),
            forall|j: int|
                0 <= j < i ==> spec_lower_val(#[trigger] a@[j]) == spec_lower_val(b@[j]),
        decreases n - i,
    {
        let ca = a.get_char(i) as u32;
        let cb = b.get_char(i) as u32;
        let la = if 65 <= ca && ca <= 90 {
            ca + 32
        } else {
            ca
        };
        let lb = if 65 <= cb && cb <= 90 {
            cb + 32
        } else {
            cb
        };
        if la != lb {
            proof {
                assert(spec_lower_val(a@[i as int]) != spec_lower_val(b@[i as int]));
            }
            return false;
        }
        i = i + 1;
    }
    true
}

/// The index of the first `/` in a declared content type, or `-1`.
pub open spec fn spec_first_slash(s: Seq<char>) -> int
    decreases s.len(),
{
    if s.len() == 0 {
        -1
    } else if s[0] == '/' {
        0
    } else if spec_first_slash(s.drop_first()) == -1 {
        -1
    } else {
        1 + spec_first_slash(s.drop_first())
    }
}

/// Whether a declared content type is well-formed enough to trust: a
/// nonempty token, a slash, and a nonempty remainder. Anything else is
/// left for the decode check to judge.
pub open spec fn spec_mime_shape(s: Seq<char>) -> bool {
    let i = spec_first_slash(s);
    &&& i >= 1
    &&& i + 1 < s.len()
    &&& forall|j: int| 0 <= j < i ==> spec_token_char(#[trigger] s[j])
}

/// The top-level type of a well-formed content type: everything before
/// the first slash.
pub open spec fn spec_mime_top(s: Seq<char>) -> Seq<char> {
    s.subrange(0, spec_first_slash(s))
}

/// Step two: a parseable declared content type whose top-level type is
/// not `image` fails the fetch; an unparseable or empty one is
/// tolerated, because the decode step validates the payload anyway.
pub fn check_content_type(ct: &str) -> (r: Result<(), ImageKitError>)
    ensures
        r is Ok <==> (!spec_mime_shape(ct@) || spec_eq_ignore_case(spec_mime_top(ct@), "image"@)),
        r matches Err(e) ==> e is InvalidArgument,
{
    let n = ct.unicode_len();
    let mut i: usize = 0;
    let mut token_ok = true;
    // scan the leading token up to the first slash
    while i < n && !(ct.get_char(i) == '/')
        invariant
            0 <= i <= n,
            n == ct@.len(),
            forall|j: int| 0 <= j < i ==> ct@[j] != '/',
            token_ok == (forall|j: int| 0 <= j < i ==> spec_token_char(#[trigger] ct@[j])),
        decreases n - i,
    {
        let c = ct.get_char(i);
        let cv = c as u32;
        let is_tok = (97 <= cv && cv <= 122) || (65 <= cv && cv <= 90) || (48 <= cv && cv <= 57)
            || c == '!' || c == '#' || c == '$' || c == '%' || c == '&' || c == '\'' || c == '*'
            || c == '+' || c == '-' || c == '.' || c == '^' || c == '_' || c == '`' || c == '|'
            || c == '~';
        proof {
            assert(is_tok == spec_token_char(ct@[i as int]));
        }
        token_ok = token_ok && is_tok;
        i = i + 1;
    }
    proof {
        lemma_first_slash(ct@, i as int);
    }
    if i >= n || i == 0 || i + 1 >= n || !token_ok {
        // no slash, empty token, empty remainder, or a malformed token:
        // not parseable, tolerated
        return Result::Ok(());
    }
    // parseable: the top-level type must be image, case-insensitively
    let mut is_image = i == 5;
    if is_image {
        let ghost top = spec_mime_top(ct@);
        let pattern = "image";
        proof {
            reveal_strlit("image");
        }
        let mut k: usize = 0;
        while k < 5
            invariant
                0 <= k <= 5,
                i == 5,
                n == ct@.len(),
                i < n,
                pattern@ == "image"@,
                pattern@.len() == 5,
                top == spec_mime_top(ct@),
                top.len() == 5,
                top =~= ct@.subrange(0, 5),
                is_image == (forall|j: int|
                    0 <= j < k ==> spec_lower_val(#[trigger] top[j]) == spec_lower_val(
                        pattern@[j],
                    )),
            decreases 5 - k,
        {
            let a = ct.get_char(k);
            let b = pattern.get_char(k);
            let av = a as u32;
            let al = if 65 <= av && av <= 90 {
                av + 32
            } else {
                av
            };
            let bv = b as u32;
            let bl = if 65 <= bv && bv <= 90 {
                bv + 32
            } else {
                bv
            };
            proof {
                assert(top[k as int] == ct@[k as int]);
                assert(al == spec_lower_val(top[k as int]));
                assert(bl == spec_lower_val(pattern@[k as int]));
            }
            is_image = is_image && al == bl;
            k = k + 1;
        }
        proof {
            reveal_strlit("image");
            if is_image {
                assert(spec_eq_ignore_case(top, "image"@));
            } else {
                assert(!spec_eq_ignore_case(top, "image"@));
            }
        }
    } else {
        proof {
            reveal_strlit("image");
            assert(spec_mime_top(ct@).len() != "image"@.len());
        }
    }
    if is_image {
        Result::Ok(())
    } else {
        Result::Err(ImageKitError::InvalidArgument(String::from_str("Source is not an image")))
    }
}

/// A scan that stopped at `i` pins down the first slash: at `i` when
/// one was found there, absent when the scan ran out.
proof fn lemma_first_slash(s: Seq<char>, i: int)
    requires
        0 <= i <= s.len(),
        forall|j: int| 0 <= j < i ==> s[j] != '/',
        i < s.len() ==> s[i] == '/',
    ensures
        i < s.len() ==> spec_first_slash(s) == i,
        i == s.len() ==> spec_first_slash(s) == -1,
    decreases i,
{
    if i == 0 {
        if s.len() > 0 {
        }
    } else {
        assert(s[0] != '/');
        assert(s.drop_first().len() == s.len() - 1);
        assert(forall|j: int| 0 <= j < i - 1 ==> #[trigger] s.drop_first()[j] == s[j + 1]);
        lemma_first_slash(s.drop_first(), i - 1);
    }
}

/// Step three: a declared content length above the limit fails the
/// fetch before any byte is read.
pub fn check_declared_length(declared: Option<u64>, max_size: usize) -> (r: Result<
    (),
    ImageKitError,
>)
    ensures
        r is Ok <==> (declared is None || declared->0 <= max_size as u64),
        r matches Err(e) ==> e is InvalidArgument,
{
    match declared {
        Option::Some(len) => {
            if len > max_size as u64 {
                Result::Err(
                    ImageKitError::InvalidArgument(String::from_str("Input exceeds size limit")),
                )
            } else {
                Result::Ok(())
            }
        },
        Option::None => Result::Ok(()),
    }
}

/// Step four, applied after every streamed chunk: accepts the chunk iff
/// the accumulated size stays within the limit, returning the new
/// accumulated size. Mandatory even when the declared length passed,
/// since an origin can omit or understate it.
pub fn accept_chunk(accumulated: usize, chunk_len: usize, max_size: usize) -> (r: Result<
    usize,
    ImageKitError,
>)
    ensures
        r matches Ok(n) ==> accumulated + chunk_len <= max_size && n == accumulated + chunk_len,
        r matches Err(e) ==> accumulated + chunk_len > max_size && e is InvalidArgument,
{
    if chunk_len <= max_size && accumulated <= max_size - chunk_len {
        Result::Ok(accumulated + chunk_len)
    } else {
        Result::Err(ImageKitError::InvalidArgument(String::from_str("Input exceeds size limit")))
    }
}

/// Step five: the accumulated bytes must decode as an image with
/// nonzero dimensions; the decoded image is returned so the caller
/// need not decode twice. Succeeds exactly when the decoder's verdict
/// accepts the bytes at nonzero dimensions.
pub fn validate_image_bytes(bytes: &Vec<u8>) -> (r: Result<Image, ImageKitError>)
    ensures
        r is Ok <==> (spec_decoded_dims(bytes@) matches Some(d) && d.0 >= 1 && d.1 >= 1),
        r matches Ok(img) ==> img.spec_width() >= 1 && img.spec_height() >= 1
            && spec_decoded_dims(bytes@) == Option::Some(
            (img.spec_width(), img.spec_height()),
        ),
        r matches Err(e) ==> e is InvalidArgument,
{
    match decode_image(bytes) {
        Result::Ok((img, _)) => {
            if img.width() == 0 || img.height() == 0 {
                Result::Err(
                    ImageKitError::InvalidArgument(String::from_str("Invalid image dimensions")),
                )
            } else {
                Result::Ok(img)
            }
        },
        Result::Err(_) => Result::Err(
            ImageKitError::InvalidArgument(
                String::from_str("Unable to decode image for validation"),
            ),
        ),
    }
}

} // verus!
