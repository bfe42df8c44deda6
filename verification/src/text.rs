//! Character-sequence utilities shared across the crate: a lexicographic
//! order on `Seq<char>` with its ordering laws, an executable comparison,
//! decimal formatting of integers, decimal parsing of signed integers, and
//! the lowercase hex alphabet used for digests.
use vstd::prelude::*;

verus! {

/// Lexicographic "less or equal" on character sequences, comparing scalar
/// values position by position; a proper prefix precedes its extensions.
pub open spec fn lex_le(a: Seq<char>, b: Seq<char>) -> bool
    decreases a.len(),
{
    if a.len() == 0 {
        true
    } else if b.len() == 0 {
        false
    } else if a[0] == b[0] {
        lex_le(a.drop_first(), b.drop_first())
    } else {
        (a[0] as u32) < (b[0] as u32)
    }
}

/// Strict form of `lex_le`.
pub open spec fn lex_lt(a: Seq<char>, b: Seq<char>) -> bool {
    lex_le(a, b) && a != b
}

pub proof fn lemma_lex_le_reflexive(a: Seq<char>)
    ensures
        lex_le(a, a),
    decreases a.len(),
{
    if a.len() > 0 {
        lemma_lex_le_reflexive(a.drop_first());
    }
}

pub proof fn lemma_lex_le_antisymmetric(a: Seq<char>, b: Seq<char>)
    requires
        lex_le(a, b),
        lex_le(b, a),
    ensures
        a == b,
    decreases a.len(),
{
    if a.len() == 0 {
        assert(b.len() == 0);
        assert(a =~= b);
    } else {
        assert(b.len() > 0);
        assert(a[0] == b[0]) by {
            if a[0] != b[0] {
                assert((a[0] as u32) < (b[0] as u32));
                assert((b[0] as u32) < (a[0] as u32));
            }
        }
        lemma_lex_le_antisymmetric(a.drop_first(), b.drop_first());
        assert(a =~= seq![a[0]] + a.drop_first());
        assert(b =~= seq![b[0]] + b.drop_first());
    }
}

pub proof fn lemma_lex_le_transitive(a: Seq<char>, b: Seq<char>, c: Seq<char>)
    requires
        lex_le(a, b),
        lex_le(b, c),
    ensures
        lex_le(a, c),
    decreases a.len(),
{
    if a.len() == 0 {
    } else {
        assert(b.len() > 0);
        if b.len() > 0 && c.len() > 0 {
            if a[0] == b[0] && b[0] == c[0] {
                lemma_lex_le_transitive(a.drop_first(), b.drop_first(), c.drop_first());
            }
        }
    }
}

pub proof fn lemma_lex_le_connected(a: Seq<char>, b: Seq<char>)
    ensures
        lex_le(a, b) || lex_le(b, a),
    decreases a.len(),
{
    if a.len() == 0 {
        assert(lex_le(a, b));
    } else if b.len() == 0 {
        assert(lex_le(b, a));
    } else if a[0] == b[0] {
        lemma_lex_le_connected(a.drop_first(), b.drop_first());
    } else if (a[0] as u32) < (b[0] as u32) {
        assert(lex_le(a, b));
    } else {
        assert(a[0] != b[0]);
        assert((a[0] as u32) != (b[0] as u32)) by {
            lemma_char_values_distinct(a[0], b[0]);
        }
        assert((b[0] as u32) < (a[0] as u32));
        assert(lex_le(b, a));
    }
}

/// Distinct characters have distinct scalar values.
proof fn lemma_char_values_distinct(a: char, b: char)
    requires
        a != b,
    ensures
        (a as u32) != (b as u32),
{
}

/// Comparing the suffixes past a common prefix decides the whole comparison.
pub proof fn lemma_lex_le_common_prefix(a: Seq<char>, b: Seq<char>, i: int)
    requires
        0 <= i <= a.len(),
        i <= b.len(),
        a.subrange(0, i) == b.subrange(0, i),
    ensures
        lex_le(a, b) == lex_le(a.skip(i), b.skip(i)),
    decreases i,
{
    if i > 0 {
        assert(a.len() > 0 && b.len() > 0);
        assert(a[0] == b[0]) by {
            assert(a.subrange(0, i)[0] == a[0]);
            assert(b.subrange(0, i)[0] == b[0]);
        }
        assert(a.drop_first().subrange(0, i - 1) =~= a.subrange(0, i).drop_first());
        assert(b.drop_first().subrange(0, i - 1) =~= b.subrange(0, i).drop_first());
        lemma_lex_le_common_prefix(a.drop_first(), b.drop_first(), i - 1);
        assert(a.drop_first().skip(i - 1) =~= a.skip(i));
        assert(b.drop_first().skip(i - 1) =~= b.skip(i));
    } else {
        assert(a.skip(0) =~= a);
        assert(b.skip(0) =~= b);
    }
}

/// Executable lexicographic comparison of two string slices.
pub fn str_lex_le(a: &str, b: &str) -> (r: bool)
    ensures
        r == lex_le(a@, b@),
{
    let a_len = a.unicode_len();
    let b_len = b.unicode_len();
    let n = if a_len < b_len { a_len } else { b_len };
    let mut i: usize = 0;
    while i < n
        invariant
            0 <= i <= n,
            n <= a@.len(),
            n <= b@.len(),
            a_len == a@.len(),
            b_len == b@.len(),
            n == if a_len < b_len { a_len } else { b_len },
            a@.subrange(0, i as int) == b@.subrange(0, i as int),
        decreases n - i,
    {
        let ca = a.get_char(i);
        let cb = b.get_char(i);
        if ca != cb {
            proof {
                lemma_lex_le_common_prefix(a@, b@, i as int);
                assert(a@.skip(i as int)[0] == ca);
                assert(b@.skip(i as int)[0] == cb);
            }
            return (ca as u32) < (cb as u32);
        }
        proof {
            assert(a@.subrange(0, i + 1) =~= a@.subrange(0, i as int).push(ca));
            assert(b@.subrange(0, i + 1) =~= b@.subrange(0, i as int).push(cb));
        }
        i = i + 1;
    }
    proof {
        lemma_lex_le_common_prefix(a@, b@, n as int);
        if a_len <= b_len {
            assert(a@.skip(n as int).len() == 0);
        } else {
            assert(a@.skip(n as int).len() > 0);
            assert(b@.skip(n as int).len() == 0);
        }
    }
    a_len <= b_len
}

/// Executable strict lexicographic comparison.
pub fn str_lex_lt(a: &str, b: &str) -> (r: bool)
    ensures
        r == lex_lt(a@, b@),
{
    let le = str_lex_le(b, a);
    proof {
        lemma_lex_le_connected(a@, b@);
        if lex_le(a@, b@) && lex_le(b@, a@) {
            lemma_lex_le_antisymmetric(a@, b@);
        }
        lemma_lex_le_reflexive(a@);
    }
    !le
}

/// The decimal digit characters, as a spec-level table.
pub open spec fn spec_digit_char(d: int) -> char {
    if d == 0 {
        '0'
    } else if d == 1 {
        '1'
    } else if d == 2 {
        '2'
    } else if d == 3 {
        '3'
    } else if d == 4 {
        '4'
    } else if d == 5 {
        '5'
    } else if d == 6 {
        '6'
    } else if d == 7 {
        '7'
    } else if d == 8 {
        '8'
    } else {
        '9'
    }
}

/// Decimal rendering of a nonnegative integer, most significant digit first.
pub open spec fn spec_dec(n: int) -> Seq<char>
    decreases n,
{
    if n < 10 {
        seq![spec_digit_char(n)]
    } else {
        spec_dec(n / 10).push(spec_digit_char(n % 10))
    }
}

/// Appends the single decimal digit `d` to `s`.
fn push_digit(s: &mut String, d: u64)
    requires
        d < 10,
    ensures
        final(s)@ == old(s)@ + seq![spec_digit_char(d as int)],
{
    proof {
        reveal_strlit("0");
        reveal_strlit("1");
        reveal_strlit("2");
        reveal_strlit("3");
        reveal_strlit("4");
        reveal_strlit("5");
        reveal_strlit("6");
        reveal_strlit("7");
        reveal_strlit("8");
        reveal_strlit("9");
    }
    if d == 0 {
        s.append("0");
    } else if d == 1 {
        s.append("1");
    } else if d == 2 {
        s.append("2");
    } else if d == 3 {
        s.append("3");
    } else if d == 4 {
        s.append("4");
    } else if d == 5 {
        s.append("5");
    } else if d == 6 {
        s.append("6");
    } else if d == 7 {
        s.append("7");
    } else if d == 8 {
        s.append("8");
    } else {
        s.append("9");
    }
    proof {
        assert(s@ =~= old(s)@ + seq![spec_digit_char(d as int)]);
    }
}

/// Appends the decimal rendering of `n` to `s`.
pub fn append_dec_u64(s: &mut String, n: u64)
    ensures
        final(s)@ == old(s)@ + spec_dec(n as int),
    decreases n,
{
    if n < 10 {
        push_digit(s, n);
    } else {
        append_dec_u64(s, n / 10);
        push_digit(s, n % 10);
        proof {
            assert(s@ =~= old(s)@ + spec_dec(n as int));
        }
    }
}

/// The decimal rendering of `n` as a fresh string.
pub fn dec_u64_string(n: u64) -> (s: String)
    ensures
        s@ == spec_dec(n as int),
{
    let mut s = String::new();
    append_dec_u64(&mut s, n);
    proof {
        assert(s@ =~= spec_dec(n as int));
    }
    s
}

/// Decimal rendering of a signed integer.
pub open spec fn spec_dec_i64(v: int) -> Seq<char> {
    if v < 0 {
        seq!['-'] + spec_dec(-v)
    } else {
        spec_dec(v)
    }
}

/// The decimal rendering of a signed integer as a fresh string.
pub fn dec_i64_string(v: i64) -> (s: String)
    ensures
        s@ == spec_dec_i64(v as int),
{
    if v >= 0 {
        dec_u64_string(v as u64)
    } else {
        let mag: u64 = (-(v as i128)) as u64;
        let mut s = String::from_str("-");
        proof {
            reveal_strlit("-");
        }
        append_dec_u64(&mut s, mag);
        proof {
            assert(s@ =~= spec_dec_i64(v as int));
        }
        s
    }
}

/// The lowercase hex digit characters, as a spec-level table.
pub open spec fn spec_hex_char(d: int) -> char {
    if d < 10 {
        spec_digit_char(d)
    } else if d == 10 {
        'a'
    } else if d == 11 {
        'b'
    } else if d == 12 {
        'c'
    } else if d == 13 {
        'd'
    } else if d == 14 {
        'e'
    } else {
        'f'
    }
}

/// Lowercase hex rendering of a byte sequence, two digits per byte.
pub open spec fn spec_hex(bytes: Seq<u8>) -> Seq<char>
    decreases bytes.len(),
{
    if bytes.len() == 0 {
        Seq::<char>::empty()
    } else {
        seq![
            spec_hex_char(bytes.first() as int / 16),
            spec_hex_char(bytes.first() as int % 16),
        ] + spec_hex(bytes.drop_first())
    }
}

pub proof fn lemma_spec_hex_len(bytes: Seq<u8>)
    ensures
        spec_hex(bytes).len() == 2 * bytes.len(),
    decreases bytes.len(),
{
    if bytes.len() > 0 {
        lemma_spec_hex_len(bytes.drop_first());
    }
}

/// Whether `c` is an ASCII decimal digit.
pub open spec fn spec_is_digit(c: char) -> bool {
    48 <= (c as u32) <= 57
}

/// The numeric value of an ASCII decimal digit.
pub open spec fn spec_digit_val(c: char) -> int {
    (c as u32) - 48
}

/// Whether every character of `s` is an ASCII decimal digit.
pub open spec fn spec_all_digits(s: Seq<char>) -> bool {
    forall|i: int| 0 <= i < s.len() ==> spec_is_digit(#[trigger] s[i])
}

/// The value of a digit string, most significant digit first.
pub open spec fn spec_digits_val(s: Seq<char>) -> int
    decreases s.len(),
{
    if s.len() == 0 {
        0
    } else {
        spec_digits_val(s.drop_last()) * 10 + spec_digit_val(s.last())
    }
}

/// Whether `s` has the shape of a signed decimal integer literal: an
/// optional sign followed by one or more digits.
pub open spec fn spec_int_shape(s: Seq<char>) -> bool {
    if s.len() == 0 {
        false
    } else if s[0] == '+' || s[0] == '-' {
        s.len() > 1 && spec_all_digits(s.skip(1))
    } else {
        spec_all_digits(s)
    }
}

/// The signed value of a decimal integer literal of valid shape.
pub open spec fn spec_int_value(s: Seq<char>) -> int {
    if s.len() > 0 && s[0] == '-' {
        -spec_digits_val(s.skip(1))
    } else if s.len() > 0 && s[0] == '+' {
        spec_digits_val(s.skip(1))
    } else {
        spec_digits_val(s)
    }
}

pub proof fn lemma_digits_val_nonneg(s: Seq<char>)
    requires
        spec_all_digits(s),
    ensures
        spec_digits_val(s) >= 0,
    decreases s.len(),
{
    if s.len() > 0 {
        assert(spec_all_digits(s.drop_last()));
        lemma_digits_val_nonneg(s.drop_last());
    }
}

/// Extending a digit string never decreases its value.
proof fn lemma_digits_val_prefix_le(s: Seq<char>, i: int)
    requires
        spec_all_digits(s),
        0 <= i <= s.len(),
    ensures
        spec_digits_val(s.subrange(0, i)) <= spec_digits_val(s),
    decreases s.len() - i,
{
    if i < s.len() {
        let t = s.subrange(0, i + 1);
        assert(t.drop_last() =~= s.subrange(0, i));
        assert(spec_all_digits(s.subrange(0, i)));
        lemma_digits_val_nonneg(s.subrange(0, i));
        assert(spec_digits_val(t) == spec_digits_val(s.subrange(0, i)) * 10 + spec_digit_val(
            s[i],
        ));
        assert(spec_digits_val(s.subrange(0, i)) * 10 >= spec_digits_val(s.subrange(0, i))) by {
            lemma_digits_val_nonneg(s.subrange(0, i));
        }
        lemma_digits_val_prefix_le(s, i + 1);
    } else {
        assert(s.subrange(0, i) =~= s);
    }
}

/// Parses a signed decimal integer exactly as `i64` parsing does: an
/// optional `+` or `-` sign, then one or more ASCII digits, and the value
/// must fit in an `i64`; anything else yields `None`.
pub fn parse_i64(s: &str) -> (r: Option<i64>)
    ensures
        match r {
            Option::Some(v) => spec_int_shape(s@) && v == spec_int_value(s@)
                && i64::MIN <= spec_int_value(s@) <= i64::MAX,
            Option::None => !spec_int_shape(s@) || spec_int_value(s@) < i64::MIN
                || spec_int_value(s@) > i64::MAX,
        },
{
    let n = s.unicode_len();
    if n == 0 {
        return Option::None;
    }
    let c0 = s.get_char(0);
    let negative = c0 == '-';
    let start: usize = if c0 == '-' || c0 == '+' {
        1
    } else {
        0
    };
    if n == start {
        return Option::None;
    }
    let ghost digits = s@.skip(start as int);
    // Largest magnitude that still fits: one more for the negative side.
    let lim: u64 = if negative {
        9223372036854775808u64
    } else {
        9223372036854775807u64
    };
    let mut mag: u64 = 0;
    let mut i: usize = start;
    while i < n
        invariant
            start <= i <= n,
            n == s@.len(),
            start == 0 || start == 1,
            start < n,
            negative == (s@[0] == '-'),
            (start == 1) == (s@[0] == '-' || s@[0] == '+'),
            digits == s@.skip(start as int),
            lim == if negative {
                9223372036854775808u64
            } else {
                9223372036854775807u64
            },
            spec_all_digits(digits.subrange(0, i - start)),
            mag == spec_digits_val(digits.subrange(0, i - start)),
            mag <= lim,
        decreases n - i,
    {
        let c = s.get_char(i);
        let cv = c as u32;
        if cv < 48 || cv > 57 {
            proof {
                assert(digits[i - start] == c);
                assert(!spec_is_digit(c));
                assert(!spec_all_digits(digits));
                if start == 0 {
                    assert(s@.skip(0) =~= s@);
                }
                assert(!spec_int_shape(s@));
            }
            return Option::None;
        }
        let d: u64 = (cv - 48) as u64;
        proof {
            assert(digits[i - start] == c);
            assert(digits.subrange(0, i - start + 1).drop_last() =~= digits.subrange(
                0,
                i - start,
            ));
            assert(spec_all_digits(digits.subrange(0, i - start + 1)));
        }
        if mag > (lim - d) / 10 {
            // The digits already read exceed the representable magnitude,
            // and further digits can only grow the value.
            proof {
                assert(mag * 10 + d > lim) by (nonlinear_arith)
                    requires
                        mag > (lim - d) / 10,
                        d <= 9,
                        lim >= 9,
                        mag >= 0,
                ;
                assert(spec_digits_val(digits.subrange(0, i - start + 1)) > lim);
                if spec_int_shape(s@) {
                    if start == 0 {
                        assert(s@.skip(0) =~= s@);
                    }
                    assert(spec_all_digits(digits));
                    lemma_digits_val_prefix_le(digits, i - start + 1);
                    assert(spec_digits_val(digits.subrange(0, i - start + 1))
                        <= spec_digits_val(digits)) by {
                        lemma_digits_val_prefix_le(digits, i - start + 1);
                        assert(digits.subrange(0, digits.len() as int) =~= digits);
                    }
                    assert(spec_digits_val(digits) > lim);
                    if negative {
                        assert(s@[0] == '-');
                        assert(spec_int_value(s@) == -spec_digits_val(digits));
                        assert(spec_int_value(s@) < i64::MIN);
                    } else {
                        assert(spec_int_value(s@) == spec_digits_val(digits));
                        assert(spec_int_value(s@) > i64::MAX);
                    }
                }
            }
            return Option::None;
        }
        proof {
            assert(mag * 10 + d <= lim) by (nonlinear_arith)
                requires
                    mag <= (lim - d) / 10,
                    d <= 9,
                    mag >= 0,
                    lim >= 9,
            ;
        }
        mag = mag * 10 + d;
        i = i + 1;
    }
    proof {
        assert(digits.subrange(0, n - start) =~= digits);
        assert(mag == spec_digits_val(digits));
        if start == 0 {
            assert(s@.skip(0) =~= s@);
        }
        assert(spec_int_shape(s@));
        if negative {
            assert(s@[0] == '-');
            assert(spec_int_value(s@) == -spec_digits_val(digits));
        } else if start == 1 {
            assert(s@[0] == '+');
            assert(spec_int_value(s@) == spec_digits_val(digits));
        } else {
            assert(spec_int_value(s@) == spec_digits_val(digits));
        }
        lemma_digits_val_nonneg(digits);
    }
    if negative {
        if mag == 9223372036854775808u64 {
            Option::Some(i64::MIN)
        } else {
            Option::Some(-(mag as i64))
        }
    } else {
        Option::Some(mag as i64)
    }
}

/// Equality of two strings, examining every character position rather
/// than stopping at the first difference, so that the comparison time of
/// equal-length inputs does not reveal where they diverge. Used for the
/// security-critical signature comparison.
pub fn ct_str_eq(a: &str, b: &str) -> (r: bool)
    ensures
        r == (a@ == b@),
{
    let n = a.unicode_len();
    let m = b.unicode_len();
    if n != m {
        return false;
    }
    let mut diff = false;
    let mut i: usize = 0;
    while i < n
        invariant
            0 <= i <= n,
            n == a@.len(),
            n == b@.len(),
            diff == exists|j: int| 0 <= j < i && a@[j] != b@[j],
        decreases n - i,
    {
        let ne = a.get_char(i) != b.get_char(i);
        proof {
            if ne {
                assert(a@[i as int] != b@[i as int]);
            }
        }
        diff = diff || ne;
        i = i + 1;
    }
    if diff {
        proof {
            let j = choose|j: int| 0 <= j < n && a@[j] != b@[j];
            assert(a@[j] != b@[j]);
        }
        false
    } else {
        proof {
            assert forall|j: int| 0 <= j < n implies a@[j] == b@[j] by {}
            assert(a@ =~= b@);
        }
        true
    }
}

/// Stripping equal-length prefixes from equal concatenations leaves
/// equal parts.
pub proof fn lemma_concat_parts_equal(x1: Seq<char>, y1: Seq<char>, x2: Seq<char>, y2: Seq<char>)
    requires
        x1.len() == x2.len(),
        x1 + y1 == x2 + y2,
    ensures
        x1 == x2,
        y1 == y2,
{
    assert(x1 =~= (x1 + y1).subrange(0, x1.len() as int));
    assert(x2 =~= (x2 + y2).subrange(0, x2.len() as int));
    assert(y1 =~= (x1 + y1).skip(x1.len() as int));
    assert(y2 =~= (x2 + y2).skip(x2.len() as int));
}

/// The index of the first occurrence of `c` in `s`, or `-1` if absent.
pub open spec fn spec_first_index_of(s: Seq<char>, c: char) -> int
    decreases s.len(),
{
    if s.len() == 0 {
        -1
    } else if s[0] == c {
        0
    } else if spec_first_index_of(s.drop_first(), c) == -1 {
        -1
    } else {
        1 + spec_first_index_of(s.drop_first(), c)
    }
}

/// The first-occurrence index is `-1` or a valid index.
pub proof fn lemma_first_index_range(s: Seq<char>, c: char)
    ensures
        -1 <= spec_first_index_of(s, c),
        spec_first_index_of(s, c) < s.len() || spec_first_index_of(s, c) == -1,
    decreases s.len(),
{
    if s.len() > 0 && s[0] != c {
        lemma_first_index_range(s.drop_first(), c);
    }
}

/// A scan that passed `i` characters without finding `c` pins the first
/// occurrence down: at `i` when it stands there, absent when the scan
/// ran out.
pub proof fn lemma_first_index_of(s: Seq<char>, c: char, i: int)
    requires
        0 <= i <= s.len(),
        forall|j: int| 0 <= j < i ==> s[j] != c,
        i < s.len() ==> s[i] == c,
    ensures
        i < s.len() ==> spec_first_index_of(s, c) == i,
        i == s.len() ==> spec_first_index_of(s, c) == -1,
    decreases i,
{
    if i == 0 {
    } else {
        assert(s[0] != c);
        assert(forall|j: int| 0 <= j < i - 1 ==> #[trigger] s.drop_first()[j] == s[j + 1]);
        lemma_first_index_of(s.drop_first(), c, i - 1);
    }
}

/// Finds the first occurrence of `c` in `s`; the flag says whether one
/// exists.
pub fn first_index_of(s: &str, c: char) -> (r: (bool, usize))
    ensures
        r.0 ==> spec_first_index_of(s@, c) == r.1 as int && r.1 < s@.len(),
        !r.0 ==> spec_first_index_of(s@, c) == -1,
{
    let n = s.unicode_len();
    let mut i: usize = 0;
    while i < n
        invariant
            0 <= i <= n,
            n == s@.len(),
            forall|j: int| 0 <= j < i ==> s@[j] != c,
        decreases n - i,
    {
        if s.get_char(i) == c {
            proof {
                lemma_first_index_of(s@, c, i as int);
            }
            return (true, i);
        }
        i = i + 1;
    }
    proof {
        lemma_first_index_of(s@, c, n as int);
    }
    (false, 0)
}

/// Whether `c` has the Unicode `White_Space` property, the set that
/// `str::trim` strips.
pub open spec fn spec_is_whitespace(c: char) -> bool {
    c == ' ' || c == '\t' || c == '\n' || c == '\r' || c == '\u{000b}' || c == '\u{000c}'
        || c == '\u{0085}' || c == '\u{00a0}' || c == '\u{1680}' || c == '\u{2000}'
        || c == '\u{2001}' || c == '\u{2002}' || c == '\u{2003}' || c == '\u{2004}'
        || c == '\u{2005}' || c == '\u{2006}' || c == '\u{2007}' || c == '\u{2008}'
        || c == '\u{2009}' || c == '\u{200a}' || c == '\u{2028}' || c == '\u{2029}'
        || c == '\u{202f}' || c == '\u{205f}' || c == '\u{3000}'
}

fn is_whitespace_char(c: char) -> (r: bool)
    ensures
        r == spec_is_whitespace(c),
{
    c == ' ' || c == '\t' || c == '\n' || c == '\r' || c == '\u{000b}' || c == '\u{000c}'
        || c == '\u{0085}' || c == '\u{00a0}' || c == '\u{1680}' || c == '\u{2000}'
        || c == '\u{2001}' || c == '\u{2002}' || c == '\u{2003}' || c == '\u{2004}'
        || c == '\u{2005}' || c == '\u{2006}' || c == '\u{2007}' || c == '\u{2008}'
        || c == '\u{2009}' || c == '\u{200a}' || c == '\u{2028}' || c == '\u{2029}'
        || c == '\u{202f}' || c == '\u{205f}' || c == '\u{3000}'
}

/// Whether a string holds nothing but whitespace, i.e. `str::trim` of it
/// would be empty.
pub open spec fn spec_is_blank(s: Seq<char>) -> bool {
    forall|i: int| 0 <= i < s.len() ==> spec_is_whitespace(#[trigger] s[i])
}

/// Executable check that a string is empty or all whitespace.
pub fn is_blank(s: &str) -> (r: bool)
    ensures
        r == spec_is_blank(s@),
{
    let n = s.unicode_len();
    let mut i: usize = 0;
    while i < n
        invariant
            0 <= i <= n,
            n == s@.len(),
            forall|j: int| 0 <= j < i ==> spec_is_whitespace(#[trigger] s@[j]),
        decreases n - i,
    {
        if !is_whitespace_char(s.get_char(i)) {
            return false;
        }
        i = i + 1;
    }
    true
}

} // verus!
