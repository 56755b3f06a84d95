use vstd::prelude::*;
use vstd::string::StrSliceExecFns;

verus! {

// ---------------------------------------------------------------------------
// Character classes and decimal values
// ---------------------------------------------------------------------------

pub open spec fn is_ascii_digit(c: char) -> bool {
    '0' <= c && c <= '9'
}

pub open spec fn digit_value(c: char) -> int {
    c as int - '0' as int
}

pub open spec fn all_digits(s: Seq<char>) -> bool {
    forall|i: int| 0 <= i < s.len() ==> is_ascii_digit(#[trigger] s[i])
}

/// The value of a string of decimal digits, most significant first.
pub open spec fn decimal_value(s: Seq<char>) -> int
    decreases s.len(),
{
    if s.len() == 0 {
        0
    } else {
        10 * decimal_value(s.drop_last()) + digit_value(s.last())
    }
}

pub open spec fn is_sign(c: char) -> bool {
    c == '+' || c == '-'
}

/// The string without one leading sign character, if it has one.
pub open spec fn strip_sign(s: Seq<char>) -> Seq<char> {
    if s.len() > 0 && is_sign(s[0]) {
        s.drop_first()
    } else {
        s
    }
}

/// The integer that an optional sign followed by one or more decimal digits
/// denotes; `None` for any other string.
pub open spec fn signed_decimal(s: Seq<char>) -> Option<int> {
    let digits = strip_sign(s);
    if digits.len() > 0 && all_digits(digits) {
        if s[0] == '-' {
            Some(-decimal_value(digits))
        } else {
            Some(decimal_value(digits))
        }
    } else {
        None
    }
}

/// What `str::parse::<i64>` accepts, as its documentation states: an optional
/// `+` or `-` followed by decimal digits only, whose value fits in an `i64`.
pub open spec fn spec_parse_i64(s: Seq<char>) -> Option<i64> {
    match signed_decimal(s) {
        Some(v) => if i64::MIN <= v && v <= i64::MAX {
            Some(v as i64)
        } else {
            None
        },
        None => None,
    }
}

proof fn lemma_decimal_value_nonneg(s: Seq<char>)
    requires
        all_digits(s),
    ensures
        decimal_value(s) >= 0,
    decreases s.len(),
{
    if s.len() > 0 {
        assert(all_digits(s.drop_last()));
        lemma_decimal_value_nonneg(s.drop_last());
        assert(is_ascii_digit(s[s.len() - 1]));
    }
}

/// A prefix of a digit string never denotes more than the whole string.
proof fn lemma_decimal_value_prefix(s: Seq<char>, k: int)
    requires
        all_digits(s),
        0 <= k <= s.len(),
    ensures
        0 <= decimal_value(s.take(k)) <= decimal_value(s),
    decreases s.len(),
{
    lemma_decimal_value_nonneg(s);
    if k == s.len() {
        assert(s.take(k) =~= s);
    } else {
        assert(all_digits(s.drop_last()));
        lemma_decimal_value_prefix(s.drop_last(), k);
        assert(s.drop_last().take(k) =~= s.take(k));
        lemma_decimal_value_nonneg(s.drop_last());
        assert(is_ascii_digit(s[s.len() - 1]));
    }
}

/// Parses a decimal integer as `str::parse::<i64>` does.
pub fn parse_i64(s: &str) -> (res: Option<i64>)
    ensures
        res == spec_parse_i64(s@),
{
    let n = s.unicode_len();
    if n == 0 {
        return None;
    }
    let first = s.get_char(0);
    let negative = first == '-';
    let start: usize = if first == '-' || first == '+' {
        1
    } else {
        0
    };
    let ghost digits = strip_sign(s@);
    assert(digits =~= s@.subrange(start as int, n as int));
    if start == n {
        return None;
    }
    let mut acc: i64 = 0;
    let mut i: usize = start;
    while i < n
        invariant
            n == s@.len(),
            start <= i <= n,
            start <= 1,
            n > start,
            negative == (s@[0] == '-'),
            digits == s@.subrange(start as int, n as int),
            digits == strip_sign(s@),
            all_digits(s@.subrange(start as int, i as int)),
            acc == (if negative {
                -decimal_value(s@.subrange(start as int, i as int))
            } else {
                decimal_value(s@.subrange(start as int, i as int))
            }),
        decreases n - i,
    {
        let c = s.get_char(i);
        if !('0' <= c && c <= '9') {
            proof {
                assert(digits[i - start] == c);
                assert(!is_ascii_digit(digits[i - start]));
                assert(!all_digits(digits));
                assert(signed_decimal(s@) is None);
            }
            return None;
        }
        let ghost prefix = s@.subrange(start as int, i as int);
        let ghost next_prefix = s@.subrange(start as int, i + 1);
        assert(next_prefix.drop_last() =~= prefix);
        assert(all_digits(next_prefix)) by {
            assert forall|j: int| 0 <= j < next_prefix.len() implies is_ascii_digit(
                #[trigger] next_prefix[j],
            ) by {
                if j < prefix.len() {
                    assert(next_prefix[j] == prefix[j]);
                }
            }
        }
        let d: i128 = (c as u32 - '0' as u32) as i128;
        let next: i128 = if negative {
            (acc as i128) * 10 - d
        } else {
            (acc as i128) * 10 + d
        };
        if next < i64::MIN as i128 || next > i64::MAX as i128 {
            proof {
                // The whole string either is not all digits, or denotes at
                // least as much as this prefix does.
                if all_digits(digits) {
                    lemma_decimal_value_prefix(digits, (i + 1 - start) as int);
                    assert(digits.take((i + 1 - start) as int) =~= next_prefix);
                    assert(decimal_value(next_prefix) == 10 * decimal_value(prefix) + digit_value(c));
                    assert(decimal_value(next_prefix) <= decimal_value(digits));
                    if negative {
                        assert(-decimal_value(digits) < i64::MIN);
                    } else {
                        assert(decimal_value(digits) > i64::MAX);
                    }
                }
                assert(spec_parse_i64(s@) is None);
            }
            return None;
        }
        acc = next as i64;
        i = i + 1;
    }
    assert(s@.subrange(start as int, n as int) =~= digits);
    Some(acc)
}

// ---------------------------------------------------------------------------
// Floating-point literals
// ---------------------------------------------------------------------------

pub open spec fn is_exponent_marker(c: char) -> bool {
    c == 'e' || c == 'E'
}

/// `c` equals the lower-case ASCII letter or digit `w`, ignoring ASCII case.
pub open spec fn eq_ignore_ascii_case(c: char, w: char) -> bool {
    c == w || ('a' <= w && w <= 'z' && c as int == w as int - 32)
}

pub open spec fn word_ignore_ascii_case(s: Seq<char>, w: Seq<char>) -> bool {
    &&& s.len() == w.len()
    &&& forall|i: int| 0 <= i < s.len() ==> eq_ignore_ascii_case(#[trigger] s[i], w[i])
}

/// Index of the first exponent marker, or the length when there is none.
pub open spec fn mantissa_end(s: Seq<char>) -> int
    decreases s.len(),
{
    if s.len() == 0 {
        0
    } else if is_exponent_marker(s[0]) {
        0
    } else {
        1 + mantissa_end(s.drop_first())
    }
}

/// Digits with at most one decimal point and at least one digit.
pub open spec fn is_mantissa(m: Seq<char>) -> bool {
    &&& forall|i: int| 0 <= i < m.len() ==> is_ascii_digit(#[trigger] m[i]) || m[i] == '.'
    &&& forall|i: int, j: int| 0 <= i < m.len() && 0 <= j < m.len() && m[i] == '.' && m[j] == '.' ==> i == j
    &&& exists|i: int| 0 <= i < m.len() && is_ascii_digit(#[trigger] m[i])
}

/// Empty, or an exponent marker, an optional sign and one or more digits.
pub open spec fn is_exponent(e: Seq<char>) -> bool {
    e.len() == 0 || (is_exponent_marker(e[0]) && {
        let d = strip_sign(e.drop_first());
        d.len() > 0 && all_digits(d)
    })
}

/// The strings that `str::parse::<f64>` accepts, following the grammar in its
/// documentation: an optional sign, then `inf`, `infinity` or `nan` in any
/// ASCII case, or a decimal number with an optional exponent.
pub open spec fn spec_is_f64_literal(s: Seq<char>) -> bool {
    let b = strip_sign(s);
    let k = mantissa_end(b);
    ||| word_ignore_ascii_case(b, seq!['i', 'n', 'f'])
    ||| word_ignore_ascii_case(b, seq!['i', 'n', 'f', 'i', 'n', 'i', 't', 'y'])
    ||| word_ignore_ascii_case(b, seq!['n', 'a', 'n'])
    ||| is_mantissa(b.take(k)) && is_exponent(b.skip(k))
}

proof fn lemma_mantissa_end(s: Seq<char>, m: int)
    requires
        0 <= m <= s.len(),
        forall|j: int| 0 <= j < m ==> !is_exponent_marker(#[trigger] s[j]),
        m == s.len() || is_exponent_marker(s[m]),
    ensures
        mantissa_end(s) == m,
    decreases s.len(),
{
    if s.len() > 0 && m > 0 {
        assert(!is_exponent_marker(s[0]));
        let t = s.drop_first();
        assert forall|j: int| 0 <= j < m - 1 implies !is_exponent_marker(#[trigger] t[j]) by {
            assert(t[j] == s[j + 1]);
        }
        if m < s.len() {
            assert(t[m - 1] == s[m]);
        }
        lemma_mantissa_end(t, m - 1);
    }
}

/// Whether `s[start..]` equals the word `w`, ignoring ASCII case.
fn word_at_ignore_ascii_case(s: &str, start: usize, w: &[char]) -> (res: bool)
    requires
        start <= s@.len(),
        forall|i: int| 0 <= i < w@.len() ==> 'a' <= #[trigger] w@[i] && w@[i] <= 'z',
    ensures
        res == word_ignore_ascii_case(s@.skip(start as int), w@),
{
    let n = s.unicode_len();
    let ghost b = s@.skip(start as int);
    if n - start != w.len() {
        return false;
    }
    let mut i: usize = 0;
    while i < w.len()
        invariant
            n == s@.len(),
            start <= n,
            b == s@.skip(start as int),
            b.len() == w@.len(),
            i <= w@.len(),
            forall|j: int| 0 <= j < w@.len() ==> 'a' <= #[trigger] w@[j] && w@[j] <= 'z',
            forall|j: int| 0 <= j < i ==> eq_ignore_ascii_case(#[trigger] b[j], w@[j]),
        decreases w@.len() - i,
    {
        let c = s.get_char(start + i);
        let l = w[i];
        assert(b[i as int] == c);
        if !(c == l || (c as u32) + 32 == l as u32) {
            return false;
        }
        i = i + 1;
    }
    true
}

/// Index (within `s`) of the first exponent marker at or after `start`.
fn find_mantissa_end(s: &str, start: usize) -> (k: usize)
    requires
        start <= s@.len(),
    ensures
        start <= k <= s@.len(),
        k - start == mantissa_end(s@.skip(start as int)),
{
    let n = s.unicode_len();
    let ghost b = s@.skip(start as int);
    let mut k: usize = start;
    while k < n && !(s.get_char(k) == 'e' || s.get_char(k) == 'E')
        invariant
            n == s@.len(),
            start <= k <= n,
            b == s@.skip(start as int),
            forall|j: int| 0 <= j < k - start ==> !is_exponent_marker(#[trigger] b[j]),
        decreases n - k,
    {
        assert(b[k - start] == s@[k as int]);
        k = k + 1;
    }
    proof {
        if k < n {
            assert(b[k - start] == s@[k as int]);
        }
        lemma_mantissa_end(b, (k - start) as int);
    }
    k
}

/// Whether `s[from..to]` is a mantissa.
fn is_mantissa_range(s: &str, from: usize, to: usize) -> (res: bool)
    requires
        from <= to <= s@.len(),
    ensures
        res == is_mantissa(s@.subrange(from as int, to as int)),
{
    let ghost m = s@.subrange(from as int, to as int);
    let mut dots: usize = 0;
    let mut dot_at: usize = 0;
    let mut digits: usize = 0;
    let mut i: usize = from;
    while i < to
        invariant
            from <= i <= to <= s@.len(),
            m == s@.subrange(from as int, to as int),
            dots <= 1,
            forall|j: int| 0 <= j < i - from ==> is_ascii_digit(#[trigger] m[j]) || m[j] == '.',
            dots == 0 ==> forall|j: int| 0 <= j < i - from ==> m[j] != '.',
            dots == 1 ==> from <= dot_at < i && m[dot_at - from] == '.' && forall|j: int|
                0 <= j < i - from && m[j] == '.' ==> j == dot_at - from,
            digits == 0 ==> forall|j: int| 0 <= j < i - from ==> !is_ascii_digit(#[trigger] m[j]),
            digits > 0 ==> exists|j: int| 0 <= j < i - from && is_ascii_digit(#[trigger] m[j]),
        decreases to - i,
    {
        let c = s.get_char(i);
        assert(m[i - from] == c);
        if '0' <= c && c <= '9' {
            digits = 1;
        } else if c == '.' {
            if dots == 1 {
                assert(m[dot_at - from] == '.' && m[i - from] == '.');
                return false;
            }
            dots = 1;
            dot_at = i;
        } else {
            assert(!(is_ascii_digit(m[i - from]) || m[i - from] == '.'));
            return false;
        }
        i = i + 1;
    }
    digits > 0
}

/// Whether `s[from..]` is one or more decimal digits.
fn is_digits_from(s: &str, from: usize) -> (res: bool)
    requires
        from <= s@.len(),
    ensures
        res == (s@.skip(from as int).len() > 0 && all_digits(s@.skip(from as int))),
{
    let n = s.unicode_len();
    let ghost d = s@.skip(from as int);
    if from == n {
        return false;
    }
    let mut j: usize = from;
    while j < n
        invariant
            n == s@.len(),
            from <= j <= n,
            d == s@.skip(from as int),
            forall|t: int| 0 <= t < j - from ==> is_ascii_digit(#[trigger] d[t]),
        decreases n - j,
    {
        let c = s.get_char(j);
        assert(d[j - from] == c);
        if !('0' <= c && c <= '9') {
            return false;
        }
        j = j + 1;
    }
    true
}

/// Whether `s[k..]` is an exponent (possibly empty).
fn is_exponent_from(s: &str, k: usize) -> (res: bool)
    requires
        k <= s@.len(),
    ensures
        res == is_exponent(s@.skip(k as int)),
{
    let n = s.unicode_len();
    let ghost e = s@.skip(k as int);
    if k == n {
        return true;
    }
    assert(e[0] == s@[k as int]);
    let c = s.get_char(k);
    if !(c == 'e' || c == 'E') {
        return false;
    }
    let mut j: usize = k + 1;
    if j < n && (s.get_char(j) == '+' || s.get_char(j) == '-') {
        j = j + 1;
    }
    assert(strip_sign(e.drop_first()) =~= s@.skip(j as int));
    is_digits_from(s, j)
}

/// Whether `str::parse::<f64>` accepts `s`.
pub fn is_f64_literal(s: &str) -> (res: bool)
    ensures
        res == spec_is_f64_literal(s@),
{
    let n = s.unicode_len();
    let start: usize = if n > 0 && (s.get_char(0) == '+' || s.get_char(0) == '-') {
        1
    } else {
        0
    };
    let ghost b = strip_sign(s@);
    assert(b =~= s@.skip(start as int));
    let inf = ['i', 'n', 'f'];
    let infinity = ['i', 'n', 'f', 'i', 'n', 'i', 't', 'y'];
    let nan = ['n', 'a', 'n'];
    assert(inf@ =~= seq!['i', 'n', 'f']);
    assert(infinity@ =~= seq!['i', 'n', 'f', 'i', 'n', 'i', 't', 'y']);
    assert(nan@ =~= seq!['n', 'a', 'n']);
    if word_at_ignore_ascii_case(s, start, inf.as_slice()) || word_at_ignore_ascii_case(
        s,
        start,
        infinity.as_slice(),
    ) || word_at_ignore_ascii_case(s, start, nan.as_slice()) {
        return true;
    }
    let k = find_mantissa_end(s, start);
    assert(b.take((k - start) as int) =~= s@.subrange(start as int, k as int));
    assert(b.skip((k - start) as int) =~= s@.skip(k as int));
    is_mantissa_range(s, start, k) && is_exponent_from(s, k)
}

// ---------------------------------------------------------------------------
// Identifiers
// ---------------------------------------------------------------------------

/// Names what `str::to_lowercase` returns for a string: std documents the
/// result as the Unicode lower-case mapping of each character, which may
/// change the number of characters.
pub uninterp spec fn str_lowercase(s: Seq<char>) -> Seq<char>;

/// Calls `str::to_lowercase`; its result is named, not stated.
#[verifier::external_body]
fn to_lowercase(s: &str) -> (res: String)
    ensures
        res@ == str_lowercase(s@),
{
    s.to_lowercase()
}

/// The identifier without one pair of surrounding double quotes.
pub open spec fn unquoted(s: Seq<char>) -> Seq<char> {
    if s.len() >= 2 && s[0] == '"' && s[s.len() - 1] == '"' {
        s.subrange(1, s.len() - 1)
    } else {
        s
    }
}

/// The normal form of an identifier: unquoted, then lower-cased.
pub open spec fn spec_normalize_ident(s: Seq<char>) -> Seq<char> {
    str_lowercase(unquoted(s))
}

/// Normalizes an identifier: strips one pair of surrounding double quotes
/// and lower-cases the rest. A lone `"` both starts and ends with a quote
/// and cannot be unquoted, so it is not accepted.
pub fn normalize_ident(ident: &str) -> (res: String)
    requires
        ident@ != seq!['"'],
    ensures
        res@ == spec_normalize_ident(ident@),
{
    let n = ident.unicode_len();
    if n >= 1 && ident.get_char(0) == '"' && ident.get_char(n - 1) == '"' {
        assert(n >= 2) by {
            if n == 1 {
                assert(ident@ =~= seq!['"']);
            }
        }
        let inner = ident.substring_char(1, n - 1);
        to_lowercase(inner)
    } else {
        to_lowercase(ident)
    }
}

/// Character-wise equality of two string slices.
pub fn str_eq(a: &str, b: &str) -> (res: bool)
    ensures
        res == (a@ == b@),
{
    let n = a.unicode_len();
    if n != b.unicode_len() {
        return false;
    }
    let mut i: usize = 0;
    while i < n
        invariant
            n == a@.len(),
            n == b@.len(),
            i <= n,
            forall|j: int| 0 <= j < i ==> a@[j] == b@[j],
        decreases n - i,
    {
        if a.get_char(i) != b.get_char(i) {
            return false;
        }
        i = i + 1;
    }
    assert(a@ =~= b@);
    true
}

} // verus!
