//! The tokens of a DBC file: characters, keywords, identifiers, numbers and
//! quoted text, read from bytes with nom's streaming conventions.
use vstd::prelude::*;
use vstd::string::StringSliceAdditionalSpecFns;
use vstd::slice::slice_subrange;
use vstd::utf8::{valid_utf8, decode_utf8, encode_utf8, is_ascii_chars};
use crate::types::FloatLiteral;
use crate::outcome::{ParseError, Parsed, halt, agrees, agrees_at, ends_within, at_within};

verus! {

/// A set of bytes over which a run of input is taken.
#[derive(Debug, Clone, Copy, PartialEq, Eq, Structural)]
pub enum ByteClass {
    /// `0`..`9`
    Digit,
    /// space and tab
    Blank,
    /// space, tab, carriage return and line feed
    Whitespace,
    /// a byte that may start a C identifier
    IdentHead,
    /// a byte that may continue a C identifier
    IdentTail,
    /// every byte but `"`
    NotQuote,
    /// every byte but `:`
    NotColon,
    /// every byte but a space
    NotSpace,
    /// every byte but `;`
    NotSemicolon,
}

pub open spec fn is_digit_byte(b: u8) -> bool {
    '0' as u8 <= b <= '9' as u8
}

/// The byte, read as the Latin-1 character of the same number, is alphabetic in
/// Unicode: the ASCII letters, `ª`, `µ`, `º`, and the letters from `À` to `ÿ`
/// but `×` and `÷`.
pub open spec fn is_alpha_byte(b: u8) -> bool {
    ||| 'A' as u8 <= b <= 'Z' as u8
    ||| 'a' as u8 <= b <= 'z' as u8
    ||| b == 0xAA
    ||| b == 0xB5
    ||| b == 0xBA
    ||| 0xC0 <= b <= 0xD6
    ||| 0xD8 <= b <= 0xF6
    ||| 0xF8 <= b
}

pub open spec fn in_class(c: ByteClass, b: u8) -> bool {
    match c {
        ByteClass::Digit => is_digit_byte(b),
        ByteClass::Blank => b == ' ' as u8 || b == '\t' as u8,
        ByteClass::Whitespace => b == ' ' as u8 || b == '\t' as u8 || b == '\r' as u8 || b
            == '\n' as u8,
        ByteClass::IdentHead => is_alpha_byte(b) || b == '_' as u8,
        ByteClass::IdentTail => is_digit_byte(b) || is_alpha_byte(b) || b == '_' as u8,
        ByteClass::NotQuote => b != '"' as u8,
        ByteClass::NotColon => b != ':' as u8,
        ByteClass::NotSpace => b != ' ' as u8,
        ByteClass::NotSemicolon => b != ';' as u8,
    }
}

/// Whether a byte lies in a class.
pub fn class_contains(c: ByteClass, b: u8) -> (r: bool)
    ensures
        r == in_class(c, b),
{
    match c {
        ByteClass::Digit => is_digit(b),
        ByteClass::Blank => b == ' ' as u8 || b == '\t' as u8,
        ByteClass::Whitespace => b == ' ' as u8 || b == '\t' as u8 || b == '\r' as u8 || b
            == '\n' as u8,
        ByteClass::IdentHead => is_c_ident_head(b),
        ByteClass::IdentTail => is_c_string_char(b),
        ByteClass::NotQuote => !is_quote(b),
        ByteClass::NotColon => !is_colon(b),
        ByteClass::NotSpace => !is_space_s(b),
        ByteClass::NotSemicolon => !is_semi_colon(b),
    }
}

pub fn is_digit(b: u8) -> (r: bool)
    ensures
        r == is_digit_byte(b),
{
    '0' as u8 <= b && b <= '9' as u8
}

pub fn is_alpha(b: u8) -> (r: bool)
    ensures
        r == is_alpha_byte(b),
{
    ('A' as u8 <= b && b <= 'Z' as u8) || ('a' as u8 <= b && b <= 'z' as u8) || b == 0xAA || b
        == 0xB5 || b == 0xBA || (0xC0 <= b && b <= 0xD6) || (0xD8 <= b && b <= 0xF6) || 0xF8 <= b
}

pub fn is_colon(b: u8) -> (r: bool)
    ensures
        r == (b == ':' as u8),
{
    b == ':' as u8
}

pub fn is_semi_colon(b: u8) -> (r: bool)
    ensures
        r == (b == ';' as u8),
{
    b == ';' as u8
}

pub fn is_space_s(b: u8) -> (r: bool)
    ensures
        r == (b == ' ' as u8),
{
    b == ' ' as u8
}

/// A byte of a C identifier: a digit, a letter or `_`.
pub fn is_c_string_char(b: u8) -> (r: bool)
    ensures
        r == in_class(ByteClass::IdentTail, b),
{
    is_digit(b) || is_alpha(b) || b == '_' as u8
}

/// The first byte of a C identifier: a letter or `_`.
pub fn is_c_ident_head(b: u8) -> (r: bool)
    ensures
        r == in_class(ByteClass::IdentHead, b),
{
    is_alpha(b) || b == '_' as u8
}

pub fn is_quote(b: u8) -> (r: bool)
    ensures
        r == (b == '"' as u8),
{
    b == '"' as u8
}

/// The first position from `i` on whose byte is not in the class, or the length of
/// `s` where there is none.
pub open spec fn scan_end(s: Seq<u8>, i: int, c: ByteClass) -> int
    decreases s.len() - i,
{
    if i >= s.len() {
        s.len() as int
    } else if in_class(c, s[i]) {
        scan_end(s, i + 1, c)
    } else {
        i
    }
}

pub proof fn lemma_scan_end(s: Seq<u8>, i: int, c: ByteClass)
    requires
        0 <= i <= s.len(),
    ensures
        i <= scan_end(s, i, c) <= s.len(),
        forall|k: int| i <= k < scan_end(s, i, c) ==> in_class(c, #[trigger] s[k]),
        scan_end(s, i, c) < s.len() ==> !in_class(c, s[scan_end(s, i, c)]),
    decreases s.len() - i,
{
    if i < s.len() && in_class(c, s[i]) {
        lemma_scan_end(s, i + 1, c);
    }
}

/// The end of the run of bytes of a class that starts at `i`.
pub fn scan(s: &[u8], i: usize, c: ByteClass) -> (j: usize)
    requires
        i <= s@.len(),
    ensures
        j == scan_end(s@, i as int, c),
        i <= j <= s@.len(),
{
    let mut j = i;
    while j < s.len()
        invariant
            i <= j <= s@.len(),
            scan_end(s@, j as int, c) == scan_end(s@, i as int, c),
        decreases s@.len() - j,
    {
        if !class_contains(c, s[j]) {
            return j;
        }
        j += 1;
    }
    j
}

/// `take_while!`: the longest run of the class; the input must not end inside it.
pub open spec fn spec_take_while(s: Seq<u8>, i: int, c: ByteClass) -> Parsed<()> {
    let j = scan_end(s, i, c);
    if j >= s.len() {
        Parsed::Fail(ParseError::Incomplete)
    } else {
        Parsed::Done(j, ())
    }
}

/// `take_while1!`: as `take_while!`, and the run must not be empty.
pub open spec fn spec_take_while1(s: Seq<u8>, i: int, c: ByteClass) -> Parsed<()> {
    let j = scan_end(s, i, c);
    if j >= s.len() {
        Parsed::Fail(ParseError::Incomplete)
    } else if j == i {
        Parsed::Fail(ParseError::Error)
    } else {
        Parsed::Done(j, ())
    }
}

pub fn take_while_at(s: &[u8], i: usize, c: ByteClass) -> (r: Result<usize, ParseError>)
    requires
        i <= s@.len(),
    ensures
        agrees_at(r, spec_take_while(s@, i as int, c)),
        at_within(r, i as int, s@.len() as int),
{
    let j = scan(s, i, c);
    if j >= s.len() {
        Err(ParseError::Incomplete)
    } else {
        Ok(j)
    }
}

pub fn take_while1_at(s: &[u8], i: usize, c: ByteClass) -> (r: Result<usize, ParseError>)
    requires
        i <= s@.len(),
    ensures
        agrees_at(r, spec_take_while1(s@, i as int, c)),
        at_within(r, i as int, s@.len() as int),
{
    let j = scan(s, i, c);
    if j >= s.len() {
        Err(ParseError::Incomplete)
    } else if j == i {
        Err(ParseError::Error)
    } else {
        Ok(j)
    }
}

/// `char!`: one given byte.
pub open spec fn spec_char(s: Seq<u8>, i: int, b: u8) -> Parsed<()> {
    if i >= s.len() {
        Parsed::Fail(ParseError::Incomplete)
    } else if s[i] != b {
        Parsed::Fail(ParseError::Error)
    } else {
        Parsed::Done(i + 1, ())
    }
}

pub fn char_at(s: &[u8], i: usize, b: u8) -> (r: Result<usize, ParseError>)
    requires
        i <= s@.len(),
    ensures
        agrees_at(r, spec_char(s@, i as int, b)),
        at_within(r, i as int, s@.len() as int),
{
    if i >= s.len() {
        Err(ParseError::Incomplete)
    } else if s[i] != b {
        Err(ParseError::Error)
    } else {
        Ok(i + 1)
    }
}

/// A single space.
pub open spec fn spec_ss(s: Seq<u8>, i: int) -> Parsed<()> {
    spec_char(s, i, ' ' as u8)
}

pub fn ss_at(s: &[u8], i: usize) -> (r: Result<usize, ParseError>)
    requires
        i <= s@.len(),
    ensures
        agrees_at(r, spec_ss(s@, i as int)),
        at_within(r, i as int, s@.len() as int),
{
    char_at(s, i, ' ' as u8)
}

/// `tag!`: the given bytes; where the input ends while it still agrees with them, the
/// answer is `Incomplete`.
pub open spec fn spec_tag(s: Seq<u8>, i: int, t: Seq<u8>) -> Parsed<()> {
    if exists|k: int| 0 <= k < t.len() && i + k < s.len() && s[i + k] != t[k] {
        Parsed::Fail(ParseError::Error)
    } else if s.len() - i < t.len() {
        Parsed::Fail(ParseError::Incomplete)
    } else {
        Parsed::Done(i + t.len(), ())
    }
}

/// The bytes of a keyword.
pub open spec fn kw(t: &str) -> Seq<u8> {
    t.spec_bytes()
}

pub fn tag_at(s: &[u8], i: usize, t: &str) -> (r: Result<usize, ParseError>)
    requires
        i <= s@.len(),
    ensures
        agrees_at(r, spec_tag(s@, i as int, kw(t))),
        at_within(r, i as int, s@.len() as int),
{
    let tb = t.as_bytes();
    let mut k: usize = 0;
    while k < tb.len() && k < s.len() - i
        invariant
            tb@ == kw(t),
            i <= s@.len(),
            k <= tb@.len(),
            forall|m: int| 0 <= m < k ==> i + m < s@.len() && s@[i + m] == tb@[m],
        decreases tb@.len() - k,
    {
        if s[i + k] != tb[k] {
            return Err(ParseError::Error);
        }
        k += 1;
    }
    if s.len() - i < tb.len() {
        Err(ParseError::Incomplete)
    } else {
        Ok(i + tb.len())
    }
}

/// `line_ending`: `\n` or `\r\n`.
pub open spec fn spec_line_ending(s: Seq<u8>, i: int) -> Parsed<()> {
    let a = spec_tag(s, i, kw("\n"));
    if a == Parsed::<()>::Fail(ParseError::Error) {
        spec_tag(s, i, kw("\r\n"))
    } else {
        a
    }
}

pub fn line_ending_at(s: &[u8], i: usize) -> (r: Result<usize, ParseError>)
    requires
        i <= s@.len(),
    ensures
        agrees_at(r, spec_line_ending(s@, i as int)),
        at_within(r, i as int, s@.len() as int),
{
    match tag_at(s, i, "\n") {
        Err(ParseError::Error) => tag_at(s, i, "\r\n"),
        other => other,
    }
}

/// The number that a run of decimal digits writes.
pub open spec fn decimal_value(d: Seq<u8>) -> nat
    decreases d.len(),
{
    if d.len() == 0 {
        0
    } else {
        decimal_value(d.drop_last()) * 10 + (d.last() - '0' as u8) as nat
    }
}

pub proof fn lemma_decimal_grows(d: Seq<u8>, k: int)
    requires
        0 <= k <= d.len(),
        forall|m: int| 0 <= m < d.len() ==> is_digit_byte(#[trigger] d[m]),
    ensures
        decimal_value(d.subrange(0, k)) <= decimal_value(d),
    decreases d.len() - k,
{
    if k < d.len() {
        let e = d.subrange(0, d.len() - 1);
        assert(d.drop_last() == e);
        assert(e.subrange(0, k) =~= d.subrange(0, k));
        lemma_decimal_grows(e, k);
    } else {
        assert(d.subrange(0, k) =~= d);
    }
}

/// `u64_s`: a run of digits, read as a `u64`; a number beyond `u64::MAX` is an error.
pub open spec fn spec_u64_s(s: Seq<u8>, i: int) -> Parsed<u64> {
    let d = spec_take_while1(s, i, ByteClass::Digit);
    if !(d is Done) {
        halt(d)
    } else if decimal_value(s.subrange(i, d.end())) <= u64::MAX {
        Parsed::Done(d.end(), decimal_value(s.subrange(i, d.end())) as u64)
    } else {
        Parsed::Fail(ParseError::Error)
    }
}

/// Reads the digits `s[i..j]` as a number, or `None` past `u64::MAX`.
fn digits_value(s: &[u8], i: usize, j: usize) -> (r: Option<u64>)
    requires
        i <= j <= s@.len(),
        forall|k: int| i <= k < j ==> is_digit_byte(#[trigger] s@[k]),
    ensures
        r matches Some(v) ==> v == decimal_value(s@.subrange(i as int, j as int)),
        r is None ==> decimal_value(s@.subrange(i as int, j as int)) > u64::MAX,
{
    let mut acc: u64 = 0;
    let mut k = i;
    while k < j
        invariant
            i <= k <= j <= s@.len(),
            forall|m: int| i <= m < j ==> is_digit_byte(#[trigger] s@[m]),
            acc == decimal_value(s@.subrange(i as int, k as int)),
        decreases j - k,
    {
        let d = (s[k] - '0' as u8) as u64;
        assert(s@.subrange(i as int, k + 1).drop_last() =~= s@.subrange(i as int, k as int));
        if acc > (u64::MAX - d) / 10 {
            proof {
                let w = s@.subrange(i as int, j as int);
                assert(w.subrange(0, k + 1 - i) =~= s@.subrange(i as int, k + 1));
                lemma_decimal_grows(w, k + 1 - i);
            }
            return None;
        }
        acc = acc * 10 + d;
        k += 1;
    }
    Some(acc)
}

pub fn u64_s_at(s: &[u8], i: usize) -> (r: Result<(usize, u64), ParseError>)
    requires
        i <= s@.len(),
    ensures
        agrees(r, spec_u64_s(s@, i as int)),
        ends_within(r, i as int, s@.len() as int),
{
    let j = take_while1_at(s, i, ByteClass::Digit)?;
    proof {
        lemma_scan_end(s@, i as int, ByteClass::Digit);
    }
    match digits_value(s, i, j) {
        Some(v) => Ok((j, v)),
        None => Err(ParseError::Error),
    }
}

/// Where an optional `+` or `-` at `i` ends.
pub open spec fn sign_end(s: Seq<u8>, i: int) -> int {
    if s[i] == '+' as u8 || s[i] == '-' as u8 {
        i + 1
    } else {
        i
    }
}

/// `i64_digit`: an optional sign and a run of digits, read as an `i64`; a number outside
/// the range of `i64` is an error.
pub open spec fn spec_i64_digit(s: Seq<u8>, i: int) -> Parsed<i64> {
    if i >= s.len() {
        Parsed::Fail(ParseError::Incomplete)
    } else {
        let k = sign_end(s, i);
        let d = spec_take_while1(s, k, ByteClass::Digit);
        if !(d is Done) {
            halt(d)
        } else {
            let m = decimal_value(s.subrange(k, d.end()));
            let v: int = if s[i] == '-' as u8 {
                -m
            } else {
                m as int
            };
            if i64::MIN <= v <= i64::MAX {
                Parsed::Done(d.end(), v as i64)
            } else {
                Parsed::Fail(ParseError::Error)
            }
        }
    }
}

pub fn i64_digit_at(s: &[u8], i: usize) -> (r: Result<(usize, i64), ParseError>)
    requires
        i <= s@.len(),
    ensures
        agrees(r, spec_i64_digit(s@, i as int)),
        ends_within(r, i as int, s@.len() as int),
{
    if i >= s.len() {
        return Err(ParseError::Incomplete);
    }
    let negative = s[i] == '-' as u8;
    let k = if s[i] == '+' as u8 || negative {
        i + 1
    } else {
        i
    };
    let j = take_while1_at(s, k, ByteClass::Digit)?;
    proof {
        lemma_scan_end(s@, k as int, ByteClass::Digit);
    }
    match digits_value(s, k, j) {
        Some(m) => {
            if negative {
                if m <= 0x8000_0000_0000_0000u64 {
                    let v: i64 = if m == 0x8000_0000_0000_0000u64 {
                        i64::MIN
                    } else {
                        -(m as i64)
                    };
                    Ok((j, v))
                } else {
                    Err(ParseError::Error)
                }
            } else if m <= 0x7fff_ffff_ffff_ffffu64 {
                Ok((j, m as i64))
            } else {
                Err(ParseError::Error)
            }
        },
        None => Err(ParseError::Error),
    }
}

/// The bytes form valid UTF-8 when they are all ASCII, and then decode byte by byte.
pub proof fn lemma_ascii_utf8(b: Seq<u8>)
    requires
        forall|k: int| 0 <= k < b.len() ==> #[trigger] b[k] < 128,
    ensures
        valid_utf8(b),
        decode_utf8(b) == b.map_values(|x: u8| x as char),
{
    let cs = b.map_values(|x: u8| x as char);
    assert(is_ascii_chars(cs));
    vstd::utf8::is_ascii_chars_encode_utf8(cs);
    assert(encode_utf8(cs) =~= b);
    vstd::utf8::encode_utf8_valid_utf8(cs);
    vstd::utf8::encode_utf8_decode_utf8(cs);
}

/// `std::str::from_utf8`: the text that the bytes encode, where they are valid UTF-8.
#[verifier::external_body]
pub(crate) fn str_from_utf8(b: &[u8]) -> (r: Option<&str>)
    ensures
        r is Some <==> valid_utf8(b@),
        r matches Some(t) ==> t.spec_bytes() == b@,
{
    std::str::from_utf8(b).ok()
}

/// The text of the bytes `s[i..j]`, where they are valid UTF-8.
pub fn text_of(s: &[u8], i: usize, j: usize) -> (r: Option<String>)
    requires
        i <= j <= s@.len(),
    ensures
        r is Some <==> valid_utf8(s@.subrange(i as int, j as int)),
        r matches Some(t) ==> t@ == decode_utf8(s@.subrange(i as int, j as int)),
{
    let b = vstd::slice::slice_subrange(s, i, j);
    match str_from_utf8(b) {
        Some(t) => {
            proof {
                vstd::utf8::encode_utf8_decode_utf8(t@);
            }
            Some(t.to_owned())
        },
        None => None,
    }
}


/// The mantissa of a decimal number, after its sign: digits with an optional `.` and
/// optional further digits, or `.` and digits.
pub open spec fn spec_mantissa(s: Seq<u8>, p: int) -> Parsed<()> {
    let d = spec_take_while1(s, p, ByteClass::Digit);
    if d is Done {
        if s[d.end()] == '.' as u8 {
            spec_take_while(s, d.end() + 1, ByteClass::Digit)
        } else {
            d
        }
    } else if d == Parsed::<()>::Fail(ParseError::Error) {
        if s[p] != '.' as u8 {
            Parsed::Fail(ParseError::Error)
        } else {
            spec_take_while1(s, p + 1, ByteClass::Digit)
        }
    } else {
        d
    }
}

/// The optional exponent of a decimal number: `e` or `E`, an optional sign, and digits.
/// Where no digit follows, the exponent is not taken.
pub open spec fn spec_exponent(s: Seq<u8>, r: int) -> Parsed<()> {
    if r >= s.len() {
        Parsed::Fail(ParseError::Incomplete)
    } else if s[r] != 'e' as u8 && s[r] != 'E' as u8 {
        Parsed::Done(r, ())
    } else if r + 1 >= s.len() {
        Parsed::Fail(ParseError::Incomplete)
    } else {
        let d = spec_take_while1(s, sign_end(s, r + 1), ByteClass::Digit);
        if d == Parsed::<()>::Fail(ParseError::Error) {
            Parsed::Done(r, ())
        } else {
            d
        }
    }
}

/// `recognize_float`: the extent of a decimal number with optional sign, fraction and
/// exponent.
pub open spec fn spec_recognize_float(s: Seq<u8>, i: int) -> Parsed<()> {
    if i >= s.len() {
        Parsed::Fail(ParseError::Incomplete)
    } else {
        let m = spec_mantissa(s, sign_end(s, i));
        if m is Done {
            spec_exponent(s, m.end())
        } else {
            m
        }
    }
}

/// Moves the end position of an outcome by `d`.
pub open spec fn shift_end(p: Parsed<()>, d: int) -> Parsed<()> {
    match p {
        Parsed::Done(j, _) => Parsed::Done(j + d, ()),
        other => other,
    }
}

pub proof fn lemma_scan_shift(s: Seq<u8>, i: int, p: int, c: ByteClass)
    requires
        0 <= i <= p <= s.len(),
    ensures
        scan_end(s.subrange(i, s.len() as int), p - i, c) == scan_end(s, p, c) - i,
    decreases s.len() - p,
{
    let t = s.subrange(i, s.len() as int);
    if p < s.len() {
        assert(t[p - i] == s[p]);
        if in_class(c, s[p]) {
            lemma_scan_shift(s, i, p + 1, c);
        }
    }
}

/// A decimal number is recognized in the input that is left at `i` as it is at `i`.
pub proof fn lemma_float_shift(s: Seq<u8>, i: int)
    requires
        0 <= i <= s.len(),
    ensures
        spec_recognize_float(s.subrange(i, s.len() as int), 0) == shift_end(
            spec_recognize_float(s, i),
            -i,
        ),
{
    let t = s.subrange(i, s.len() as int);
    if i < s.len() {
        let p = sign_end(s, i);
        assert(sign_end(t, 0) == p - i);
        if p <= s.len() {
            lemma_scan_shift(s, i, p, ByteClass::Digit);
            lemma_scan_end(s, p, ByteClass::Digit);
        }
        let q = scan_end(s, p, ByteClass::Digit);
        if q + 1 <= s.len() {
            lemma_scan_shift(s, i, q + 1, ByteClass::Digit);
            lemma_scan_end(s, q + 1, ByteClass::Digit);
        }
        if p + 1 <= s.len() {
            lemma_scan_shift(s, i, p + 1, ByteClass::Digit);
            lemma_scan_end(s, p + 1, ByteClass::Digit);
        }
        let m = spec_mantissa(s, p);
        assert(spec_mantissa(t, p - i) == shift_end(m, -i));
        if m is Done {
            let r = m.end();
            if r + 1 < s.len() {
                assert(t[r + 1 - i] == s[r + 1]);
                assert(sign_end(t, r + 1 - i) == sign_end(s, r + 1) - i);
                lemma_scan_shift(s, i, sign_end(s, r + 1), ByteClass::Digit);
            }
        }
    }
}

/// `nom::recognize_float` on a byte slice. Its result is taken to be what
/// [`spec_recognize_float`] states from position 0: an optional sign, then digits with an
/// optional `.` and optional digits, or a `.` and digits, then an optional exponent that
/// is taken only where digits follow the `e` or `E` (and its sign); `Incomplete` wherever
/// the slice ends before the number can end. On success it returns the length of the
/// input that is left after the number.
#[verifier::external_body]
fn nom_recognize_float(b: &[u8]) -> (r: Result<usize, ParseError>)
    ensures
        match r {
            Ok(k) => k <= b@.len() && spec_recognize_float(b@, 0) == Parsed::<()>::Done(
                b@.len() - k,
                (),
            ),
            Err(e) => spec_recognize_float(b@, 0) == Parsed::<()>::Fail(e),
        },
{
    match nom::recognize_float(b) {
        Ok((rest, _)) => Ok(rest.len()),
        Err(nom::Err::Incomplete(_)) => Err(ParseError::Incomplete),
        Err(nom::Err::Error(_)) => Err(ParseError::Error),
        Err(nom::Err::Failure(_)) => Err(ParseError::Error),
    }
}

pub fn recognize_float_at(s: &[u8], i: usize) -> (r: Result<usize, ParseError>)
    requires
        i <= s@.len(),
    ensures
        agrees_at(r, spec_recognize_float(s@, i as int)),
        at_within(r, i as int, s@.len() as int),
{
    let rest = slice_subrange(s, i, s.len());
    proof {
        lemma_float_shift(s@, i as int);
    }
    let k = nom_recognize_float(rest)?;
    Ok(s.len() - k)
}

/// The bytes of a recognized decimal number are ASCII.
pub proof fn lemma_float_ascii(s: Seq<u8>, i: int)
    requires
        0 <= i <= s.len(),
        spec_recognize_float(s, i) is Done,
    ensures
        i <= spec_recognize_float(s, i).end() <= s.len(),
        forall|k: int| i <= k < spec_recognize_float(s, i).end() ==> #[trigger] s[k] < 128,
{
    let p = sign_end(s, i);
    lemma_scan_end(s, p, ByteClass::Digit);
    let q = scan_end(s, p, ByteClass::Digit);
    if q < s.len() {
        lemma_scan_end(s, q + 1, ByteClass::Digit);
    }
    if p < s.len() {
        lemma_scan_end(s, p + 1, ByteClass::Digit);
    }
    let m = spec_mantissa(s, p);
    let r = m.end();
    if r + 1 < s.len() {
        lemma_scan_end(s, sign_end(s, r + 1), ByteClass::Digit);
    }
}

/// `quoted`: text between two `"`. The text must be UTF-8.
pub open spec fn spec_quoted(s: Seq<u8>, i: int) -> Parsed<Seq<char>> {
    let a = spec_char(s, i, '"' as u8);
    if !(a is Done) {
        halt(a)
    } else {
        let t = spec_take_while(s, i + 1, ByteClass::NotQuote);
        if !(t is Done) {
            halt(t)
        } else {
            let c = spec_char(s, t.end(), '"' as u8);
            if !(c is Done) {
                halt(c)
            } else if valid_utf8(s.subrange(i + 1, t.end())) {
                Parsed::Done(c.end(), decode_utf8(s.subrange(i + 1, t.end())))
            } else {
                Parsed::Abort
            }
        }
    }
}

pub fn quoted_at(s: &[u8], i: usize) -> (r: Result<(usize, String), ParseError>)
    requires
        i <= s@.len(),
        !(spec_quoted(s@, i as int) is Abort),
    ensures
        agrees(r, spec_quoted(s@, i as int)),
        ends_within(r, i as int, s@.len() as int),
{
    let a = char_at(s, i, '"' as u8)?;
    let t = take_while_at(s, a, ByteClass::NotQuote)?;
    let c = char_at(s, t, '"' as u8)?;
    match text_of(s, a, t) {
        Some(text) => Ok((c, text)),
        // not reached: the precondition rules out quoted text that is not UTF-8
        None => Err(ParseError::Error),
    }
}

/// The text up to the first byte outside a class (`take_till_s!` followed by a UTF-8
/// conversion that cannot fail). The text must be UTF-8.
pub open spec fn spec_text_till(s: Seq<u8>, i: int, c: ByteClass) -> Parsed<Seq<char>> {
    let t = spec_take_while(s, i, c);
    if !(t is Done) {
        halt(t)
    } else if valid_utf8(s.subrange(i, t.end())) {
        Parsed::Done(t.end(), decode_utf8(s.subrange(i, t.end())))
    } else {
        Parsed::Abort
    }
}

pub fn text_till_at(s: &[u8], i: usize, c: ByteClass) -> (r: Result<(usize, String), ParseError>)
    requires
        i <= s@.len(),
        !(spec_text_till(s@, i as int, c) is Abort),
    ensures
        agrees(r, spec_text_till(s@, i as int, c)),
        ends_within(r, i as int, s@.len() as int),
{
    let t = take_while_at(s, i, c)?;
    match text_of(s, i, t) {
        Some(text) => Ok((t, text)),
        // not reached: the precondition rules out text that is not UTF-8
        None => Err(ParseError::Error),
    }
}

/// `c_ident`: a C identifier, a letter or `_` followed by letters, digits and `_`,
/// which must be UTF-8.
pub open spec fn spec_c_ident(s: Seq<u8>, i: int) -> Parsed<Seq<char>> {
    let h = spec_take_while1(s, i, ByteClass::IdentHead);
    if !(h is Done) {
        halt(h)
    } else {
        let t = spec_take_while(s, h.end(), ByteClass::IdentTail);
        if !(t is Done) {
            halt(t)
        } else if valid_utf8(s.subrange(i, t.end())) {
            Parsed::Done(t.end(), decode_utf8(s.subrange(i, t.end())))
        } else {
            Parsed::Fail(ParseError::Error)
        }
    }
}

pub fn c_ident_at(s: &[u8], i: usize) -> (r: Result<(usize, String), ParseError>)
    requires
        i <= s@.len(),
    ensures
        agrees(r, spec_c_ident(s@, i as int)),
        ends_within(r, i as int, s@.len() as int),
{
    let h = take_while1_at(s, i, ByteClass::IdentHead)?;
    let t = take_while_at(s, h, ByteClass::IdentTail)?;
    match text_of(s, i, t) {
        Some(text) => Ok((t, text)),
        None => Err(ParseError::Error),
    }
}

/// The decimal text of a number as `double` recognizes it.
pub open spec fn spec_double(s: Seq<u8>, i: int) -> Parsed<Seq<char>> {
    let f = spec_recognize_float(s, i);
    if !(f is Done) {
        halt(f)
    } else {
        Parsed::Done(f.end(), decode_utf8(s.subrange(i, f.end())))
    }
}

pub fn double_at(s: &[u8], i: usize) -> (r: Result<(usize, FloatLiteral), ParseError>)
    requires
        i <= s@.len(),
    ensures
        agrees(r, spec_double(s@, i as int)),
        ends_within(r, i as int, s@.len() as int),
{
    let j = recognize_float_at(s, i)?;
    proof {
        lemma_float_ascii(s@, i as int);
        let b = s@.subrange(i as int, j as int);
        assert forall|k: int| 0 <= k < b.len() implies #[trigger] b[k] < 128 by {
            assert(b[k] == s@[i + k]);
        }
        lemma_ascii_utf8(b);
    }
    match text_of(s, i, j) {
        Some(t) => Ok((j, FloatLiteral(t))),
        // not reached: the text of a number is ASCII
        None => Err(ParseError::Error),
    }
}

} // verus!
