//! Text helpers shared by the formatters and parsers: character sequences,
//! decimal rendering of integers, and the character classes that std defines.

use vstd::prelude::*;
use vstd::string::*;

verus! {

/// Appends one character to a `String` (std `String::push`): the view of the
/// string after the call is the view before it with `c` appended.
#[verifier::external_body]
pub(crate) fn push_char(s: &mut String, c: char)
    ensures
        final(s)@ == old(s)@.push(c),
{
    s.push(c);
}

/// The characters of a string slice, in order.
pub fn chars_of(s: &str) -> (r: Vec<char>)
    ensures
        r@ == s@,
{
    let n = s.unicode_len();
    let mut r: Vec<char> = Vec::new();
    let mut i: usize = 0;
    while i < n
        invariant
            n == s@.len(),
            i <= n,
            r@ == s@.take(i as int),
        decreases n - i,
    {
        let c = s.get_char(i);
        r.push(c);
        i = i + 1;
        assert(r@ =~= s@.take(i as int));
    }
    assert(r@ =~= s@);
    r
}

/// A `String` holding exactly the given characters.
pub fn string_from_chars(v: &[char]) -> (r: String)
    ensures
        r@ == v@,
{
    let mut r = String::new();
    let mut i: usize = 0;
    while i < v.len()
        invariant
            i <= v.len(),
            r@ == v@.take(i as int),
        decreases v.len() - i,
    {
        push_char(&mut r, v[i]);
        i = i + 1;
        assert(r@ =~= v@.take(i as int));
    }
    assert(r@ =~= v@);
    r
}

/// The ASCII digit for a value below ten.
pub open spec fn digit_char(d: nat) -> char {
    if d == 0 { '0' }
    else if d == 1 { '1' }
    else if d == 2 { '2' }
    else if d == 3 { '3' }
    else if d == 4 { '4' }
    else if d == 5 { '5' }
    else if d == 6 { '6' }
    else if d == 7 { '7' }
    else if d == 8 { '8' }
    else { '9' }
}

/// The decimal rendering of a natural number, without leading zeros (what the
/// `{}` format of an unsigned integer prints).
pub open spec fn decimal(n: nat) -> Seq<char>
    decreases n,
{
    if n < 10 {
        seq![digit_char(n)]
    } else {
        decimal(n / 10).push(digit_char(n % 10))
    }
}

/// The decimal rendering of a signed integer: a minus sign before the
/// magnitude of a negative value.
pub open spec fn signed_decimal(n: int) -> Seq<char> {
    if n < 0 {
        seq!['-'] + decimal((-n) as nat)
    } else {
        decimal(n as nat)
    }
}

fn digit_of(d: u64) -> (c: char)
    requires
        d < 10,
    ensures
        c == digit_char(d as nat),
{
    if d == 0 { '0' }
    else if d == 1 { '1' }
    else if d == 2 { '2' }
    else if d == 3 { '3' }
    else if d == 4 { '4' }
    else if d == 5 { '5' }
    else if d == 6 { '6' }
    else if d == 7 { '7' }
    else if d == 8 { '8' }
    else { '9' }
}

/// Renders `n` in decimal.
pub fn u64_to_decimal(n: u64) -> (r: String)
    ensures
        r@ == decimal(n as nat),
    decreases n,
{
    if n < 10 {
        let mut r = String::new();
        push_char(&mut r, digit_of(n));
        assert(r@ =~= decimal(n as nat));
        r
    } else {
        let mut r = u64_to_decimal(n / 10);
        push_char(&mut r, digit_of(n % 10));
        r
    }
}

/// Renders a signed `n` in decimal.
pub fn i64_to_decimal(n: i64) -> (r: String)
    ensures
        r@ == signed_decimal(n as int),
{
    if n < 0 {
        let mag: u64 = if n == i64::MIN {
            9223372036854775808u64
        } else {
            (-n) as u64
        };
        let digits = u64_to_decimal(mag);
        let mut r = String::new();
        push_char(&mut r, '-');
        r.append(digits.as_str());
        assert(r@ =~= signed_decimal(n as int));
        r
    } else {
        u64_to_decimal(n as u64)
    }
}

/// `s` starts with `p`.
pub open spec fn has_prefix(s: Seq<char>, p: Seq<char>) -> bool {
    p.len() <= s.len() && s.take(p.len() as int) == p
}

/// `p` occurs in `s` as a contiguous run of characters.
pub open spec fn has_infix(s: Seq<char>, p: Seq<char>) -> bool {
    exists|i: int| 0 <= i && i + p.len() <= s.len() && #[trigger] s.subrange(i, i + p.len()) == p
}

/// Whether `s` starts with `p` (std `str::starts_with` on a string pattern).
pub fn starts_with_chars(s: &[char], p: &[char]) -> (r: bool)
    ensures
        r == has_prefix(s@, p@),
{
    if p.len() > s.len() {
        return false;
    }
    let mut i: usize = 0;
    while i < p.len()
        invariant
            p.len() <= s.len(),
            i <= p.len(),
            forall|k: int| 0 <= k < i ==> s@[k] == p@[k],
        decreases p.len() - i,
    {
        if s[i] != p[i] {
            assert(s@.take(p@.len() as int)[i as int] != p@[i as int]);
            return false;
        }
        i = i + 1;
    }
    assert(s@.take(p@.len() as int) =~= p@);
    true
}

/// Whether `p` occurs in `s` (std `str::contains` on a string pattern).
pub fn contains_chars(s: &[char], p: &[char]) -> (r: bool)
    ensures
        r == has_infix(s@, p@),
{
    if p.len() > s.len() {
        return false;
    }
    let last = s.len() - p.len();
    let mut i: usize = 0;
    loop
        invariant_except_break
            last == s.len() - p.len(),
            p.len() <= s.len(),
            i <= last,
            forall|j: int| 0 <= j < i ==> #[trigger] s@.subrange(j, j + p@.len()) != p@,
        ensures
            i == last,
            forall|j: int| 0 <= j <= i ==> #[trigger] s@.subrange(j, j + p@.len()) != p@,
        decreases last - i,
    {
        let mut k: usize = 0;
        let mut same = true;
        while k < p.len()
            invariant
                i <= last,
                last == s.len() - p.len(),
                k <= p.len(),
                same ==> forall|m: int| 0 <= m < k ==> s@[i + m] == p@[m],
                !same ==> s@.subrange(i as int, i + p@.len()) != p@,
            decreases p.len() - k,
        {
            if s[i + k] != p[k] {
                assert(s@.subrange(i as int, i + p@.len())[k as int] != p@[k as int]);
                same = false;
            }
            k = k + 1;
        }
        if same {
            assert(s@.subrange(i as int, i + p@.len()) =~= p@);
            return true;
        }
        if i == last {
            break;
        }
        i = i + 1;
    }
    assert forall|j: int| 0 <= j && j + p@.len() <= s@.len() implies #[trigger] s@.subrange(j, j + p@.len()) != p@ by {
        assert(j <= i);
    }
    false
}


/// The values of a list of strings.
pub open spec fn strings_view(v: Seq<String>) -> Seq<Seq<char>> {
    v.map_values(|s: String| s@)
}

/// Whether two string slices hold the same characters (std `==` on `str`).
pub fn str_equals(a: &str, b: &str) -> (r: bool)
    ensures
        r == (a@ == b@),
{
    let x = chars_of(a);
    let y = chars_of(b);
    if x.len() != y.len() {
        return false;
    }
    let mut i: usize = 0;
    while i < x.len()
        invariant
            x.len() == y.len(),
            x@ == a@,
            y@ == b@,
            i <= x.len(),
            forall|k: int| 0 <= k < i ==> x@[k] == y@[k],
        decreases x.len() - i,
    {
        if x[i] != y[i] {
            assert(a@[i as int] != b@[i as int]);
            return false;
        }
        i = i + 1;
    }
    assert(x@ =~= y@);
    true
}

/// A copy of a list of strings.
pub fn clone_strings(v: &Vec<String>) -> (r: Vec<String>)
    ensures
        strings_view(r@) == strings_view(v@),
{
    let mut r: Vec<String> = Vec::new();
    let mut i: usize = 0;
    while i < v.len()
        invariant
            i <= v.len(),
            strings_view(r@) == strings_view(v@).take(i as int),
        decreases v.len() - i,
    {
        let ghost old_r = r@;
        r.push(v[i].clone());
        assert(strings_view(r@) =~= strings_view(old_r).push(v@[i as int]@));
        i = i + 1;
        assert(strings_view(r@) =~= strings_view(v@).take(i as int));
    }
    assert(strings_view(v@).take(v.len() as int) =~= strings_view(v@));
    r
}

/// Appends copies of all strings of `src` to `dst`.
pub fn extend_strings(dst: &mut Vec<String>, src: &Vec<String>)
    ensures
        strings_view(final(dst)@) == strings_view(old(dst)@) + strings_view(src@),
{
    let mut i: usize = 0;
    while i < src.len()
        invariant
            i <= src.len(),
            strings_view(dst@) == strings_view(old(dst)@) + strings_view(src@).take(i as int),
        decreases src.len() - i,
    {
        let ghost before = dst@;
        dst.push(src[i].clone());
        assert(strings_view(dst@) =~= strings_view(before).push(src@[i as int]@));
        i = i + 1;
        assert(strings_view(dst@) =~= strings_view(old(dst)@) + strings_view(src@).take(i as int));
    }
    assert(strings_view(src@).take(src.len() as int) =~= strings_view(src@));
}

/// Appends a string to a list of strings.
pub fn push_string(v: &mut Vec<String>, s: String)
    ensures
        strings_view(final(v)@) == strings_view(old(v)@).push(s@),
{
    let ghost before = v@;
    v.push(s);
    assert(strings_view(v@) =~= strings_view(before).push(s@));
}


/// Whether `c` is whitespace as std's `char::is_whitespace` classes it: the
/// Unicode `White_Space` property (tab through carriage return, space, next
/// line, no-break space, ogham space mark, the spaces U+2000 to U+200A, the
/// line and paragraph separators, narrow no-break space, medium mathematical
/// space and ideographic space).
pub open spec fn unicode_white_space(c: char) -> bool {
    let u = c as u32;
    ||| 0x09 <= u <= 0x0D
    ||| u == 0x20
    ||| u == 0x85
    ||| u == 0xA0
    ||| u == 0x1680
    ||| 0x2000 <= u <= 0x200A
    ||| u == 0x2028
    ||| u == 0x2029
    ||| u == 0x202F
    ||| u == 0x205F
    ||| u == 0x3000
}

/// Whether `c` is whitespace: see [`unicode_white_space`].
pub fn char_is_whitespace(c: char) -> (r: bool)
    ensures
        r == unicode_white_space(c),
{
    let u = c as u32;
    (0x09 <= u && u <= 0x0D) || u == 0x20 || u == 0x85 || u == 0xA0 || u == 0x1680 || (0x2000 <= u && u <= 0x200A)
        || u == 0x2028 || u == 0x2029 || u == 0x202F || u == 0x205F || u == 0x3000
}

/// `s` without its leading whitespace.
pub open spec fn trim_start_ws(s: Seq<char>) -> Seq<char>
    decreases s.len(),
{
    if s.len() > 0 && unicode_white_space(s[0]) {
        trim_start_ws(s.drop_first())
    } else {
        s
    }
}

/// `s` without its trailing whitespace.
pub open spec fn trim_end_ws(s: Seq<char>) -> Seq<char>
    decreases s.len(),
{
    if s.len() > 0 && unicode_white_space(s.last()) {
        trim_end_ws(s.drop_last())
    } else {
        s
    }
}

/// `s` without leading and trailing whitespace (std `str::trim`).
pub open spec fn trim_ws(s: Seq<char>) -> Seq<char> {
    trim_end_ws(trim_start_ws(s))
}

/// The characters of `s` without leading and trailing whitespace.
pub fn trim_chars(s: &[char]) -> (r: Vec<char>)
    ensures
        r@ == trim_ws(s@),
{
    let mut a: usize = 0;
    assert(s@.skip(0) =~= s@);
    while a < s.len() && char_is_whitespace(s[a])
        invariant
            a <= s.len(),
            trim_start_ws(s@) == trim_start_ws(s@.skip(a as int)),
        decreases s.len() - a,
    {
        assert(s@.skip(a as int).drop_first() =~= s@.skip(a + 1));
        a = a + 1;
    }
    let mut b: usize = s.len();
    assert(s@.skip(a as int) =~= s@.subrange(a as int, b as int));
    if a < s.len() {
        assert(s@.skip(a as int)[0] == s@[a as int]);
    }
    assert(trim_start_ws(s@.skip(a as int)) == s@.skip(a as int));
    while b > a && char_is_whitespace(s[b - 1])
        invariant
            a <= b <= s.len(),
            trim_start_ws(s@) == s@.skip(a as int),
            trim_ws(s@) == trim_end_ws(s@.subrange(a as int, b as int)),
        decreases b - a,
    {
        assert(s@.subrange(a as int, b as int).drop_last() =~= s@.subrange(a as int, b - 1));
        b = b - 1;
    }
    let mut r: Vec<char> = Vec::new();
    let mut i: usize = a;
    while i < b
        invariant
            a <= i <= b <= s.len(),
            r@ == s@.subrange(a as int, i as int),
        decreases b - i,
    {
        r.push(s[i]);
        i = i + 1;
        assert(r@ =~= s@.subrange(a as int, i as int));
    }
    r
}

/// The string `s` without leading and trailing whitespace.
pub fn trim_str(s: &str) -> (r: String)
    ensures
        r@ == trim_ws(s@),
{
    let c = chars_of(s);
    let t = trim_chars(c.as_slice());
    string_from_chars(t.as_slice())
}

/// The ways std's integer parsing fails (`core::num::IntErrorKind`).
#[derive(Debug, Clone, Copy, PartialEq, Eq, Structural)]
pub enum IntParseError {
    Empty,
    InvalidDigit,
    PosOverflow,
}

pub open spec fn is_ascii_digit(c: char) -> bool {
    '0' <= c && c <= '9'
}

pub open spec fn digit_value(c: char) -> nat {
    (c as u32 - '0' as u32) as nat
}

/// Reads the digits of `body` left to right onto `acc`, failing at the first
/// character that is not a digit or that makes the value exceed `max`.
pub open spec fn scan_digits(body: Seq<char>, acc: nat, max: nat) -> Result<nat, IntParseError>
    decreases body.len(),
{
    if body.len() == 0 {
        Ok(acc)
    } else if !is_ascii_digit(body[0]) {
        Err(IntParseError::InvalidDigit)
    } else {
        let v = acc * 10 + digit_value(body[0]);
        if v > max {
            Err(IntParseError::PosOverflow)
        } else {
            scan_digits(body.drop_first(), v, max)
        }
    }
}

/// std's parsing of an unsigned integer no larger than `max` from `s`: an
/// optional `+`, then at least one decimal digit.
pub open spec fn parse_unsigned(s: Seq<char>, max: nat) -> Result<nat, IntParseError> {
    if s.len() == 0 {
        Err(IntParseError::Empty)
    } else if (s[0] == '+' || s[0] == '-') && s.len() == 1 {
        Err(IntParseError::InvalidDigit)
    } else if s[0] == '+' {
        scan_digits(s.drop_first(), 0, max)
    } else {
        scan_digits(s, 0, max)
    }
}

/// The text of std's `Display` for a parse error.
pub open spec fn int_error_text(e: IntParseError) -> Seq<char> {
    match e {
        IntParseError::Empty => "cannot parse integer from empty string"@,
        IntParseError::InvalidDigit => "invalid digit found in string"@,
        IntParseError::PosOverflow => "number too large to fit in target type"@,
    }
}

/// The display text of a parse error.
pub fn int_error_string(e: IntParseError) -> (r: String)
    ensures
        r@ == int_error_text(e),
{
    match e {
        IntParseError::Empty => String::from_str("cannot parse integer from empty string"),
        IntParseError::InvalidDigit => String::from_str("invalid digit found in string"),
        IntParseError::PosOverflow => String::from_str("number too large to fit in target type"),
    }
}

/// Parses an unsigned decimal integer not above `max` (std `u64::from_str`
/// and its narrower kin).
pub fn parse_unsigned_chars(s: &[char], max: u64) -> (r: Result<u64, IntParseError>)
    ensures
        match r {
            Ok(v) => parse_unsigned(s@, max as nat) == Ok::<nat, IntParseError>(v as nat),
            Err(e) => parse_unsigned(s@, max as nat) == Err::<nat, IntParseError>(e),
        },
{
    if s.len() == 0 {
        return Err(IntParseError::Empty);
    }
    if (s[0] == '+' || s[0] == '-') && s.len() == 1 {
        return Err(IntParseError::InvalidDigit);
    }
    let mut i: usize = if s[0] == '+' { 1 } else { 0 };
    let ghost body = if s@[0] == '+' { s@.drop_first() } else { s@ };
    assert(body =~= s@.skip(i as int));
    let mut acc: u64 = 0;
    while i < s.len()
        invariant
            i <= s.len(),
            acc <= max,
            parse_unsigned(s@, max as nat) == scan_digits(s@.skip(i as int), acc as nat, max as nat),
        decreases s.len() - i,
    {
        let c = s[i];
        assert(s@.skip(i as int)[0] == c);
        if !('0' <= c && c <= '9') {
            return Err(IntParseError::InvalidDigit);
        }
        let d = (c as u32 - '0' as u32) as u64;
        if d > max || acc > (max - d) / 10 {
            assert(acc * 10 + d > max) by (nonlinear_arith)
                requires
                    d > max || acc > (max - d) / 10,
                    acc >= 0;
            return Err(IntParseError::PosOverflow);
        }
        assert(acc * 10 + d <= max) by (nonlinear_arith)
            requires
                acc <= (max - d) / 10,
                d <= max;
        assert(s@.skip(i as int).drop_first() =~= s@.skip(i + 1));
        acc = acc * 10 + d;
        i = i + 1;
    }
    Ok(acc)
}


/// Whether std classes `c` as alphanumeric (`char::is_alphanumeric`: the
/// Unicode `Alphabetic` property or a numeric general category).
pub uninterp spec fn unicode_alphanumeric(c: char) -> bool;

/// std `char::is_alphanumeric`: the result is `unicode_alphanumeric(c)`; among
/// ASCII characters exactly the letters and digits have it.
#[verifier::external_body]
pub(crate) fn char_is_alphanumeric(c: char) -> (r: bool)
    ensures
        r == unicode_alphanumeric(c),
        (c as u32) < 128 ==> (r <==> (('a' <= c && c <= 'z') || ('A' <= c && c <= 'Z') || ('0' <= c && c <= '9'))),
{
    c.is_alphanumeric()
}

/// Whether std classes `c` as alphabetic (`char::is_alphabetic`, the Unicode
/// `Alphabetic` property).
pub uninterp spec fn unicode_alphabetic(c: char) -> bool;

/// std `char::is_alphabetic`: the result is `unicode_alphabetic(c)`; among ASCII
/// characters exactly the letters have it.
#[verifier::external_body]
pub(crate) fn char_is_alphabetic(c: char) -> (r: bool)
    ensures
        r == unicode_alphabetic(c),
        (c as u32) < 128 ==> (r <==> (('a' <= c && c <= 'z') || ('A' <= c && c <= 'Z'))),
{
    c.is_alphabetic()
}

/// Every character of `s` is alphanumeric (true of the empty sequence).
pub open spec fn all_alphanumeric(s: Seq<char>) -> bool {
    forall|i: int| 0 <= i < s.len() ==> #[trigger] unicode_alphanumeric(s[i])
}

/// Whether every character of `s` is alphanumeric (std `s.chars().all(char::is_alphanumeric)`).
pub fn all_alphanumeric_exec(s: &[char]) -> (r: bool)
    ensures
        r == all_alphanumeric(s@),
{
    let mut i: usize = 0;
    while i < s.len()
        invariant
            i <= s.len(),
            forall|k: int| 0 <= k < i ==> #[trigger] unicode_alphanumeric(s@[k]),
        decreases s.len() - i,
    {
        if !char_is_alphanumeric(s[i]) {
            return false;
        }
        i = i + 1;
    }
    true
}

/// The Debug rendering of an optional `i32`: `Some(n)` or `None`.
pub open spec fn option_i32_debug(v: Option<i32>) -> Seq<char> {
    match v {
        Some(n) => "Some("@ + signed_decimal(n as int) + ")"@,
        None => "None"@,
    }
}

pub fn option_i32_debug_exec(v: Option<i32>) -> (r: String)
    ensures
        r@ == option_i32_debug(v),
{
    match v {
        Some(n) => {
            let mut r = String::from_str("Some(");
            let d = i64_to_decimal(n as i64);
            r.append(d.as_str());
            r.append(")");
            r
        },
        None => String::from_str("None"),
    }
}

/// The display text of std's UTF-8 decoding error for `bytes`
/// (`FromUtf8Error`'s `Display`).
pub uninterp spec fn utf8_error_text(bytes: Seq<u8>) -> Seq<char>;

/// std `String::from_utf8`: the bytes decode when they are valid UTF-8, to the
/// characters they encode; otherwise the error's display text.
#[verifier::external_body]
pub(crate) fn string_from_utf8(bytes: Vec<u8>) -> (r: Result<String, String>)
    ensures
        match r {
            Ok(s) => vstd::utf8::valid_utf8(bytes@) && s@ == vstd::utf8::decode_utf8(bytes@),
            Err(e) => !vstd::utf8::valid_utf8(bytes@) && e@ == utf8_error_text(bytes@),
        },
{
    String::from_utf8(bytes).map_err(|e| e.to_string())
}


/// The characters of std's lossy UTF-8 decoding of `bytes`
/// (`String::from_utf8_lossy`).
pub uninterp spec fn utf8_lossy_text(bytes: Seq<u8>) -> Seq<char>;

/// std `String::from_utf8_lossy`: valid UTF-8 decodes to the characters it
/// encodes; other byte sequences get replacement characters.
#[verifier::external_body]
pub(crate) fn string_from_utf8_lossy(bytes: &[u8]) -> (r: String)
    ensures
        r@ == utf8_lossy_text(bytes@),
        vstd::utf8::valid_utf8(bytes@) ==> r@ == vstd::utf8::decode_utf8(bytes@),
{
    String::from_utf8_lossy(bytes).into_owned()
}

/// The position of the first `c` in `s`, or -1.
pub open spec fn find_char(s: Seq<char>, c: char) -> int
    decreases s.len(),
{
    if s.len() == 0 {
        -1
    } else if s[0] == c {
        0
    } else {
        let r = find_char(s.drop_first(), c);
        if r < 0 {
            -1
        } else {
            r + 1
        }
    }
}

pub proof fn lemma_find_char(s: Seq<char>, c: char)
    ensures
        -1 <= find_char(s, c) < s.len(),
        find_char(s, c) >= 0 ==> s[find_char(s, c)] == c,
        forall|k: int| 0 <= k < find_char(s, c) ==> s[k] != c,
        find_char(s, c) == -1 ==> forall|k: int| 0 <= k < s.len() ==> s[k] != c,
    decreases s.len(),
{
    if s.len() > 0 && s[0] != c {
        lemma_find_char(s.drop_first(), c);
        assert forall|k: int| 0 <= k < find_char(s, c) implies s[k] != c by {
            if k > 0 {
                assert(s[k] == s.drop_first()[k - 1]);
            }
        }
        if find_char(s.drop_first(), c) == -1 {
            assert forall|k: int| 0 <= k < s.len() implies s[k] != c by {
                if k > 0 {
                    assert(s[k] == s.drop_first()[k - 1]);
                }
            }
        }
    }
}

/// The position of the first `c` in `s`, if any.
pub fn find_char_exec(s: &[char], c: char) -> (r: Option<usize>)
    ensures
        match r {
            Some(i) => i < s.len() && i as int == find_char(s@, c),
            None => find_char(s@, c) == -1,
        },
{
    proof {
        lemma_find_char(s@, c);
    }
    let mut i: usize = 0;
    while i < s.len()
        invariant
            i <= s.len(),
            forall|k: int| 0 <= k < i ==> s@[k] != c,
            -1 <= find_char(s@, c) < s@.len(),
            find_char(s@, c) >= 0 ==> s@[find_char(s@, c)] == c,
            forall|k: int| 0 <= k < find_char(s@, c) ==> s@[k] != c,
            find_char(s@, c) == -1 ==> forall|k: int| 0 <= k < s@.len() ==> s@[k] != c,
        decreases s.len() - i,
    {
        if s[i] == c {
            return Some(i);
        }
        i = i + 1;
    }
    None
}

/// The characters `s[from..to]`.
pub fn slice_chars(s: &[char], from: usize, to: usize) -> (r: Vec<char>)
    requires
        from <= to <= s.len(),
    ensures
        r@ == s@.subrange(from as int, to as int),
{
    let mut r: Vec<char> = Vec::new();
    let mut i: usize = from;
    while i < to
        invariant
            from <= i <= to <= s.len(),
            r@ == s@.subrange(from as int, i as int),
        decreases to - i,
    {
        r.push(s[i]);
        i = i + 1;
        assert(r@ =~= s@.subrange(from as int, i as int));
    }
    r
}


/// The value of a sequence of decimal digits.
pub open spec fn digits_value(s: Seq<char>) -> nat
    decreases s.len(),
{
    if s.len() == 0 {
        0
    } else {
        digits_value(s.drop_last()) * 10 + digit_value(s.last())
    }
}

pub open spec fn all_digits(s: Seq<char>) -> bool {
    forall|i: int| 0 <= i < s.len() ==> #[trigger] is_ascii_digit(s[i])
}

/// std's parsing of an `i32` (`str::parse::<i32>().ok()`): an optional sign,
/// at least one decimal digit, and a value in range.
pub open spec fn parse_i32_opt(s: Seq<char>) -> Option<int> {
    let neg = s.len() > 0 && s[0] == '-';
    let body = if s.len() > 0 && (s[0] == '-' || s[0] == '+') { s.drop_first() } else { s };
    let v: int = if neg { -(digits_value(body) as int) } else { digits_value(body) as int };
    if body.len() > 0 && all_digits(body) && i32::MIN <= v <= i32::MAX {
        Some(v)
    } else {
        None
    }
}

pub proof fn lemma_digits_value_mono(s: Seq<char>, k: int)
    requires
        0 <= k <= s.len(),
        all_digits(s),
    ensures
        digits_value(s.take(k)) <= digits_value(s),
    decreases s.len() - k,
{
    if k < s.len() {
        lemma_digits_value_mono(s, k + 1);
        let t = s.take(k + 1);
        assert(t.drop_last() =~= s.take(k));
        assert(is_ascii_digit(s[k]));
    } else {
        assert(s.take(k) =~= s);
    }
}

/// Parses an `i32` the way `str::parse::<i32>().ok()` does: see [`parse_i32_opt`].
pub fn parse_i32_chars(s: &[char]) -> (r: Option<i32>)
    ensures
        match r {
            Some(v) => parse_i32_opt(s@) == Some(v as int),
            None => parse_i32_opt(s@) is None,
        },
{
    if s.len() == 0 {
        return None;
    }
    let neg = s[0] == '-';
    let start: usize = if s[0] == '-' || s[0] == '+' { 1 } else { 0 };
    let ghost body = if s@[0] == '-' || s@[0] == '+' { s@.drop_first() } else { s@ };
    assert(body =~= s@.skip(start as int));
    if start == s.len() {
        return None;
    }
    let mut acc: u64 = 0;
    let mut i: usize = start;
    while i < s.len()
        invariant
            start <= i <= s.len(),
            s.len() > 0,
            neg == (s@[0] == '-'),
            start == (if s@[0] == '-' || s@[0] == '+' { 1usize } else { 0usize }),
            body == (if s@[0] == '-' || s@[0] == '+' { s@.drop_first() } else { s@ }),
            body == s@.skip(start as int),
            acc == digits_value(body.take(i - start)),
            acc <= 2147483648,
            all_digits(body.take(i - start)),
        decreases s.len() - i,
    {
        let c = s[i];
        assert(body[i - start] == c);
        if !('0' <= c && c <= '9') {
            assert(!is_ascii_digit(body[i - start]));
            assert(!all_digits(body));
            assert(parse_i32_opt(s@) is None);
            return None;
        }
        let d = (c as u32 - '0' as u32) as u64;
        let next = acc * 10 + d;
        proof {
            let t = body.take(i - start + 1);
            assert(t.drop_last() =~= body.take(i - start));
            assert(t.last() == c);
        }
        if next > 2147483648 {
            proof {
                let t = body.take(i - start + 1);
                assert(all_digits(t));
                if all_digits(body) {
                    lemma_digits_value_mono(body, i - start + 1);
                    assert(digits_value(body) > 2147483648);
                }
                assert(parse_i32_opt(s@) is None);
            }
            return None;
        }
        acc = next;
        i = i + 1;
    }
    assert(body.take(i - start) =~= body);
    if neg {
        Some((0 - (acc as i64)) as i32)
    } else if acc <= 2147483647 {
        Some(acc as i32)
    } else {
        None
    }
}

/// Integer division rounding toward zero, as Rust's `/` on signed integers.
pub open spec fn div_toward_zero(a: int, b: int) -> int {
    if a >= 0 {
        a / b
    } else {
        -((-a) / b)
    }
}


/// The lines of `s` (std `str::lines`): split after each line feed; a line
/// feed ends its line and is dropped together with a carriage return before
/// it; a last line without a line feed keeps all its characters.
pub open spec fn lines_of(s: Seq<char>) -> Seq<Seq<char>>
    decreases s.len(),
{
    if s.len() == 0 {
        seq![]
    } else {
        let i = find_char(s, '\n');
        proof {
            lemma_find_char(s, '\n');
        }
        if i < 0 {
            seq![s]
        } else {
            let line = s.take(i);
            let line2 = if line.len() > 0 && line.last() == '\r' {
                line.drop_last()
            } else {
                line
            };
            seq![line2] + lines_of(s.skip(i + 1))
        }
    }
}

pub open spec fn chars_seqs_view(v: Seq<Vec<char>>) -> Seq<Seq<char>> {
    v.map_values(|x: Vec<char>| x@)
}

/// The lines of `s`: see [`lines_of`].
pub fn lines_exec(s: &[char]) -> (r: Vec<Vec<char>>)
    ensures
        chars_seqs_view(r@) == lines_of(s@),
{
    let mut r: Vec<Vec<char>> = Vec::new();
    let mut pos: usize = 0;
    assert(s@.skip(0) =~= s@);
    assert(chars_seqs_view(r@) + lines_of(s@.skip(0)) =~= lines_of(s@));
    while pos < s.len()
        invariant
            pos <= s.len(),
            chars_seqs_view(r@) + lines_of(s@.skip(pos as int)) == lines_of(s@),
        decreases s.len() - pos,
    {
        let rest = slice_chars(s, pos, s.len());
        assert(rest@ =~= s@.skip(pos as int));
        let ghost before = chars_seqs_view(r@);
        proof {
            lemma_find_char(rest@, '\n');
        }
        match find_char_exec(rest.as_slice(), '\n') {
            None => {
                r.push(rest);
                assert(chars_seqs_view(r@) =~= before.push(s@.skip(pos as int)));
                assert(chars_seqs_view(r@) + lines_of(s@.skip(s.len() as int)) =~= before + lines_of(s@.skip(pos as int)));
                pos = s.len();
            },
            Some(i) => {
                let mut line = slice_chars(rest.as_slice(), 0, i);
                assert(line@ =~= rest@.take(i as int));
                if line.len() > 0 && line[line.len() - 1] == '\r' {
                    line.pop();
                    assert(line@ =~= rest@.take(i as int).drop_last());
                }
                r.push(line);
                assert(rest@.skip(i + 1) =~= s@.skip(pos + i + 1));
                assert(chars_seqs_view(r@) + lines_of(s@.skip(pos + i + 1)) =~= before + lines_of(s@.skip(pos as int)));
                pos = pos + i + 1;
            },
        }
    }
    assert(s@.skip(pos as int) =~= Seq::<char>::empty());
    assert(chars_seqs_view(r@) + Seq::<Seq<char>>::empty() =~= chars_seqs_view(r@));
    r
}

/// The text between the first and the second `:` of `line`, or after the
/// first when there is no second (std `line.split(':').nth(1)`).
pub open spec fn colon_field(line: Seq<char>) -> Option<Seq<char>> {
    let i = find_char(line, ':');
    if i < 0 {
        None
    } else {
        let rest = line.skip(i + 1);
        let j = find_char(rest, ':');
        Some(if j < 0 { rest } else { rest.take(j) })
    }
}

pub fn colon_field_exec(line: &[char]) -> (r: Option<Vec<char>>)
    ensures
        match r {
            Some(v) => colon_field(line@) == Some(v@),
            None => colon_field(line@) is None,
        },
{
    match find_char_exec(line, ':') {
        None => None,
        Some(i) => {
            let rest = slice_chars(line, i + 1, line.len());
            assert(rest@ =~= line@.skip(i + 1));
            match find_char_exec(rest.as_slice(), ':') {
                None => Some(rest),
                Some(j) => {
                    let f = slice_chars(rest.as_slice(), 0, j);
                    assert(f@ =~= rest@.take(j as int));
                    Some(f)
                },
            }
        },
    }
}

/// The run of non-whitespace characters at the end of `t`.
pub open spec fn last_token(t: Seq<char>) -> Seq<char>
    decreases t.len(),
{
    if t.len() == 0 || unicode_white_space(t.last()) {
        seq![]
    } else {
        last_token(t.drop_last()).push(t.last())
    }
}

/// The last whitespace-separated word of `line` (std
/// `line.split_whitespace().last()`).
pub open spec fn last_word(line: Seq<char>) -> Option<Seq<char>> {
    let t = trim_end_ws(line);
    if t.len() == 0 {
        None
    } else {
        Some(last_token(t))
    }
}

pub fn last_word_exec(line: &[char]) -> (r: Option<Vec<char>>)
    ensures
        match r {
            Some(v) => last_word(line@) == Some(v@),
            None => last_word(line@) is None,
        },
{
    let mut e: usize = line.len();
    assert(line@.take(e as int) =~= line@);
    while e > 0 && char_is_whitespace(line[e - 1])
        invariant
            e <= line.len(),
            trim_end_ws(line@) == trim_end_ws(line@.take(e as int)),
        decreases e,
    {
        assert(line@.take(e as int).drop_last() =~= line@.take(e - 1));
        e = e - 1;
    }
    let ghost t = line@.take(e as int);
    assert(trim_end_ws(t) == t);
    if e == 0 {
        return None;
    }
    let mut b: usize = e;
    assert(t.take(b as int) =~= t);
    while b > 0 && !char_is_whitespace(line[b - 1])
        invariant
            b <= e <= line.len(),
            t == line@.take(e as int),
            last_token(t) == last_token(t.take(b as int)) + t.subrange(b as int, e as int),
        decreases b,
    {
        let ghost tb = t.take(b as int);
        assert(tb.drop_last() =~= t.take(b - 1));
        assert(tb.last() == line@[b - 1]);
        assert(t.take(b - 1).push(line@[b - 1]) =~= tb);
        assert(last_token(t.take(b - 1)) + t.subrange(b - 1, e as int)
            =~= last_token(t.take(b - 1)).push(line@[b - 1]) + t.subrange(b as int, e as int));
        b = b - 1;
    }
    if b > 0 {
        assert(t.take(b as int).last() == line@[b - 1]);
    }
    assert(last_token(t.take(b as int)) =~= Seq::<char>::empty());
    let w = slice_chars(line, b, e);
    assert(w@ =~= t.subrange(b as int, e as int));
    Some(w)
}


/// The run of non-whitespace characters at the start of `t`.
pub open spec fn first_token(t: Seq<char>) -> Seq<char>
    decreases t.len(),
{
    if t.len() == 0 || unicode_white_space(t[0]) {
        seq![]
    } else {
        seq![t[0]] + first_token(t.drop_first())
    }
}

pub proof fn lemma_first_token(t: Seq<char>)
    ensures
        first_token(t).len() <= t.len(),
        first_token(t) == t.take(first_token(t).len() as int),
        t.len() > 0 && !unicode_white_space(t[0]) ==> first_token(t).len() > 0,
        first_token(t).len() < t.len() ==> unicode_white_space(t[first_token(t).len() as int]),
    decreases t.len(),
{
    if t.len() > 0 && !unicode_white_space(t[0]) {
        lemma_first_token(t.drop_first());
        let f = first_token(t.drop_first());
        assert(seq![t[0]] + f =~= t.take(f.len() as int + 1));
        if f.len() + 1 < t.len() {
            assert(t[f.len() as int + 1] == t.drop_first()[f.len() as int]);
        }
    } else {
        assert(t.take(0) =~= Seq::<char>::empty());
    }
}

pub proof fn lemma_trim_start(s: Seq<char>)
    ensures
        trim_start_ws(s).len() <= s.len(),
        trim_start_ws(s) == s.skip(s.len() - trim_start_ws(s).len()),
        trim_start_ws(s).len() > 0 ==> !unicode_white_space(trim_start_ws(s)[0]),
    decreases s.len(),
{
    if s.len() > 0 && unicode_white_space(s[0]) {
        lemma_trim_start(s.drop_first());
        let t = trim_start_ws(s.drop_first());
        assert(s.drop_first().skip(s.drop_first().len() - t.len()) =~= s.skip(s.len() - t.len()));
    } else {
        assert(s.skip(0) =~= s);
    }
}

/// The whitespace-separated words of `s` (std `str::split_whitespace`).
pub open spec fn words(s: Seq<char>) -> Seq<Seq<char>>
    decreases s.len(),
{
    let t = trim_start_ws(s);
    proof {
        lemma_trim_start(s);
        lemma_first_token(t);
    }
    if t.len() == 0 {
        seq![]
    } else {
        let w = first_token(t);
        seq![w] + words(t.skip(w.len() as int))
    }
}

/// The words of `s`: see [`words`].
pub fn words_exec(s: &[char]) -> (r: Vec<Vec<char>>)
    ensures
        chars_seqs_view(r@) == words(s@),
{
    let mut r: Vec<Vec<char>> = Vec::new();
    let mut pos: usize = 0;
    assert(s@.skip(0) =~= s@);
    assert(chars_seqs_view(r@) + words(s@.skip(0)) =~= words(s@));
    while pos < s.len()
        invariant
            pos <= s.len(),
            chars_seqs_view(r@) + words(s@.skip(pos as int)) == words(s@),
        decreases s.len() - pos,
    {
        let ghost rest = s@.skip(pos as int);
        proof {
            lemma_trim_start(rest);
        }
        let mut a = pos;
        assert(rest =~= s@.skip(a as int));
        while a < s.len() && char_is_whitespace(s[a])
            invariant
                pos <= a <= s.len(),
                trim_start_ws(rest) == trim_start_ws(s@.skip(a as int)),
            decreases s.len() - a,
        {
            assert(s@.skip(a as int).drop_first() =~= s@.skip(a + 1));
            assert(s@.skip(a as int)[0] == s@[a as int]);
            a = a + 1;
        }
        if a < s.len() {
            assert(s@.skip(a as int)[0] == s@[a as int]);
        }
        assert(trim_start_ws(s@.skip(a as int)) == s@.skip(a as int));
        let ghost t = s@.skip(a as int);
        if a == s.len() {
            assert(t =~= Seq::<char>::empty());
            assert(words(rest) =~= Seq::<Seq<char>>::empty());
            assert(chars_seqs_view(r@) + Seq::<Seq<char>>::empty() =~= chars_seqs_view(r@));
            assert(s@.skip(s.len() as int) =~= Seq::<char>::empty());
            pos = s.len();
        } else {
            let mut b = a;
            proof {
                lemma_first_token(t);
            }
            while b < s.len() && !char_is_whitespace(s[b])
                invariant
                    a <= b <= s.len(),
                    t == s@.skip(a as int),
                    first_token(t) == s@.subrange(a as int, b as int) + first_token(s@.skip(b as int)),
                decreases s.len() - b,
            {
                assert(s@.skip(b as int)[0] == s@[b as int]);
                assert(s@.skip(b as int).drop_first() =~= s@.skip(b + 1));
                assert(s@.subrange(a as int, b as int) + (seq![s@[b as int]] + first_token(s@.skip(b + 1)))
                    =~= s@.subrange(a as int, b + 1) + first_token(s@.skip(b + 1)));
                b = b + 1;
            }
            if b < s.len() {
                assert(s@.skip(b as int)[0] == s@[b as int]);
            }
            assert(first_token(s@.skip(b as int)) =~= Seq::<char>::empty());
            let w = slice_chars(s, a, b);
            assert(w@ =~= first_token(t));
            let ghost before = chars_seqs_view(r@);
            r.push(w);
            assert(t.skip(w@.len() as int) =~= s@.skip(b as int));
            assert(chars_seqs_view(r@) =~= before.push(w@));
            assert(chars_seqs_view(r@) + words(s@.skip(b as int)) =~= before + words(rest));
            pos = b;
        }
    }
    assert(s@.skip(pos as int) =~= Seq::<char>::empty());
    assert(chars_seqs_view(r@) + Seq::<Seq<char>>::empty() =~= chars_seqs_view(r@));
    r
}

} // verus!
