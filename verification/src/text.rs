//! Character-level helpers shared by the decoders and URL builders: UTF-16
//! decoding, trimming, decimal rendering and parsing, and string assembly.
use vstd::prelude::*;

verus! {

/// `String::push`: appends one character.
#[verifier::external_body]
pub(crate) fn push_char(s: &mut String, c: char)
    ensures
        final(s)@ == old(s)@.push(c),
{
    s.push(c)
}

/// `char::from_u32`: the character with this scalar value, when it is one.
#[verifier::external_body]
pub(crate) fn char_from_u32(x: u32) -> (r: Option<char>)
    ensures
        r == (if is_scalar(x as int) {
            Some(x as char)
        } else {
            None
        }),
{
    char::from_u32(x)
}

/// `str::to_lowercase`: Unicode lowercase mapping of the whole text.
#[verifier::external_body]
pub(crate) fn str_to_lowercase(s: &str) -> (r: String)
    ensures
        r@ == lowercase(s@),
{
    s.to_lowercase()
}

/// Result of `str::to_lowercase` on a text.
pub uninterp spec fn lowercase(s: Seq<char>) -> Seq<char>;

/// A Unicode scalar value: at most U+10FFFF and outside the surrogate range.
pub open spec fn is_scalar(x: int) -> bool {
    0 <= x <= 0x10FFFF && !(0xD800 <= x <= 0xDFFF)
}

pub open spec fn is_high_surrogate(u: u16) -> bool {
    0xD800 <= u <= 0xDBFF
}

pub open spec fn is_low_surrogate(u: u16) -> bool {
    0xDC00 <= u <= 0xDFFF
}

pub open spec fn is_surrogate(u: u16) -> bool {
    0xD800 <= u <= 0xDFFF
}

/// The scalar value encoded by a surrogate pair.
pub open spec fn pair_value(hi: u16, lo: u16) -> int {
    0x10000 + (hi - 0xD800) * 0x400 + (lo - 0xDC00)
}

/// Lossy UTF-16 decoding: unpaired surrogates become U+FFFD.
pub open spec fn utf16_lossy(u: Seq<u16>) -> Seq<char>
    decreases u.len(),
{
    if u.len() == 0 {
        seq![]
    } else if u.len() >= 2 && is_high_surrogate(u[0]) && is_low_surrogate(u[1]) {
        seq![pair_value(u[0], u[1]) as char] + utf16_lossy(u.subrange(2, u.len() as int))
    } else if is_surrogate(u[0]) {
        seq!['\u{FFFD}'] + utf16_lossy(u.subrange(1, u.len() as int))
    } else {
        seq![u[0] as char] + utf16_lossy(u.subrange(1, u.len() as int))
    }
}

/// Strict UTF-16 decoding: `None` when any surrogate is unpaired.
pub open spec fn utf16_strict(u: Seq<u16>) -> Option<Seq<char>>
    decreases u.len(),
{
    if u.len() == 0 {
        Some(seq![])
    } else if u.len() >= 2 && is_high_surrogate(u[0]) && is_low_surrogate(u[1]) {
        match utf16_strict(u.subrange(2, u.len() as int)) {
            Some(rest) => Some(seq![pair_value(u[0], u[1]) as char] + rest),
            None => None,
        }
    } else if is_surrogate(u[0]) {
        None
    } else {
        match utf16_strict(u.subrange(1, u.len() as int)) {
            Some(rest) => Some(seq![u[0] as char] + rest),
            None => None,
        }
    }
}

proof fn lemma_pair_is_scalar(hi: u16, lo: u16)
    requires
        is_high_surrogate(hi),
        is_low_surrogate(lo),
    ensures
        is_scalar(pair_value(hi, lo)),
        pair_value(hi, lo) <= u32::MAX,
{
}

/// `prefix` followed by the decoded remainder, if the remainder decodes.
pub open spec fn prepend_chars(prefix: Seq<char>, rest: Option<Seq<char>>) -> Option<Seq<char>> {
    match rest {
        Some(r) => Some(prefix + r),
        None => None,
    }
}

/// Decodes UTF-16, or returns `None` on an unpaired surrogate when `strict`;
/// otherwise replaces it with U+FFFD.
pub fn decode_utf16_units(units: &[u16], strict: bool) -> (r: Option<Vec<char>>)
    ensures
        strict ==> (match utf16_strict(units@) {
            Some(cs) => r is Some && r->0@ == cs,
            None => r is None,
        }),
        !strict ==> r is Some && r->0@ == utf16_lossy(units@),
{
    let mut out: Vec<char> = Vec::new();
    let mut i: usize = 0;
    let n = units.len();
    proof {
        assert(units@.subrange(0, n as int) =~= units@);
        assert(out@ + utf16_lossy(units@) =~= utf16_lossy(units@));
        match utf16_strict(units@) {
            Some(cs) => {
                assert(out@ + cs =~= cs);
            },
            None => {},
        }
    }
    while i < n
        invariant
            i <= n == units@.len(),
            strict ==> utf16_strict(units@) == prepend_chars(
                out@,
                utf16_strict(units@.subrange(i as int, n as int)),
            ),
            !strict ==> utf16_lossy(units@) == out@ + utf16_lossy(
                units@.subrange(i as int, n as int),
            ),
        decreases n - i,
    {
        let ghost rest = units@.subrange(i as int, n as int);
        let ghost old_out = out@;
        let u = units[i];
        if i + 1 < n && 0xD800u16 <= u && u <= 0xDBFFu16 && 0xDC00u16 <= units[i + 1]
            && units[i + 1] <= 0xDFFFu16 {
            let lo = units[i + 1];
            let value: u32 = 0x10000u32 + (u as u32 - 0xD800u32) * 0x400u32 + (lo as u32
                - 0xDC00u32);
            proof {
                lemma_pair_is_scalar(u, lo);
                assert(rest.subrange(2, rest.len() as int) =~= units@.subrange(
                    i + 2,
                    n as int,
                ));
                assert(value as int == pair_value(u, lo));
            }
            let c = char_from_u32(value).unwrap();
            out.push(c);
            i += 2;
            proof {
                assert(old_out + (seq![c] + utf16_lossy(units@.subrange(i as int, n as int)))
                    =~= out@ + utf16_lossy(units@.subrange(i as int, n as int)));
                match utf16_strict(units@.subrange(i as int, n as int)) {
                    Some(x) => {
                        assert(old_out + (seq![c] + x) =~= out@ + x);
                    },
                    None => {},
                }
            }
        } else if 0xD800u16 <= u && u <= 0xDFFFu16 {
            if strict {
                return None;
            }
            proof {
                assert(rest.subrange(1, rest.len() as int) =~= units@.subrange(
                    i + 1,
                    n as int,
                ));
            }
            out.push('\u{FFFD}');
            i += 1;
            proof {
                assert(old_out + (seq!['\u{FFFD}'] + utf16_lossy(
                    units@.subrange(i as int, n as int),
                )) =~= out@ + utf16_lossy(units@.subrange(i as int, n as int)));
            }
        } else {
            let c = char_from_u32(u as u32).unwrap();
            proof {
                assert(rest.subrange(1, rest.len() as int) =~= units@.subrange(
                    i + 1,
                    n as int,
                ));
            }
            out.push(c);
            i += 1;
            proof {
                assert(old_out + (seq![c] + utf16_lossy(units@.subrange(i as int, n as int)))
                    =~= out@ + utf16_lossy(units@.subrange(i as int, n as int)));
                match utf16_strict(units@.subrange(i as int, n as int)) {
                    Some(x) => {
                        assert(old_out + (seq![c] + x) =~= out@ + x);
                    },
                    None => {},
                }
            }
        }
    }
    proof {
        assert(units@.subrange(n as int, n as int) =~= Seq::<u16>::empty());
        assert(out@ + Seq::<char>::empty() =~= out@);
    }
    Some(out)
}


/// Unicode White_Space, as `char::is_whitespace` documents it.
pub open spec fn is_whitespace(c: char) -> bool {
    let x = c as int;
    (0x09 <= x <= 0x0D) || x == 0x20 || x == 0x85 || x == 0xA0 || x == 0x1680 || (0x2000 <= x
        <= 0x200A) || x == 0x2028 || x == 0x2029 || x == 0x202F || x == 0x205F || x == 0x3000
}

/// General category Cc (C0 and C1 control codes), as `char::is_control` documents it.
pub open spec fn is_control(c: char) -> bool {
    let x = c as int;
    x <= 0x1F || (0x7F <= x <= 0x9F)
}

/// Characters removed by the trimming helpers.
#[derive(Clone, Copy, PartialEq, Eq, Debug)]
pub enum CharClass {
    /// U+0000.
    Nul,
    /// Unicode White_Space.
    Whitespace,
    /// `/`.
    Slash,
}

pub open spec fn in_class(class: CharClass, c: char) -> bool {
    match class {
        CharClass::Nul => c == '\0',
        CharClass::Whitespace => is_whitespace(c),
        CharClass::Slash => c == '/',
    }
}

pub fn char_in_class(class: CharClass, c: char) -> (r: bool)
    ensures
        r == in_class(class, c),
{
    match class {
        CharClass::Nul => c == '\0',
        CharClass::Whitespace => {
            let x = c as u32;
            (0x09 <= x && x <= 0x0D) || x == 0x20 || x == 0x85 || x == 0xA0 || x == 0x1680 || (
            0x2000 <= x && x <= 0x200A) || x == 0x2028 || x == 0x2029 || x == 0x202F || x
                == 0x205F || x == 0x3000
        },
        CharClass::Slash => c == '/',
    }
}

pub fn char_is_control(c: char) -> (r: bool)
    ensures
        r == is_control(c),
{
    let x = c as u32;
    x <= 0x1F || (0x7F <= x && x <= 0x9F)
}

/// Drops leading characters of the class.
pub open spec fn trim_start(s: Seq<char>, class: CharClass) -> Seq<char>
    decreases s.len(),
{
    if s.len() > 0 && in_class(class, s[0]) {
        trim_start(s.drop_first(), class)
    } else {
        s
    }
}

/// Drops trailing characters of the class.
pub open spec fn trim_end(s: Seq<char>, class: CharClass) -> Seq<char>
    decreases s.len(),
{
    if s.len() > 0 && in_class(class, s.last()) {
        trim_end(s.drop_last(), class)
    } else {
        s
    }
}

/// Drops leading and trailing characters of the class.
pub open spec fn trim_both(s: Seq<char>, class: CharClass) -> Seq<char> {
    trim_end(trim_start(s, class), class)
}

/// Index of the first character outside the class from `i` on, or the length.
pub fn skip_class(s: &Vec<char>, class: CharClass, i: usize) -> (j: usize)
    requires
        i <= s@.len(),
    ensures
        i <= j <= s@.len(),
        trim_start(s@.subrange(i as int, s@.len() as int), class) == s@.subrange(
            j as int,
            s@.len() as int,
        ),
{
    let mut j = i;
    while j < s.len() && char_in_class(class, s[j])
        invariant
            i <= j <= s@.len(),
            trim_start(s@.subrange(i as int, s@.len() as int), class) == trim_start(
                s@.subrange(j as int, s@.len() as int),
                class,
            ),
        decreases s@.len() - j,
    {
        proof {
            assert(s@.subrange(j as int, s@.len() as int).drop_first() =~= s@.subrange(
                j + 1,
                s@.len() as int,
            ));
        }
        j += 1;
    }
    j
}

/// The characters of `s` with leading characters of the class removed.
pub fn trimmed_start(s: &Vec<char>, class: CharClass) -> (r: Vec<char>)
    ensures
        r@ == trim_start(s@, class),
{
    proof {
        assert(s@.subrange(0, s@.len() as int) =~= s@);
    }
    let j = skip_class(s, class, 0);
    copy_range(s, j, s.len())
}

/// The characters of `s` with trailing characters of the class removed.
pub fn trimmed_end(s: &Vec<char>, class: CharClass) -> (r: Vec<char>)
    ensures
        r@ == trim_end(s@, class),
{
    let mut k = s.len();
    proof {
        assert(s@.subrange(0, k as int) =~= s@);
    }
    while k > 0 && char_in_class(class, s[k - 1])
        invariant
            k <= s@.len(),
            trim_end(s@, class) == trim_end(s@.subrange(0, k as int), class),
        decreases k,
    {
        proof {
            assert(s@.subrange(0, k as int).drop_last() =~= s@.subrange(0, k - 1));
        }
        k -= 1;
    }
    copy_range(s, 0, k)
}

/// Both ends trimmed.
pub fn trimmed(s: &Vec<char>, class: CharClass) -> (r: Vec<char>)
    ensures
        r@ == trim_both(s@, class),
{
    let a = trimmed_start(s, class);
    trimmed_end(&a, class)
}

/// A copy of `s[a..b]`.
pub fn copy_range<T: Copy>(s: &Vec<T>, a: usize, b: usize) -> (r: Vec<T>)
    requires
        a <= b <= s@.len(),
    ensures
        r@ == s@.subrange(a as int, b as int),
{
    let mut r: Vec<T> = Vec::new();
    let mut i = a;
    while i < b
        invariant
            a <= i <= b <= s@.len(),
            r@ == s@.subrange(a as int, i as int),
        decreases b - i,
    {
        r.push(s[i]);
        proof {
            assert(r@ =~= s@.subrange(a as int, i + 1));
        }
        i += 1;
    }
    r
}

/// A `String` holding exactly these characters.
pub fn string_from_chars(cs: &Vec<char>) -> (r: String)
    ensures
        r@ == cs@,
{
    let mut r = String::new();
    let mut i: usize = 0;
    while i < cs.len()
        invariant
            i <= cs@.len(),
            r@ == cs@.subrange(0, i as int),
        decreases cs@.len() - i,
    {
        push_char(&mut r, cs[i]);
        proof {
            assert(r@ =~= cs@.subrange(0, i + 1));
        }
        i += 1;
    }
    proof {
        assert(cs@.subrange(0, i as int) =~= cs@);
    }
    r
}

/// Appends the characters `cs` to `s`.
pub fn push_chars(s: &mut String, cs: &Vec<char>)
    ensures
        final(s)@ == old(s)@ + cs@,
{
    let mut i: usize = 0;
    while i < cs.len()
        invariant
            i <= cs@.len(),
            s@ == old(s)@ + cs@.subrange(0, i as int),
        decreases cs@.len() - i,
    {
        push_char(s, cs[i]);
        proof {
            assert(s@ =~= old(s)@ + cs@.subrange(0, i + 1));
        }
        i += 1;
    }
    proof {
        assert(cs@.subrange(0, i as int) =~= cs@);
    }
}

/// The characters of a `str`, in order.
pub fn chars_of(s: &str) -> (r: Vec<char>)
    ensures
        r@ == s@,
{
    let mut r: Vec<char> = Vec::new();
    for c in it: s.chars()
        invariant
            r@ == it.seq().subrange(0, it.index() as int),
    {
        r.push(c);
        proof {
            assert(r@ =~= it.seq().subrange(0, it.index() + 1));
        }
    }
    r
}

/// Appends a `str` to `s`.
pub fn push_str(s: &mut String, t: &str)
    ensures
        final(s)@ == old(s)@ + t@,
{
    let cs = chars_of(t);
    push_chars(s, &cs);
}

/// Decimal digit character for `d < 10`.
pub open spec fn digit_char(d: nat) -> char {
    (0x30 + d) as char
}

/// Decimal rendering without leading zeros (`0` for zero).
pub open spec fn decimal(n: nat) -> Seq<char>
    decreases n,
{
    if n < 10 {
        seq![digit_char(n)]
    } else {
        decimal(n / 10).push(digit_char(n % 10))
    }
}

/// Decimal rendering of a signed value, with a leading `-` when negative.
pub open spec fn signed_decimal(n: int) -> Seq<char> {
    if n < 0 {
        seq!['-'] + decimal((-n) as nat)
    } else {
        decimal(n as nat)
    }
}

/// The decimal characters of `n`.
pub fn decimal_chars(n: u64) -> (r: Vec<char>)
    ensures
        r@ == decimal(n as nat),
    decreases n,
{
    let d = (n % 10) as u8;
    let c = (0x30u8 + d) as char;
    if n < 10 {
        let mut r = Vec::new();
        r.push(c);
        proof {
            assert(r@ =~= seq![digit_char(n as nat)]);
        }
        r
    } else {
        let mut r = decimal_chars(n / 10);
        r.push(c);
        r
    }
}

/// `n.to_string()` for unsigned integers.
pub fn u64_to_string(n: u64) -> (r: String)
    ensures
        r@ == decimal(n as nat),
{
    let cs = decimal_chars(n);
    string_from_chars(&cs)
}

/// `n.to_string()` for signed integers.
pub fn i64_to_string(n: i64) -> (r: String)
    ensures
        r@ == signed_decimal(n as int),
{
    if n < 0 {
        let magnitude: u64 = if n == i64::MIN {
            0x8000_0000_0000_0000u64
        } else {
            (-n) as u64
        };
        let mut r = String::new();
        push_char(&mut r, '-');
        let cs = decimal_chars(magnitude);
        push_chars(&mut r, &cs);
        proof {
            assert(r@ =~= seq!['-'] + decimal((-n) as nat));
        }
        r
    } else {
        u64_to_string(n as u64)
    }
}

pub open spec fn is_digit(c: char) -> bool {
    '0' <= c <= '9'
}

/// Value of a non-empty run of decimal digits.
pub open spec fn digits_value(s: Seq<char>) -> nat
    decreases s.len(),
{
    if s.len() == 0 {
        0
    } else {
        digits_value(s.drop_last()) * 10 + ((s.last() as int - 0x30) as nat)
    }
}

/// `str::parse::<u64>`: optional `+`, then at least one decimal digit, and no overflow.
pub open spec fn parse_u64_spec(s: Seq<char>) -> Option<u64> {
    let digits = sign_stripped(s);
    if digits.len() > 0 && all_digits(digits) && digits_value(digits) <= u64::MAX {
        Some(digits_value(digits) as u64)
    } else {
        None
    }
}

/// The text without one leading `+`.
pub open spec fn sign_stripped(s: Seq<char>) -> Seq<char> {
    if s.len() > 0 && s[0] == '+' {
        s.drop_first()
    } else {
        s
    }
}

pub open spec fn all_digits(s: Seq<char>) -> bool {
    forall|i: int| 0 <= i < s.len() ==> is_digit(#[trigger] s[i])
}

proof fn lemma_digits_value_monotone(s: Seq<char>, k: int)
    requires
        0 <= k <= s.len(),
        forall|i: int| 0 <= i < s.len() ==> is_digit(s[i]),
    ensures
        digits_value(s.subrange(0, k)) <= digits_value(s),
    decreases s.len() - k,
{
    if k < s.len() {
        lemma_digits_value_monotone(s.drop_last(), k);
        assert(s.drop_last().subrange(0, k) =~= s.subrange(0, k));
        assert(s.subrange(0, s.len() as int) =~= s);
    } else {
        assert(s.subrange(0, k) =~= s);
    }
}

/// Parses a decimal `u64` the way `str::parse` does.
pub fn parse_u64(s: &Vec<char>) -> (r: Option<u64>)
    ensures
        r == parse_u64_spec(s@),
{
    let start: usize = if s.len() > 0 && s[0] == '+' {
        1
    } else {
        0
    };
    let ghost digits = s@.subrange(start as int, s@.len() as int);
    proof {
        if s@.len() > 0 && s@[0] == '+' {
            assert(digits =~= s@.drop_first());
        } else {
            assert(digits =~= s@);
        }
    }
    if start >= s.len() {
        return None;
    }
    let mut value: u64 = 0;
    let mut i = start;
    while i < s.len()
        invariant
            start <= i <= s@.len(),
            digits == s@.subrange(start as int, s@.len() as int),
            digits == sign_stripped(s@),
            forall|k: int| start <= k < i ==> is_digit(s@[k]),
            value as nat == digits_value(s@.subrange(start as int, i as int)),
        decreases s@.len() - i,
    {
        let c = s[i];
        if !('0' <= c && c <= '9') {
            proof {
                let k = i - start;
                assert(0 <= k < digits.len());
                assert(digits[k] == s@[i as int]);
                assert(!is_digit(digits[k]));
                assert(!all_digits(digits));
                assert(parse_u64_spec(s@) is None);
            }
            return None;
        }
        let d = (c as u32 - 0x30) as u64;
        proof {
            assert(s@.subrange(start as int, i + 1).drop_last() =~= s@.subrange(
                start as int,
                i as int,
            ));
        }
        proof {
            assert(s@.subrange(start as int, i + 1).last() == c);
            assert(digits_value(s@.subrange(start as int, i + 1)) == value * 10 + d);
        }
        if value > (u64::MAX - d) / 10 {
            proof {
                assert(digits_value(s@.subrange(start as int, i + 1)) > u64::MAX) by (
                nonlinear_arith)
                    requires
                        digits_value(s@.subrange(start as int, i + 1)) == value * 10 + d,
                        value > (u64::MAX - d) / 10,
                        d <= 9,
                ;
                if all_digits(digits) {
                    lemma_digits_value_monotone(digits, i + 1 - start);
                    assert(digits.subrange(0, i + 1 - start) =~= s@.subrange(
                        start as int,
                        i + 1,
                    ));
                    assert(digits_value(digits) > u64::MAX);
                }
                assert(parse_u64_spec(s@) is None);
            }
            return None;
        }
        proof {
            assert(value * 10 + d <= u64::MAX) by (nonlinear_arith)
                requires
                    value <= (u64::MAX - d) / 10,
                    d <= 9,
            ;
        }
        value = value * 10 + d;
        i += 1;
    }
    proof {
        assert forall|k: int| 0 <= k < digits.len() implies is_digit(#[trigger] digits[k]) by {
            assert(digits[k] == s@[start + k]);
        }
        assert(s@.subrange(start as int, i as int) =~= digits);
    }
    Some(value)
}


/// `c` with an ASCII capital letter lowered; other characters unchanged.
pub open spec fn ascii_lower_char(c: char) -> char {
    if 'A' <= c <= 'Z' {
        ((c as u32) + 32) as char
    } else {
        c
    }
}

/// ASCII lowercasing, character by character.
pub open spec fn ascii_lower(s: Seq<char>) -> Seq<char> {
    s.map_values(|c: char| ascii_lower_char(c))
}

pub fn to_ascii_lower(s: &Vec<char>) -> (r: Vec<char>)
    ensures
        r@ == ascii_lower(s@),
{
    let mut r: Vec<char> = Vec::new();
    let mut i: usize = 0;
    while i < s.len()
        invariant
            i <= s@.len(),
            r@ =~= ascii_lower(s@.subrange(0, i as int)),
        decreases s@.len() - i,
    {
        let c = s[i];
        let l = if 'A' <= c && c <= 'Z' {
            char_from_u32(c as u32 + 32).unwrap()
        } else {
            c
        };
        r.push(l);
        i += 1;
    }
    proof {
        assert(s@.subrange(0, i as int) =~= s@);
    }
    r
}

/// Whether `s` ends with `suffix`.
pub open spec fn ends_with(s: Seq<char>, suffix: Seq<char>) -> bool {
    suffix.len() <= s.len() && s.subrange(s.len() - suffix.len(), s.len() as int) == suffix
}

/// Whether `s` starts with `prefix`.
pub open spec fn starts_with(s: Seq<char>, prefix: Seq<char>) -> bool {
    prefix.len() <= s.len() && s.subrange(0, prefix.len() as int) == prefix
}

/// Whether two character sequences are equal.
pub fn chars_eq(a: &Vec<char>, b: &Vec<char>) -> (r: bool)
    ensures
        r == (a@ == b@),
{
    if a.len() != b.len() {
        return false;
    }
    let mut i: usize = 0;
    while i < a.len()
        invariant
            a@.len() == b@.len(),
            i <= a@.len(),
            forall|k: int| 0 <= k < i ==> a@[k] == b@[k],
        decreases a@.len() - i,
    {
        if a[i] != b[i] {
            return false;
        }
        i += 1;
    }
    proof {
        assert(a@ =~= b@);
    }
    true
}

/// Whether the text of `a` is `b`.
pub fn text_eq(a: &str, b: &str) -> (r: bool)
    ensures
        r == (a@ == b@),
{
    chars_eq(&chars_of(a), &chars_of(b))
}

/// Whether `s` ends with `suffix`.
pub fn has_suffix(s: &Vec<char>, suffix: &str) -> (r: bool)
    ensures
        r == ends_with(s@, suffix@),
{
    let suf = chars_of(suffix);
    if suf.len() > s.len() {
        return false;
    }
    let tail = copy_range(s, s.len() - suf.len(), s.len());
    chars_eq(&tail, &suf)
}

/// Whether `s` starts with `prefix`.
pub fn has_prefix(s: &Vec<char>, prefix: &str) -> (r: bool)
    ensures
        r == starts_with(s@, prefix@),
{
    let pre = chars_of(prefix);
    if pre.len() > s.len() {
        return false;
    }
    let head = copy_range(s, 0, pre.len());
    chars_eq(&head, &pre)
}

/// Index of the last `c` in `s`, or `-1`.
pub open spec fn last_index(s: Seq<char>, c: char) -> int
    decreases s.len(),
{
    if s.len() == 0 {
        -1
    } else if s.last() == c {
        s.len() - 1
    } else {
        last_index(s.drop_last(), c)
    }
}

proof fn lemma_last_index_range(s: Seq<char>, c: char)
    ensures
        -1 <= last_index(s, c) < s.len(),
        last_index(s, c) >= 0 ==> s[last_index(s, c)] == c,
    decreases s.len(),
{
    if s.len() > 0 && s.last() != c {
        lemma_last_index_range(s.drop_last(), c);
    }
}

/// Index of the last `c` in `s`.
pub fn find_last(s: &Vec<char>, c: char) -> (r: Option<usize>)
    ensures
        r matches Some(i) ==> i == last_index(s@, c) && i < s@.len(),
        r is None ==> last_index(s@, c) == -1,
{
    let mut n: usize = s.len();
    proof {
        assert(s@.subrange(0, n as int) =~= s@);
    }
    while n > 0
        invariant
            n <= s@.len(),
            last_index(s@, c) == last_index(s@.subrange(0, n as int), c),
        decreases n,
    {
        proof {
            assert(s@.subrange(0, n as int).drop_last() =~= s@.subrange(0, n - 1));
        }
        if s[n - 1] == c {
            return Some(n - 1);
        }
        n -= 1;
    }
    None
}

/// The part after the last `c`, or all of `s` without one (the first item of `rsplit`).
pub open spec fn after_last(s: Seq<char>, c: char) -> Seq<char> {
    s.subrange(last_index(s, c) + 1, s.len() as int)
}

/// The part before the last `c`, when there is one.
pub open spec fn before_last(s: Seq<char>, c: char) -> Seq<char> {
    s.subrange(0, last_index(s, c))
}

pub fn chars_after_last(s: &Vec<char>, c: char) -> (r: Vec<char>)
    ensures
        r@ == after_last(s@, c),
{
    proof {
        lemma_last_index_range(s@, c);
    }
    match find_last(s, c) {
        Some(i) => {
            let n = s.len();
            assert(i < n);
            copy_range(s, i + 1, n)
        },
        None => copy_range(s, 0, s.len()),
    }
}

/// `s` without `suffix`, when it ends with it.
pub open spec fn strip_suffix(s: Seq<char>, suffix: Seq<char>) -> Option<Seq<char>> {
    if ends_with(s, suffix) {
        Some(s.subrange(0, s.len() - suffix.len()))
    } else {
        None
    }
}

pub fn chars_strip_suffix(s: &Vec<char>, suffix: &str) -> (r: Option<Vec<char>>)
    ensures
        match strip_suffix(s@, suffix@) {
            Some(t) => r matches Some(v) && v@ == t,
            None => r is None,
        },
{
    if has_suffix(s, suffix) {
        let n = chars_of(suffix).len();
        Some(copy_range(s, 0, s.len() - n))
    } else {
        None
    }
}

/// `base` without trailing slashes, a slash, then `path` without leading slashes.
pub open spec fn url_join(base: Seq<char>, path: Seq<char>) -> Seq<char> {
    trim_end(base, CharClass::Slash) + seq!['/'] + trim_start(path, CharClass::Slash)
}

/// Joins a base URL and a relative path with exactly one slash.
pub fn join_url(base: &str, path: &str) -> (r: String)
    ensures
        r@ == url_join(base@, path@),
{
    let b = trimmed_end(&chars_of(base), CharClass::Slash);
    let p = trimmed_start(&chars_of(path), CharClass::Slash);
    let mut out = string_from_chars(&b);
    push_char(&mut out, '/');
    push_chars(&mut out, &p);
    out
}

/// A `String` with the text of `s`.
pub fn owned(s: &str) -> (r: String)
    ensures
        r@ == s@,
{
    s.to_owned()
}
} // verus!
