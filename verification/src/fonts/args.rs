//! The arguments that name a font to rasterize:
//! `"path/to/font.ttf", size = 24, bpp = 4`.
//!
//! Grammar, with whitespace (space, tab, newline, carriage return) allowed
//! between tokens:
//!
//! ```text
//! args   := string ',' pair*
//! pair   := key '=' int ','?
//! string := '"' (byte other than '"' and '\' | '\' escape)* '"'
//!         | 'r' '#'^n '"' byte* '"' '#'^n      (n <= 255, closed at the first match)
//! escape := '"' | '\' | 'n' | 'r' | 't' | '0' | '\''
//!         | 'x' hex hex                (at most 0x7F)
//!         | 'u' '{' hex (hex | '_')* '}'  (one to six digits, a char; as UTF-8)
//!         | line-break whitespace*     (a line continuation: nothing)
//! key    := (letter | '_') (letter | digit | '_')*
//! int    := (digits | '0x' hexdigits | '0o' digits | '0b' digits) suffix?
//! digits := (digit | '_')*, with at least one digit, each below the base
//! suffix := key, e.g. `u32`; it does not change the value
//! ```
//!
//! A carriage return in a string must come before a newline; the pair is
//! read as a newline. A key that is a Rust keyword, or `_`, is no key.
//!
//! A decimal followed by `.`, by an exponent (`e`, `E`) or by the suffix
//! `f32` or `f64` is a float, not an integer.
//!
//! The keys are `size` (a `u32`) and `bpp` (1, 2, 4 or 8); both must be
//! given, and a later value of a key replaces an earlier one.

use vstd::prelude::*;

verus! {

pub const QUOTE: u8 = 34;
pub const BACKSLASH: u8 = 92;
pub const COMMA: u8 = 44;
pub const EQUALS: u8 = 61;
pub const UNDERSCORE: u8 = 95;

/// Why a list of font arguments was refused.
#[derive(Clone, Copy, Debug, PartialEq, Eq, Structural)]
pub enum ArgsError {
    /// The arguments do not start with a string literal.
    ExpectedPath,
    /// No comma after the path.
    ExpectedComma,
    /// A key is not an identifier.
    ExpectedKey,
    /// No `=` after a key.
    ExpectedEquals,
    /// No integer after `=`.
    ExpectedInteger,
    /// A value does not fit its key's type.
    IntegerTooLarge,
    /// `bpp` is not 1, 2, 4 or 8.
    BadBpp,
    /// A key other than `size` or `bpp`.
    UnknownKey,
    /// No `size` was given.
    MissingSize,
    /// No `bpp` was given.
    MissingBpp,
}

/// Parsed font arguments.
#[derive(Clone, Debug)]
pub struct IncludeFontArgs {
    /// The path, with its escapes resolved.
    pub path: Vec<u8>,
    /// The pixel size.
    pub size: u32,
    /// Bits per pixel: 1, 2, 4 or 8.
    pub bpp: u8,
}

// ── Lexical classes ────────────────────────────────────────────────────

pub open spec fn is_space(b: u8) -> bool {
    b == 32 || b == 9 || b == 10 || b == 13
}

pub open spec fn is_digit(b: u8) -> bool {
    48 <= b <= 57
}

pub open spec fn is_key_start(b: u8) -> bool {
    (65 <= b <= 90) || (97 <= b <= 122) || b == UNDERSCORE
}

pub open spec fn is_key_char(b: u8) -> bool {
    is_key_start(b) || is_digit(b)
}

/// The byte an escape `\b` stands for, if `b` is a known escape.
pub open spec fn unescape(b: u8) -> Option<u8> {
    if b == QUOTE || b == BACKSLASH || b == 39 {
        Some(b)
    } else if b == 110 {
        Some(10u8)
    } else if b == 114 {
        Some(13u8)
    } else if b == 116 {
        Some(9u8)
    } else if b == 48 {
        Some(0u8)
    } else {
        None
    }
}

// ── Token scanners ─────────────────────────────────────────────────────

/// The first position at or after `i` that is not whitespace.
pub open spec fn skip_space(s: Seq<u8>, i: int) -> int
    decreases s.len() - i,
{
    if 0 <= i < s.len() && is_space(s[i]) {
        skip_space(s, i + 1)
    } else {
        i
    }
}

/// The end of the run of key characters from `i`.
pub open spec fn key_end(s: Seq<u8>, i: int) -> int
    decreases s.len() - i,
{
    if 0 <= i < s.len() && is_key_char(s[i]) {
        key_end(s, i + 1)
    } else {
        i
    }
}

/// The hexadecimal digits of a `\u{...}` escape from `j` on, `cp` the
/// value and `digits` the number of digits so far: the code point and the
/// position after the closing brace. At most six digits; underscores may
/// follow the first.
pub open spec fn unicode_digits(s: Seq<u8>, j: int, cp: nat, digits: nat) -> Option<(nat, int)>
    decreases s.len() - j,
{
    if j < 0 || j >= s.len() {
        None
    } else if digit_value(s[j]) < 16 {
        if digits == 6 {
            None
        } else {
            unicode_digits(s, j + 1, cp * 16 + digit_value(s[j]), digits + 1)
        }
    } else if s[j] == UNDERSCORE && digits > 0 {
        unicode_digits(s, j + 1, cp, digits)
    } else if s[j] == 125 && digits > 0 {
        Some((cp, j + 1))
    } else {
        None
    }
}

/// Whether `cp` is a Unicode scalar value (a `char`).
pub open spec fn is_scalar(cp: nat) -> bool {
    cp <= 0x10FFFF && !(0xD800 <= cp <= 0xDFFF)
}

/// The `\u{...}` escape whose `{` is at `a`: its code point and end.
pub open spec fn unicode_escape(s: Seq<u8>, a: int) -> Option<(nat, int)> {
    if 0 <= a < s.len() && s[a] == 123 {
        match unicode_digits(s, a + 1, 0, 0) {
            Some((cp, e)) => if is_scalar(cp) { Some((cp, e)) } else { None },
            None => None,
        }
    } else {
        None
    }
}

/// The UTF-8 bytes of code point `cp`.
pub open spec fn utf8(cp: nat) -> Seq<u8> {
    if cp < 0x80 {
        seq![cp as u8]
    } else if cp < 0x800 {
        seq![(192 + cp / 64) as u8, (128 + cp % 64) as u8]
    } else if cp < 0x10000 {
        seq![(224 + cp / 4096) as u8, (128 + (cp / 64) % 64) as u8, (128 + cp % 64) as u8]
    } else {
        seq![
            (240 + cp / 262144) as u8,
            (128 + (cp / 4096) % 64) as u8,
            (128 + (cp / 64) % 64) as u8,
            (128 + cp % 64) as u8,
        ]
    }
}

pub proof fn lemma_unicode_digits_end(s: Seq<u8>, j: int, cp: nat, digits: nat)
    requires
        0 <= j,
    ensures
        match unicode_digits(s, j, cp, digits) {
            Some((_, e)) => j < e <= s.len(),
            None => true,
        },
    decreases s.len() - j,
{
    if 0 <= j < s.len() {
        if digit_value(s[j]) < 16 {
            if digits != 6 {
                let cp2: nat = cp * 16 + digit_value(s[j]);
                lemma_unicode_digits_end(s, j + 1, cp2, (digits + 1) as nat);
                assert(unicode_digits(s, j, cp, digits) == unicode_digits(s, j + 1, cp2, (digits + 1) as nat));
            }
        } else if s[j] == UNDERSCORE && digits > 0 {
            lemma_unicode_digits_end(s, j + 1, cp, digits);
        }
    }
}

/// The contents of a string literal whose opening quote is just before `i`,
/// and the position after its closing quote; `None` when it is not closed
/// or holds an escape that is not one. A backslash before a line break
/// skips the break and the whitespace after it; a carriage return stands
/// only before a newline, and the pair reads as a newline.
pub open spec fn scan_string(s: Seq<u8>, i: int) -> Option<(Seq<u8>, int)>
    decreases s.len() - i,
{
    if i < 0 || i >= s.len() {
        None
    } else if s[i] == QUOTE {
        Some((Seq::empty(), i + 1))
    } else if s[i] == BACKSLASH {
        if i + 1 >= s.len() {
            None
        } else if unescape(s[i + 1]) is Some {
            match scan_string(s, i + 2) {
                Some((v, e)) => Some((seq![unescape(s[i + 1])->0] + v, e)),
                None => None,
            }
        } else if s[i + 1] == 120 {
            if i + 3 < s.len() && digit_value(s[i + 2]) < 8 && digit_value(s[i + 3]) < 16 {
                match scan_string(s, i + 4) {
                    Some((v, e)) => Some((seq![(digit_value(s[i + 2]) * 16 + digit_value(s[i + 3])) as u8] + v, e)),
                    None => None,
                }
            } else {
                None
            }
        } else if s[i + 1] == 117 {
            proof {
                lemma_unicode_digits_end(s, i + 3, 0, 0);
            }
            match unicode_escape(s, i + 2) {
                Some((cp, j)) => match scan_string(s, j) {
                    Some((v, e)) => Some((utf8(cp) + v, e)),
                    None => None,
                },
                None => None,
            }
        } else if s[i + 1] == 10 || s[i + 1] == 13 {
            proof {
                lemma_skip_space_bounds(s, i + 2);
            }
            scan_string(s, skip_space(s, i + 2))
        } else {
            None
        }
    } else if s[i] == 13 {
        if i + 1 < s.len() && s[i + 1] == 10 {
            match scan_string(s, i + 2) {
                Some((v, e)) => Some((seq![10u8] + v, e)),
                None => None,
            }
        } else {
            None
        }
    } else {
        match scan_string(s, i + 1) {
            Some((v, e)) => Some((seq![s[i]] + v, e)),
            None => None,
        }
    }
}

/// Whether the `n` bytes from `a` are all `#`.
pub open spec fn hashes_at(s: Seq<u8>, a: int, n: int) -> bool {
    &&& 0 <= a
    &&& a + n <= s.len()
    &&& forall|t: int| a <= t < a + n ==> s[t] == 35
}

/// The end of the run of `#` from `i`.
pub open spec fn hash_end(s: Seq<u8>, i: int) -> int
    decreases s.len() - i,
{
    if 0 <= i < s.len() && s[i] == 35 {
        hash_end(s, i + 1)
    } else {
        i
    }
}

/// The first quote at or after `j` followed by `n` hashes: where a raw
/// string with `n` hashes closes.
pub open spec fn raw_close(s: Seq<u8>, j: int, n: int) -> Option<int>
    decreases s.len() - j,
{
    if j < 0 || j >= s.len() {
        None
    } else if s[j] == QUOTE && hashes_at(s, j + 1, n) {
        Some(j)
    } else {
        raw_close(s, j + 1, n)
    }
}

/// The contents of a raw string literal (`r"..."`, `r#"..."#`, with up to
/// 255 hashes) whose `r` is just before `i`, and the position after it; its
/// bytes are taken as they stand.
pub open spec fn scan_raw_string(s: Seq<u8>, i: int) -> Option<(Seq<u8>, int)> {
    let he = hash_end(s, i);
    let n = he - i;
    if n > 255 || he < 0 || he >= s.len() || s[he] != QUOTE {
        None
    } else {
        match raw_close(s, he + 1, n) {
            None => None,
            Some(c) => Some((s.subrange(he + 1, c), c + 1 + n)),
        }
    }
}

/// The string literal at `i`, plain or raw: its contents and end.
pub open spec fn path_literal(s: Seq<u8>, i: int) -> Option<(Seq<u8>, int)> {
    if s[i] == QUOTE {
        scan_string(s, i + 1)
    } else if s[i] == 114 {
        scan_raw_string(s, i + 1)
    } else {
        None
    }
}

/// The value of a digit byte (`0-9`, `a-f`, `A-F`).
pub open spec fn digit_value(b: u8) -> nat {
    if 48 <= b <= 57 {
        (b - 48) as nat
    } else if 97 <= b <= 102 {
        (b - 87) as nat
    } else if 65 <= b <= 70 {
        (b - 55) as nat
    } else {
        99
    }
}

/// Whether `b` continues the digits of an integer in `base`: an underscore,
/// a hexadecimal digit in base 16, else a decimal digit (digits too large
/// for bases 2 and 8 are refused afterwards, as Rust's lexer does).
pub open spec fn is_base_char(b: u8, base: nat) -> bool {
    b == UNDERSCORE || (if base == 16 { digit_value(b) < 16 } else { is_digit(b) })
}

/// The end of the digits in `base` from `i`.
pub open spec fn digits_end(s: Seq<u8>, i: int, base: nat) -> int
    decreases s.len() - i,
{
    if 0 <= i < s.len() && is_base_char(s[i], base) {
        digits_end(s, i + 1, base)
    } else {
        i
    }
}

/// The value in `base` of the digits in `s[a..b]`, underscores skipped.
pub open spec fn digits_value(s: Seq<u8>, a: int, b: int, base: nat) -> nat
    decreases b - a,
{
    if b <= a {
        0
    } else if s[b - 1] == UNDERSCORE {
        digits_value(s, a, b - 1, base)
    } else {
        digits_value(s, a, b - 1, base) * base + digit_value(s[b - 1])
    }
}

/// Whether `s[a..b]` holds a digit, and all of its digits are below `base`.
pub open spec fn digits_ok(s: Seq<u8>, a: int, b: int, base: nat) -> (bool, bool)
    decreases b - a,
{
    if b <= a {
        (false, true)
    } else {
        let (any, below) = digits_ok(s, a, b - 1, base);
        if s[b - 1] == UNDERSCORE {
            (any, below)
        } else {
            (true, below && digit_value(s[b - 1]) < base)
        }
    }
}

/// The base of the integer literal at `v`: `0x`, `0o` and `0b` prefixes
/// give 16, 8 and 2, else 10.
pub open spec fn literal_base(s: Seq<u8>, v: int) -> nat {
    if v + 1 < s.len() && s[v] == 48 {
        if s[v + 1] == 120 { 16 } else if s[v + 1] == 111 { 8 } else if s[v + 1] == 98 { 2 } else { 10 }
    } else {
        10
    }
}

/// The suffix `f32`.
pub open spec fn suffix_f32() -> Seq<u8> {
    seq![102u8, 51u8, 50u8]
}

/// The suffix `f64`.
pub open spec fn suffix_f64() -> Seq<u8> {
    seq![102u8, 54u8, 52u8]
}

/// The integer literal at `v`, as Rust writes them: decimal, or `0x`, `0o`,
/// `0b` with digits of that base, `_` between digits, and an optional
/// identifier suffix such as `u32`, which does not change the value. Its
/// value and end, or `None` when the token there is no integer literal (no
/// digits, a digit too large for its base, or a decimal followed by `.`, an
/// exponent or a float suffix).
pub open spec fn int_literal(s: Seq<u8>, v: int) -> Option<(nat, int)> {
    let base = literal_base(s, v);
    let ds = if base == 10 { v } else { v + 2 };
    let de = digits_end(s, ds, base);
    let se = if 0 <= de < s.len() && is_key_start(s[de]) { key_end(s, de) } else { de };
    let suffix = s.subrange(de, se);
    let (any, below) = digits_ok(s, ds, de, base);
    if !any || !below {
        None
    } else if base == 10 && 0 <= de < s.len() && (s[de] == 46 || s[de] == 101 || s[de] == 69) {
        None
    } else if base == 10 && (suffix == suffix_f32() || suffix == suffix_f64()) {
        None
    } else {
        Some((digits_value(s, ds, de, base), se))
    }
}

/// The end of the digits lies between their start and the end of the text.
pub proof fn lemma_digits_end_bounds(s: Seq<u8>, i: int, base: nat)
    requires
        0 <= i <= s.len(),
    ensures
        i <= digits_end(s, i, base) <= s.len(),
    decreases s.len() - i,
{
    if i < s.len() && is_base_char(s[i], base) {
        lemma_digits_end_bounds(s, i + 1, base);
    }
}

/// An integer literal at `v` ends after `v` and within the text.
pub proof fn lemma_int_literal_bounds(s: Seq<u8>, v: int)
    requires
        0 <= v < s.len(),
        is_digit(s[v]),
    ensures
        int_literal(s, v) matches Some((_, e)) ==> v < e <= s.len(),
{
    let base = literal_base(s, v);
    let ds = if base == 10 { v } else { v + 2 };
    lemma_digits_end_bounds(s, ds, base);
    let de = digits_end(s, ds, base);
    if base == 10 {
        lemma_digits_end_bounds(s, v + 1, base);
    }
    if 0 <= de < s.len() && is_key_start(s[de]) {
        lemma_key_end_bounds(s, de);
    }
}

/// Whether `w` is a Rust keyword (or `_`), which is no identifier.
pub open spec fn is_keyword(w: Seq<u8>) -> bool {
    w == seq![95u8]
        || w == seq![97u8, 98u8, 115u8, 116u8, 114u8, 97u8, 99u8, 116u8]
        || w == seq![97u8, 115u8]
        || w == seq![97u8, 115u8, 121u8, 110u8, 99u8]
        || w == seq![97u8, 119u8, 97u8, 105u8, 116u8]
        || w == seq![98u8, 101u8, 99u8, 111u8, 109u8, 101u8]
        || w == seq![98u8, 111u8, 120u8]
        || w == seq![98u8, 114u8, 101u8, 97u8, 107u8]
        || w == seq![99u8, 111u8, 110u8, 115u8, 116u8]
        || w == seq![99u8, 111u8, 110u8, 116u8, 105u8, 110u8, 117u8, 101u8]
        || w == seq![99u8, 114u8, 97u8, 116u8, 101u8]
        || w == seq![100u8, 111u8]
        || w == seq![100u8, 121u8, 110u8]
        || w == seq![101u8, 108u8, 115u8, 101u8]
        || w == seq![101u8, 110u8, 117u8, 109u8]
        || w == seq![101u8, 120u8, 116u8, 101u8, 114u8, 110u8]
        || w == seq![102u8, 97u8, 108u8, 115u8, 101u8]
        || w == seq![102u8, 105u8, 110u8, 97u8, 108u8]
        || w == seq![102u8, 110u8]
        || w == seq![102u8, 111u8, 114u8]
        || w == seq![105u8, 102u8]
        || w == seq![105u8, 109u8, 112u8, 108u8]
        || w == seq![105u8, 110u8]
        || w == seq![108u8, 101u8, 116u8]
        || w == seq![108u8, 111u8, 111u8, 112u8]
        || w == seq![109u8, 97u8, 99u8, 114u8, 111u8]
        || w == seq![109u8, 97u8, 116u8, 99u8, 104u8]
        || w == seq![109u8, 111u8, 100u8]
        || w == seq![109u8, 111u8, 118u8, 101u8]
        || w == seq![109u8, 117u8, 116u8]
        || w == seq![111u8, 118u8, 101u8, 114u8, 114u8, 105u8, 100u8, 101u8]
        || w == seq![112u8, 114u8, 105u8, 118u8]
        || w == seq![112u8, 117u8, 98u8]
        || w == seq![114u8, 101u8, 102u8]
        || w == seq![114u8, 101u8, 116u8, 117u8, 114u8, 110u8]
        || w == seq![83u8, 101u8, 108u8, 102u8]
        || w == seq![115u8, 101u8, 108u8, 102u8]
        || w == seq![115u8, 116u8, 97u8, 116u8, 105u8, 99u8]
        || w == seq![115u8, 116u8, 114u8, 117u8, 99u8, 116u8]
        || w == seq![115u8, 117u8, 112u8, 101u8, 114u8]
        || w == seq![116u8, 114u8, 97u8, 105u8, 116u8]
        || w == seq![116u8, 114u8, 117u8, 101u8]
        || w == seq![116u8, 114u8, 121u8]
        || w == seq![116u8, 121u8, 112u8, 101u8]
        || w == seq![116u8, 121u8, 112u8, 101u8, 111u8, 102u8]
        || w == seq![117u8, 110u8, 115u8, 97u8, 102u8, 101u8]
        || w == seq![117u8, 110u8, 115u8, 105u8, 122u8, 101u8, 100u8]
        || w == seq![117u8, 115u8, 101u8]
        || w == seq![118u8, 105u8, 114u8, 116u8, 117u8, 97u8, 108u8]
        || w == seq![119u8, 104u8, 101u8, 114u8, 101u8]
        || w == seq![119u8, 104u8, 105u8, 108u8, 101u8]
        || w == seq![121u8, 105u8, 101u8, 108u8, 100u8]
}

/// The key `size`.
pub open spec fn key_size() -> Seq<u8> {
    seq![115u8, 105u8, 122u8, 101u8]
}

/// The key `bpp`.
pub open spec fn key_bpp() -> Seq<u8> {
    seq![98u8, 112u8, 112u8]
}

/// Skipping whitespace moves forward and stays within the input.
pub proof fn lemma_skip_space_bounds(s: Seq<u8>, i: int)
    requires
        0 <= i <= s.len(),
    ensures
        i <= skip_space(s, i) <= s.len(),
    decreases s.len() - i,
{
    if i < s.len() && is_space(s[i]) {
        lemma_skip_space_bounds(s, i + 1);
    }
}

/// A run ends at or after its start and within the input.
pub proof fn lemma_key_end_bounds(s: Seq<u8>, i: int)
    requires
        0 <= i <= s.len(),
    ensures
        i <= key_end(s, i) <= s.len(),
    decreases s.len() - i,
{
    if i < s.len() && is_key_char(s[i]) {
        lemma_key_end_bounds(s, i + 1);
    }
}

// ── The grammar ────────────────────────────────────────────────────────

/// The value one pair sets, given the key `s[k..ke]` and the value `v`.
pub open spec fn apply_pair(key: Seq<u8>, v: nat, size: Option<u32>, bpp: Option<u8>) -> Result<
    (Option<u32>, Option<u8>),
    ArgsError,
> {
    if key == key_size() {
        if v > u32::MAX {
            Err(ArgsError::IntegerTooLarge)
        } else {
            Ok((Some(v as u32), bpp))
        }
    } else if key == key_bpp() {
        if v > 255 {
            Err(ArgsError::IntegerTooLarge)
        } else if v != 1 && v != 2 && v != 4 && v != 8 {
            Err(ArgsError::BadBpp)
        } else {
            Ok((size, Some(v as u8)))
        }
    } else {
        Err(ArgsError::UnknownKey)
    }
}

/// The `key = value` pairs from position `i` to the end, starting from the
/// values `size` and `bpp` found so far.
pub open spec fn parse_pairs(s: Seq<u8>, i: int, size: Option<u32>, bpp: Option<u8>) -> Result<
    (Option<u32>, Option<u8>),
    ArgsError,
>
    decreases s.len() - i,
{
    if i < 0 || i > s.len() {
        Ok((size, bpp))
    } else {
        let k = skip_space(s, i);
        proof {
            lemma_skip_space_bounds(s, i);
        }
        if k >= s.len() {
            Ok((size, bpp))
        } else if !is_key_start(s[k]) {
            Err(ArgsError::ExpectedKey)
        } else {
            let ke = key_end(s, k);
            let e = skip_space(s, ke);
            proof {
                lemma_key_end_bounds(s, k);
                lemma_skip_space_bounds(s, ke);
            }
            if is_keyword(s.subrange(k, ke)) {
                Err(ArgsError::ExpectedKey)
            } else if e >= s.len() || s[e] != EQUALS {
                Err(ArgsError::ExpectedEquals)
            } else {
                let v = skip_space(s, e + 1);
                proof {
                    lemma_skip_space_bounds(s, e + 1);
                }
                if v >= s.len() || !is_digit(s[v]) {
                    Err(ArgsError::ExpectedInteger)
                } else {
                    proof {
                        lemma_int_literal_bounds(s, v);
                    }
                    match int_literal(s, v) {
                        None => Err(ArgsError::ExpectedInteger),
                        Some((val, ve)) => match apply_pair(s.subrange(k, ke), val, size, bpp) {
                            Err(err) => Err(err),
                            Ok((size2, bpp2)) => {
                                let c = skip_space(s, ve);
                                proof {
                                    lemma_skip_space_bounds(s, ve);
                                }
                                let next = if c < s.len() && s[c] == COMMA { c + 1 } else { ve };
                                parse_pairs(s, next, size2, bpp2)
                            },
                        },
                    }
                }
            }
        }
    }
}

/// The path, size and bit depth that the argument text `s` gives, or why
/// it is refused.
pub open spec fn parse_args(s: Seq<u8>) -> Result<(Seq<u8>, u32, u8), ArgsError> {
    let i = skip_space(s, 0);
    if i < 0 || i >= s.len() {
        Err(ArgsError::ExpectedPath)
    } else {
        match path_literal(s, i) {
            None => Err(ArgsError::ExpectedPath),
            Some((path, e)) => {
                let c = skip_space(s, e);
                if c >= s.len() || s[c] != COMMA {
                    Err(ArgsError::ExpectedComma)
                } else {
                    match parse_pairs(s, c + 1, None, None) {
                        Err(err) => Err(err),
                        Ok((None, _)) => Err(ArgsError::MissingSize),
                        Ok((Some(_), None)) => Err(ArgsError::MissingBpp),
                        Ok((Some(size), Some(bpp))) => Ok((path, size, bpp)),
                    }
                }
            },
        }
    }
}

/// One of the bit depths a font can be packed at.
pub open spec fn is_depth(b: u8) -> bool {
    b == 1 || b == 2 || b == 4 || b == 8
}

/// The pairs never set `bpp` to anything but a bit depth.
proof fn lemma_pairs_keep_depth(s: Seq<u8>, i: int, size: Option<u32>, bpp: Option<u8>)
    requires
        bpp matches Some(b) ==> is_depth(b),
    ensures
        parse_pairs(s, i, size, bpp) matches Ok((_, Some(b))) ==> is_depth(b),
    decreases s.len() - i,
{
    if 0 <= i <= s.len() {
        let k = skip_space(s, i);
        lemma_skip_space_bounds(s, i);
        if k < s.len() && is_key_start(s[k]) {
            let ke = key_end(s, k);
            lemma_key_end_bounds(s, k);
            let e = skip_space(s, ke);
            lemma_skip_space_bounds(s, ke);
            if e < s.len() && s[e] == EQUALS {
                let v = skip_space(s, e + 1);
                lemma_skip_space_bounds(s, e + 1);
                if v < s.len() && is_digit(s[v]) {
                    lemma_int_literal_bounds(s, v);
                    if let Some((val, ve)) = int_literal(s, v) {
                        if let Ok((size2, bpp2)) = apply_pair(s.subrange(k, ke), val, size, bpp) {
                            let c = skip_space(s, ve);
                            lemma_skip_space_bounds(s, ve);
                            let next = if c < s.len() && s[c] == COMMA { c + 1 } else { ve };
                            lemma_pairs_keep_depth(s, next, size2, bpp2);
                        }
                    }
                }
            }
        }
    }
}

/// Law: accepted arguments always name a bit depth that fonts can be
/// packed at (1, 2, 4 or 8).
pub proof fn lemma_parsed_depth(s: Seq<u8>)
    ensures
        parse_args(s) matches Ok((_, _, b)) ==> is_depth(b),
{
    let i = skip_space(s, 0);
    if 0 <= i < s.len() {
        if let Some((path, e)) = path_literal(s, i) {
            let c = skip_space(s, e);
            if c < s.len() && s[c] == COMMA {
                lemma_pairs_keep_depth(s, c + 1, None, None);
            }
        }
    }
}

/// Whether `b` is a byte that a plain string literal keeps as it is: not
/// the closing quote, not a backslash, not a carriage return.
pub open spec fn plain_byte(b: u8) -> bool {
    b != 34 && b != 92 && b != 13
}

/// Law: a string literal whose contents are plain bytes (spaces and any
/// other bytes, but no quote, backslash or carriage return) reads as
/// exactly those bytes, and ends just after its closing quote.
pub proof fn lemma_plain_string_kept(s: Seq<u8>, i: int, k: int)
    requires
        0 <= i,
        0 <= k,
        i + k < s.len(),
        forall|j: int| i <= j < i + k ==> plain_byte(#[trigger] s[j]),
        s[i + k] == 34,
    ensures
        scan_string(s, i) == Some((s.subrange(i, i + k), i + k + 1)),
    decreases k,
{
    if k == 0 {
        assert(s.subrange(i, i) =~= Seq::<u8>::empty());
    } else {
        lemma_plain_string_kept(s, i + 1, k - 1);
        assert(plain_byte(s[i]));
        assert(seq![s[i]] + s.subrange(i + 1, i + k) =~= s.subrange(i, i + k));
    }
}

/// Law: arguments that start with a quoted path of plain bytes are either
/// refused or give that path back unchanged, byte for byte.
pub proof fn lemma_plain_path_kept(p: Seq<u8>, rest: Seq<u8>)
    requires
        forall|j: int| 0 <= j < p.len() ==> plain_byte(#[trigger] p[j]),
    ensures
        parse_args(seq![34u8] + p + seq![34u8] + rest) matches Ok((path, _, _)) ==> path == p,
{
    let s = seq![34u8] + p + seq![34u8] + rest;
    assert forall|j: int| 1 <= j < 1 + p.len() implies plain_byte(#[trigger] s[j]) by {
        assert(s[j] == p[j - 1]);
    }
    assert(s[1 + p.len() as int] == 34);
    lemma_plain_string_kept(s, 1, p.len() as int);
    assert(s.subrange(1, 1 + p.len() as int) =~= p);
    assert(skip_space(s, 0) == 0);
}

// ── Executable scanners ────────────────────────────────────────────────

fn space(b: u8) -> (r: bool)
    ensures
        r == is_space(b),
{
    b == 32 || b == 9 || b == 10 || b == 13
}

fn digit(b: u8) -> (r: bool)
    ensures
        r == is_digit(b),
{
    48 <= b && b <= 57
}

fn key_start(b: u8) -> (r: bool)
    ensures
        r == is_key_start(b),
{
    (65 <= b && b <= 90) || (97 <= b && b <= 122) || b == UNDERSCORE
}

fn key_char(b: u8) -> (r: bool)
    ensures
        r == is_key_char(b),
{
    key_start(b) || digit(b)
}

fn unescape_byte(b: u8) -> (r: Option<u8>)
    ensures
        r == unescape(b),
{
    if b == QUOTE || b == BACKSLASH || b == 39 {
        Some(b)
    } else if b == 110 {
        Some(10)
    } else if b == 114 {
        Some(13)
    } else if b == 116 {
        Some(9)
    } else if b == 48 {
        Some(0)
    } else {
        None
    }
}

fn skip_space_at(s: &[u8], i: usize) -> (j: usize)
    requires
        i <= s@.len(),
    ensures
        j == skip_space(s@, i as int),
        i <= j <= s@.len(),
{
    let mut j = i;
    while j < s.len() && space(s[j])
        invariant
            i <= j <= s@.len(),
            skip_space(s@, j as int) == skip_space(s@, i as int),
        decreases s@.len() - j,
    {
        j += 1;
    }
    j
}

fn key_end_at(s: &[u8], i: usize) -> (j: usize)
    requires
        i <= s@.len(),
    ensures
        j == key_end(s@, i as int),
        i <= j <= s@.len(),
{
    let mut j = i;
    while j < s.len() && key_char(s[j])
        invariant
            i <= j <= s@.len(),
            key_end(s@, j as int) == key_end(s@, i as int),
        decreases s@.len() - j,
    {
        j += 1;
    }
    j
}

/// `16` to the power `d`.
pub open spec fn pow16(d: nat) -> nat
    decreases d,
{
    if d == 0 {
        1
    } else {
        16 * pow16((d - 1) as nat)
    }
}

/// The `\u{...}` escape whose `{` is at `a`: its code point and end.
fn unicode_escape_at(s: &[u8], a: usize) -> (r: Option<(u32, usize)>)
    requires
        a <= s@.len(),
    ensures
        match r {
            Some((cp, e)) => unicode_escape(s@, a as int) == Some((cp as nat, e as int)),
            None => unicode_escape(s@, a as int) is None,
        },
{
    if a >= s.len() || s[a] != 123 {
        return None;
    }
    assert(pow16(5) == 0x100000) by {
        reveal_with_fuel(pow16, 6);
    }
    let mut j = a + 1;
    let mut cp: u32 = 0;
    let mut digits: u32 = 0;
    loop
        invariant
            a < j <= s@.len(),
            s@[a as int] == 123,
            digits <= 6,
            cp < pow16(digits as nat),
            pow16(5) == 0x100000,
            unicode_digits(s@, a + 1, 0, 0) == unicode_digits(s@, j as int, cp as nat, digits as nat),
        decreases s@.len() - j,
    {
        if j >= s.len() {
            return None;
        }
        let b = s[j];
        let d = digit_val(b);
        if d < 16 {
            if digits == 6 {
                return None;
            }
            assert(cp < 0x100000) by {
                lemma_pow16_grows(digits as nat, 5);
            }
            assert(cp * 16 + d < pow16((digits + 1) as nat)) by (nonlinear_arith)
                requires cp < pow16(digits as nat), d < 16, pow16((digits + 1) as nat) == 16 * pow16(digits as nat);
            cp = cp * 16 + d;
            digits += 1;
            j += 1;
        } else if b == UNDERSCORE && digits > 0 {
            j += 1;
        } else if b == 125 && digits > 0 {
            if cp <= 0x10FFFF && !(0xD800 <= cp && cp <= 0xDFFF) {
                return Some((cp, j + 1));
            }
            return None;
        } else {
            return None;
        }
    }
}

/// `pow16` grows with its exponent.
proof fn lemma_pow16_grows(d: nat, e: nat)
    requires
        d <= e,
    ensures
        pow16(d) <= pow16(e),
    decreases e - d,
{
    if d < e {
        lemma_pow16_grows(d, (e - 1) as nat);
        assert(pow16((e - 1) as nat) <= pow16(e));
    }
}

/// Append the UTF-8 bytes of code point `cp`.
fn push_utf8(out: &mut Vec<u8>, cp: u32)
    requires
        cp <= 0x10FFFF,
    ensures
        final(out)@ == old(out)@ + utf8(cp as nat),
{
    if cp < 0x80 {
        out.push(cp as u8);
    } else if cp < 0x800 {
        out.push((192 + cp / 64) as u8);
        out.push((128 + cp % 64) as u8);
    } else if cp < 0x10000 {
        out.push((224 + cp / 4096) as u8);
        out.push((128 + (cp / 64) % 64) as u8);
        out.push((128 + cp % 64) as u8);
    } else {
        out.push((240 + cp / 262144) as u8);
        out.push((128 + (cp / 4096) % 64) as u8);
        out.push((128 + (cp / 64) % 64) as u8);
        out.push((128 + cp % 64) as u8);
    }
    assert(final(out)@ =~= old(out)@ + utf8(cp as nat));
}

fn scan_string_at(s: &[u8], i: usize) -> (r: Option<(Vec<u8>, usize)>)
    requires
        i <= s@.len(),
    ensures
        match r {
            Some((v, e)) => scan_string(s@, i as int) == Some((v@, e as int)) && e <= s@.len(),
            None => scan_string(s@, i as int) is None,
        },
{
    let mut out: Vec<u8> = Vec::new();
    let mut j = i;
    loop
        invariant
            i <= j <= s@.len(),
            scan_string(s@, i as int) == match scan_string(s@, j as int) {
                Some((v, e)) => Some((out@ + v, e)),
                None => None,
            },
        decreases s@.len() - j,
    {
        if j >= s.len() {
            return None;
        }
        let b = s[j];
        if b == QUOTE {
            assert(out@ + Seq::<u8>::empty() =~= out@);
            return Some((out, j + 1));
        }
        let ghost before = out@;
        if b == BACKSLASH {
            if s.len() - j < 2 {
                return None;
            }
            let b1 = s[j + 1];
            match unescape_byte(b1) {
                Some(c) => {
                    out.push(c);
                    proof {
                        if let Some((v, e)) = scan_string(s@, j + 2) {
                            assert(before + (seq![c] + v) =~= out@ + v);
                        }
                    }
                    j += 2;
                },
                None => {
                    if b1 == 120 {
                        if s.len() - j > 3 && digit_val(s[j + 2]) < 8 && digit_val(s[j + 3]) < 16 {
                            let c = (digit_val(s[j + 2]) * 16 + digit_val(s[j + 3])) as u8;
                            out.push(c);
                            proof {
                                if let Some((v, e)) = scan_string(s@, j + 4) {
                                    assert(before + (seq![c] + v) =~= out@ + v);
                                }
                            }
                            j += 4;
                        } else {
                            return None;
                        }
                    } else if b1 == 117 {
                        proof {
                            lemma_unicode_digits_end(s@, j + 3, 0, 0);
                        }
                        match unicode_escape_at(s, j + 2) {
                            None => {
                                return None;
                            },
                            Some((cp, e)) => {
                                push_utf8(&mut out, cp);
                                proof {
                                    if let Some((v, e2)) = scan_string(s@, e as int) {
                                        assert(before + (utf8(cp as nat) + v) =~= out@ + v);
                                    }
                                }
                                j = e;
                            },
                        }
                    } else if b1 == 10 || b1 == 13 {
                        j = skip_space_at(s, j + 2);
                    } else {
                        return None;
                    }
                },
            }
        } else if b == 13 {
            if s.len() - j > 1 && s[j + 1] == 10 {
                out.push(10);
                proof {
                    if let Some((v, e)) = scan_string(s@, j + 2) {
                        assert(before + (seq![10u8] + v) =~= out@ + v);
                    }
                }
                j += 2;
            } else {
                return None;
            }
        } else {
            out.push(b);
            proof {
                if let Some((v, e)) = scan_string(s@, j + 1) {
                    assert(before + (seq![b] + v) =~= out@ + v);
                }
            }
            j += 1;
        }
    }
}

/// Whether the `n` bytes from `a` are all `#`.
fn hashes_at_exec(s: &[u8], a: usize, n: usize) -> (r: bool)
    requires
        a <= s@.len(),
    ensures
        r == hashes_at(s@, a as int, n as int),
{
    let len = s.len();
    if len - a < n {
        return false;
    }
    let mut t: usize = 0;
    while t < n
        invariant
            len == s@.len(),
            a + n <= len,
            0 <= t <= n,
            forall|u: int| a <= u < a + t ==> s@[u] == 35,
        decreases n - t,
    {
        if s[a + t] != 35 {
            return false;
        }
        t += 1;
    }
    true
}

/// The bytes `s[a..b]`.
fn copy_range(s: &[u8], a: usize, b: usize) -> (v: Vec<u8>)
    requires
        a <= b <= s@.len(),
    ensures
        v@ == s@.subrange(a as int, b as int),
{
    let mut v: Vec<u8> = Vec::new();
    let mut t = a;
    while t < b
        invariant
            a <= t <= b,
            b <= s@.len(),
            v@ == s@.subrange(a as int, t as int),
        decreases b - t,
    {
        v.push(s[t]);
        t += 1;
        assert(v@ =~= s@.subrange(a as int, t as int));
    }
    v
}

fn scan_raw_string_at(s: &[u8], i: usize) -> (r: Option<(Vec<u8>, usize)>)
    requires
        i <= s@.len(),
    ensures
        match r {
            Some((v, e)) => scan_raw_string(s@, i as int) == Some((v@, e as int)) && e <= s@.len(),
            None => scan_raw_string(s@, i as int) is None,
        },
{
    let mut he = i;
    while he < s.len() && s[he] == 35
        invariant
            i <= he <= s@.len(),
            hash_end(s@, he as int) == hash_end(s@, i as int),
        decreases s@.len() - he,
    {
        he += 1;
    }
    let n = he - i;
    if n > 255 || he >= s.len() || s[he] != QUOTE {
        return None;
    }
    let mut j = he + 1;
    loop
        invariant
            i <= he < j <= s@.len(),
            n == he - i,
            n <= 255,
            hash_end(s@, i as int) == he,
            s@[he as int] == QUOTE,
            raw_close(s@, he + 1, n as int) == raw_close(s@, j as int, n as int),
        decreases s@.len() - j,
    {
        if j >= s.len() {
            return None;
        }
        if s[j] == QUOTE && hashes_at_exec(s, j + 1, n) {
            let v = copy_range(s, he + 1, j);
            return Some((v, j + 1 + n));
        }
        j += 1;
    }
}

fn digit_val(b: u8) -> (r: u32)
    ensures
        r == digit_value(b),
{
    if 48 <= b && b <= 57 {
        (b - 48) as u32
    } else if 97 <= b && b <= 102 {
        (b - 87) as u32
    } else if 65 <= b && b <= 70 {
        (b - 55) as u32
    } else {
        99
    }
}

fn base_char(b: u8, base: u32) -> (r: bool)
    ensures
        r == is_base_char(b, base as nat),
{
    b == UNDERSCORE || (if base == 16 { digit_val(b) < 16 } else { digit(b) })
}

/// Whether `s[k..ke]` is the three bytes `a`, `b`, `c`.
fn is_word3(s: &[u8], k: usize, ke: usize, a: u8, b: u8, c: u8) -> (r: bool)
    requires
        k <= ke <= s@.len(),
    ensures
        r == (s@.subrange(k as int, ke as int) == seq![a, b, c]),
{
    let r = ke - k == 3 && s[k] == a && s[k + 1] == b && s[k + 2] == c;
    proof {
        let w = s@.subrange(k as int, ke as int);
        if r {
            assert(w =~= seq![a, b, c]);
        } else if w == seq![a, b, c] {
            assert(w.len() == 3 && w[0] == a && w[1] == b && w[2] == c);
        }
    }
    r
}

/// The integer literal at `v`: its end, and its value when that fits in
/// `u32`; `None` when the token is no integer literal.
fn int_literal_at(s: &[u8], v: usize) -> (r: Option<(Option<u32>, usize)>)
    requires
        v < s@.len(),
    ensures
        match r {
            None => int_literal(s@, v as int) is None,
            Some((val, e)) => int_literal(s@, v as int) matches Some((n, e2)) && e2 == e && (val matches Some(
                x,
            ) ==> x == n) && (val is None ==> n > u32::MAX),
        },
{
    let base: u32 = if s.len() - v > 1 && s[v] == 48 {
        if s[v + 1] == 120 {
            16
        } else if s[v + 1] == 111 {
            8
        } else if s[v + 1] == 98 {
            2
        } else {
            10
        }
    } else {
        10
    };
    assert(base as nat == literal_base(s@, v as int));
    let ds = if base == 10 { v } else { v + 2 };
    let mut j = ds;
    let mut acc: Option<u32> = Some(0);
    let mut any = false;
    let mut below = true;
    while j < s.len() && base_char(s[j], base)
        invariant
            ds <= j <= s@.len(),
            2 <= base <= 16,
            digits_end(s@, j as int, base as nat) == digits_end(s@, ds as int, base as nat),
            (any, below) == digits_ok(s@, ds as int, j as int, base as nat),
            acc matches Some(a) ==> a == digits_value(s@, ds as int, j as int, base as nat),
            acc is None ==> digits_value(s@, ds as int, j as int, base as nat) > u32::MAX,
        decreases s@.len() - j,
    {
        let b = s[j];
        if b != UNDERSCORE {
            let d = digit_val(b);
            any = true;
            below = below && d < base;
            let ghost prev = digits_value(s@, ds as int, j as int, base as nat);
            assert(digits_value(s@, ds as int, j + 1, base as nat) == prev * (base as nat) + digit_value(b));
            assert(prev <= prev * (base as nat) + digit_value(b)) by (nonlinear_arith)
                requires base >= 2;
            acc = match acc {
                Some(a) => match a.checked_mul(base) {
                    Some(m) => m.checked_add(d),
                    None => None,
                },
                None => None,
            };
        }
        j += 1;
    }
    let de = j;
    if !any || !below {
        return None;
    }
    if base == 10 && de < s.len() && (s[de] == 46 || s[de] == 101 || s[de] == 69) {
        return None;
    }
    let se = if de < s.len() && key_start(s[de]) { key_end_at(s, de) } else { de };
    if base == 10 && (is_word3(s, de, se, 102, 51, 50) || is_word3(s, de, se, 102, 54, 52)) {
        return None;
    }
    Some((acc, se))
}

/// Whether `s[k..ke]` is the bytes of `w`.
fn word_eq(s: &[u8], k: usize, ke: usize, w: &[u8]) -> (r: bool)
    requires
        k <= ke <= s@.len(),
    ensures
        r == (s@.subrange(k as int, ke as int) == w@),
{
    if ke - k != w.len() {
        return false;
    }
    let mut t: usize = 0;
    while t < w.len()
        invariant
            k <= ke <= s@.len(),
            ke - k == w@.len(),
            0 <= t <= w@.len(),
            forall|u: int| 0 <= u < t ==> s@[k + u] == w@[u],
        decreases w@.len() - t,
    {
        if s[k + t] != w[t] {
            assert(s@.subrange(k as int, ke as int)[t as int] != w@[t as int]);
            return false;
        }
        t += 1;
    }
    assert(s@.subrange(k as int, ke as int) =~= w@);
    true
}

/// Whether `s[k..ke]` is a Rust keyword (or `_`).
fn keyword_at(s: &[u8], k: usize, ke: usize) -> (r: bool)
    requires
        k <= ke <= s@.len(),
    ensures
        r == is_keyword(s@.subrange(k as int, ke as int)),
{
    let w: [u8; 1] = [95];
    assert(w@ == seq![95u8]);
    if word_eq(s, k, ke, &w) {
        return true;
    }
    let w: [u8; 8] = [97, 98, 115, 116, 114, 97, 99, 116];
    assert(w@ == seq![97u8, 98u8, 115u8, 116u8, 114u8, 97u8, 99u8, 116u8]);
    if word_eq(s, k, ke, &w) {
        return true;
    }
    let w: [u8; 2] = [97, 115];
    assert(w@ == seq![97u8, 115u8]);
    if word_eq(s, k, ke, &w) {
        return true;
    }
    let w: [u8; 5] = [97, 115, 121, 110, 99];
    assert(w@ == seq![97u8, 115u8, 121u8, 110u8, 99u8]);
    if word_eq(s, k, ke, &w) {
        return true;
    }
    let w: [u8; 5] = [97, 119, 97, 105, 116];
    assert(w@ == seq![97u8, 119u8, 97u8, 105u8, 116u8]);
    if word_eq(s, k, ke, &w) {
        return true;
    }
    let w: [u8; 6] = [98, 101, 99, 111, 109, 101];
    assert(w@ == seq![98u8, 101u8, 99u8, 111u8, 109u8, 101u8]);
    if word_eq(s, k, ke, &w) {
        return true;
    }
    let w: [u8; 3] = [98, 111, 120];
    assert(w@ == seq![98u8, 111u8, 120u8]);
    if word_eq(s, k, ke, &w) {
        return true;
    }
    let w: [u8; 5] = [98, 114, 101, 97, 107];
    assert(w@ == seq![98u8, 114u8, 101u8, 97u8, 107u8]);
    if word_eq(s, k, ke, &w) {
        return true;
    }
    let w: [u8; 5] = [99, 111, 110, 115, 116];
    assert(w@ == seq![99u8, 111u8, 110u8, 115u8, 116u8]);
    if word_eq(s, k, ke, &w) {
        return true;
    }
    let w: [u8; 8] = [99, 111, 110, 116, 105, 110, 117, 101];
    assert(w@ == seq![99u8, 111u8, 110u8, 116u8, 105u8, 110u8, 117u8, 101u8]);
    if word_eq(s, k, ke, &w) {
        return true;
    }
    let w: [u8; 5] = [99, 114, 97, 116, 101];
    assert(w@ == seq![99u8, 114u8, 97u8, 116u8, 101u8]);
    if word_eq(s, k, ke, &w) {
        return true;
    }
    let w: [u8; 2] = [100, 111];
    assert(w@ == seq![100u8, 111u8]);
    if word_eq(s, k, ke, &w) {
        return true;
    }
    let w: [u8; 3] = [100, 121, 110];
    assert(w@ == seq![100u8, 121u8, 110u8]);
    if word_eq(s, k, ke, &w) {
        return true;
    }
    let w: [u8; 4] = [101, 108, 115, 101];
    assert(w@ == seq![101u8, 108u8, 115u8, 101u8]);
    if word_eq(s, k, ke, &w) {
        return true;
    }
    let w: [u8; 4] = [101, 110, 117, 109];
    assert(w@ == seq![101u8, 110u8, 117u8, 109u8]);
    if word_eq(s, k, ke, &w) {
        return true;
    }
    let w: [u8; 6] = [101, 120, 116, 101, 114, 110];
    assert(w@ == seq![101u8, 120u8, 116u8, 101u8, 114u8, 110u8]);
    if word_eq(s, k, ke, &w) {
        return true;
    }
    let w: [u8; 5] = [102, 97, 108, 115, 101];
    assert(w@ == seq![102u8, 97u8, 108u8, 115u8, 101u8]);
    if word_eq(s, k, ke, &w) {
        return true;
    }
    let w: [u8; 5] = [102, 105, 110, 97, 108];
    assert(w@ == seq![102u8, 105u8, 110u8, 97u8, 108u8]);
    if word_eq(s, k, ke, &w) {
        return true;
    }
    let w: [u8; 2] = [102, 110];
    assert(w@ == seq![102u8, 110u8]);
    if word_eq(s, k, ke, &w) {
        return true;
    }
    let w: [u8; 3] = [102, 111, 114];
    assert(w@ == seq![102u8, 111u8, 114u8]);
    if word_eq(s, k, ke, &w) {
        return true;
    }
    let w: [u8; 2] = [105, 102];
    assert(w@ == seq![105u8, 102u8]);
    if word_eq(s, k, ke, &w) {
        return true;
    }
    let w: [u8; 4] = [105, 109, 112, 108];
    assert(w@ == seq![105u8, 109u8, 112u8, 108u8]);
    if word_eq(s, k, ke, &w) {
        return true;
    }
    let w: [u8; 2] = [105, 110];
    assert(w@ == seq![105u8, 110u8]);
    if word_eq(s, k, ke, &w) {
        return true;
    }
    let w: [u8; 3] = [108, 101, 116];
    assert(w@ == seq![108u8, 101u8, 116u8]);
    if word_eq(s, k, ke, &w) {
        return true;
    }
    let w: [u8; 4] = [108, 111, 111, 112];
    assert(w@ == seq![108u8, 111u8, 111u8, 112u8]);
    if word_eq(s, k, ke, &w) {
        return true;
    }
    let w: [u8; 5] = [109, 97, 99, 114, 111];
    assert(w@ == seq![109u8, 97u8, 99u8, 114u8, 111u8]);
    if word_eq(s, k, ke, &w) {
        return true;
    }
    let w: [u8; 5] = [109, 97, 116, 99, 104];
    assert(w@ == seq![109u8, 97u8, 116u8, 99u8, 104u8]);
    if word_eq(s, k, ke, &w) {
        return true;
    }
    let w: [u8; 3] = [109, 111, 100];
    assert(w@ == seq![109u8, 111u8, 100u8]);
    if word_eq(s, k, ke, &w) {
        return true;
    }
    let w: [u8; 4] = [109, 111, 118, 101];
    assert(w@ == seq![109u8, 111u8, 118u8, 101u8]);
    if word_eq(s, k, ke, &w) {
        return true;
    }
    let w: [u8; 3] = [109, 117, 116];
    assert(w@ == seq![109u8, 117u8, 116u8]);
    if word_eq(s, k, ke, &w) {
        return true;
    }
    let w: [u8; 8] = [111, 118, 101, 114, 114, 105, 100, 101];
    assert(w@ == seq![111u8, 118u8, 101u8, 114u8, 114u8, 105u8, 100u8, 101u8]);
    if word_eq(s, k, ke, &w) {
        return true;
    }
    let w: [u8; 4] = [112, 114, 105, 118];
    assert(w@ == seq![112u8, 114u8, 105u8, 118u8]);
    if word_eq(s, k, ke, &w) {
        return true;
    }
    let w: [u8; 3] = [112, 117, 98];
    assert(w@ == seq![112u8, 117u8, 98u8]);
    if word_eq(s, k, ke, &w) {
        return true;
    }
    let w: [u8; 3] = [114, 101, 102];
    assert(w@ == seq![114u8, 101u8, 102u8]);
    if word_eq(s, k, ke, &w) {
        return true;
    }
    let w: [u8; 6] = [114, 101, 116, 117, 114, 110];
    assert(w@ == seq![114u8, 101u8, 116u8, 117u8, 114u8, 110u8]);
    if word_eq(s, k, ke, &w) {
        return true;
    }
    let w: [u8; 4] = [83, 101, 108, 102];
    assert(w@ == seq![83u8, 101u8, 108u8, 102u8]);
    if word_eq(s, k, ke, &w) {
        return true;
    }
    let w: [u8; 4] = [115, 101, 108, 102];
    assert(w@ == seq![115u8, 101u8, 108u8, 102u8]);
    if word_eq(s, k, ke, &w) {
        return true;
    }
    let w: [u8; 6] = [115, 116, 97, 116, 105, 99];
    assert(w@ == seq![115u8, 116u8, 97u8, 116u8, 105u8, 99u8]);
    if word_eq(s, k, ke, &w) {
        return true;
    }
    let w: [u8; 6] = [115, 116, 114, 117, 99, 116];
    assert(w@ == seq![115u8, 116u8, 114u8, 117u8, 99u8, 116u8]);
    if word_eq(s, k, ke, &w) {
        return true;
    }
    let w: [u8; 5] = [115, 117, 112, 101, 114];
    assert(w@ == seq![115u8, 117u8, 112u8, 101u8, 114u8]);
    if word_eq(s, k, ke, &w) {
        return true;
    }
    let w: [u8; 5] = [116, 114, 97, 105, 116];
    assert(w@ == seq![116u8, 114u8, 97u8, 105u8, 116u8]);
    if word_eq(s, k, ke, &w) {
        return true;
    }
    let w: [u8; 4] = [116, 114, 117, 101];
    assert(w@ == seq![116u8, 114u8, 117u8, 101u8]);
    if word_eq(s, k, ke, &w) {
        return true;
    }
    let w: [u8; 3] = [116, 114, 121];
    assert(w@ == seq![116u8, 114u8, 121u8]);
    if word_eq(s, k, ke, &w) {
        return true;
    }
    let w: [u8; 4] = [116, 121, 112, 101];
    assert(w@ == seq![116u8, 121u8, 112u8, 101u8]);
    if word_eq(s, k, ke, &w) {
        return true;
    }
    let w: [u8; 6] = [116, 121, 112, 101, 111, 102];
    assert(w@ == seq![116u8, 121u8, 112u8, 101u8, 111u8, 102u8]);
    if word_eq(s, k, ke, &w) {
        return true;
    }
    let w: [u8; 6] = [117, 110, 115, 97, 102, 101];
    assert(w@ == seq![117u8, 110u8, 115u8, 97u8, 102u8, 101u8]);
    if word_eq(s, k, ke, &w) {
        return true;
    }
    let w: [u8; 7] = [117, 110, 115, 105, 122, 101, 100];
    assert(w@ == seq![117u8, 110u8, 115u8, 105u8, 122u8, 101u8, 100u8]);
    if word_eq(s, k, ke, &w) {
        return true;
    }
    let w: [u8; 3] = [117, 115, 101];
    assert(w@ == seq![117u8, 115u8, 101u8]);
    if word_eq(s, k, ke, &w) {
        return true;
    }
    let w: [u8; 7] = [118, 105, 114, 116, 117, 97, 108];
    assert(w@ == seq![118u8, 105u8, 114u8, 116u8, 117u8, 97u8, 108u8]);
    if word_eq(s, k, ke, &w) {
        return true;
    }
    let w: [u8; 5] = [119, 104, 101, 114, 101];
    assert(w@ == seq![119u8, 104u8, 101u8, 114u8, 101u8]);
    if word_eq(s, k, ke, &w) {
        return true;
    }
    let w: [u8; 5] = [119, 104, 105, 108, 101];
    assert(w@ == seq![119u8, 104u8, 105u8, 108u8, 101u8]);
    if word_eq(s, k, ke, &w) {
        return true;
    }
    let w: [u8; 5] = [121, 105, 101, 108, 100];
    assert(w@ == seq![121u8, 105u8, 101u8, 108u8, 100u8]);
    if word_eq(s, k, ke, &w) {
        return true;
    }
    false
}

/// Whether `s[k..ke]` is the word `size`.
fn is_size_key(s: &[u8], k: usize, ke: usize) -> (r: bool)
    requires
        k <= ke <= s@.len(),
    ensures
        r == (s@.subrange(k as int, ke as int) == key_size()),
{
    let r = ke - k == 4 && s[k] == 115 && s[k + 1] == 105 && s[k + 2] == 122 && s[k + 3] == 101;
    proof {
        let w = s@.subrange(k as int, ke as int);
        if r {
            assert(w =~= key_size());
        } else if w == key_size() {
            assert(w.len() == 4 && w[0] == 115 && w[1] == 105 && w[2] == 122 && w[3] == 101);
        }
    }
    r
}

/// Whether `s[k..ke]` is the word `bpp`.
fn is_bpp_key(s: &[u8], k: usize, ke: usize) -> (r: bool)
    requires
        k <= ke <= s@.len(),
    ensures
        r == (s@.subrange(k as int, ke as int) == key_bpp()),
{
    let r = ke - k == 3 && s[k] == 98 && s[k + 1] == 112 && s[k + 2] == 112;
    proof {
        let w = s@.subrange(k as int, ke as int);
        if r {
            assert(w =~= key_bpp());
        } else if w == key_bpp() {
            assert(w.len() == 3 && w[0] == 98 && w[1] == 112 && w[2] == 112);
        }
    }
    r
}

/// The `key = value` pairs from `start` to the end of `s`.
fn parse_pairs_at(s: &[u8], start: usize) -> (r: Result<(Option<u32>, Option<u8>), ArgsError>)
    requires
        start <= s@.len(),
    ensures
        r == parse_pairs(s@, start as int, None, None),
{
    let mut i = start;
    let mut size: Option<u32> = None;
    let mut bpp: Option<u8> = None;
    loop
        invariant
            i <= s@.len(),
            parse_pairs(s@, start as int, None, None) == parse_pairs(s@, i as int, size, bpp),
        decreases s@.len() - i,
    {
        let k = skip_space_at(s, i);
        if k >= s.len() {
            return Ok((size, bpp));
        }
        if !key_start(s[k]) {
            return Err(ArgsError::ExpectedKey);
        }
        let ke = key_end_at(s, k);
        if keyword_at(s, k, ke) {
            return Err(ArgsError::ExpectedKey);
        }
        let e = skip_space_at(s, ke);
        if e >= s.len() || s[e] != EQUALS {
            return Err(ArgsError::ExpectedEquals);
        }
        let v = skip_space_at(s, e + 1);
        if v >= s.len() || !digit(s[v]) {
            return Err(ArgsError::ExpectedInteger);
        }
        proof {
            lemma_key_end_bounds(s@, k + 1);
            lemma_int_literal_bounds(s@, v as int);
        }
        let (val, ve) = match int_literal_at(s, v) {
            None => {
                return Err(ArgsError::ExpectedInteger);
            },
            Some(found) => found,
        };
        if is_size_key(s, k, ke) {
            match val {
                None => {
                    return Err(ArgsError::IntegerTooLarge);
                },
                Some(x) => {
                    size = Some(x);
                },
            }
        } else if is_bpp_key(s, k, ke) {
            match val {
                None => {
                    return Err(ArgsError::IntegerTooLarge);
                },
                Some(x) => {
                    if x > 255 {
                        return Err(ArgsError::IntegerTooLarge);
                    } else if x != 1 && x != 2 && x != 4 && x != 8 {
                        return Err(ArgsError::BadBpp);
                    }
                    bpp = Some(x as u8);
                },
            }
        } else {
            return Err(ArgsError::UnknownKey);
        }
        let c = skip_space_at(s, ve);
        i = if c < s.len() && s[c] == COMMA { c + 1 } else { ve };
    }
}

impl IncludeFontArgs {
    /// Parse font arguments such as `"fonts/din.otf", size = 16, bpp = 4`.
    pub fn parse(input: &[u8]) -> (r: Result<IncludeFontArgs, ArgsError>)
        ensures
            match r {
                Ok(a) => parse_args(input@) == Ok::<(Seq<u8>, u32, u8), ArgsError>((a.path@, a.size, a.bpp)),
                Err(e) => parse_args(input@) == Err::<(Seq<u8>, u32, u8), ArgsError>(e),
            },
            r matches Ok(a) ==> is_depth(a.bpp),
    {
        proof {
            lemma_parsed_depth(input@);
        }
        let s = input;
        let i = skip_space_at(s, 0);
        if i >= s.len() {
            return Err(ArgsError::ExpectedPath);
        }
        let found = if s[i] == QUOTE {
            scan_string_at(s, i + 1)
        } else if s[i] == 114 {
            scan_raw_string_at(s, i + 1)
        } else {
            None
        };
        let (path, e) = match found {
            None => {
                return Err(ArgsError::ExpectedPath);
            },
            Some(found) => found,
        };
        let c = skip_space_at(s, e);
        if c >= s.len() || s[c] != COMMA {
            return Err(ArgsError::ExpectedComma);
        }
        match parse_pairs_at(s, c + 1) {
            Err(err) => Err(err),
            Ok((None, _)) => Err(ArgsError::MissingSize),
            Ok((Some(_), None)) => Err(ArgsError::MissingBpp),
            Ok((Some(size), Some(bpp))) => Ok(IncludeFontArgs { path, size, bpp }),
        }
    }
}

} // verus!
