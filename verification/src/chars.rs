//! Character-level helpers shared by the lexer, the parsers and the
//! encoder: classification of single characters, comparison of character
//! vectors against string slices, and numeric literal parsing.

use vstd::prelude::*;
use vstd::string::StringExecFns;

verus! {

/// Decimal digit, `'0'..='9'`.
pub open spec fn spec_is_digit(c: char) -> bool {
    48 <= c as u32 <= 57
}

pub fn is_digit(c: char) -> (b: bool)
    ensures
        b == spec_is_digit(c),
{
    let u = c as u32;
    48 <= u && u <= 57
}

/// ASCII letter. The lexer's character classes are deliberately ASCII:
/// a non-ASCII letter does not join an identifier run and becomes an
/// Unknown token instead.
pub open spec fn spec_is_alpha(c: char) -> bool {
    (65 <= c as u32 <= 90) || (97 <= c as u32 <= 122)
}

pub fn is_alpha(c: char) -> (b: bool)
    ensures
        b == spec_is_alpha(c),
{
    let u = c as u32;
    (65 <= u && u <= 90) || (97 <= u && u <= 122)
}

/// ASCII letter or decimal digit.
pub open spec fn spec_is_alnum(c: char) -> bool {
    spec_is_alpha(c) || spec_is_digit(c)
}

pub fn is_alnum(c: char) -> (b: bool)
    ensures
        b == spec_is_alnum(c),
{
    is_alpha(c) || is_digit(c)
}

/// Hexadecimal digit.
pub open spec fn spec_is_hex_digit(c: char) -> bool {
    spec_is_digit(c) || (97 <= c as u32 <= 102) || (65 <= c as u32 <= 70)
}

pub fn is_hex_digit(c: char) -> (b: bool)
    ensures
        b == spec_is_hex_digit(c),
{
    let u = c as u32;
    is_digit(c) || (97 <= u && u <= 102) || (65 <= u && u <= 70)
}

/// Horizontal whitespace: everything the lexer skips except a newline.
/// Deliberately the ASCII set; a non-ASCII space is not skipped and
/// becomes an Unknown token.
pub open spec fn spec_is_hspace(c: char) -> bool {
    c == ' ' || c == '\t' || c == '\r' || c as u32 == 11 || c as u32 == 12
}

pub fn is_hspace(c: char) -> (b: bool)
    ensures
        b == spec_is_hspace(c),
{
    let u = c as u32;
    c == ' ' || c == '\t' || c == '\r' || u == 11 || u == 12
}

/// Numeric value of a digit character in some radix; meaningful only for
/// characters accepted by the radix in question.
pub open spec fn spec_digit_value(c: char) -> u32 {
    if 48 <= c as u32 <= 57 {
        (c as u32 - 48) as u32
    } else if 97 <= c as u32 <= 122 {
        (c as u32 - 87) as u32
    } else if 65 <= c as u32 <= 90 {
        (c as u32 - 55) as u32
    } else {
        0
    }
}

pub fn digit_value(c: char) -> (v: u32)
    ensures
        v == spec_digit_value(c),
{
    let u = c as u32;
    if 48 <= u && u <= 57 {
        u - 48
    } else if 97 <= u && u <= 122 {
        u - 87
    } else if 65 <= u && u <= 90 {
        u - 55
    } else {
        0
    }
}

/// ASCII lower-casing of one character.
pub open spec fn spec_lower_char(c: char) -> char {
    if 65 <= c as u32 <= 90 {
        ((c as u32 + 32) as u8) as char
    } else {
        c
    }
}

pub fn lower_char(c: char) -> (r: char)
    ensures
        r == spec_lower_char(c),
{
    let u = c as u32;
    if 65 <= u && u <= 90 {
        ((u + 32) as u8) as char
    } else {
        c
    }
}

/// ASCII lower-casing of a character sequence.
pub open spec fn spec_lower(s: Seq<char>) -> Seq<char> {
    s.map_values(|c: char| spec_lower_char(c))
}

pub fn lower(v: &Vec<char>) -> (r: Vec<char>)
    ensures
        r@ == spec_lower(v@),
{
    let mut out: Vec<char> = Vec::new();
    let mut i: usize = 0;
    while i < v.len()
        invariant
            i <= v.len(),
            out@ == spec_lower(v@).subrange(0, i as int),
        decreases v.len() - i,
    {
        out.push(lower_char(v[i]));
        i = i + 1;
        assert(out@ =~= spec_lower(v@).subrange(0, i as int));
    }
    assert(out@ =~= spec_lower(v@));
    out
}

/// Element-wise copy of a character vector.
pub fn copy_chars(v: &Vec<char>) -> (r: Vec<char>)
    ensures
        r@ == v@,
{
    let mut out: Vec<char> = Vec::new();
    let mut i: usize = 0;
    while i < v.len()
        invariant
            i <= v.len(),
            out@ == v@.subrange(0, i as int),
        decreases v.len() - i,
    {
        out.push(v[i]);
        i = i + 1;
        assert(out@ =~= v@.subrange(0, i as int));
    }
    assert(out@ =~= v@);
    out
}

/// Compares a character vector against a string slice.
pub fn str_eq(v: &Vec<char>, s: &str) -> (b: bool)
    ensures
        b == (v@ == s@),
{
    let n = s.unicode_len();
    if v.len() != n {
        assert(v@.len() != s@.len());
        return false;
    }
    let mut i: usize = 0;
    while i < n
        invariant
            n == s@.len(),
            v@.len() == n,
            i <= n,
            forall|j: int| 0 <= j < i ==> v@[j] == s@[j],
        decreases n - i,
    {
        if v[i] != s.get_char(i) {
            assert(v@ != s@);
            return false;
        }
        i = i + 1;
    }
    assert(v@ =~= s@);
    true
}

/// Compares two character vectors.
pub fn chars_eq(a: &Vec<char>, b: &Vec<char>) -> (r: bool)
    ensures
        r == (a@ == b@),
{
    if a.len() != b.len() {
        assert(a@.len() != b@.len());
        return false;
    }
    let mut i: usize = 0;
    while i < a.len()
        invariant
            a@.len() == b@.len(),
            i <= a@.len(),
            forall|j: int| 0 <= j < i ==> a@[j] == b@[j],
        decreases a.len() - i,
    {
        if a[i] != b[i] {
            assert(a@ != b@);
            return false;
        }
        i = i + 1;
    }
    assert(a@ =~= b@);
    true
}

/// Collects the characters of a string slice into a vector.
pub fn str_to_chars(s: &str) -> (r: Vec<char>)
    ensures
        r@ == s@,
{
    let n = s.unicode_len();
    let mut out: Vec<char> = Vec::new();
    let mut i: usize = 0;
    while i < n
        invariant
            n == s@.len(),
            i <= n,
            out@ == s@.subrange(0, i as int),
        decreases n - i,
    {
        out.push(s.get_char(i));
        i = i + 1;
        assert(out@ =~= s@.subrange(0, i as int));
    }
    assert(out@ =~= s@);
    out
}

/// A digit character acceptable in the given radix.
pub open spec fn spec_radix_digit_ok(c: char, radix: u32) -> bool {
    if radix == 16 {
        spec_is_hex_digit(c)
    } else {
        spec_is_digit(c) && spec_digit_value(c) < radix
    }
}

/// Value of the digit run `s[i..]` in the given radix, continuing from
/// accumulator `acc`; `None` on a bad digit or u64 overflow.
pub open spec fn spec_radix_value(s: Seq<char>, radix: u32, i: int, acc: u64) -> Option<u64>
    decreases s.len() - i,
{
    if i < 0 || i >= s.len() {
        Some(acc)
    } else if !spec_radix_digit_ok(s[i], radix) {
        None
    } else {
        let v = acc as int * radix as int + spec_digit_value(s[i]) as int;
        if v > u64::MAX as int {
            None
        } else {
            spec_radix_value(s, radix, i + 1, v as u64)
        }
    }
}

/// Value of the whole digit run `s[start..]`; `None` when it is empty.
pub open spec fn spec_parse_radix(s: Seq<char>, radix: u32, start: int) -> Option<u64> {
    if start >= s.len() {
        None
    } else {
        spec_radix_value(s, radix, start, 0)
    }
}

/// Parses the digit run `v[start..]` in the given radix.
pub fn parse_radix(v: &Vec<char>, radix: u32, start: usize) -> (r: Option<u64>)
    requires
        2 <= radix <= 16,
    ensures
        r == spec_parse_radix(v@, radix, start as int),
{
    if start >= v.len() {
        return None;
    }
    let mut i: usize = start;
    let mut acc: u64 = 0;
    while i < v.len()
        invariant
            start <= i <= v@.len(),
            2 <= radix <= 16,
            spec_radix_value(v@, radix, start as int, 0) == spec_radix_value(
                v@,
                radix,
                i as int,
                acc,
            ),
        decreases v.len() - i,
    {
        let c = v[i];
        let ok = if radix == 16 {
            is_hex_digit(c)
        } else {
            is_digit(c) && digit_value(c) < radix
        };
        if !ok {
            return None;
        }
        let d = digit_value(c);
        proof {
            assert(acc as int * radix as int <= u64::MAX as int * 16) by (nonlinear_arith)
                requires
                    acc <= u64::MAX,
                    radix <= 16,
            ;
        }
        let wide: u128 = acc as u128 * radix as u128 + d as u128;
        if wide > u64::MAX as u128 {
            return None;
        }
        acc = wide as u64;
        i = i + 1;
    }
    Some(acc)
}

/// The numeric literal grammar of instruction operands: `0x`/`0X` hex,
/// `0b`/`0B` binary, `0o`/`0O` octal, otherwise decimal.
pub open spec fn spec_parse_immediate(s: Seq<char>) -> Option<u64> {
    if s.len() >= 2 && s[0] == '0' && (s[1] == 'x' || s[1] == 'X') {
        spec_parse_radix(s, 16, 2)
    } else if s.len() >= 2 && s[0] == '0' && (s[1] == 'b' || s[1] == 'B') {
        spec_parse_radix(s, 2, 2)
    } else if s.len() >= 2 && s[0] == '0' && (s[1] == 'o' || s[1] == 'O') {
        spec_parse_radix(s, 8, 2)
    } else {
        spec_parse_radix(s, 10, 0)
    }
}

pub fn parse_immediate(v: &Vec<char>) -> (r: Option<u64>)
    ensures
        r == spec_parse_immediate(v@),
{
    if v.len() >= 2 && v[0] == '0' && (v[1] == 'x' || v[1] == 'X') {
        parse_radix(v, 16, 2)
    } else if v.len() >= 2 && v[0] == '0' && (v[1] == 'b' || v[1] == 'B') {
        parse_radix(v, 2, 2)
    } else if v.len() >= 2 && v[0] == '0' && (v[1] == 'o' || v[1] == 'O') {
        parse_radix(v, 8, 2)
    } else {
        parse_radix(v, 10, 0)
    }
}

/// The numeric literal grammar of data directives and `equ` values:
/// `0x`/`0X` hex, `0b`/`0B` binary, any other leading zero octal,
/// otherwise decimal.
pub open spec fn spec_parse_number(s: Seq<char>) -> Option<u64> {
    if s.len() >= 2 && s[0] == '0' && (s[1] == 'x' || s[1] == 'X') {
        spec_parse_radix(s, 16, 2)
    } else if s.len() >= 2 && s[0] == '0' && (s[1] == 'b' || s[1] == 'B') {
        spec_parse_radix(s, 2, 2)
    } else if s.len() > 1 && s[0] == '0' {
        spec_parse_radix(s, 8, 1)
    } else {
        spec_parse_radix(s, 10, 0)
    }
}

pub fn parse_number(v: &Vec<char>) -> (r: Option<u64>)
    ensures
        r == spec_parse_number(v@),
{
    if v.len() >= 2 && v[0] == '0' && (v[1] == 'x' || v[1] == 'X') {
        parse_radix(v, 16, 2)
    } else if v.len() >= 2 && v[0] == '0' && (v[1] == 'b' || v[1] == 'B') {
        parse_radix(v, 2, 2)
    } else if v.len() > 1 && v[0] == '0' {
        parse_radix(v, 8, 1)
    } else {
        parse_radix(v, 10, 0)
    }
}

/// UTF-8 encoding of one character, by code point range.
pub open spec fn spec_utf8_char(c: char) -> Seq<u8> {
    let n = c as int;
    if n < 0x80 {
        seq![n as u8]
    } else if n < 0x800 {
        seq![(0xC0 + n / 64) as u8, (0x80 + n % 64) as u8]
    } else if n < 0x10000 {
        seq![(0xE0 + n / 4096) as u8, (0x80 + (n / 64) % 64) as u8, (0x80 + n % 64) as u8]
    } else {
        seq![
            (0xF0 + n / 262144) as u8,
            (0x80 + (n / 4096) % 64) as u8,
            (0x80 + (n / 64) % 64) as u8,
            (0x80 + n % 64) as u8,
        ]
    }
}

/// UTF-8 encoding of a character sequence.
pub open spec fn spec_utf8(s: Seq<char>) -> Seq<u8>
    decreases s.len(),
{
    if s.len() == 0 {
        Seq::empty()
    } else {
        spec_utf8_char(s[0]) + spec_utf8(s.skip(1))
    }
}

/// Encoding a sequence one character longer appends that character's
/// bytes.
pub proof fn lemma_utf8_snoc(s: Seq<char>, c: char)
    ensures
        spec_utf8(s.push(c)) == spec_utf8(s) + spec_utf8_char(c),
    decreases s.len(),
{
    if s.len() == 0 {
        assert(s.push(c)[0] == c);
        assert(s.push(c).skip(1) =~= Seq::<char>::empty());
        assert(s =~= Seq::<char>::empty());
        assert(spec_utf8(Seq::<char>::empty()) == Seq::<u8>::empty());
        assert(spec_utf8(s.push(c)) == spec_utf8_char(c) + Seq::<u8>::empty());
        assert(spec_utf8_char(c) + Seq::<u8>::empty() =~= Seq::<u8>::empty() + spec_utf8_char(c));
    } else {
        lemma_utf8_snoc(s.skip(1), c);
        assert(s.push(c).skip(1) =~= s.skip(1).push(c));
        assert(s.push(c)[0] == s[0]);
        assert(spec_utf8_char(s[0]) + (spec_utf8(s.skip(1)) + spec_utf8_char(c)) =~= (
        spec_utf8_char(s[0]) + spec_utf8(s.skip(1))) + spec_utf8_char(c));
    }
}

/// Appends the UTF-8 bytes of one character.
pub fn utf8_push(out: &mut Vec<u8>, c: char)
    ensures
        final(out)@ == old(out)@ + spec_utf8_char(c),
{
    let ghost before = out@;
    let n = c as u32;
    if n < 0x80 {
        out.push(n as u8);
    } else if n < 0x800 {
        out.push((0xC0 + n / 64) as u8);
        out.push((0x80 + n % 64) as u8);
    } else if n < 0x10000 {
        out.push((0xE0 + n / 4096) as u8);
        out.push((0x80 + (n / 64) % 64) as u8);
        out.push((0x80 + n % 64) as u8);
    } else {
        assert(n <= 0x10FFFF);
        out.push((0xF0 + n / 262144) as u8);
        out.push((0x80 + (n / 4096) % 64) as u8);
        out.push((0x80 + (n / 64) % 64) as u8);
        out.push((0x80 + n % 64) as u8);
    }
    proof {
        assert(out@ =~= before + spec_utf8_char(c));
    }
}

/// UTF-8 bytes of a character vector.
pub fn utf8_bytes(v: &Vec<char>) -> (r: Vec<u8>)
    ensures
        r@ == spec_utf8(v@),
{
    let mut out: Vec<u8> = Vec::new();
    let mut i: usize = 0;
    proof {
        assert(v@.take(0) =~= Seq::<char>::empty());
    }
    while i < v.len()
        invariant
            i <= v@.len(),
            out@ == spec_utf8(v@.take(i as int)),
        decreases v.len() - i,
    {
        utf8_push(&mut out, v[i]);
        proof {
            lemma_utf8_snoc(v@.take(i as int), v@[i as int]);
            assert(v@.take(i as int).push(v@[i as int]) =~= v@.take(i + 1));
        }
        i = i + 1;
    }
    proof {
        assert(v@.take(v@.len() as int) =~= v@);
    }
    out
}


/// The lowercase hexadecimal digit for a value below 16.
pub open spec fn spec_hex_char(d: int) -> char {
    if d < 10 {
        ((48 + d) as u8) as char
    } else {
        ((87 + d) as u8) as char
    }
}

/// The minimal lowercase hexadecimal digits of a value.
pub open spec fn spec_hex_digits(n: u64) -> Seq<char>
    decreases n,
{
    if n < 16 {
        seq![spec_hex_char(n as int)]
    } else {
        spec_hex_digits(n / 16).push(spec_hex_char(n as int % 16))
    }
}

/// A value written the way resolved addresses are spelled: `0x` and the
/// minimal lowercase hex digits.
pub open spec fn spec_hex_chars(n: u64) -> Seq<char> {
    seq!['0', 'x'] + spec_hex_digits(n)
}

fn hex_char(d: u64) -> (c: char)
    requires
        d < 16,
    ensures
        c == spec_hex_char(d as int),
{
    if d < 10 {
        ((48 + d) as u8) as char
    } else {
        ((87 + d) as u8) as char
    }
}

fn push_hex_digits(out: &mut Vec<char>, n: u64)
    ensures
        final(out)@ == old(out)@ + spec_hex_digits(n),
    decreases n,
{
    let ghost before = out@;
    if n < 16 {
        out.push(hex_char(n));
        proof {
            assert(out@ =~= before + spec_hex_digits(n));
        }
    } else {
        push_hex_digits(out, n / 16);
        out.push(hex_char(n % 16));
        proof {
            assert(out@ =~= before + spec_hex_digits(n));
        }
    }
}

/// Formats a value as `0x` plus minimal lowercase hex digits.
pub fn to_hex_chars(n: u64) -> (r: Vec<char>)
    ensures
        r@ == spec_hex_chars(n),
{
    let mut out: Vec<char> = Vec::new();
    out.push('0');
    out.push('x');
    push_hex_digits(&mut out, n);
    proof {
        assert(out@ =~= spec_hex_chars(n));
    }
    out
}


/// Sixteen to the `k`.
pub open spec fn spec_pow16(k: nat) -> int
    decreases k,
{
    if k == 0 {
        1
    } else {
        16 * spec_pow16((k - 1) as nat)
    }
}

proof fn lemma_pow16_pos(k: nat)
    ensures
        spec_pow16(k) >= 1,
    decreases k,
{
    if k > 0 {
        lemma_pow16_pos((k - 1) as nat);
    }
}

/// A spelled hex digit reads back as itself.
proof fn lemma_hex_char_value(d: int)
    requires
        0 <= d < 16,
    ensures
        spec_radix_digit_ok(spec_hex_char(d), 16),
        spec_digit_value(spec_hex_char(d)) == d,
{
}

/// Reading the spelled digits of `m` multiplies the accumulator through
/// and adds `m`.
proof fn lemma_radix_digits(s: Seq<char>, i: int, acc: u64, m: u64)
    requires
        0 <= i,
        i + spec_hex_digits(m).len() <= s.len(),
        s.subrange(i, i + spec_hex_digits(m).len()) == spec_hex_digits(m),
        acc as int * spec_pow16(spec_hex_digits(m).len()) + m as int <= u64::MAX as int,
    ensures
        spec_radix_value(s, 16, i, acc) == spec_radix_value(
            s,
            16,
            i + spec_hex_digits(m).len(),
            (acc as int * spec_pow16(spec_hex_digits(m).len()) + m as int) as u64,
        ),
    decreases m,
{
    lemma_pow16_pos(spec_hex_digits(m).len());
    if m < 16 {
        assert(spec_hex_digits(m) =~= seq![spec_hex_char(m as int)]);
        assert(s.subrange(i, i + 1)[0] == s[i]);
        assert(s[i] == spec_hex_char(m as int));
        lemma_hex_char_value(m as int);
        assert(spec_pow16(0) == 1);
        assert(spec_pow16(1) == 16);
        assert(acc as int * 16 + m as int <= u64::MAX as int);
    } else {
        let high = spec_hex_digits(m / 16);
        let lo = spec_hex_char(m as int % 16);
        assert(spec_hex_digits(m) == high.push(lo));
        let lh = high.len() as int;
        let lm = spec_hex_digits(m).len() as int;
        assert(lm == lh + 1);
        assert(spec_pow16(spec_hex_digits(m).len()) == 16 * spec_pow16(high.len()));
        let p = spec_pow16(high.len());
        assert(s.subrange(i, i + lh) =~= high) by {
            assert forall|q: int| 0 <= q < lh implies s.subrange(i, i + lh)[q] == high[q] by {
                assert(s.subrange(i, i + lm)[q] == high.push(lo)[q]);
            }
        }
        // The final value bounds the intermediate one.
        assert(acc as int * (16 * p) + m as int == (acc as int * p) * 16 + m as int)
            by (nonlinear_arith);
        assert(m as int == (m as int / 16) * 16 + m as int % 16) by (nonlinear_arith)
            requires
                m >= 16,
        ;
        assert((acc as int * p + m as int / 16) * 16 <= acc as int * (16 * p) + m as int)
            by (nonlinear_arith)
            requires
                m as int % 16 >= 0,
                m as int == (m as int / 16) * 16 + m as int % 16,
        ;
        assert(acc as int * p + m as int / 16 <= u64::MAX as int);
        lemma_radix_digits(s, i, acc, m / 16);
        let acc2 = (acc as int * p + (m / 16) as int) as u64;
        assert(s[i + lh] == lo) by {
            assert(s.subrange(i, i + lm)[lh] == high.push(lo)[lh]);
        }
        lemma_hex_char_value(m as int % 16);
        assert(acc2 as int * 16 + m as int % 16 == acc as int * (16 * p) + m as int)
            by (nonlinear_arith)
            requires
                acc2 as int == acc as int * p + m as int / 16,
                m as int == (m as int / 16) * 16 + m as int % 16,
        ;
    }
}

/// A value spelled as `0x` plus hex digits parses back to itself: a
/// resolved label address survives the immediate grammar exactly.
pub proof fn lemma_hex_round_trip(n: u64)
    ensures
        spec_parse_immediate(spec_hex_chars(n)) == Some(n),
{
    let s = spec_hex_chars(n);
    let digits = spec_hex_digits(n);
    assert(digits.len() >= 1);
    assert(s.len() == 2 + digits.len());
    assert(s[0] == '0' && s[1] == 'x');
    assert(s.subrange(2, 2 + digits.len() as int) =~= digits);
    lemma_pow16_pos(digits.len());
    assert(0int * spec_pow16(digits.len()) + n as int == n as int) by (nonlinear_arith);
    lemma_radix_digits(s, 2, 0, n);
    assert(spec_parse_radix(s, 16, 2) == spec_radix_value(s, 16, 2, 0));
    assert(spec_radix_value(s, 16, 2 + digits.len() as int, n) == Some(n));
}


/// Collects the characters into an owned string, for diagnostics that
/// name an identifier. The content is not part of any contract.
pub fn chars_string(v: &Vec<char>) -> String {
    let mut out = String::new();
    let mut i: usize = 0;
    while i < v.len()
        decreases v.len() - i,
    {
        let piece = v[i].to_string();
        out.append(piece.as_str());
        i = i + 1;
    }
    out
}

} // verus!
