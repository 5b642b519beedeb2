//! Character-level text handling shared by every module that reads or
//! renders a string.
//!
//! Strings are modelled by their character sequence (`s@`). Everything that
//! inspects a string works on a `Vec<char>` copy of it, and everything that
//! produces one builds a `Vec<char>` and turns it into a `String` at the end.
use vstd::prelude::*;

verus! {

/// Appends one character to a `String` (`String::push`).
#[verifier::external_body]
pub(crate) fn push_char(s: &mut String, c: char)
    ensures
        final(s)@ == old(s)@.push(c),
{
    s.push(c);
}

/// Whether two string slices hold the same characters.
pub(crate) fn str_eq(a: &str, b: &str) -> (r: bool)
    ensures
        r == (a@ == b@),
{
    let x = chars_of(a);
    let y = chars_of(b);
    eq_chars(x.as_slice(), y.as_slice())
}

/// The characters of a string slice, in order.
pub fn chars_of(s: &str) -> (v: Vec<char>)
    ensures
        v@ == s@,
{
    let mut v: Vec<char> = Vec::new();
    for c in it: s.chars()
        invariant
            v@ == it.seq().take(it.index() as int),
    {
        v.push(c);
    }
    v
}

/// A `String` holding exactly the given characters.
pub fn string_of(chars: &[char]) -> (s: String)
    ensures
        s@ == chars@,
{
    let mut s = String::new();
    let mut i: usize = 0;
    while i < chars.len()
        invariant
            i <= chars@.len(),
            s@ == chars@.take(i as int),
        decreases chars@.len() - i,
    {
        push_char(&mut s, chars[i]);
        proof {
            assert(chars@.take(i as int).push(chars@[i as int]) =~= chars@.take(i + 1));
        }
        i = i + 1;
    }
    proof {
        assert(chars@.take(chars@.len() as int) =~= chars@);
    }
    s
}

/// Appends every character of `extra` to `out`.
pub fn extend_chars(out: &mut Vec<char>, extra: &[char])
    ensures
        final(out)@ == old(out)@ + extra@,
{
    let mut i: usize = 0;
    while i < extra.len()
        invariant
            i <= extra@.len(),
            out@ == old(out)@ + extra@.take(i as int),
        decreases extra@.len() - i,
    {
        out.push(extra[i]);
        proof {
            assert(extra@.take(i as int).push(extra@[i as int]) =~= extra@.take(i + 1));
        }
        i = i + 1;
    }
    proof {
        assert(extra@.take(extra@.len() as int) =~= extra@);
    }
}

/// Appends the characters of a string slice to `out`.
pub fn extend_str(out: &mut Vec<char>, extra: &str)
    ensures
        final(out)@ == old(out)@ + extra@,
{
    let chars = chars_of(extra);
    extend_chars(out, chars.as_slice());
}

// ------------------------------------------------------------------ ASCII case

pub open spec fn is_ascii_upper(c: char) -> bool {
    'A' <= c && c <= 'Z'
}

/// ASCII lowercase: `A`-`Z` become `a`-`z`, every other character is kept.
pub open spec fn lower(c: char) -> char {
    if is_ascii_upper(c) {
        ((c as u32) + 32) as char
    } else {
        c
    }
}

pub open spec fn lower_seq(s: Seq<char>) -> Seq<char> {
    s.map_values(|c: char| lower(c))
}

pub fn to_lower(c: char) -> (r: char)
    ensures
        r == lower(c),
{
    if 'A' <= c && c <= 'Z' {
        let b: u8 = c as u8;
        ((b + 32) as u8) as char
    } else {
        c
    }
}

/// `str::to_ascii_lowercase` over characters.
pub fn lower_chars(s: &[char]) -> (r: Vec<char>)
    ensures
        r@ == lower_seq(s@),
{
    let mut r: Vec<char> = Vec::new();
    let mut i: usize = 0;
    while i < s.len()
        invariant
            i <= s@.len(),
            r@ == lower_seq(s@.take(i as int)),
        decreases s@.len() - i,
    {
        r.push(to_lower(s[i]));
        proof {
            assert(lower_seq(s@.take(i as int)).push(lower(s@[i as int])) =~= lower_seq(
                s@.take(i + 1),
            ));
        }
        i = i + 1;
    }
    proof {
        assert(s@.take(s@.len() as int) =~= s@);
    }
    r
}

/// ASCII-case-insensitive equality, as `str::eq_ignore_ascii_case`.
pub fn eq_ignore_case(a: &[char], b: &[char]) -> (r: bool)
    ensures
        r == (lower_seq(a@) == lower_seq(b@)),
{
    if a.len() != b.len() {
        proof {
            assert(lower_seq(a@).len() != lower_seq(b@).len());
        }
        return false;
    }
    let mut i: usize = 0;
    while i < a.len()
        invariant
            a@.len() == b@.len(),
            i <= a@.len(),
            forall|j: int| 0 <= j < i ==> lower(#[trigger] a@[j]) == lower(b@[j]),
        decreases a@.len() - i,
    {
        if to_lower(a[i]) != to_lower(b[i]) {
            proof {
                assert(lower_seq(a@)[i as int] != lower_seq(b@)[i as int]);
            }
            return false;
        }
        i = i + 1;
    }
    proof {
        assert(lower_seq(a@) =~= lower_seq(b@));
    }
    true
}

/// Exact equality of two character sequences.
pub fn eq_chars(a: &[char], b: &[char]) -> (r: bool)
    ensures
        r == (a@ == b@),
{
    if a.len() != b.len() {
        return false;
    }
    let mut i: usize = 0;
    while i < a.len()
        invariant
            a@.len() == b@.len(),
            i <= a@.len(),
            forall|j: int| 0 <= j < i ==> #[trigger] a@[j] == b@[j],
        decreases a@.len() - i,
    {
        if a[i] != b[i] {
            return false;
        }
        i = i + 1;
    }
    proof {
        assert(a@ =~= b@);
    }
    true
}

// ------------------------------------------------------------ character classes

/// The Unicode `White_Space` property, which is what `char::is_whitespace`
/// tests.
pub open spec fn is_whitespace(c: char) -> bool {
    ||| ('\u{9}' <= c && c <= '\u{D}')
    ||| c == ' '
    ||| c == '\u{85}'
    ||| c == '\u{A0}'
    ||| c == '\u{1680}'
    ||| ('\u{2000}' <= c && c <= '\u{200A}')
    ||| c == '\u{2028}'
    ||| c == '\u{2029}'
    ||| c == '\u{202F}'
    ||| c == '\u{205F}'
    ||| c == '\u{3000}'
}

pub fn whitespace(c: char) -> (r: bool)
    ensures
        r == is_whitespace(c),
{
    ('\u{9}' <= c && c <= '\u{D}') || c == ' ' || c == '\u{85}' || c == '\u{A0}' || c
        == '\u{1680}' || ('\u{2000}' <= c && c <= '\u{200A}') || c == '\u{2028}' || c
        == '\u{2029}' || c == '\u{202F}' || c == '\u{205F}' || c == '\u{3000}'
}

/// The Unicode general category `Cc`, which is what `char::is_control` tests.
pub open spec fn is_control(c: char) -> bool {
    c <= '\u{1F}' || ('\u{7F}' <= c && c <= '\u{9F}')
}

pub fn control(c: char) -> (r: bool)
    ensures
        r == is_control(c),
{
    c <= '\u{1F}' || ('\u{7F}' <= c && c <= '\u{9F}')
}

pub open spec fn is_ascii_digit(c: char) -> bool {
    '0' <= c && c <= '9'
}

pub open spec fn is_ascii_alphabetic(c: char) -> bool {
    ('A' <= c && c <= 'Z') || ('a' <= c && c <= 'z')
}

// ---------------------------------------------------------------------- trim

/// Leading characters removed while they are whitespace.
pub open spec fn trim_start(s: Seq<char>) -> Seq<char>
    decreases s.len(),
{
    if s.len() > 0 && is_whitespace(s[0]) {
        trim_start(s.drop_first())
    } else {
        s
    }
}

/// Trailing characters removed while they are whitespace.
pub open spec fn trim_end(s: Seq<char>) -> Seq<char>
    decreases s.len(),
{
    if s.len() > 0 && is_whitespace(s.last()) {
        trim_end(s.drop_last())
    } else {
        s
    }
}

/// `str::trim`: whitespace removed from both ends.
pub open spec fn trim(s: Seq<char>) -> Seq<char> {
    trim_end(trim_start(s))
}

/// The first index whose character is not whitespace, `s.len()` if none.
proof fn lemma_trim_start_skip(s: Seq<char>, i: int)
    requires
        0 <= i <= s.len(),
        forall|j: int| 0 <= j < i ==> is_whitespace(#[trigger] s[j]),
    ensures
        trim_start(s) == trim_start(s.skip(i)),
    decreases i,
{
    if i > 0 {
        assert(is_whitespace(s[0]));
        assert(s.drop_first().skip(i - 1) =~= s.skip(i));
        assert forall|j: int| 0 <= j < i - 1 implies is_whitespace(#[trigger] s.drop_first()[j]) by {
            assert(s.drop_first()[j] == s[j + 1]);
        }
        lemma_trim_start_skip(s.drop_first(), i - 1);
    } else {
        assert(s.skip(0) =~= s);
    }
}

proof fn lemma_trim_end_take(s: Seq<char>, k: int)
    requires
        0 <= k <= s.len(),
        forall|j: int| k <= j < s.len() ==> is_whitespace(#[trigger] s[j]),
    ensures
        trim_end(s) == trim_end(s.take(k)),
    decreases s.len() - k,
{
    if k < s.len() {
        assert(is_whitespace(s.last()));
        assert(s.drop_last().take(k) =~= s.take(k));
        assert forall|j: int| k <= j < s.drop_last().len() implies is_whitespace(
            #[trigger] s.drop_last()[j],
        ) by {
            assert(s.drop_last()[j] == s[j]);
        }
        lemma_trim_end_take(s.drop_last(), k);
    } else {
        assert(s.take(k) =~= s);
    }
}

/// `str::trim` over characters.
pub fn trim_chars(s: &[char]) -> (r: Vec<char>)
    ensures
        r@ == trim(s@),
{
    let mut start: usize = 0;
    while start < s.len() && whitespace(s[start])
        invariant
            start <= s@.len(),
            forall|j: int| 0 <= j < start ==> is_whitespace(#[trigger] s@[j]),
        decreases s@.len() - start,
    {
        start = start + 1;
    }
    let ghost rest = s@.skip(start as int);
    proof {
        lemma_trim_start_skip(s@, start as int);
        if rest.len() > 0 {
            assert(!is_whitespace(rest[0]));
        }
        assert(trim_start(rest) == rest);
    }
    let mut end: usize = s.len();
    while end > start && whitespace(s[end - 1])
        invariant
            start <= end <= s@.len(),
            forall|j: int| end <= j < s@.len() ==> is_whitespace(#[trigger] s@[j]),
        decreases end,
    {
        end = end - 1;
    }
    proof {
        let kept = rest.take(end - start);
        assert forall|j: int| end - start <= j < rest.len() implies is_whitespace(
            #[trigger] rest[j],
        ) by {
            assert(rest[j] == s@[j + start]);
        }
        lemma_trim_end_take(rest, end - start);
        if kept.len() > 0 {
            assert(kept.last() == s@[end - 1]);
        }
        assert(trim_end(kept) == kept);
    }
    let mut r: Vec<char> = Vec::new();
    let mut i: usize = start;
    while i < end
        invariant
            start <= i <= end <= s@.len(),
            r@ == s@.subrange(start as int, i as int),
        decreases end - i,
    {
        r.push(s[i]);
        proof {
            assert(s@.subrange(start as int, i as int).push(s@[i as int]) =~= s@.subrange(
                start as int,
                i + 1,
            ));
        }
        i = i + 1;
    }
    proof {
        assert(r@ =~= rest.take(end - start));
    }
    r
}

// ------------------------------------------------------------------- numbers

/// The character for a decimal or hexadecimal digit value.
pub open spec fn digit_char(d: nat, upper: bool) -> char {
    if d < 10 {
        (('0' as u32) + d) as char
    } else if upper {
        (('A' as u32) + d - 10) as char
    } else {
        (('a' as u32) + d - 10) as char
    }
}

/// `n` written in `base` without leading zeros, most significant digit first.
pub open spec fn digits(n: nat, base: nat, upper: bool) -> Seq<char>
    recommends
        2 <= base <= 16,
    decreases n,
{
    if base < 2 || n < base {
        seq![digit_char(n, upper)]
    } else {
        proof {
            lemma_div_smaller(n, base);
        }
        digits(n / base, base, upper).push(digit_char(n % base, upper))
    }
}

pub proof fn lemma_div_smaller(n: nat, base: nat)
    requires
        2 <= base <= n,
    ensures
        n / base < n,
{
    assert(n / base < n) by (nonlinear_arith)
        requires
            2 <= base <= n,
    ;
}

/// Decimal text of a natural number, as `{}` formats it.
pub open spec fn decimal(n: nat) -> Seq<char> {
    digits(n, 10, false)
}

/// `s` left-padded with `c` to at least `width` characters.
pub open spec fn pad_left(s: Seq<char>, width: nat, c: char) -> Seq<char> {
    if s.len() < width {
        Seq::new((width - s.len()) as nat, |_i: int| c) + s
    } else {
        s
    }
}

/// A signed integer as `{:0width$}` formats it: the sign, then zeros, then
/// the digits, the whole at least `width` characters wide.
pub open spec fn signed_padded(n: int, width: nat) -> Seq<char> {
    if n < 0 {
        seq!['-'] + pad_left(decimal((-n) as nat), if width > 0 { (width - 1) as nat } else { 0 }, '0')
    } else {
        pad_left(decimal(n as nat), width, '0')
    }
}

fn digit(d: u64, upper: bool) -> (c: char)
    requires
        d < 16,
    ensures
        c == digit_char(d as nat, upper),
{
    if d < 10 {
        ((d as u8) + 48) as char
    } else if upper {
        ((d as u8) + 55) as char
    } else {
        ((d as u8) + 87) as char
    }
}

/// Appends `n` in `base` to `out`.
pub fn push_digits(out: &mut Vec<char>, n: u64, base: u64, upper: bool)
    requires
        2 <= base <= 16,
    ensures
        final(out)@ == old(out)@ + digits(n as nat, base as nat, upper),
    decreases n,
{
    if n >= base {
        proof {
            lemma_div_smaller(n as nat, base as nat);
        }
        push_digits(out, n / base, base, upper);
    }
    out.push(digit(n % base, upper));
    proof {
        if n < base {
            vstd::arithmetic::div_mod::lemma_small_mod(n as nat, base as nat);
        }
    }
}

/// Appends `n` in decimal to `out`.
pub fn push_decimal(out: &mut Vec<char>, n: u64)
    ensures
        final(out)@ == old(out)@ + decimal(n as nat),
{
    push_digits(out, n, 10, false);
}

/// Appends `chars` to `out`, left-padded with zeros to `width`.
pub fn push_padded(out: &mut Vec<char>, chars: &[char], width: usize)
    ensures
        final(out)@ == old(out)@ + pad_left(chars@, width as nat, '0'),
{
    let ghost start = out@;
    if chars.len() < width {
        let fill = width - chars.len();
        let mut i: usize = 0;
        while i < fill
            invariant
                i <= fill,
                fill == width - chars@.len(),
                out@ == start + Seq::new(i as nat, |_j: int| '0'),
            decreases fill - i,
        {
            out.push('0');
            proof {
                assert(Seq::new(i as nat, |_j: int| '0').push('0') =~= Seq::new(
                    (i + 1) as nat,
                    |_j: int| '0',
                ));
            }
            i = i + 1;
        }
    }
    extend_chars(out, chars);
    proof {
        assert(out@ =~= start + pad_left(chars@, width as nat, '0'));
    }
}

/// Appends a signed integer formatted as `{:0width$}`.
pub fn push_signed_padded(out: &mut Vec<char>, n: i64, width: usize)
    ensures
        final(out)@ == old(out)@ + signed_padded(n as int, width as nat),
{
    let ghost start = out@;
    let mut body: Vec<char> = Vec::new();
    if n < 0 {
        let magnitude: u64 = if n == i64::MIN {
            9223372036854775808u64
        } else {
            (-n) as u64
        };
        push_decimal(&mut body, magnitude);
        out.push('-');
        let w = if width > 0 { width - 1 } else { 0 };
        push_padded(out, body.as_slice(), w);
        proof {
            assert(out@ =~= start + signed_padded(n as int, width as nat));
        }
    } else {
        push_decimal(&mut body, n as u64);
        push_padded(out, body.as_slice(), width);
    }
}


// ------------------------------------------------------------------ UTF-16

/// A scalar value: a code point that is not a surrogate.
pub open spec fn is_scalar(v: int) -> bool {
    0 <= v <= 0xD7FF || 0xE000 <= v <= 0x10FFFF
}

/// `char::from_u32`: the character with that code point, or none for a
/// surrogate or a value past U+10FFFF.
pub assume_specification[ core::char::from_u32 ](i: u32) -> (r: Option<char>)
    ensures
        is_scalar(i as int) ==> r == Some(i as char),
        !is_scalar(i as int) ==> r is None,
;

pub open spec fn is_high_surrogate(u: u16) -> bool {
    0xD800 <= u <= 0xDBFF
}

pub open spec fn is_low_surrogate(u: u16) -> bool {
    0xDC00 <= u <= 0xDFFF
}

/// UTF-16 decoded with every unpaired surrogate replaced by U+FFFD, as
/// `String::from_utf16_lossy` does.
pub open spec fn utf16_lossy(u: Seq<u16>) -> Seq<char>
    decreases u.len(),
{
    if u.len() == 0 {
        seq![]
    } else if !is_high_surrogate(u[0]) && !is_low_surrogate(u[0]) {
        seq![(u[0] as u32) as char] + utf16_lossy(u.skip(1))
    } else if is_high_surrogate(u[0]) && u.len() >= 2 && is_low_surrogate(u[1]) {
        seq![(0x10000 + (u[0] - 0xD800) * 0x400 + (u[1] - 0xDC00)) as char] + utf16_lossy(u.skip(2))
    } else {
        seq!['\u{FFFD}'] + utf16_lossy(u.skip(1))
    }
}

/// The units before the first NUL, or all of them when there is none.
pub open spec fn before_nul(u: Seq<u16>) -> Seq<u16>
    decreases u.len(),
{
    if u.len() == 0 {
        seq![]
    } else if u[0] == 0 {
        seq![]
    } else {
        seq![u[0]] + before_nul(u.skip(1))
    }
}

proof fn lemma_utf16_step(u: Seq<u16>, i: int)
    requires
        0 <= i < u.len(),
    ensures
        utf16_lossy(u.skip(i)) == if !is_high_surrogate(u[i]) && !is_low_surrogate(u[i]) {
            seq![(u[i] as u32) as char] + utf16_lossy(u.skip(i + 1))
        } else if is_high_surrogate(u[i]) && i + 1 < u.len() && is_low_surrogate(u[i + 1]) {
            seq![(0x10000 + (u[i] - 0xD800) * 0x400 + (u[i + 1] - 0xDC00)) as char] + utf16_lossy(
                u.skip(i + 2),
            )
        } else {
            seq!['\u{FFFD}'] + utf16_lossy(u.skip(i + 1))
        },
{
    assert(u.skip(i).skip(1) =~= u.skip(i + 1));
    assert(u.skip(i).len() >= 2 ==> u.skip(i).skip(2) =~= u.skip(i + 2));
}

/// `String::from_utf16_lossy` over the units `from..to`.
pub fn decode_utf16_lossy(units: &[u16], to: usize) -> (r: Vec<char>)
    requires
        to <= units@.len(),
    ensures
        r@ == utf16_lossy(units@.take(to as int)),
{
    let ghost u = units@.take(to as int);
    let mut out: Vec<char> = Vec::new();
    let mut i: usize = 0;
    proof {
        assert(u.skip(0) =~= u);
    }
    while i < to
        invariant
            to <= units@.len(),
            u == units@.take(to as int),
            i <= to,
            out@ + utf16_lossy(u.skip(i as int)) == utf16_lossy(u),
        decreases to - i,
    {
        proof {
            lemma_utf16_step(u, i as int);
        }
        let c = units[i];
        if c < 0xD800 || c > 0xDFFF {
            match core::char::from_u32(c as u32) {
                Some(ch) => out.push(ch),
                None => out.push('\u{FFFD}'),
            }
            i = i + 1;
        } else if c <= 0xDBFF && i + 1 < to && units[i + 1] >= 0xDC00 && units[i + 1] <= 0xDFFF {
            let v: u32 = 0x10000 + ((c as u32) - 0xD800) * 0x400 + ((units[i + 1] as u32) - 0xDC00);
            match core::char::from_u32(v) {
                Some(ch) => out.push(ch),
                None => out.push('\u{FFFD}'),
            }
            i = i + 2;
        } else {
            out.push('\u{FFFD}');
            i = i + 1;
        }
        proof {
            assert(out@ + utf16_lossy(u.skip(i as int)) =~= utf16_lossy(u));
        }
    }
    proof {
        assert(u.skip(to as int) =~= Seq::<u16>::empty());
        assert(out@ =~= utf16_lossy(u));
    }
    out
}

/// Position of the first NUL, or the length when there is none.
pub fn nul_position(units: &[u16]) -> (n: usize)
    ensures
        n <= units@.len(),
        units@.take(n as int) == before_nul(units@),
{
    let mut i: usize = 0;
    while i < units.len() && units[i] != 0
        invariant
            i <= units@.len(),
            forall|k: int| 0 <= k < i ==> units@[k] != 0,
        decreases units@.len() - i,
    {
        i = i + 1;
    }
    proof {
        lemma_before_nul(units@, i as int);
    }
    i
}

proof fn lemma_before_nul(u: Seq<u16>, n: int)
    requires
        0 <= n <= u.len(),
        forall|k: int| 0 <= k < n ==> u[k] != 0,
        n == u.len() || u[n] == 0,
    ensures
        u.take(n) == before_nul(u),
    decreases u.len(),
{
    if u.len() > 0 && n > 0 {
        assert forall|k: int| 0 <= k < n - 1 implies u.skip(1)[k] != 0 by {
            assert(u.skip(1)[k] == u[k + 1]);
        }
        lemma_before_nul(u.skip(1), n - 1);
        assert(u.take(n) =~= seq![u[0]] + u.skip(1).take(n - 1));
    } else if n == 0 {
        assert(u.take(0) =~= Seq::<u16>::empty());
    }
}

/// Text with no surrogate units decodes one character per unit, each the
/// character with that unit's code.
pub proof fn law_plain_utf16_decodes_unit_by_unit(u: Seq<u16>)
    requires
        forall|i: int| 0 <= i < u.len() ==> !(0xD800 <= #[trigger] u[i] <= 0xDFFF),
    ensures
        utf16_lossy(u).len() == u.len(),
        forall|i: int| 0 <= i < u.len() ==> #[trigger] utf16_lossy(u)[i] as u32 == u[i] as u32,
    decreases u.len(),
{
    if u.len() > 0 {
        let t = u.skip(1);
        assert forall|i: int| 0 <= i < t.len() implies !(0xD800 <= #[trigger] t[i] <= 0xDFFF) by {
            assert(t[i] == u[i + 1]);
        }
        law_plain_utf16_decodes_unit_by_unit(t);
        assert(!(0xD800 <= u[0] <= 0xDFFF));
        let head = seq![(u[0] as u32) as char];
        assert(utf16_lossy(u) == head + utf16_lossy(t));
        assert forall|i: int| 0 <= i < u.len() implies #[trigger] utf16_lossy(u)[i] as u32 == u[i] as u32 by {
            if i > 0 {
                assert(utf16_lossy(u)[i] == utf16_lossy(t)[i - 1]);
                assert(t[i - 1] == u[i]);
            }
        }
    }
}

/// The text of a NUL-terminated buffer is exactly the units before the first
/// NUL: a prefix of the buffer with no NUL in it, cut at a NUL or at the
/// buffer's end.
pub proof fn law_text_stops_at_the_first_nul(u: Seq<u16>)
    ensures
        before_nul(u).len() <= u.len(),
        before_nul(u) == u.take(before_nul(u).len() as int),
        forall|i: int| 0 <= i < before_nul(u).len() ==> #[trigger] before_nul(u)[i] != 0,
        before_nul(u).len() < u.len() ==> u[before_nul(u).len() as int] == 0,
    decreases u.len(),
{
    if u.len() > 0 && u[0] != 0 {
        let t = u.skip(1);
        law_text_stops_at_the_first_nul(t);
        let b = before_nul(t);
        assert(before_nul(u) == seq![u[0]] + b);
        assert(seq![u[0]] + b =~= u.take(b.len() as int + 1)) by {
            assert forall|i: int| 0 <= i < b.len() implies b[i] == u[i + 1] by {
                assert(b[i] == t.take(b.len() as int)[i]);
            }
        }
        assert forall|i: int| 0 <= i < before_nul(u).len() implies #[trigger] before_nul(u)[i] != 0 by {
            if i > 0 {
                assert(before_nul(u)[i] == b[i - 1]);
            }
        }
        if b.len() < t.len() {
            assert(u[b.len() as int + 1] == t[b.len() as int]);
        }
    } else if u.len() > 0 {
        assert(u.take(0) =~= Seq::<u16>::empty());
    } else {
        assert(u.take(0) =~= Seq::<u16>::empty());
    }
}

} // verus!
