//! Text helpers: ASCII case, trimming, decimal numbers, prefixes.

use vstd::prelude::*;
use vstd::string::*;

verus! {

/// Texts as plain values.
pub open spec fn texts(v: Seq<String>) -> Seq<Seq<char>> {
    Seq::new(v.len(), |i: int| v[i]@)
}

/// Pairs of texts as plain values.
pub open spec fn pairs(v: Seq<(String, String)>) -> Seq<(Seq<char>, Seq<char>)> {
    Seq::new(v.len(), |i: int| (v[i].0@, v[i].1@))
}

/// A copy of the pairs.
pub fn copy_pairs(v: &Vec<(String, String)>) -> (r: Vec<(String, String)>)
    ensures
        pairs(r@) == pairs(v@),
{
    let mut r: Vec<(String, String)> = Vec::new();
    for i in 0..v.len()
        invariant
            r@.len() == i,
            i <= v@.len(),
            forall|k: int|
                0 <= k < i ==> (#[trigger] r@[k]).0@ == v@[k].0@ && r@[k].1@ == v@[k].1@,
    {
        r.push((v[i].0.clone(), v[i].1.clone()));
    }
    assert(pairs(r@) =~= pairs(v@));
    r
}

/// `std::string::String::push`: the character goes to the end.
#[verifier::external_body]
pub(crate) fn push_char(s: &mut String, c: char)
    ensures
        final(s)@ == old(s)@.push(c),
{
    s.push(c)
}

/// `std::str::from_utf8`: the text whose UTF-8 encoding the bytes are, or
/// nothing where they are no valid UTF-8.
#[verifier::external_body]
pub(crate) fn utf8_text(bytes: &[u8]) -> (r: Option<&str>)
    ensures
        r is Some <==> vstd::utf8::valid_utf8(bytes@),
        r matches Some(s) ==> s@ == vstd::utf8::decode_utf8(bytes@),
{
    std::str::from_utf8(bytes).ok()
}

/// The text that `String::from_utf8_lossy` makes of `bytes`.
pub uninterp spec fn lossy_text(bytes: Seq<u8>) -> Seq<char>;

/// `std::string::String::from_utf8_lossy`: the bytes as text, with replacement
/// characters for what is no valid UTF-8. Valid UTF-8 is kept as it is.
#[verifier::external_body]
pub(crate) fn text_lossy(bytes: &[u8]) -> (s: String)
    ensures
        s@ == lossy_text(bytes@),
        vstd::utf8::valid_utf8(bytes@) ==> s@ == vstd::utf8::decode_utf8(bytes@),
{
    String::from_utf8_lossy(bytes).into_owned()
}

/// The base64 digit that stands for six bits.
pub open spec fn base64_digit(six: int) -> char {
    if six < 26 {
        ('A' as int + six) as char
    } else if six < 52 {
        ('a' as int + six - 26) as char
    } else if six < 62 {
        ('0' as int + six - 52) as char
    } else if six == 62 {
        '+'
    } else {
        '/'
    }
}

/// The standard base64 text of `bytes`: four digits for every three bytes, the last
/// four made up with padding.
pub open spec fn base64_text(bytes: Seq<u8>) -> Seq<char>
    decreases bytes.len(),
{
    let (a, b, c) = (bytes[0] as int, bytes[1] as int, bytes[2] as int);
    if bytes.len() == 0 {
        seq![]
    } else if bytes.len() == 1 {
        seq![base64_digit(a / 4), base64_digit(a % 4 * 16), '=', '=']
    } else if bytes.len() == 2 {
        seq![base64_digit(a / 4), base64_digit(a % 4 * 16 + b / 16), base64_digit(b % 16 * 4), '=']
    } else {
        seq![
            base64_digit(a / 4),
            base64_digit(a % 4 * 16 + b / 16),
            base64_digit(b % 16 * 4 + c / 64),
            base64_digit(c % 64),
        ] + base64_text(bytes.skip(3))
    }
}

/// `base64::engine::general_purpose::STANDARD.encode`: the base64 text with the
/// standard alphabet and padding.
#[verifier::external_body]
pub(crate) fn to_base64(bytes: &[u8]) -> (s: String)
    ensures
        s@ == base64_text(bytes@),
{
    base64::Engine::encode(&base64::engine::general_purpose::STANDARD, bytes)
}

/// Whether `c` has the Unicode property White_Space.
pub open spec fn is_white(c: char) -> bool {
    ||| '\u{9}' <= c <= '\u{d}'
    ||| c == ' '
    ||| c == '\u{85}'
    ||| c == '\u{a0}'
    ||| c == '\u{1680}'
    ||| '\u{2000}' <= c <= '\u{200a}'
    ||| c == '\u{2028}'
    ||| c == '\u{2029}'
    ||| c == '\u{202f}'
    ||| c == '\u{205f}'
    ||| c == '\u{3000}'
}

/// `s` without leading white space.
pub open spec fn without_leading_white(s: Seq<char>) -> Seq<char>
    decreases s.len(),
{
    if s.len() > 0 && is_white(s.first()) {
        without_leading_white(s.drop_first())
    } else {
        s
    }
}

/// `s` without trailing white space.
pub open spec fn without_trailing_white(s: Seq<char>) -> Seq<char>
    decreases s.len(),
{
    if s.len() > 0 && is_white(s.last()) {
        without_trailing_white(s.drop_last())
    } else {
        s
    }
}

/// `s` without leading and trailing white space.
pub open spec fn trimmed(s: Seq<char>) -> Seq<char> {
    without_trailing_white(without_leading_white(s))
}

/// `s` without its trailing characters `c`.
pub open spec fn without_trailing(s: Seq<char>, c: char) -> Seq<char>
    decreases s.len(),
{
    if s.len() > 0 && s.last() == c {
        without_trailing(s.drop_last(), c)
    } else {
        s
    }
}

/// `s` without its leading characters `c`.
pub open spec fn without_leading(s: Seq<char>, c: char) -> Seq<char>
    decreases s.len(),
{
    if s.len() > 0 && s.first() == c {
        without_leading(s.drop_first(), c)
    } else {
        s
    }
}

/// An ASCII capital in lower case; any other character as it is.
pub open spec fn lower_char(c: char) -> char {
    if 'A' <= c <= 'Z' {
        ((c as u8) + 32) as char
    } else {
        c
    }
}

/// An ASCII small letter in upper case; any other character as it is.
pub open spec fn upper_char(c: char) -> char {
    if 'a' <= c <= 'z' {
        ((c as u8) - 32) as char
    } else {
        c
    }
}

/// `s` with its ASCII capitals in lower case.
pub open spec fn lowered(s: Seq<char>) -> Seq<char> {
    s.map_values(|c: char| lower_char(c))
}

/// `s` with its ASCII small letters in upper case.
pub open spec fn uppered(s: Seq<char>) -> Seq<char> {
    s.map_values(|c: char| upper_char(c))
}

/// Whether `c` is a decimal digit.
pub open spec fn is_digit(c: char) -> bool {
    '0' <= c <= '9'
}

/// The number that a run of decimal digits writes.
pub open spec fn digits_value(s: Seq<char>) -> nat
    decreases s.len(),
{
    if s.len() == 0 {
        0
    } else {
        10 * digits_value(s.drop_last()) + (s.last() as u32 - '0' as u32) as nat
    }
}

/// The digits of a decimal number as a parser of unsigned integers takes them:
/// one plus sign may lead.
pub open spec fn unsigned_digits(s: Seq<char>) -> Seq<char> {
    if s.len() > 1 && s.first() == '+' {
        s.drop_first()
    } else {
        s
    }
}

/// The `u64` that `s` writes in decimal, if it writes one.
pub open spec fn parsed_u64(s: Seq<char>) -> Option<u64> {
    let d = unsigned_digits(s);
    if d.len() > 0 && (forall|i: int| 0 <= i < d.len() ==> is_digit(#[trigger] d[i]))
        && digits_value(d) <= u64::MAX {
        Some(digits_value(d) as u64)
    } else {
        None
    }
}

/// The decimal digit for `d`.
pub open spec fn digit_char(d: nat) -> char {
    (('0' as u8) + d) as char
}

/// `n` in decimal.
pub open spec fn decimal(n: nat) -> Seq<char>
    decreases n,
{
    if n < 10 {
        seq![digit_char(n)]
    } else {
        decimal(n / 10).push(digit_char(n % 10))
    }
}

/// The characters of `s`.
pub fn chars_of(s: &str) -> (v: Vec<char>)
    ensures
        v@ == s@,
{
    let mut v: Vec<char> = Vec::new();
    for c in it: s.chars()
        invariant
            v@ == it.seq().take(it.index() as int),
            it.seq() == s@,
    {
        v.push(c);
    }
    v
}

/// The text of the characters `v[from..to]`.
pub fn string_of(v: &Vec<char>, from: usize, to: usize) -> (s: String)
    requires
        from <= to <= v.len(),
    ensures
        s@ == v@.subrange(from as int, to as int),
{
    let mut s: String = String::new();
    let mut i: usize = from;
    while i < to
        invariant
            from <= i <= to <= v.len(),
            s@ == v@.subrange(from as int, i as int),
        decreases to - i,
    {
        push_char(&mut s, v[i]);
        i = i + 1;
    }
    s
}

/// `s` with its ASCII capitals in lower case.
pub fn to_lower(s: &str) -> (r: String)
    ensures
        r@ == lowered(s@),
{
    let v: Vec<char> = chars_of(s);
    let mut r: String = String::new();
    for i in 0..v.len()
        invariant
            v@ == s@,
            r@ == lowered(s@).take(i as int),
    {
        let c: char = v[i];
        let low: char = if 'A' <= c && c <= 'Z' {
            (c as u8 + 32) as char
        } else {
            c
        };
        push_char(&mut r, low);
    }
    r
}

/// `s` with its ASCII small letters in upper case.
pub fn to_upper(s: &str) -> (r: String)
    ensures
        r@ == uppered(s@),
{
    let v: Vec<char> = chars_of(s);
    let mut r: String = String::new();
    for i in 0..v.len()
        invariant
            v@ == s@,
            r@ == uppered(s@).take(i as int),
    {
        let c: char = v[i];
        let up: char = if 'a' <= c && c <= 'z' {
            (c as u8 - 32) as char
        } else {
            c
        };
        push_char(&mut r, up);
    }
    r
}

/// Whether `c` is white space.
fn char_is_white(c: char) -> (b: bool)
    ensures
        b == is_white(c),
{
    ('\u{9}' <= c && c <= '\u{d}') || c == ' ' || c == '\u{85}' || c == '\u{a0}' || c == '\u{1680}'
        || ('\u{2000}' <= c && c <= '\u{200a}') || c == '\u{2028}' || c == '\u{2029}'
        || c == '\u{202f}' || c == '\u{205f}' || c == '\u{3000}'
}

/// `s` without leading and trailing white space.
pub fn trim(s: &str) -> (r: String)
    ensures
        r@ == trimmed(s@),
{
    let v: Vec<char> = chars_of(s);
    let mut from: usize = 0;
    assert(v@.skip(0) =~= s@);
    while from < v.len() && char_is_white(v[from])
        invariant
            from <= v.len(),
            v@ == s@,
            without_leading_white(s@) == without_leading_white(v@.skip(from as int)),
        decreases v.len() - from,
    {
        assert(v@.skip(from as int).drop_first() =~= v@.skip(from + 1));
        from = from + 1;
    }
    let ghost rest = v@.skip(from as int);
    assert(without_leading_white(s@) == rest);
    let mut to: usize = v.len();
    assert(v@.subrange(from as int, to as int) =~= rest);
    while to > from && char_is_white(v[to - 1])
        invariant
            from <= to <= v.len(),
            without_trailing_white(rest) == without_trailing_white(
                v@.subrange(from as int, to as int),
            ),
        decreases to,
    {
        assert(v@.subrange(from as int, to as int).drop_last() =~= v@.subrange(
            from as int,
            to - 1,
        ));
        to = to - 1;
    }
    string_of(&v, from, to)
}

/// `s` without its trailing characters `c`.
pub fn trim_end(s: &str, c: char) -> (r: String)
    ensures
        r@ == without_trailing(s@, c),
{
    let v: Vec<char> = chars_of(s);
    let mut to: usize = v.len();
    assert(v@.subrange(0, to as int) =~= s@);
    while to > 0 && v[to - 1] == c
        invariant
            to <= v.len(),
            without_trailing(s@, c) == without_trailing(v@.subrange(0, to as int), c),
        decreases to,
    {
        assert(v@.subrange(0, to as int).drop_last() =~= v@.subrange(0, to - 1));
        to = to - 1;
    }
    string_of(&v, 0, to)
}

/// Whether `s` begins with `prefix`.
pub fn starts_with(s: &str, prefix: &str) -> (b: bool)
    ensures
        b == prefix@.is_prefix_of(s@),
{
    let v: Vec<char> = chars_of(s);
    let p: Vec<char> = chars_of(prefix);
    if p.len() > v.len() {
        return false;
    }
    let mut i: usize = 0;
    while i < p.len()
        invariant
            i <= p.len() <= v.len(),
            p@ == prefix@,
            v@ == s@,
            forall|k: int| 0 <= k < i ==> p[k] == v[k],
        decreases p.len() - i,
    {
        if p[i] != v[i] {
            assert(prefix@[i as int] != s@.take(prefix@.len() as int)[i as int]);
            return false;
        }
        i = i + 1;
    }
    assert(prefix@ =~= s@.take(prefix@.len() as int));
    true
}

/// Whether the two texts are the same.
pub fn same(a: &str, b: &str) -> (r: bool)
    ensures
        r == (a@ == b@),
{
    let v: Vec<char> = chars_of(a);
    let w: Vec<char> = chars_of(b);
    if v.len() != w.len() {
        return false;
    }
    let mut i: usize = 0;
    while i < v.len()
        invariant
            i <= v.len() == w.len(),
            v@ == a@,
            w@ == b@,
            forall|k: int| 0 <= k < i ==> v[k] == w[k],
        decreases v.len() - i,
    {
        if v[i] != w[i] {
            return false;
        }
        i = i + 1;
    }
    assert(v@ =~= w@);
    true
}

/// The `u64` that `s` writes in decimal, if it writes one.
pub fn parse_u64(s: &str) -> (r: Option<u64>)
    ensures
        r == parsed_u64(s@),
{
    let v: Vec<char> = chars_of(s);
    let from: usize = if v.len() > 1 && v[0] == '+' {
        1
    } else {
        0
    };
    let ghost d = unsigned_digits(s@);
    assert(d =~= v@.skip(from as int));
    if v.len() == from {
        return None;
    }
    let mut value: u64 = 0;
    let mut i: usize = from;
    while i < v.len()
        invariant
            from <= i <= v.len(),
            d == v@.skip(from as int),
            d == unsigned_digits(s@),
            forall|k: int| 0 <= k < i - from ==> is_digit(#[trigger] d[k]),
            value == digits_value(d.take(i - from)),
        decreases v.len() - i,
    {
        let c: char = v[i];
        assert(d[i - from] == c);
        if c < '0' || '9' < c {
            return None;
        }
        let ghost k = i - from;
        assert(d.take(k + 1).drop_last() =~= d.take(k));
        let digit: u64 = c as u64 - '0' as u64;
        if value > u64::MAX / 10 || 10 * value > u64::MAX - digit {
            proof {
                lemma_digits_grow(d, k + 1, d.len() as int);
                assert(d.take(d.len() as int) =~= d);
            }
            return None;
        }
        value = 10 * value + digit;
        i = i + 1;
    }
    assert(d.take(d.len() as int) =~= d);
    Some(value)
}

proof fn lemma_digits_grow(d: Seq<char>, j: int, k: int)
    requires
        0 <= j <= k <= d.len(),
    ensures
        digits_value(d.take(j)) <= digits_value(d.take(k)),
    decreases k - j,
{
    if j < k {
        lemma_digits_grow(d, j, k - 1);
        assert(d.take(k).drop_last() =~= d.take(k - 1));
    }
}

/// `n` in decimal.
pub fn decimal_text(n: u64) -> (s: String)
    ensures
        s@ == decimal(n as nat),
    decreases n,
{
    let digit: char = (48u8 + (n % 10) as u8) as char;
    if n < 10 {
        let mut s: String = String::new();
        push_char(&mut s, digit);
        assert(s@ =~= seq![digit_char(n as nat)]);
        s
    } else {
        let mut s: String = decimal_text(n / 10);
        push_char(&mut s, digit);
        s
    }
}

/// Reading back a number written in decimal gives the number.
pub proof fn law_decimal_reads_back(n: u64)
    ensures
        parsed_u64(decimal(n as nat)) == Some(n),
{
    lemma_decimal(n as nat);
    let d = decimal(n as nat);
    assert(is_digit(d[0]));
    assert(unsigned_digits(d) == d);
}

proof fn lemma_decimal(n: nat)
    ensures
        decimal(n).len() > 0,
        forall|i: int| 0 <= i < decimal(n).len() ==> is_digit(#[trigger] decimal(n)[i]),
        digits_value(decimal(n)) == n,
    decreases n,
{
    if n < 10 {
        assert(seq![digit_char(n)].drop_last() =~= Seq::<char>::empty());
        assert(digits_value(Seq::<char>::empty()) == 0);
    } else {
        lemma_decimal(n / 10);
        assert(decimal(n).drop_last() =~= decimal(n / 10));
    }
}

/// `a` followed by `b`.
pub fn joined(a: &str, b: &str) -> (s: String)
    ensures
        s@ == a@ + b@,
{
    let mut s: String = a.to_owned();
    s.append(b);
    s
}

/// Case is that of the ASCII letters alone: a capital and its small letter are 32
/// apart, and every other character is left as it is.
pub proof fn law_case_is_ascii_case(c: char)
    ensures
        'A' <= c <= 'Z' ==> lower_char(c) as u32 == c as u32 + 32,
        !('A' <= c <= 'Z') ==> lower_char(c) == c,
        'a' <= c <= 'z' ==> upper_char(c) as u32 == c as u32 - 32,
        !('a' <= c <= 'z') ==> upper_char(c) == c,
{
}

/// Every character of `s` is white space.
pub open spec fn all_white(s: Seq<char>) -> bool {
    forall|i: int| 0 <= i < s.len() ==> is_white(#[trigger] s[i])
}

/// Trimming takes white space off both ends and nothing else: the text is what was
/// kept, between two stretches of white space, and what was kept neither begins nor
/// ends with any. The counts of what goes before and behind come back.
pub proof fn law_trimming_takes_white_space_off_the_ends(s: Seq<char>) -> (r: (nat, nat))
    ensures
        r.0 + trimmed(s).len() + r.1 == s.len(),
        trimmed(s) == s.subrange(r.0 as int, s.len() - r.1),
        all_white(s.take(r.0 as int)),
        all_white(s.skip(s.len() - r.1)),
        trimmed(s).len() > 0 ==> !is_white(trimmed(s).first()) && !is_white(trimmed(s).last()),
{
    let a = lemma_leading_white(s);
    let rest = without_leading_white(s);
    let b = lemma_trailing_white(rest);
    assert(rest =~= s.skip(a as int));
    assert(trimmed(s) =~= s.subrange(a as int, s.len() - b));
    assert forall|i: int| 0 <= i < b implies is_white(#[trigger] s.skip(s.len() - b)[i]) by {
        assert(rest.skip(rest.len() - b)[i] == s.skip(s.len() - b)[i]);
    }
    if trimmed(s).len() > 0 {
        assert(trimmed(s).first() == rest.first());
    }
    (a, b)
}

proof fn lemma_leading_white(s: Seq<char>) -> (n: nat)
    ensures
        n <= s.len(),
        without_leading_white(s) == s.skip(n as int),
        all_white(s.take(n as int)),
        n < s.len() ==> !is_white(s[n as int]),
    decreases s.len(),
{
    if s.len() > 0 && is_white(s.first()) {
        let n = lemma_leading_white(s.drop_first());
        assert(s.drop_first().skip(n as int) =~= s.skip(n as int + 1));
        assert forall|i: int| 0 <= i < n + 1 implies is_white(#[trigger] s.take(n as int + 1)[i]) by {
            if i > 0 {
                assert(s.drop_first().take(n as int)[i - 1] == s[i]);
            }
        }
        n + 1
    } else {
        assert(s.skip(0) =~= s);
        0
    }
}

proof fn lemma_trailing_white(s: Seq<char>) -> (n: nat)
    ensures
        n <= s.len(),
        without_trailing_white(s) == s.take(s.len() - n),
        all_white(s.skip(s.len() - n)),
        n < s.len() ==> !is_white(s[s.len() - n - 1]),
    decreases s.len(),
{
    if s.len() > 0 && is_white(s.last()) {
        let n = lemma_trailing_white(s.drop_last());
        let m = s.len() - n - 1;
        assert(s.drop_last().take(m) =~= s.take(m));
        assert forall|i: int| 0 <= i < n + 1 implies is_white(#[trigger] s.skip(m)[i]) by {
            if i < n {
                assert(s.drop_last().skip(m)[i] == s[m + i]);
            }
        }
        n + 1
    } else {
        assert(s.take(s.len() as int) =~= s);
        0
    }
}

/// Cutting characters `c` off an end takes off all of them that stand there and
/// nothing else.
pub proof fn law_cutting_an_end_takes_that_character_alone(s: Seq<char>, c: char)
    ensures
        without_trailing(s, c).is_prefix_of(s),
        forall|i: int|
            without_trailing(s, c).len() <= i < s.len() ==> #[trigger] s[i] == c,
        without_trailing(s, c).len() > 0 ==> without_trailing(s, c).last() != c,
        without_leading(s, c).len() <= s.len(),
        without_leading(s, c) == s.skip(s.len() - without_leading(s, c).len()),
        forall|i: int|
            0 <= i < s.len() - without_leading(s, c).len() ==> #[trigger] s[i] == c,
        without_leading(s, c).len() > 0 ==> without_leading(s, c).first() != c,
    decreases s.len(),
{
    assert(s.skip(0) =~= s);
    assert(s.is_prefix_of(s));
    if s.len() > 0 {
        law_cutting_an_end_takes_that_character_alone(s.drop_last(), c);
        law_cutting_an_end_takes_that_character_alone(s.drop_first(), c);
        if s.last() == c {
            let kept = without_trailing(s, c);
            assert forall|i: int| kept.len() <= i < s.len() implies #[trigger] s[i] == c by {
                if i < s.len() - 1 {
                    assert(s.drop_last()[i] == c);
                }
            }
            assert(kept.is_prefix_of(s)) by {
                assert(kept.is_prefix_of(s.drop_last()));
                assert(kept =~= s.take(kept.len() as int)) by {
                    assert(kept =~= s.drop_last().take(kept.len() as int));
                }
            }
        }
        if s.first() == c {
            let kept = without_leading(s, c);
            let n = s.len() - kept.len();
            assert(kept =~= s.drop_first().skip(n - 1));
            assert(kept =~= s.skip(n));
            assert forall|i: int| 0 <= i < n implies #[trigger] s[i] == c by {
                if i > 0 {
                    assert(s.drop_first()[i - 1] == c);
                }
            }
        }
    }
}

/// A number is read digit by digit, the last one counting once and what stands before
/// it ten times: one more digit behind a readable number makes it ten times as large,
/// and the digit's value on top. Text that is empty or holds anything but digits, a
/// leading plus apart, is no number.
pub proof fn law_numbers_are_read_in_decimal(s: Seq<char>, digit: nat)
    requires
        digit < 10,
    ensures
        parsed_u64(Seq::empty()) is None,
        parsed_u64(seq![('0' as u32 + digit) as char]) == Some(digit as u64),
        parsed_u64(s) matches Some(n) ==> parsed_u64(s.push(('0' as u32 + digit) as char))
            == if 10 * n + digit <= u64::MAX {
            Some((10 * n + digit) as u64)
        } else {
            None
        },
        (exists|i: int|
            0 < i < s.len() && !('0' <= #[trigger] s[i] <= '9')) ==> parsed_u64(s) is None,
        s.len() > 0 && s[0] != '+' && !('0' <= s[0] <= '9') ==> parsed_u64(s) is None,
{
    let c = ('0' as u32 + digit) as char;
    assert(c as u32 == '0' as u32 + digit);
    assert(digits_value(Seq::<char>::empty()) == 0);
    assert(seq![c].drop_last() =~= Seq::<char>::empty());
    assert(seq![c].last() == c);
    assert(digits_value(seq![c]) == digit);
    assert(unsigned_digits(seq![c]) =~= seq![c]);
    assert forall|i: int| 0 <= i < seq![c].len() implies is_digit(#[trigger] seq![c][i]) by {}
    if let Some(n) = parsed_u64(s) {
        let d = unsigned_digits(s);
        let more = s.push(c);
        assert(is_digit(d[0]));
        assert(unsigned_digits(more) =~= d.push(c));
        assert(d.push(c).drop_last() =~= d);
        assert forall|i: int| 0 <= i < d.push(c).len() implies is_digit(
            #[trigger] d.push(c)[i],
        ) by {
            if i < d.len() {
                assert(is_digit(d[i]));
            }
        }
        assert(d.push(c).last() == c);
        assert(digits_value(d.push(c)) == 10 * n + digit);
    }
    if exists|i: int| 0 < i < s.len() && !('0' <= #[trigger] s[i] <= '9') {
        let i = choose|i: int| 0 < i < s.len() && !('0' <= #[trigger] s[i] <= '9');
        let d = unsigned_digits(s);
        let k = if d.len() < s.len() { i - 1 } else { i };
        assert(d[k] == s[i]);
        assert(!is_digit(d[k]));
    }
    if s.len() > 0 && s[0] != '+' && !('0' <= s[0] <= '9') {
        assert(unsigned_digits(s)[0] == s[0]);
        assert(!is_digit(unsigned_digits(s)[0]));
    }
}

/// A number is written in as few digits as it takes: digits alone, and no zero leads
/// but the one of zero itself.
pub proof fn law_decimal_is_short(n: nat)
    ensures
        decimal(n).len() > 0,
        forall|i: int| 0 <= i < decimal(n).len() ==> '0' <= #[trigger] decimal(n)[i] <= '9',
        n > 0 ==> decimal(n).first() != '0',
        n < 10 ==> decimal(n).len() == 1,
        n >= 10 ==> decimal(n).len() == decimal(n / 10).len() + 1,
    decreases n,
{
    lemma_decimal(n);
    assert forall|i: int| 0 <= i < decimal(n).len() implies '0' <= #[trigger] decimal(n)[i] <= '9' by {
        assert(is_digit(decimal(n)[i]));
    }
    if n >= 10 {
        law_decimal_is_short(n / 10);
        assert(decimal(n).first() == decimal(n / 10).first());
    }
}

} // verus!
