//! Text as a sequence of characters: decimal numbers written and read,
//! splitting, trimming and the lines of a Stream.
use vstd::prelude::*;
use vstd::slice::slice_subrange;
use vstd::utf8::{char_is_scalar, decode_utf8, encode_scalar, encode_utf8, valid_utf8};
use vstd::utf8::{has_width_1_encoding, last_continuation_byte, leading_byte_width_1};
use vstd::utf8::{leading_byte_width_2, leading_byte_width_3, leading_byte_width_4};
use vstd::utf8::{second_last_continuation_byte, third_last_continuation_byte};

verus! {

/// `String::push`: the character goes at the end, everything before it
/// stays.
pub assume_specification[ String::push ](s: &mut String, c: char)
    ensures
        final(s)@ == old(s)@.push(c),
;

/// `core::str::from_utf8`: the text the bytes encode where they are valid
/// UTF-8, nothing where they are not.
#[verifier::external_body]
pub(crate) fn utf8_text(bytes: &[u8]) -> (text: Option<&str>)
    ensures
        text is Some <==> valid_utf8(bytes@),
        text matches Some(t) ==> t@ == decode_utf8(bytes@),
{
    core::str::from_utf8(bytes).ok()
}

/// What `String::from_utf8_lossy` makes of bytes that are not valid UTF-8:
/// the readable parts, with replacement characters between them.
pub uninterp spec fn repaired_text(bytes: Seq<u8>) -> Seq<char>;

/// The text the bytes encode, repaired where they encode none.
pub open spec fn lossy_text(bytes: Seq<u8>) -> Seq<char> {
    if valid_utf8(bytes) {
        decode_utf8(bytes)
    } else {
        repaired_text(bytes)
    }
}

/// `String::from_utf8_lossy`: valid UTF-8 is the text it encodes; anything
/// else is repaired in a way that depends on the bytes alone.
#[verifier::external_body]
pub(crate) fn utf8_lossy(bytes: &[u8]) -> (text: String)
    ensures
        valid_utf8(bytes@) ==> text@ == decode_utf8(bytes@),
        !valid_utf8(bytes@) ==> text@ == repaired_text(bytes@),
{
    String::from_utf8_lossy(bytes).into_owned()
}

/// The characters of `text`.
pub(crate) fn chars_of(text: &str) -> (chars: Vec<char>)
    ensures
        chars@ == text@,
{
    let mut out: Vec<char> = Vec::new();
    for c in it: text.chars()
        invariant
            it.seq() == text@,
            out@ == text@.take(it.index() as int),
    {
        out.push(c);
        assert(text@.take(it.index() + 1) =~= text@.take(it.index() as int).push(c));
    }
    assert(text@.take(text@.len() as int) =~= text@);
    out
}

/// Append `chars` to `out`.
pub(crate) fn push_chars(out: &mut String, chars: &[char])
    ensures
        final(out)@ == old(out)@ + chars@,
{
    for i in 0..chars.len()
        invariant
            out@ == old(out)@ + chars@.take(i as int),
    {
        out.push(chars[i]);
        assert(chars@.take(i + 1) =~= chars@.take(i as int).push(chars@[i as int]));
    }
    assert(chars@.take(chars@.len() as int) =~= chars@);
}

/// The text `chars` are.
pub(crate) fn string_of(chars: &[char]) -> (text: String)
    ensures
        text@ == chars@,
{
    let mut out = String::new();
    push_chars(&mut out, chars);
    assert(out@ =~= chars@);
    out
}

// ---------------------------------------------------------------- numbers

/// `0` to `9`.
pub open spec fn is_digit(c: char) -> bool {
    '0' <= c <= '9'
}

/// What the digit `c` counts.
pub open spec fn digit_value(c: char) -> nat {
    (c as nat - '0' as nat) as nat
}

/// The digit that counts `d`.
pub open spec fn digit_char(d: nat) -> char {
    ('0' as nat + d) as char
}

/// `n` in decimal, no leading zeros.
pub open spec fn decimal(n: nat) -> Seq<char>
    decreases n,
{
    if n < 10 {
        seq![digit_char(n)]
    } else {
        decimal(n / 10).push(digit_char(n % 10))
    }
}

/// `n` in decimal, a `-` before it where it is negative.
pub open spec fn signed_decimal(n: int) -> Seq<char> {
    if n < 0 {
        seq!['-'] + decimal((-n) as nat)
    } else {
        decimal(n as nat)
    }
}

/// At least one digit, and nothing but digits.
pub open spec fn all_digits(s: Seq<char>) -> bool {
    &&& s.len() > 0
    &&& forall|i: int| 0 <= i < s.len() ==> is_digit(#[trigger] s[i])
}

/// The number a run of digits writes.
pub open spec fn digits_value(s: Seq<char>) -> nat
    decreases s.len(),
{
    if s.len() == 0 {
        0
    } else {
        digits_value(s.drop_last()) * 10 + digit_value(s.last())
    }
}

/// The `u32` that `s` writes: digits, with or without a `+` before them.
pub open spec fn u32_of(s: Seq<char>) -> Option<u32> {
    let digits = if s.len() > 0 && s[0] == '+' {
        s.skip(1)
    } else {
        s
    };
    if all_digits(digits) && digits_value(digits) <= u32::MAX {
        Some(digits_value(digits) as u32)
    } else {
        None
    }
}

/// The `i64` that `s` writes: digits, with or without a sign before them.
pub open spec fn i64_of(s: Seq<char>) -> Option<i64> {
    let signed = s.len() > 0 && (s[0] == '+' || s[0] == '-');
    let digits = if signed {
        s.skip(1)
    } else {
        s
    };
    let n = if s.len() > 0 && s[0] == '-' {
        -(digits_value(digits) as int)
    } else {
        digits_value(digits) as int
    };
    if all_digits(digits) && i64::MIN <= n <= i64::MAX {
        Some(n as i64)
    } else {
        None
    }
}

pub proof fn lemma_decimal(n: nat)
    ensures
        all_digits(decimal(n)),
        digits_value(decimal(n)) == n,
        decimal(n)[0] == '0' ==> n == 0,
    decreases n,
{
    if n < 10 {
        let s = decimal(n);
        assert(s.drop_last() =~= Seq::<char>::empty());
        assert(digits_value(s.drop_last()) == 0);
    } else {
        lemma_decimal(n / 10);
        let s = decimal(n);
        assert(s.drop_last() =~= decimal(n / 10));
        assert forall|i: int| 0 <= i < s.len() implies is_digit(#[trigger] s[i]) by {
            if i < s.len() - 1 {
                assert(s[i] == decimal(n / 10)[i]);
            }
        }
    }
}

/// A longer run of digits writes no smaller a number.
proof fn lemma_digits_grow(s: Seq<char>, i: int)
    requires
        0 <= i <= s.len(),
    ensures
        digits_value(s.take(i)) <= digits_value(s),
    decreases s.len(),
{
    if i == s.len() {
        assert(s.take(i) =~= s);
    } else {
        lemma_digits_grow(s.drop_last(), i);
        assert(s.drop_last().take(i) =~= s.take(i));
    }
}

/// The number a run of digits writes, where `u64` holds it.
pub(crate) fn read_digits(s: &[char]) -> (n: Option<u64>)
    ensures
        n matches Some(v) ==> all_digits(s@) && digits_value(s@) == v,
        n is None ==> !all_digits(s@) || digits_value(s@) > u64::MAX,
{
    if s.len() == 0 {
        return None;
    }
    let mut n: u64 = 0;
    for i in 0..s.len()
        invariant
            forall|j: int| 0 <= j < i ==> is_digit(#[trigger] s@[j]),
            n == digits_value(s@.take(i as int)),
    {
        let c = s[i];
        if c < '0' || c > '9' {
            assert(!is_digit(s@[i as int]));
            return None;
        }
        let d: u64 = c as u64 - '0' as u64;
        assert(s@.take(i + 1).drop_last() =~= s@.take(i as int));
        assert(digits_value(s@.take(i + 1)) == n * 10 + d);
        if n > (u64::MAX - d) / 10 {
            proof {
                lemma_digits_grow(s@, i + 1);
            }
            return None;
        }
        n = n * 10 + d;
    }
    assert(s@.take(s@.len() as int) =~= s@);
    Some(n)
}

/// The `u32` that `s` writes.
pub(crate) fn read_u32(s: &[char]) -> (n: Option<u32>)
    ensures
        n == u32_of(s@),
{
    let digits = if s.len() > 0 && s[0] == '+' {
        slice_subrange(s, 1, s.len())
    } else {
        s
    };
    match read_digits(digits) {
        Some(n) if n <= u32::MAX as u64 => Some(n as u32),
        _ => None,
    }
}

/// The `i64` that `s` writes.
pub(crate) fn read_i64(s: &[char]) -> (n: Option<i64>)
    ensures
        n == i64_of(s@),
{
    let negative = s.len() > 0 && s[0] == '-';
    let signed = negative || (s.len() > 0 && s[0] == '+');
    let digits = if signed {
        slice_subrange(s, 1, s.len())
    } else {
        s
    };
    match read_digits(digits) {
        None => None,
        Some(n) => {
            if negative {
                if n <= 0x7fff_ffff_ffff_ffff {
                    Some(-(n as i64))
                } else if n == 0x8000_0000_0000_0000 {
                    Some(i64::MIN)
                } else {
                    None
                }
            } else if n <= 0x7fff_ffff_ffff_ffff {
                Some(n as i64)
            } else {
                None
            }
        },
    }
}

/// Append `n` in decimal.
pub(crate) fn push_decimal(out: &mut String, n: u64)
    ensures
        final(out)@ == old(out)@ + decimal(n as nat),
    decreases n,
{
    if n >= 10 {
        push_decimal(out, n / 10);
    }
    let d: u8 = (n % 10) as u8;
    out.push((0x30 + d) as char);
    assert(out@ =~= old(out)@ + decimal(n as nat));
}

/// Append `n` in decimal, signed.
pub(crate) fn push_signed(out: &mut String, n: i64)
    ensures
        final(out)@ == old(out)@ + signed_decimal(n as int),
{
    if n < 0 {
        out.push('-');
        let magnitude: u64 = (-(n + 1)) as u64 + 1;
        push_decimal(out, magnitude);
        assert(out@ =~= old(out)@ + signed_decimal(n as int));
    } else {
        push_decimal(out, n as u64);
    }
}

// -------------------------------------------------------------- splitting

/// Where the first `c` of `s` is, or the length of `s` where there is none.
pub open spec fn first_index(s: Seq<char>, c: char) -> nat
    decreases s.len(),
{
    if s.len() == 0 || s[0] == c {
        0
    } else {
        1 + first_index(s.skip(1), c)
    }
}

/// What is before and after the first `c`, where there is one.
pub open spec fn split_once(s: Seq<char>, c: char) -> Option<(Seq<char>, Seq<char>)> {
    let i = first_index(s, c) as int;
    if i < s.len() {
        Some((s.take(i), s.skip(i + 1)))
    } else {
        None
    }
}

/// The parts of `s` between one `c` and the next.
pub open spec fn split(s: Seq<char>, c: char) -> Seq<Seq<char>>
    decreases s.len(),
{
    let i = first_index(s, c) as int;
    if i < s.len() {
        seq![s.take(i)] + split(s.skip(i + 1), c)
    } else {
        seq![s]
    }
}

/// `s` without `prefix`, where it opens with it.
pub open spec fn strip_prefix(s: Seq<char>, prefix: Seq<char>) -> Option<Seq<char>> {
    if s.len() >= prefix.len() && s.take(prefix.len() as int) == prefix {
        Some(s.skip(prefix.len() as int))
    } else {
        None
    }
}

/// `part` occurs somewhere in `s`.
pub open spec fn has_part(s: Seq<char>, part: Seq<char>) -> bool {
    exists|i: int|
        0 <= i <= s.len() - part.len() && #[trigger] s.subrange(i, i + part.len()) == part
}

/// The first `c` of `s` is at `i`, or there is none and `i` is the end.
pub proof fn lemma_first_index(s: Seq<char>, c: char, i: int)
    requires
        0 <= i <= s.len(),
        forall|j: int| 0 <= j < i ==> #[trigger] s[j] != c,
        i < s.len() ==> s[i] == c,
    ensures
        first_index(s, c) == i,
    decreases s.len(),
{
    if i > 0 {
        assert(s[0] != c);
        assert forall|j: int| 0 <= j < i - 1 implies #[trigger] s.skip(1)[j] != c by {
            assert(s[j + 1] != c);
        }
        lemma_first_index(s.skip(1), c, i - 1);
    }
}

/// What `first_index` names.
pub proof fn lemma_first_index_is(s: Seq<char>, c: char)
    ensures
        first_index(s, c) <= s.len(),
        forall|j: int| 0 <= j < first_index(s, c) ==> #[trigger] s[j] != c,
        first_index(s, c) < s.len() ==> s[first_index(s, c) as int] == c,
    decreases s.len(),
{
    if s.len() > 0 && s[0] != c {
        lemma_first_index_is(s.skip(1), c);
        assert forall|j: int| 0 <= j < first_index(s, c) implies #[trigger] s[j] != c by {
            if j > 0 {
                assert(s.skip(1)[j - 1] != c);
            }
        }
    }
}

/// Where the first `c` of `s` is, or its length.
pub(crate) fn find(s: &[char], c: char) -> (i: usize)
    ensures
        i == first_index(s@, c),
        i <= s@.len(),
{
    let mut i: usize = 0;
    while i < s.len() && s[i] != c
        invariant
            i <= s@.len(),
            forall|j: int| 0 <= j < i ==> #[trigger] s@[j] != c,
        decreases s@.len() - i,
    {
        i += 1;
    }
    proof {
        lemma_first_index(s@, c, i as int);
    }
    i
}

/// The slices agree.
pub(crate) fn same_chars(a: &[char], b: &[char]) -> (same: bool)
    ensures
        same == (a@ == b@),
{
    if a.len() != b.len() {
        return false;
    }
    for i in 0..a.len()
        invariant
            a@.len() == b@.len(),
            forall|j: int| 0 <= j < i ==> a@[j] == b@[j],
    {
        if a[i] != b[i] {
            return false;
        }
    }
    assert(a@ =~= b@);
    true
}

/// `s` is the text `t`.
pub(crate) fn is_text(s: &[char], t: &str) -> (same: bool)
    ensures
        same == (s@ == t@),
{
    let t = chars_of(t);
    same_chars(s, t.as_slice())
}

/// `s` without `prefix`, where it opens with it.
pub(crate) fn without_prefix<'a>(s: &'a [char], prefix: &str) -> (rest: Option<&'a [char]>)
    ensures
        match rest {
            Some(r) => strip_prefix(s@, prefix@) == Some(r@),
            None => strip_prefix(s@, prefix@) is None,
        },
{
    let prefix = chars_of(prefix);
    if s.len() < prefix.len() {
        return None;
    }
    let head = slice_subrange(s, 0, prefix.len());
    assert(head@ =~= s@.take(prefix@.len() as int));
    if same_chars(head, prefix.as_slice()) {
        let rest = slice_subrange(s, prefix.len(), s.len());
        assert(rest@ =~= s@.skip(prefix@.len() as int));
        Some(rest)
    } else {
        None
    }
}

/// `part` occurs somewhere in `s`.
pub(crate) fn contains_text(s: &[char], part: &str) -> (found: bool)
    ensures
        found == has_part(s@, part@),
{
    let wanted = chars_of(part);
    if s.len() < wanted.len() {
        return false;
    }
    let last: usize = s.len() - wanted.len();
    let mut i: usize = 0;
    loop
        invariant
            wanted@ == part@,
            last == s.len() - wanted.len(),
            i <= last,
            forall|j: int| 0 <= j < i ==> #[trigger] s@.subrange(j, j + part@.len()) != part@,
        decreases last - i,
    {
        let window = slice_subrange(s, i, i + wanted.len());
        if same_chars(window, wanted.as_slice()) {
            assert(s@.subrange(i as int, i + part@.len()) == part@);
            return true;
        }
        if i == last {
            return false;
        }
        i += 1;
    }
}

// --------------------------------------------------------------- trimming

/// The characters Unicode gives the `White_Space` property.
pub open spec fn white_space(c: char) -> bool {
    ||| '\u{9}' <= c <= '\u{d}'
    ||| c == ' '
    ||| c == '\u{85}'
    ||| c == '\u{a0}'
    ||| c == '\u{1680}'
    ||| '\u{2000}' <= c <= '\u{200a}'
    ||| c == '\u{2028}'
    ||| c == '\u{2029}'
    ||| c == '\u{202f}'
    ||| c == '\u{205f}'
    ||| c == '\u{3000}'
}

/// The characters of Unicode's general category `Cc`.
pub open spec fn control(c: char) -> bool {
    c <= '\u{1f}' || '\u{7f}' <= c <= '\u{9f}'
}

pub open spec fn trim_start(s: Seq<char>) -> Seq<char>
    decreases s.len(),
{
    if s.len() > 0 && white_space(s[0]) {
        trim_start(s.skip(1))
    } else {
        s
    }
}

pub open spec fn trim_end(s: Seq<char>) -> Seq<char>
    decreases s.len(),
{
    if s.len() > 0 && white_space(s.last()) {
        trim_end(s.drop_last())
    } else {
        s
    }
}

/// `s` without the white space before and after it.
pub open spec fn trim(s: Seq<char>) -> Seq<char> {
    trim_end(trim_start(s))
}

/// `s` without the `c` it ends with, however many.
pub open spec fn trim_end_matches(s: Seq<char>, c: char) -> Seq<char>
    decreases s.len(),
{
    if s.len() > 0 && s.last() == c {
        trim_end_matches(s.drop_last(), c)
    } else {
        s
    }
}

fn is_white_space(c: char) -> (is: bool)
    ensures
        is == white_space(c),
{
    ('\u{9}' <= c && c <= '\u{d}') || c == ' ' || c == '\u{85}' || c == '\u{a0}' || c
        == '\u{1680}' || ('\u{2000}' <= c && c <= '\u{200a}') || c == '\u{2028}' || c
        == '\u{2029}' || c == '\u{202f}' || c == '\u{205f}' || c == '\u{3000}'
}

/// Any control character in `s`.
pub(crate) fn any_control(s: &[char]) -> (any: bool)
    ensures
        any == exists|i: int| 0 <= i < s@.len() && control(#[trigger] s@[i]),
{
    for i in 0..s.len()
        invariant
            forall|j: int| 0 <= j < i ==> !control(#[trigger] s@[j]),
    {
        let c = s[i];
        if c <= '\u{1f}' || ('\u{7f}' <= c && c <= '\u{9f}') {
            return true;
        }
    }
    false
}

/// `s` without the white space before and after it.
pub(crate) fn trimmed(s: &[char]) -> (rest: &[char])
    ensures
        rest@ == trim(s@),
{
    let mut from: usize = 0;
    assert(s@.skip(0) =~= s@);
    while from < s.len() && is_white_space(s[from])
        invariant
            from <= s@.len(),
            trim_start(s@) == trim_start(s@.skip(from as int)),
        decreases s@.len() - from,
    {
        assert(s@.skip(from as int).skip(1) =~= s@.skip(from + 1));
        from += 1;
    }
    let mut to: usize = s.len();
    assert(s@.subrange(from as int, to as int) =~= s@.skip(from as int));
    while to > from && is_white_space(s[to - 1])
        invariant
            from <= to <= s@.len(),
            trim(s@) == trim_end(s@.subrange(from as int, to as int)),
        decreases to,
    {
        assert(s@.subrange(from as int, to as int).drop_last() =~= s@.subrange(
            from as int,
            to - 1,
        ));
        to -= 1;
    }
    slice_subrange(s, from, to)
}

/// `s` without the `c` it ends with, however many.
pub(crate) fn without_trailing(s: &[char], c: char) -> (rest: &[char])
    ensures
        rest@ == trim_end_matches(s@, c),
{
    let mut to: usize = s.len();
    assert(s@.take(to as int) =~= s@);
    while to > 0 && s[to - 1] == c
        invariant
            to <= s@.len(),
            trim_end_matches(s@, c) == trim_end_matches(s@.take(to as int), c),
        decreases to,
    {
        assert(s@.take(to as int).drop_last() =~= s@.take(to - 1));
        to -= 1;
    }
    let rest = slice_subrange(s, 0, to);
    assert(rest@ =~= s@.take(to as int));
    rest
}

// ------------------------------------------------------------------ lines

/// `line` without the one carriage return it ends with.
pub open spec fn without_return(line: Seq<char>) -> Seq<char> {
    if line.len() > 0 && line.last() == '\r' {
        line.drop_last()
    } else {
        line
    }
}

/// The lines of `s`: ended by a newline, or by a carriage return and a
/// newline; the last one needs no ending.
pub open spec fn lines(s: Seq<char>) -> Seq<Seq<char>>
    decreases s.len(),
{
    let i = first_index(s, '\n') as int;
    if i < s.len() {
        seq![without_return(s.take(i))] + lines(s.skip(i + 1))
    } else if s.len() == 0 {
        seq![]
    } else {
        seq![s]
    }
}

proof fn lemma_trim_start_keeps(s: Seq<char>, i: int) -> (j: int)
    requires
        0 <= i < s.len(),
        !white_space(s[i]),
    ensures
        0 <= j < trim_start(s).len(),
        !white_space(trim_start(s)[j]),
    decreases s.len(),
{
    if white_space(s[0]) {
        assert(s.skip(1)[i - 1] == s[i]);
        lemma_trim_start_keeps(s.skip(1), i - 1)
    } else {
        i
    }
}

proof fn lemma_trim_end_keeps(s: Seq<char>, i: int)
    requires
        0 <= i < s.len(),
        !white_space(s[i]),
    ensures
        trim_end(s).len() > 0,
    decreases s.len(),
{
    if white_space(s.last()) {
        assert(s.drop_last()[i] == s[i]);
        lemma_trim_end_keeps(s.drop_last(), i);
    }
}

/// Text that is not all white space is not blank.
pub proof fn lemma_not_blank(s: Seq<char>, i: int)
    requires
        0 <= i < s.len(),
        !white_space(s[i]),
    ensures
        trim(s).len() > 0,
{
    let j = lemma_trim_start_keeps(s, i);
    lemma_trim_end_keeps(trim_start(s), j);
}

/// Text that is all white space is blank.
pub proof fn lemma_blank(s: Seq<char>)
    requires
        forall|i: int| 0 <= i < s.len() ==> white_space(#[trigger] s[i]),
    ensures
        trim(s).len() == 0,
    decreases s.len(),
{
    if s.len() > 0 {
        assert(white_space(s[0]));
        assert forall|i: int| 0 <= i < s.skip(1).len() implies white_space(
            #[trigger] s.skip(1)[i],
        ) by {
            assert(white_space(s[i + 1]));
        }
        lemma_blank(s.skip(1));
    }
}

// ----------------------------------------------------------------- counting

/// How many times `x` is in `s`.
pub open spec fn occurrences<T>(s: Seq<T>, x: T) -> nat
    decreases s.len(),
{
    if s.len() == 0 {
        0
    } else {
        occurrences(s.skip(1), x) + if s[0] == x {
            1nat
        } else {
            0nat
        }
    }
}

pub proof fn lemma_occurrences_add<T>(a: Seq<T>, b: Seq<T>, x: T)
    ensures
        occurrences(a + b, x) == occurrences(a, x) + occurrences(b, x),
    decreases a.len(),
{
    if a.len() == 0 {
        assert(a + b =~= b);
    } else {
        lemma_occurrences_add(a.skip(1), b, x);
        assert((a + b).skip(1) =~= a.skip(1) + b);
    }
}

pub proof fn lemma_occurrences_none<T>(s: Seq<T>, x: T)
    requires
        forall|i: int| 0 <= i < s.len() ==> #[trigger] s[i] != x,
    ensures
        occurrences(s, x) == 0,
    decreases s.len(),
{
    if s.len() > 0 {
        assert(s[0] != x);
        assert forall|i: int| 0 <= i < s.skip(1).len() implies #[trigger] s.skip(1)[i] != x by {
            assert(s[i + 1] != x);
        }
        lemma_occurrences_none(s.skip(1), x);
    }
}

/// The octets of two texts, one after the other, are those of the two put
/// together.
pub proof fn lemma_encode_add(a: Seq<char>, b: Seq<char>)
    ensures
        encode_utf8(a + b) == encode_utf8(a) + encode_utf8(b),
    decreases a.len(),
{
    if a.len() == 0 {
        assert(a + b =~= b);
        assert(encode_utf8(a) + encode_utf8(b) =~= encode_utf8(b));
    } else {
        lemma_encode_add(a.drop_first(), b);
        assert((a + b).drop_first() =~= a.drop_first() + b);
        assert(encode_utf8(a + b) =~= encode_utf8(a) + encode_utf8(b));
    }
}

/// The octet of a newline is in the octets of a newline and of no other
/// character.
proof fn lemma_newline_octet(c: char)
    ensures
        occurrences(encode_scalar(c as u32), 0x0au8) == if c == '\n' {
            1nat
        } else {
            0nat
        },
{
    let v = c as u32;
    char_is_scalar(c);
    if has_width_1_encoding(v) {
        assert((leading_byte_width_1(v) == 0x0a) == (v == 0x0a)) by (bit_vector)
            requires
                has_width_1_encoding(v),
        ;
        reveal_with_fuel(occurrences, 2);
    } else {
        assert(leading_byte_width_2(v) != 0x0a) by (bit_vector);
        assert(leading_byte_width_3(v) != 0x0a) by (bit_vector);
        assert(leading_byte_width_4(v) != 0x0a) by (bit_vector);
        assert(last_continuation_byte(v) != 0x0a) by (bit_vector);
        assert(second_last_continuation_byte(v) != 0x0a) by (bit_vector);
        assert(third_last_continuation_byte(v) != 0x0a) by (bit_vector);
        lemma_occurrences_none(encode_scalar(v), 0x0au8);
    }
}

/// The octets of a text hold a newline for each that the text holds.
pub proof fn lemma_newline_octets(s: Seq<char>)
    ensures
        occurrences(encode_utf8(s), 0x0au8) == occurrences(s, '\n'),
    decreases s.len(),
{
    if s.len() > 0 {
        lemma_newline_octet(s[0]);
        lemma_newline_octets(s.drop_first());
        lemma_occurrences_add(encode_scalar(s[0] as u32), encode_utf8(s.drop_first()), 0x0au8);
        assert(s.drop_first() =~= s.skip(1));
    }
}

} // verus!
