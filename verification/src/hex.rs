//! Octets as pairs of hexadecimal digits.
use vstd::prelude::*;

verus! {

/// The lower-case digit that counts `d`.
pub open spec fn hex_char(d: nat) -> char {
    if d < 10 {
        ('0' as nat + d) as char
    } else {
        ('a' as nat + (d - 10)) as char
    }
}

/// What a digit of either case counts.
pub open spec fn hex_digit(c: char) -> Option<nat> {
    if '0' <= c <= '9' {
        Some((c as nat - '0' as nat) as nat)
    } else if 'a' <= c <= 'f' {
        Some((c as nat - 'a' as nat + 10) as nat)
    } else if 'A' <= c <= 'F' {
        Some((c as nat - 'A' as nat + 10) as nat)
    } else {
        None
    }
}

/// Two digits for each octet, the higher four bits first.
pub open spec fn hex_text(bytes: Seq<u8>) -> Seq<char>
    decreases bytes.len(),
{
    if bytes.len() == 0 {
        seq![]
    } else {
        seq![hex_char(bytes[0] as nat / 16), hex_char(bytes[0] as nat % 16)] + hex_text(
            bytes.skip(1),
        )
    }
}

/// The octets that pairs of digits write, where `s` is nothing but pairs of
/// digits.
pub open spec fn hex_bytes(s: Seq<char>) -> Option<Seq<u8>>
    decreases s.len(),
{
    if s.len() == 0 {
        Some(seq![])
    } else if s.len() == 1 {
        None
    } else {
        match (hex_digit(s[0]), hex_digit(s[1]), hex_bytes(s.skip(2))) {
            (Some(high), Some(low), Some(rest)) => Some(seq![(high * 16 + low) as u8] + rest),
            _ => None,
        }
    }
}

/// What is written as hexadecimal reads back.
pub proof fn law_hex_round_trips(bytes: Seq<u8>)
    ensures
        hex_bytes(hex_text(bytes)) == Some(bytes),
    decreases bytes.len(),
{
    let s = hex_text(bytes);
    if bytes.len() > 0 {
        law_hex_round_trips(bytes.skip(1));
        assert(s.skip(2) =~= hex_text(bytes.skip(1)));
        assert(seq![bytes[0]] + bytes.skip(1) =~= bytes);
    }
}

/// Hexadecimal text is digits and letters from `a` to `f`.
pub proof fn lemma_hex_text(bytes: Seq<u8>)
    ensures
        hex_text(bytes).len() == 2 * bytes.len(),
        forall|i: int|
            0 <= i < hex_text(bytes).len() ==> ('0' <= #[trigger] hex_text(bytes)[i] <= '9' || 'a'
                <= hex_text(bytes)[i] <= 'f'),
    decreases bytes.len(),
{
    if bytes.len() > 0 {
        lemma_hex_text(bytes.skip(1));
        let s = hex_text(bytes);
        assert forall|i: int| 0 <= i < s.len() implies ('0' <= #[trigger] s[i] <= '9' || 'a' <= s[i]
            <= 'f') by {
            if i >= 2 {
                assert(s[i] == hex_text(bytes.skip(1))[i - 2]);
            }
        }
    }
}

fn digit_of(d: u8) -> (c: char)
    requires
        d < 16,
    ensures
        c == hex_char(d as nat),
{
    if d < 10 {
        (0x30 + d) as char
    } else {
        (0x61 + (d - 10)) as char
    }
}

fn value_of(c: char) -> (d: Option<u8>)
    ensures
        match d {
            Some(v) => hex_digit(c) == Some(v as nat) && v < 16,
            None => hex_digit(c) is None,
        },
{
    if '0' <= c && c <= '9' {
        Some((c as u32 - '0' as u32) as u8)
    } else if 'a' <= c && c <= 'f' {
        Some((c as u32 - 'a' as u32 + 10) as u8)
    } else if 'A' <= c && c <= 'F' {
        Some((c as u32 - 'A' as u32 + 10) as u8)
    } else {
        None
    }
}

/// Append one octet as two digits.
pub(crate) fn push_octet(out: &mut String, byte: u8)
    ensures
        final(out)@ == old(out)@ + seq![hex_char(byte as nat / 16), hex_char(byte as nat % 16)],
{
    out.push(digit_of(byte / 16));
    out.push(digit_of(byte % 16));
    assert(out@ =~= old(out)@ + seq![hex_char(byte as nat / 16), hex_char(byte as nat % 16)]);
}

/// Append `bytes` as pairs of digits.
pub(crate) fn push_hex(out: &mut String, bytes: &[u8])
    ensures
        final(out)@ == old(out)@ + hex_text(bytes@),
{
    assert(bytes@.skip(0) =~= bytes@);
    for i in 0..bytes.len()
        invariant
            old(out)@ + hex_text(bytes@) =~= out@ + hex_text(bytes@.skip(i as int)),
    {
        assert(bytes@.skip(i as int).skip(1) =~= bytes@.skip(i + 1));
        push_octet(out, bytes[i]);
    }
    assert(bytes@.skip(bytes@.len() as int) =~= Seq::<u8>::empty());
    assert(out@ + hex_text(Seq::<u8>::empty()) =~= out@);
}

/// The octets that pairs of digits write.
pub(crate) fn read_hex(s: &[char]) -> (bytes: Option<Vec<u8>>)
    ensures
        match bytes {
            Some(b) => hex_bytes(s@) == Some(b@),
            None => hex_bytes(s@) is None,
        },
{
    let mut out: Vec<u8> = Vec::new();
    let mut i: usize = 0;
    assert(s@.skip(0) =~= s@);
    while i < s.len()
        invariant
            i <= s.len(),
            match hex_bytes(s@.skip(i as int)) {
                Some(rest) => hex_bytes(s@) == Some(out@ + rest),
                None => hex_bytes(s@) is None,
            },
        decreases s.len() - i,
    {
        let ghost rest = s@.skip(i as int);
        if s.len() - i < 2 {
            return None;
        }
        assert(rest.skip(2) =~= s@.skip(i + 2));
        match (value_of(s[i]), value_of(s[i + 1])) {
            (Some(high), Some(low)) => {
                let ghost before = out@;
                let byte: u8 = high * 16 + low;
                out.push(byte);
                assert(forall|tail: Seq<u8>|
                    before + (seq![byte] + tail) =~= #[trigger] (out@ + tail));
            },
            _ => {
                return None;
            },
        }
        i += 2;
    }
    assert(s@.skip(i as int) =~= Seq::<char>::empty());
    assert(out@ + Seq::<u8>::empty() =~= out@);
    Some(out)
}

} // verus!
