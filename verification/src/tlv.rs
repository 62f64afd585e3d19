//! X.690 framing: a tag, a length of the definite form, and that many
//! octets; and the INTEGER inside one.
use vstd::prelude::*;
use vstd::slice::slice_subrange;

use crate::error::{Fault, Refusal, Result};
use crate::octets::{be_octets, be_value, int_octets, int_value};
use crate::octets::{lemma_be_octets, lemma_be_octets_len, lemma_be_octets_len_min};
use crate::octets::{lemma_be_value_grows, lemma_int_octets, lemma_int_octets_len};
use crate::octets::lemma_span_values;
use crate::octets::{push_be, read_signed, signed_octets};

verus! {

pub const INTEGER: u8 = 0x02;

pub const OCTET_STRING: u8 = 0x04;

pub const NULL: u8 = 0x05;

pub const OBJECT_IDENTIFIER: u8 = 0x06;

pub const SEQUENCE: u8 = 0x30;

/// A length: one octet where seven bits hold it, else how many octets it
/// takes and then those octets.
pub open spec fn length_octets(len: nat) -> Seq<u8> {
    if len < 128 {
        seq![len as u8]
    } else {
        seq![(128 + be_octets(len).len()) as u8] + be_octets(len)
    }
}

/// One element: the tag, the length of the body, the body.
pub open spec fn tlv(tag: u8, body: Seq<u8>) -> Seq<u8> {
    seq![tag] + length_octets(body.len()) + body
}

/// How many octets an element takes around its body.
pub proof fn lemma_tlv_len(tag: u8, body: Seq<u8>)
    ensures
        body.len() < 0x80 ==> tlv(tag, body).len() == body.len() + 2,
        0x80 <= body.len() < 0x100 ==> tlv(tag, body).len() == body.len() + 3,
        0x100 <= body.len() < 0x1_0000 ==> tlv(tag, body).len() == body.len() + 4,
        body.len() >= 0x1_0000 ==> tlv(tag, body).len() >= body.len() + 5,
{
    let n = body.len();
    lemma_span_values();
    if n >= 0x80 {
        if n < 0x100 {
            lemma_be_octets_len(n, 1);
            lemma_be_octets(n);
        } else if n < 0x1_0000 {
            lemma_be_octets_len(n, 2);
            lemma_be_octets_len_min(n, 1);
        } else {
            lemma_be_octets_len_min(n, 2);
        }
    }
}

/// The `len` octets of `s` from `head` on, and what is after them.
pub open spec fn body_at(s: Seq<u8>, head: nat, len: nat) -> core::result::Result<
    (u8, Seq<u8>, Seq<u8>),
    Refusal,
> {
    if head + len <= s.len() {
        Ok((s[0], s.subrange(head as int, (head + len) as int), s.skip((head + len) as int)))
    } else {
        Err(Fault::ShortValue)
    }
}

/// The tag and the body of the element `s` opens with, and what is after
/// it.
pub open spec fn frame(s: Seq<u8>) -> core::result::Result<(u8, Seq<u8>, Seq<u8>), Refusal> {
    if s.len() < 2 {
        Err(Fault::ShortValue)
    } else if s[1] < 128 {
        body_at(s, 2, s[1] as nat)
    } else if s[1] == 128 {
        Err(Fault::IndefiniteLength)
    } else {
        let head = (s[1] - 126) as nat;
        if s.len() < head {
            Err(Fault::ShortValue)
        } else {
            body_at(s, head, be_value(s.subrange(2, head as int)))
        }
    }
}

/// The number the body of an INTEGER is: one to eight octets of two's
/// complement.
pub open spec fn integer_in(body: Seq<u8>) -> core::result::Result<i64, Refusal> {
    if body.len() == 0 {
        Err(Fault::EmptyInteger)
    } else if body.len() > 8 {
        Err(Fault::LongInteger)
    } else {
        Ok(int_value(body) as i64)
    }
}

/// An element reads back, whatever follows it.
pub proof fn law_element_reads_back(tag: u8, body: Seq<u8>, rest: Seq<u8>)
    requires
        body.len() <= usize::MAX,
    ensures
        frame(tlv(tag, body) + rest) == Ok::<(u8, Seq<u8>, Seq<u8>), Refusal>((tag, body, rest)),
{
    let s = tlv(tag, body) + rest;
    let len = body.len();
    let octets = length_octets(len);
    let head = (1 + octets.len()) as nat;
    if len >= 128 {
        lemma_be_octets(len);
        lemma_span_values();
        lemma_be_octets_len(len, 8);
        assert(s[1] == octets[0]);
        assert(s.subrange(2, head as int) =~= be_octets(len));
    }
    assert(s.subrange(head as int, (head + len) as int) =~= body);
    assert(s.skip((head + len) as int) =~= rest);
}

/// A number reads back from the body of its INTEGER.
pub proof fn law_integer_reads_back(n: i64)
    ensures
        integer_in(int_octets(n as int)) == Ok::<i64, Refusal>(n),
{
    lemma_int_octets(n as int);
    lemma_span_values();
    lemma_int_octets_len(n as int, 8);
}

/// Append one element.
pub(crate) fn write_tlv(out: &mut Vec<u8>, tag: u8, body: &[u8])
    ensures
        final(out)@ == old(out)@ + tlv(tag, body@),
{
    out.push(tag);
    let len: usize = body.len();
    if len < 128 {
        out.push(len as u8);
    } else {
        let mut octets: Vec<u8> = Vec::new();
        push_be(&mut octets, len as u64);
        assert(octets@ =~= be_octets(len as nat));
        proof {
            lemma_span_values();
            lemma_be_octets_len(len as nat, 8);
        }
        out.push(128 + octets.len() as u8);
        out.append(&mut octets);
    }
    out.extend_from_slice(body);
    assert(out@ =~= old(out)@ + tlv(tag, body@));
}

/// The tag and the body of the element `s` opens with, and what is after
/// it.
pub(crate) fn read(s: &[u8]) -> (element: Result<(u8, &[u8], &[u8])>)
    ensures
        match element {
            Ok((tag, body, rest)) => frame(s@) == Ok::<(u8, Seq<u8>, Seq<u8>), Refusal>(
                (tag, body@, rest@),
            ),
            Err(e) => frame(s@) == Err::<(u8, Seq<u8>, Seq<u8>), Refusal>(e@),
        },
{
    if s.len() < 2 {
        return Err(Fault::ShortValue);
    }
    let mut head: usize = 2;
    let mut len: usize = 0;
    if s[1] < 128 {
        len = s[1] as usize;
    } else if s[1] == 128 {
        return Err(Fault::IndefiniteLength);
    } else {
        head = s[1] as usize - 126;
        if s.len() < head {
            return Err(Fault::ShortValue);
        }
        let ghost octets = s@.subrange(2, head as int);
        for i in 2..head
            invariant
                2 <= head <= s@.len(),
                octets == s@.subrange(2, head as int),
                len == be_value(octets.take(i - 2)),
                head == s[1] - 126,
                s[1] > 128,
        {
            let ghost k = i - 2;
            let octet: usize = s[i] as usize;
            assert(octets.take(k + 1).drop_last() =~= octets.take(k));
            assert(be_value(octets.take(k + 1)) == len * 256 + octet);
            if len > (usize::MAX - octet) / 256 {
                proof {
                    lemma_be_value_grows(octets, k + 1);
                    assert(s.len() <= usize::MAX);
                }
                return Err(Fault::ShortValue);
            }
            len = len * 256 + octet;
        }
        assert(octets.take(head - 2) =~= octets);
    }
    if len > s.len() - head {
        return Err(Fault::ShortValue);
    }
    let body = slice_subrange(s, head, head + len);
    let rest = slice_subrange(s, head + len, s.len());
    assert(rest@ =~= s@.skip(head + len));
    Ok((s[0], body, rest))
}

/// `n` as the body of an INTEGER.
pub(crate) fn integer(n: i64) -> (body: Vec<u8>)
    ensures
        body@ == int_octets(n as int),
{
    signed_octets(n)
}

/// The number the body of an INTEGER is.
pub(crate) fn read_integer(body: &[u8]) -> (n: Result<i64>)
    ensures
        match n {
            Ok(v) => integer_in(body@) == Ok::<i64, Refusal>(v),
            Err(e) => integer_in(body@) == Err::<i64, Refusal>(e@),
        },
{
    if body.len() == 0 {
        Err(Fault::EmptyInteger)
    } else if body.len() > 8 {
        Err(Fault::LongInteger)
    } else {
        Ok(read_signed(body))
    }
}

} // verus!
