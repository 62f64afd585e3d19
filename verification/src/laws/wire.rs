//! Values on the wire: a tag, a length and a body, and what the body of each
//! tag is.
use vstd::prelude::*;

use crate::ber::{as_integer, as_items, as_octets, as_oid, decoding};
use crate::ber::{encodable, encoding, encodings, items_in, oid_in, oid_octets};
use crate::ber::{reading, unsigned_in, value_in, well_formed, ValueModel};
use crate::error::{Fault, Refusal, Shape};
use crate::laws::numbers::{law_octets_are_base_256_digits, octet_digits, worth};
use crate::octets::{be_octets, int_octets, lemma_be_octets_len, lemma_span_values};
use crate::tlv::{frame, integer_in, length_octets, tlv};

verus! {

/// `octets` say the length `n`: one octet under 128 that counts it; or one
/// that is 128 and how many follow, and those are its digits in base 256.
pub open spec fn says_length(octets: Seq<u8>, n: nat) -> bool {
    ||| octets.len() == 1 && octets[0] < 128 && octets[0] == n
    ||| {
        &&& 2 <= octets.len() <= 128
        &&& octets[0] == 127 + octets.len()
        &&& worth(octet_digits(octets.skip(1)), 256) == n
    }
}

/// A tag, a length and a body, one after the other.
pub open spec fn element(tag: u8, length: Seq<u8>, body: Seq<u8>) -> Seq<u8> {
    seq![tag] + length + body
}

/// What is written is a tag, octets that say the length of the body, as few
/// as it takes, and the body.
pub proof fn law_element_is_laid_out(tag: u8, body: Seq<u8>)
    requires
        body.len() <= usize::MAX,
    ensures
        exists|length: Seq<u8>| #[trigger]
            says_length(length, body.len()) && tlv(tag, body) == element(tag, length, body) && (
            length.len() > 1 ==> body.len() >= 128 && length[1] != 0),
{
    let n = body.len();
    let length = length_octets(n);
    if n < 128 {
        assert(says_length(length, n));
    } else {
        law_octets_are_base_256_digits(n);
        lemma_span_values();
        lemma_be_octets_len(n, 8);
        assert(length.skip(1) =~= be_octets(n));
        if be_octets(n).len() == 1 {
            let digits = octet_digits(be_octets(n));
            assert(digits.skip(1) =~= Seq::<int>::empty());
            vstd::arithmetic::power::lemma_pow0(256);
            assert(worth(digits.skip(1), 256) == 0);
            assert(digits[0] * vstd::arithmetic::power::pow(256, 0) == digits[0]);
        }
        assert(says_length(length, n));
    }
    assert(tlv(tag, body) =~= element(tag, length, body));
}

/// An element is read whole whichever way its length is said, and what is
/// after it is left.
pub proof fn law_element_is_read(tag: u8, length: Seq<u8>, body: Seq<u8>, rest: Seq<u8>)
    requires
        says_length(length, body.len()),
    ensures
        frame(element(tag, length, body) + rest) == Ok::<(u8, Seq<u8>, Seq<u8>), Refusal>(
            (tag, body, rest),
        ),
{
    let s = element(tag, length, body) + rest;
    let head = 1 + length.len();
    assert(s[1] == length[0]);
    if length.len() > 1 {
        assert(s.subrange(2, head as int) =~= length.skip(1));
        crate::laws::numbers::lemma_be_worth(length.skip(1));
    }
    assert(s.subrange(head as int, (head + body.len()) as int) =~= body);
    assert(s.skip((head + body.len()) as int) =~= rest);
}

/// An element of which there is less than its length says is refused, and so
/// is one that ends before its length does, and one of an indefinite length.
pub proof fn law_short_element_is_refused(
    tag: u8,
    length: Seq<u8>,
    n: nat,
    there: Seq<u8>,
    s: Seq<u8>,
)
    ensures
        says_length(length, n) && there.len() < n ==> frame(element(tag, length, there)) == Err::<
            (u8, Seq<u8>, Seq<u8>),
            Refusal,
        >(Fault::ShortValue),
        s.len() < 2 ==> frame(s) == Err::<(u8, Seq<u8>, Seq<u8>), Refusal>(Fault::ShortValue),
        s.len() >= 2 && s[1] > 128 && s.len() < s[1] - 126 ==> frame(s) == Err::<
            (u8, Seq<u8>, Seq<u8>),
            Refusal,
        >(Fault::ShortValue),
        s.len() >= 2 && s[1] == 128 ==> frame(s) == Err::<(u8, Seq<u8>, Seq<u8>), Refusal>(
            Fault::IndefiniteLength,
        ),
{
    if says_length(length, n) && there.len() < n {
        let t = element(tag, length, there);
        assert(t[1] == length[0]);
        if length.len() > 1 {
            assert(t.subrange(2, 1 + length.len() as int) =~= length.skip(1));
            crate::laws::numbers::lemma_be_worth(length.skip(1));
        }
    }
}

/// What each value is under which tag.
pub proof fn law_tags_and_bodies(
    n: i64,
    octets: Seq<u8>,
    arcs: Seq<u32>,
    items: Seq<ValueModel>,
    tag: u8,
    count: u64,
)
    ensures
        encoding(ValueModel::Integer(n)) == tlv(0x02, int_octets(n as int)),
        encoding(ValueModel::OctetString(octets)) == tlv(0x04, octets),
        encoding(ValueModel::Null) == tlv(0x05, Seq::empty()),
        encoding(ValueModel::Oid(arcs)) == tlv(0x06, oid_octets(arcs)),
        encoding(ValueModel::Sequence(items)) == tlv(0x30, encodings(items)),
        encoding(ValueModel::Context(tag, items)) == tlv(tag, encodings(items)),
        encoding(ValueModel::Unsigned(tag, count)) == tlv(tag, int_octets(count as int)),
        encoding(ValueModel::IpAddress(octets)) == tlv(0x40, octets),
        encoding(ValueModel::Exception(tag)) == tlv(tag, Seq::empty()),
{
}

/// Values go one after the other.
pub proof fn law_values_go_one_after_the_other(
    v: ValueModel,
    a: Seq<ValueModel>,
    b: Seq<ValueModel>,
)
    ensures
        encodings(Seq::empty()) == Seq::<u8>::empty(),
        encodings(seq![v]) == encoding(v),
        encodings(a + b) == encodings(a) + encodings(b),
    decreases a.len(),
{
    let one = seq![v];
    assert(one.subrange(1, 1) =~= Seq::<ValueModel>::empty());
    assert(encodings(one.subrange(1, 1)) =~= Seq::<u8>::empty());
    assert(encodings(one) =~= encoding(v));
    if a.len() == 0 {
        assert(a + b =~= b);
        assert(encodings(a) + encodings(b) =~= encodings(b));
    } else {
        let all = a + b;
        let left = a.subrange(1, a.len() as int);
        law_values_go_one_after_the_other(v, left, b);
        assert(all.subrange(1, all.len() as int) =~= left + b);
        assert(encodings(all) =~= encodings(a) + encodings(b));
    }
}

/// What a body is read as under each tag; a tag that is none of them is
/// refused.
pub proof fn law_bodies_are_read(tag: u8, body: Seq<u8>)
    ensures
        value_in(0x02, body) == match integer_in(body) {
            Ok(n) => Ok::<ValueModel, Refusal>(ValueModel::Integer(n)),
            Err(e) => Err(e),
        },
        value_in(0x04, body) == Ok::<ValueModel, Refusal>(ValueModel::OctetString(body)),
        value_in(0x05, body) == Ok::<ValueModel, Refusal>(ValueModel::Null),
        value_in(0x06, body) == match oid_in(body) {
            Ok(arcs) => Ok::<ValueModel, Refusal>(ValueModel::Oid(arcs)),
            Err(e) => Err(e),
        },
        value_in(0x30, body) == match items_in(body) {
            Ok(items) => Ok::<ValueModel, Refusal>(ValueModel::Sequence(items)),
            Err(e) => Err(e),
        },
        value_in(0x40, body) == if body.len() == 4 {
            Ok::<ValueModel, Refusal>(ValueModel::IpAddress(body))
        } else {
            Err(Fault::AddressLength)
        },
        tag == 0x41 || tag == 0x42 || tag == 0x43 || tag == 0x46 ==> value_in(tag, body)
            == match unsigned_in(body) {
            Ok(n) => Ok::<ValueModel, Refusal>(ValueModel::Unsigned(tag, n)),
            Err(e) => Err(e),
        },
        0x80 <= tag <= 0x82 ==> value_in(tag, body) == Ok::<ValueModel, Refusal>(
            ValueModel::Exception(tag),
        ),
        0xA0 <= tag <= 0xAF ==> value_in(tag, body) == match items_in(body) {
            Ok(items) => Ok::<ValueModel, Refusal>(ValueModel::Context(tag, items)),
            Err(e) => Err(e),
        },
        !(tag == 0x02 || tag == 0x04 || tag == 0x05 || tag == 0x06 || tag == 0x30 || 0x40 <= tag
            <= 0x43 || tag == 0x46 || 0x80 <= tag <= 0x82 || 0xA0 <= tag <= 0xAF) ==> value_in(
            tag,
            body,
        ) == Err::<ValueModel, Refusal>(Fault::UnusedTag(tag)),
{
}

/// Items are read one after the other: the first is the element that opens
/// the body, and the others are the items of what is after it. The first
/// that is refused is what all are refused for.
pub proof fn law_items_are_read(tag: u8, length: Seq<u8>, body: Seq<u8>, rest: Seq<u8>)
    requires
        says_length(length, body.len()),
    ensures
        items_in(Seq::empty()) == Ok::<Seq<ValueModel>, Refusal>(Seq::empty()),
        match (value_in(tag, body), items_in(rest)) {
            (Ok(v), Ok(others)) => items_in(element(tag, length, body) + rest) == Ok::<
                Seq<ValueModel>,
                Refusal,
            >(seq![v] + others),
            (Ok(v), Err(e)) => items_in(element(tag, length, body) + rest) == Err::<
                Seq<ValueModel>,
                Refusal,
            >(e),
            (Err(e), _) => items_in(element(tag, length, body) + rest) == Err::<
                Seq<ValueModel>,
                Refusal,
            >(e),
        },
{
    law_element_is_read(tag, length, body, rest);
}

/// Bytes are the one value that the element they are is; with anything after
/// it they are none. A value in the middle of bytes is read from where it
/// starts, and the next one starts where it ends.
pub proof fn law_one_value_is_read(
    before: Seq<u8>,
    tag: u8,
    length: Seq<u8>,
    body: Seq<u8>,
    rest: Seq<u8>,
)
    requires
        says_length(length, body.len()),
    ensures
        decoding(element(tag, length, body)) == value_in(tag, body),
        rest.len() > 0 && value_in(tag, body) is Ok ==> decoding(
            element(tag, length, body) + rest,
        ) == Err::<ValueModel, Refusal>(Fault::TrailingBytes),
        reading(before + element(tag, length, body) + rest, before.len() as int) == match value_in(
            tag,
            body,
        ) {
            Ok(v) => Ok::<(ValueModel, int), Refusal>(
                (v, (before.len() + 1 + length.len() + body.len()) as int),
            ),
            Err(e) => Err(e),
        },
        forall|at: int|
            at > before.len() ==> #[trigger] reading(before, at) == Err::<
                (ValueModel, int),
                Refusal,
            >(Fault::ShortValue),
{
    let s = element(tag, length, body);
    law_element_is_read(tag, length, body, Seq::empty());
    assert(s + Seq::<u8>::empty() =~= s);
    law_element_is_read(tag, length, body, rest);
    assert((before + s + rest).skip(before.len() as int) =~= s + rest);
}

/// Where no element is, no value is read: not alone, not among the items of
/// another, not in the middle of bytes. An element that is no value is
/// refused as such, whatever is after it.
pub proof fn law_what_is_no_element_is_refused(
    before: Seq<u8>,
    s: Seq<u8>,
    tag: u8,
    length: Seq<u8>,
    body: Seq<u8>,
    rest: Seq<u8>,
)
    ensures
        frame(s) matches Err(e) ==> {
            &&& decoding(s) == Err::<ValueModel, Refusal>(e)
            &&& s.len() > 0 ==> items_in(s) == Err::<Seq<ValueModel>, Refusal>(e)
            &&& reading(before + s, before.len() as int) == Err::<(ValueModel, int), Refusal>(e)
        },
        says_length(length, body.len()) ==> (value_in(tag, body) matches Err(e) ==> decoding(
            element(tag, length, body) + rest,
        ) == Err::<ValueModel, Refusal>(e)),
{
    assert((before + s).skip(before.len() as int) =~= s);
    if says_length(length, body.len()) {
        law_element_is_read(tag, length, body, rest);
    }
}

/// Each shape is what it is and nothing else.
pub proof fn law_shapes(
    v: ValueModel,
    n: i64,
    octets: Seq<u8>,
    arcs: Seq<u32>,
    items: Seq<ValueModel>,
)
    ensures
        as_integer(ValueModel::Integer(n)) == Ok::<i64, Refusal>(n),
        !(v is Integer) ==> as_integer(v) == Err::<i64, Refusal>(
            Fault::Expected(Shape::Integer, v),
        ),
        as_octets(ValueModel::OctetString(octets)) == Ok::<Seq<u8>, Refusal>(octets),
        !(v is OctetString) ==> as_octets(v) == Err::<Seq<u8>, Refusal>(
            Fault::Expected(Shape::OctetString, v),
        ),
        as_oid(ValueModel::Oid(arcs)) == Ok::<Seq<u32>, Refusal>(arcs),
        !(v is Oid) ==> as_oid(v) == Err::<Seq<u32>, Refusal>(
            Fault::Expected(Shape::ObjectIdentifier, v),
        ),
        as_items(ValueModel::Sequence(items)) == Ok::<Seq<ValueModel>, Refusal>(items),
        !(v is Sequence) ==> as_items(v) == Err::<Seq<ValueModel>, Refusal>(
            Fault::Expected(Shape::Sequence, v),
        ),
{
}

/// Everything can be written but an identifier whose first two arcs do not
/// fold into a `u32`, and what holds one.
pub proof fn law_what_can_be_written(v: ValueModel, arcs: Seq<u32>, items: Seq<ValueModel>, tag: u8)
    ensures
        v is Integer || v is OctetString || v is Null || v is Unsigned || v is IpAddress
            || v is Exception ==> encodable(v),
        arcs.len() >= 2 ==> encodable(ValueModel::Oid(arcs)) == (arcs[0] * 40 + arcs[1]
            <= u32::MAX),
        arcs.len() == 1 ==> encodable(ValueModel::Oid(arcs)) == (arcs[0] * 40 <= u32::MAX),
        arcs.len() == 0 ==> encodable(ValueModel::Oid(arcs)),
        (forall|i: int| 0 <= i < items.len() ==> encodable(#[trigger] items[i])) == encodable(
            ValueModel::Sequence(items),
        ),
        encodable(ValueModel::Context(tag, items)) == encodable(ValueModel::Sequence(items)),
{
}

/// Which values SNMP has: every identifier of two arcs or more, the first at
/// most two, the second under forty where the first is under two, and the two
/// folding into a `u32`; every PDU under 0xA0 to 0xAF, every count under one
/// of four tags, every address of four octets, and three exceptions.
pub proof fn law_values_snmp_has(
    v: ValueModel,
    arcs: Seq<u32>,
    items: Seq<ValueModel>,
    tag: u8,
    count: u64,
    octets: Seq<u8>,
)
    ensures
        v is Integer || v is OctetString || v is Null ==> well_formed(v),
        well_formed(ValueModel::Oid(arcs)) == (arcs.len() >= 2 && arcs[0] <= 2 && (arcs[0] == 2
            || arcs[1] < 40) && arcs[0] * 40 + arcs[1] <= u32::MAX),
        well_formed(ValueModel::Sequence(items)) == (forall|i: int|
            0 <= i < items.len() ==> well_formed(#[trigger] items[i])),
        well_formed(ValueModel::Context(tag, items)) == (0xA0 <= tag <= 0xAF && well_formed(
            ValueModel::Sequence(items),
        )),
        well_formed(ValueModel::Unsigned(tag, count)) == (0x41 <= tag <= 0x43 || tag == 0x46),
        well_formed(ValueModel::IpAddress(octets)) == (octets.len() == 4),
        well_formed(ValueModel::Exception(tag)) == (0x80 <= tag <= 0x82),
{
}

} // verus!
