//! The BER values SNMP is made of: INTEGER, OCTET STRING, NULL, OBJECT
//! IDENTIFIER, SEQUENCE, the constructed context tags a PDU wears, the four
//! unsigned application types, `IpAddress` and the three exceptions a
//! response carries where a value would be. What is here is the dialect,
//! which tags there are and what their contents mean; the framing is in
//! `tlv`.
use vstd::prelude::*;
use vstd::slice::{slice_subrange, slice_to_vec};

use crate::error::{Fault, Refusal, Result, Shape};
use crate::octets::{be_octets, be_value, int_octets, read_be, unsigned_octets};
use crate::octets::{
    lemma_be_octets, lemma_be_octets_len, lemma_int_octets_unsigned, lemma_span_values,
};
use crate::text::{chars_of, find, push_decimal, read_u32};
use crate::text::{decimal, split, u32_of};
use crate::text::{lemma_decimal, lemma_first_index};
use crate::tlv;
use crate::tlv::{frame, integer_in, law_element_reads_back, law_integer_reads_back};
use crate::tlv::{INTEGER, NULL, OBJECT_IDENTIFIER, OCTET_STRING, SEQUENCE};

verus! {

pub const TAG_IP_ADDRESS: u8 = 0x40;

pub const TAG_COUNTER32: u8 = 0x41;

pub const TAG_GAUGE32: u8 = 0x42;

pub const TAG_TIME_TICKS: u8 = 0x43;

pub const TAG_COUNTER64: u8 = 0x46;

/// A value as the contracts speak of it.
pub enum ValueModel {
    Integer(i64),
    OctetString(Seq<u8>),
    Null,
    Oid(Seq<u32>),
    Sequence(Seq<ValueModel>),
    Context(u8, Seq<ValueModel>),
    Unsigned(u8, u64),
    IpAddress(Seq<u8>),
    Exception(u8),
}

/// One BER value as SNMP uses it.
#[derive(Debug, PartialEq, Eq)]
pub enum Value {
    Integer(i64),
    OctetString(Vec<u8>),
    Null,
    Oid(Vec<u32>),
    Sequence(Vec<Value>),
    /// A constructed context-specific value: a PDU, tagged 0xA0 to 0xA8.
    Context(u8, Vec<Value>),
    /// Counter32, Gauge32, `TimeTicks` or Counter64, told apart by the tag.
    Unsigned(u8, u64),
    IpAddress([u8; 4]),
    /// noSuchObject 0x80, noSuchInstance 0x81, endOfMibView 0x82.
    Exception(u8),
}

impl Value {
    pub open spec fn model(self) -> ValueModel
        decreases self,
    {
        match self {
            Value::Integer(n) => ValueModel::Integer(n),
            Value::OctetString(bytes) => ValueModel::OctetString(bytes@),
            Value::Null => ValueModel::Null,
            Value::Oid(arcs) => ValueModel::Oid(arcs@),
            Value::Sequence(items) => ValueModel::Sequence(
                Seq::new(
                    items@.len(),
                    |i: int|
                        if 0 <= i < items@.len() {
                            items@[i].model()
                        } else {
                            arbitrary()
                        },
                ),
            ),
            Value::Context(tag, items) => ValueModel::Context(
                tag,
                Seq::new(
                    items@.len(),
                    |i: int|
                        if 0 <= i < items@.len() {
                            items@[i].model()
                        } else {
                            arbitrary()
                        },
                ),
            ),
            Value::Unsigned(tag, n) => ValueModel::Unsigned(tag, n),
            Value::IpAddress(octets) => ValueModel::IpAddress(octets@),
            Value::Exception(tag) => ValueModel::Exception(tag),
        }
    }
}

impl View for Value {
    type V = ValueModel;

    open spec fn view(&self) -> ValueModel {
        self.model()
    }
}

/// The models of `items`, one for one.
pub open spec fn models(items: Seq<Value>) -> Seq<ValueModel> {
    items.map_values(|v: Value| v@)
}

pub proof fn lemma_sequence_model(items: Vec<Value>)
    ensures
        Value::Sequence(items)@ == ValueModel::Sequence(models(items@)),
{
    assert(Value::Sequence(items)@->Sequence_0 =~= models(items@));
}

pub proof fn lemma_context_model(tag: u8, items: Vec<Value>)
    ensures
        Value::Context(tag, items)@ == ValueModel::Context(tag, models(items@)),
{
    assert(Value::Context(tag, items)@->Context_1 =~= models(items@));
}

/// `items`, cloned.
fn clone_items(items: &Vec<Value>) -> (out: Vec<Value>)
    ensures
        models(out@) == models(items@),
    decreases items,
{
    let mut out: Vec<Value> = Vec::new();
    for i in 0..items.len()
        invariant
            out@.len() == i,
            forall|j: int| 0 <= j < i ==> #[trigger] out@[j]@ == items@[j]@,
    {
        assert(decreases_to!(*items => items[i as int]));
        out.push(items[i].clone());
    }
    assert(models(out@) =~= models(items@));
    out
}

impl Clone for Value {
    fn clone(&self) -> (copy: Self)
        ensures
            copy@ == self@,
        decreases self,
    {
        match self {
            Value::Integer(n) => Value::Integer(*n),
            Value::OctetString(bytes) => Value::OctetString(slice_to_vec(bytes.as_slice())),
            Value::Null => Value::Null,
            Value::Oid(arcs) => Value::Oid(slice_to_vec(arcs.as_slice())),
            Value::Sequence(items) => {
                let out = clone_items(items);
                proof {
                    lemma_sequence_model(*items);
                    lemma_sequence_model(out);
                }
                Value::Sequence(out)
            },
            Value::Context(tag, items) => {
                let out = clone_items(items);
                proof {
                    lemma_context_model(*tag, *items);
                    lemma_context_model(*tag, out);
                }
                Value::Context(*tag, out)
            },
            Value::Unsigned(tag, n) => Value::Unsigned(*tag, *n),
            Value::IpAddress(octets) => Value::IpAddress(*octets),
            Value::Exception(tag) => Value::Exception(*tag),
        }
    }
}

// -------------------------------------------------------------- accessors

/// The integer `v` is.
pub open spec fn as_integer(v: ValueModel) -> core::result::Result<i64, Refusal> {
    match v {
        ValueModel::Integer(n) => Ok(n),
        _ => Err(Fault::Expected(Shape::Integer, v)),
    }
}

/// The octets `v` is.
pub open spec fn as_octets(v: ValueModel) -> core::result::Result<Seq<u8>, Refusal> {
    match v {
        ValueModel::OctetString(bytes) => Ok(bytes),
        _ => Err(Fault::Expected(Shape::OctetString, v)),
    }
}

/// The object identifier `v` is.
pub open spec fn as_oid(v: ValueModel) -> core::result::Result<Seq<u32>, Refusal> {
    match v {
        ValueModel::Oid(arcs) => Ok(arcs),
        _ => Err(Fault::Expected(Shape::ObjectIdentifier, v)),
    }
}

/// The items of the SEQUENCE `v` is.
pub open spec fn as_items(v: ValueModel) -> core::result::Result<Seq<ValueModel>, Refusal> {
    match v {
        ValueModel::Sequence(items) => Ok(items),
        _ => Err(Fault::Expected(Shape::Sequence, v)),
    }
}

impl Value {
    /// The integer this is; refused where it is anything else.
    pub fn integer(&self) -> (n: Result<i64>)
        ensures
            match n {
                Ok(v) => as_integer(self@) == Ok::<i64, Refusal>(v),
                Err(e) => as_integer(self@) == Err::<i64, Refusal>(e@),
            },
    {
        match self {
            Value::Integer(n) => Ok(*n),
            other => Err(Fault::Expected(Shape::Integer, other.clone())),
        }
    }

    /// The octets this is; refused where it is anything else.
    pub fn octets(&self) -> (bytes: Result<&[u8]>)
        ensures
            match bytes {
                Ok(b) => as_octets(self@) == Ok::<Seq<u8>, Refusal>(b@),
                Err(e) => as_octets(self@) == Err::<Seq<u8>, Refusal>(e@),
            },
    {
        match self {
            Value::OctetString(bytes) => Ok(bytes.as_slice()),
            other => Err(Fault::Expected(Shape::OctetString, other.clone())),
        }
    }

    /// The object identifier this is; refused where it is anything else.
    pub fn oid(&self) -> (arcs: Result<&[u32]>)
        ensures
            match arcs {
                Ok(a) => as_oid(self@) == Ok::<Seq<u32>, Refusal>(a@),
                Err(e) => as_oid(self@) == Err::<Seq<u32>, Refusal>(e@),
            },
    {
        match self {
            Value::Oid(arcs) => Ok(arcs.as_slice()),
            other => Err(Fault::Expected(Shape::ObjectIdentifier, other.clone())),
        }
    }

    /// The items of the SEQUENCE this is; refused where it is anything else.
    pub fn items(self) -> (items: Result<Vec<Self>>)
        ensures
            match items {
                Ok(i) => as_items(self@) == Ok::<Seq<ValueModel>, Refusal>(models(i@)),
                Err(e) => as_items(self@) == Err::<Seq<ValueModel>, Refusal>(e@),
            },
    {
        match self {
            Value::Sequence(items) => {
                proof {
                    lemma_sequence_model(items);
                }
                Ok(items)
            },
            other => Err(Fault::Expected(Shape::Sequence, other)),
        }
    }
}

// ---------------------------------------------------------------- writing

/// The first two arcs folded into one: the first forty times over, and the
/// second. An arc that is not there is nought.
pub open spec fn folded(arcs: Seq<u32>) -> int {
    let first = if arcs.len() > 0 {
        arcs[0] as int
    } else {
        0
    };
    let second = if arcs.len() > 1 {
        arcs[1] as int
    } else {
        0
    };
    first * 40 + second
}

/// Base 128, the top bit set on every octet.
pub open spec fn more_octets(n: nat) -> Seq<u8>
    decreases n,
{
    if n == 0 {
        seq![]
    } else {
        more_octets(n / 128).push((128 + n % 128) as u8)
    }
}

/// One arc in base 128, the top bit set on every octet but the last.
pub open spec fn arc_octets(arc: nat) -> Seq<u8> {
    more_octets(arc / 128).push((arc % 128) as u8)
}

/// Arcs one after the other.
pub open spec fn arcs_octets(arcs: Seq<u32>) -> Seq<u8>
    decreases arcs.len(),
{
    if arcs.len() == 0 {
        seq![]
    } else {
        arc_octets(arcs[0] as nat) + arcs_octets(arcs.skip(1))
    }
}

/// The body of an OBJECT IDENTIFIER: the first two arcs folded into one, the
/// rest as they are.
pub open spec fn oid_octets(arcs: Seq<u32>) -> Seq<u8> {
    arc_octets(folded(arcs) as nat) + arcs_octets(
        if arcs.len() > 2 {
            arcs.skip(2)
        } else {
            seq![]
        },
    )
}

/// The value on the wire.
pub open spec fn encoding(v: ValueModel) -> Seq<u8>
    decreases v,
{
    match v {
        ValueModel::Integer(n) => tlv::tlv(INTEGER, int_octets(n as int)),
        ValueModel::OctetString(bytes) => tlv::tlv(OCTET_STRING, bytes),
        ValueModel::Null => tlv::tlv(NULL, seq![]),
        ValueModel::Oid(arcs) => tlv::tlv(OBJECT_IDENTIFIER, oid_octets(arcs)),
        ValueModel::Sequence(items) => tlv::tlv(SEQUENCE, encodings(items)),
        ValueModel::Context(tag, items) => tlv::tlv(tag, encodings(items)),
        ValueModel::Unsigned(tag, n) => tlv::tlv(tag, int_octets(n as int)),
        ValueModel::IpAddress(octets) => tlv::tlv(TAG_IP_ADDRESS, octets),
        ValueModel::Exception(tag) => tlv::tlv(tag, seq![]),
    }
}

/// Values on the wire, one after the other.
pub open spec fn encodings(items: Seq<ValueModel>) -> Seq<u8>
    decreases items,
{
    if items.len() == 0 {
        seq![]
    } else {
        encoding(items[0]) + encodings(items.subrange(1, items.len() as int))
    }
}

/// Nothing in `v` is over what the encoding holds: the first two arcs of
/// every identifier fold into a `u32`.
pub open spec fn encodable(v: ValueModel) -> bool
    decreases v,
{
    match v {
        ValueModel::Oid(arcs) => folded(arcs) <= u32::MAX,
        ValueModel::Sequence(items) => all_encodable(items),
        ValueModel::Context(_, items) => all_encodable(items),
        _ => true,
    }
}

/// Nothing in any of `items` is over what the encoding holds.
pub open spec fn all_encodable(items: Seq<ValueModel>) -> bool
    decreases items,
{
    forall|i: int| 0 <= i < items.len() ==> encodable(#[trigger] items[i])
}

/// Append `arc` in base 128, the top bit set on every octet.
fn push_more(out: &mut Vec<u8>, arc: u32)
    ensures
        final(out)@ == old(out)@ + more_octets(arc as nat),
    decreases arc,
{
    if arc > 0 {
        push_more(out, arc / 128);
        out.push((128 + arc % 128) as u8);
    }
    assert(out@ =~= old(out)@ + more_octets(arc as nat));
}

/// Append `arc` in base 128, the top bit set on every octet but the last.
fn base128(out: &mut Vec<u8>, arc: u32)
    ensures
        final(out)@ == old(out)@ + arc_octets(arc as nat),
{
    push_more(out, arc / 128);
    out.push((arc % 128) as u8);
    assert(out@ =~= old(out)@ + arc_octets(arc as nat));
}

/// The first two arcs folded into one, the rest base 128.
fn oid_bytes(arcs: &[u32]) -> (out: Vec<u8>)
    requires
        folded(arcs@) <= u32::MAX,
    ensures
        out@ == oid_octets(arcs@),
{
    let mut out: Vec<u8> = Vec::new();
    let first: u32 = if arcs.len() > 0 {
        arcs[0]
    } else {
        0
    };
    let second: u32 = if arcs.len() > 1 {
        arcs[1]
    } else {
        0
    };
    base128(&mut out, first * 40 + second);
    let mut i: usize = if arcs.len() > 2 {
        2
    } else {
        arcs.len()
    };
    assert(arcs@.len() <= 2 ==> arcs@.skip(i as int) =~= Seq::<u32>::empty());
    while i < arcs.len()
        invariant
            i <= arcs.len(),
            oid_octets(arcs@) =~= out@ + arcs_octets(arcs@.skip(i as int)),
        decreases arcs.len() - i,
    {
        assert(arcs@.skip(i as int).skip(1) =~= arcs@.skip(i + 1));
        base128(&mut out, arcs[i]);
        i += 1;
    }
    assert(arcs@.skip(i as int) =~= Seq::<u32>::empty());
    out
}

/// The fewest bytes, a leading zero where the top bit would read as a sign.
fn unsigned_bytes(n: u64) -> (out: Vec<u8>)
    ensures
        out@ == int_octets(n as int),
{
    unsigned_octets(n)
}

/// Append one constructed value.
fn constructed(out: &mut Vec<u8>, tag: u8, items: &Vec<Value>)
    requires
        all_encodable(models(items@)),
    ensures
        final(out)@ == old(out)@ + tlv::tlv(tag, encodings(models(items@))),
    decreases items,
{
    let ghost all = models(items@);
    let mut body: Vec<u8> = Vec::new();
    assert(all.subrange(0, all.len() as int) =~= all);
    for i in 0..items.len()
        invariant
            all == models(items@),
            all_encodable(all),
            encodings(all) =~= body@ + encodings(all.subrange(i as int, all.len() as int)),
    {
        let ghost left = all.subrange(i as int, all.len() as int);
        assert(left.subrange(1, left.len() as int) =~= all.subrange(i + 1, all.len() as int));
        assert(left[0] == items@[i as int]@);
        assert(encodable(all[i as int]));
        assert(decreases_to!(*items => items[i as int]));
        encode(&items[i], &mut body);
    }
    assert(encodings(all.subrange(all.len() as int, all.len() as int)) =~= Seq::<u8>::empty());
    tlv::write_tlv(out, tag, body.as_slice());
}

/// Append `value` to `out`.
pub fn encode(value: &Value, out: &mut Vec<u8>)
    requires
        encodable(value@),
    ensures
        final(out)@ == old(out)@ + encoding(value@),
    decreases value,
{
    match value {
        Value::Integer(n) => {
            let body = tlv::integer(*n);
            tlv::write_tlv(out, INTEGER, body.as_slice());
        },
        Value::OctetString(bytes) => tlv::write_tlv(out, OCTET_STRING, bytes.as_slice()),
        Value::Null => tlv::write_tlv(out, NULL, &[]),
        Value::Oid(arcs) => {
            let body = oid_bytes(arcs.as_slice());
            tlv::write_tlv(out, OBJECT_IDENTIFIER, body.as_slice());
        },
        Value::Sequence(items) => {
            proof {
                lemma_sequence_model(*items);
            }
            constructed(out, SEQUENCE, items);
        },
        Value::Context(tag, items) => {
            proof {
                lemma_context_model(*tag, *items);
            }
            constructed(out, *tag, items);
        },
        Value::Unsigned(tag, n) => {
            let body = unsigned_bytes(*n);
            tlv::write_tlv(out, *tag, body.as_slice());
        },
        Value::IpAddress(octets) => tlv::write_tlv(out, TAG_IP_ADDRESS, octets),
        Value::Exception(tag) => tlv::write_tlv(out, *tag, &[]),
    }
}

/// `value` on its own.
pub fn to_bytes(value: &Value) -> (bytes: Vec<u8>)
    requires
        encodable(value@),
    ensures
        bytes@ == encoding(value@),
{
    let mut out: Vec<u8> = Vec::new();
    encode(value, &mut out);
    assert(out@ =~= encoding(value@));
    out
}

/// Every one of `items` can be written.
fn are_encodable(items: &Vec<Value>) -> (all: bool)
    ensures
        all == all_encodable(models(items@)),
    decreases items,
{
    let ghost all = models(items@);
    for i in 0..items.len()
        invariant
            all == models(items@),
            forall|j: int| 0 <= j < i ==> encodable(#[trigger] all[j]),
    {
        assert(decreases_to!(*items => items[i as int]));
        assert(all[i as int] == items@[i as int]@);
        if !items[i].is_encodable() {
            return false;
        }
    }
    true
}

/// The first two of `arcs` fold into a `u32`.
pub(crate) fn folds(arcs: &[u32]) -> (fits: bool)
    ensures
        fits == (folded(arcs@) <= u32::MAX),
{
    let first: u64 = if arcs.len() > 0 {
        arcs[0] as u64
    } else {
        0
    };
    let second: u64 = if arcs.len() > 1 {
        arcs[1] as u64
    } else {
        0
    };
    first * 40 + second <= u32::MAX as u64
}

impl Value {
    /// This can be written: nothing in it is over what the encoding holds.
    pub fn is_encodable(&self) -> (can: bool)
        ensures
            can == encodable(self@),
        decreases self,
    {
        match self {
            Value::Oid(arcs) => folds(arcs.as_slice()),
            Value::Sequence(items) => {
                proof {
                    lemma_sequence_model(*items);
                }
                are_encodable(items)
            },
            Value::Context(tag, items) => {
                proof {
                    lemma_context_model(*tag, *items);
                }
                are_encodable(items)
            },
            _ => true,
        }
    }
}

// ---------------------------------------------------------------- reading

/// `done`, and then whatever else was read.
pub open spec fn after<T>(
    done: Seq<T>,
    rest: core::result::Result<Seq<T>, Refusal>,
) -> core::result::Result<Seq<T>, Refusal> {
    match rest {
        Ok(more) => Ok(done + more),
        Err(e) => Err(e),
    }
}

/// The number the body of an unsigned value is: eight octets or fewer, and
/// one zero in front of them.
pub open spec fn unsigned_in(body: Seq<u8>) -> core::result::Result<u64, Refusal> {
    let digits = if body.len() > 0 && body[0] == 0 {
        body.skip(1)
    } else {
        body
    };
    if digits.len() > 8 {
        Err(Fault::LongUnsigned)
    } else {
        Ok(be_value(digits) as u64)
    }
}

/// The base 128 numbers of `body`, the first of them already begun with
/// `arc` where `begun` says so.
pub open spec fn arcs_in(body: Seq<u8>, arc: u32, begun: bool) -> core::result::Result<
    Seq<u32>,
    Refusal,
>
    decreases body.len(),
{
    if body.len() == 0 {
        if begun {
            Err(Fault::UnendedArc)
        } else {
            Ok(seq![])
        }
    } else if arc >= 0x200_0000 {
        Err(Fault::LargeArc)
    } else {
        let next = (arc * 128 + body[0] % 128) as u32;
        if body[0] >= 128 {
            arcs_in(body.skip(1), next, true)
        } else {
            after(seq![next], arcs_in(body.skip(1), 0, false))
        }
    }
}

/// The two arcs that the first number of an identifier folds.
pub open spec fn unfolded(first: u32) -> Seq<u32> {
    if first < 80 {
        seq![first / 40, first % 40]
    } else {
        seq![2u32, (first - 80) as u32]
    }
}

/// The arcs that the numbers of an identifier are.
pub open spec fn arcs_of(numbers: Seq<u32>) -> Seq<u32> {
    if numbers.len() == 0 {
        seq![]
    } else {
        unfolded(numbers[0]) + numbers.skip(1)
    }
}

/// The arcs the body of an OBJECT IDENTIFIER is.
pub open spec fn oid_in(body: Seq<u8>) -> core::result::Result<Seq<u32>, Refusal> {
    if body.len() == 0 {
        Err(Fault::EmptyOid)
    } else {
        match arcs_in(body, 0, false) {
            Ok(numbers) => Ok(arcs_of(numbers)),
            Err(e) => Err(e),
        }
    }
}

/// The tag of one of the four unsigned types.
pub open spec fn unsigned_tag(tag: u8) -> bool {
    tag == TAG_COUNTER32 || tag == TAG_GAUGE32 || tag == TAG_TIME_TICKS || tag == TAG_COUNTER64
}

/// The value that `body` is under `tag`.
pub open spec fn value_in(tag: u8, body: Seq<u8>) -> core::result::Result<ValueModel, Refusal>
    decreases body.len(), 1int,
{
    if tag == INTEGER {
        match integer_in(body) {
            Ok(n) => Ok(ValueModel::Integer(n)),
            Err(e) => Err(e),
        }
    } else if tag == OCTET_STRING {
        Ok(ValueModel::OctetString(body))
    } else if tag == NULL {
        Ok(ValueModel::Null)
    } else if tag == OBJECT_IDENTIFIER {
        match oid_in(body) {
            Ok(arcs) => Ok(ValueModel::Oid(arcs)),
            Err(e) => Err(e),
        }
    } else if tag == SEQUENCE {
        match items_in(body) {
            Ok(items) => Ok(ValueModel::Sequence(items)),
            Err(e) => Err(e),
        }
    } else if 0xA0 <= tag <= 0xAF {
        match items_in(body) {
            Ok(items) => Ok(ValueModel::Context(tag, items)),
            Err(e) => Err(e),
        }
    } else if tag == TAG_IP_ADDRESS {
        if body.len() == 4 {
            Ok(ValueModel::IpAddress(body))
        } else {
            Err(Fault::AddressLength)
        }
    } else if unsigned_tag(tag) {
        match unsigned_in(body) {
            Ok(n) => Ok(ValueModel::Unsigned(tag, n)),
            Err(e) => Err(e),
        }
    } else if 0x80 <= tag <= 0x82 {
        Ok(ValueModel::Exception(tag))
    } else {
        Err(Fault::UnusedTag(tag))
    }
}

/// The values of `body`, one after the other to its end.
pub open spec fn items_in(body: Seq<u8>) -> core::result::Result<Seq<ValueModel>, Refusal>
    decreases body.len(), 0int,
{
    if body.len() == 0 {
        Ok(seq![])
    } else {
        match frame(body) {
            Ok((tag, inner, rest)) => match value_in(tag, inner) {
                Ok(v) => after(seq![v], items_in(rest)),
                Err(e) => Err(e),
            },
            Err(e) => Err(e),
        }
    }
}

/// The value that `s` opens with, and what is after it.
pub open spec fn value_at(s: Seq<u8>) -> core::result::Result<(ValueModel, Seq<u8>), Refusal> {
    match frame(s) {
        Ok((tag, body, rest)) => match value_in(tag, body) {
            Ok(v) => Ok((v, rest)),
            Err(e) => Err(e),
        },
        Err(e) => Err(e),
    }
}

/// The value at `at` in `bytes`, and where the next one starts.
pub open spec fn reading(bytes: Seq<u8>, at: int) -> core::result::Result<
    (ValueModel, int),
    Refusal,
> {
    if at > bytes.len() {
        Err(Fault::ShortValue)
    } else {
        match value_at(bytes.skip(at)) {
            Ok((v, rest)) => Ok((v, bytes.len() - rest.len())),
            Err(e) => Err(e),
        }
    }
}

/// The one value `bytes` is, nothing after it.
pub open spec fn decoding(bytes: Seq<u8>) -> core::result::Result<ValueModel, Refusal> {
    match value_at(bytes) {
        Ok((v, rest)) => if rest.len() == 0 {
            Ok(v)
        } else {
            Err(Fault::TrailingBytes)
        },
        Err(e) => Err(e),
    }
}

fn read_unsigned(body: &[u8]) -> (n: Result<u64>)
    ensures
        match n {
            Ok(v) => unsigned_in(body@) == Ok::<u64, Refusal>(v),
            Err(e) => unsigned_in(body@) == Err::<u64, Refusal>(e@),
        },
{
    let digits = if body.len() > 0 && body[0] == 0 {
        slice_subrange(body, 1, body.len())
    } else {
        body
    };
    if digits.len() > 8 {
        Err(Fault::LongUnsigned)
    } else {
        Ok(read_be(digits))
    }
}

fn read_oid(body: &[u8]) -> (arcs: Result<Vec<u32>>)
    ensures
        match arcs {
            Ok(a) => oid_in(body@) == Ok::<Seq<u32>, Refusal>(a@),
            Err(e) => oid_in(body@) == Err::<Seq<u32>, Refusal>(e@),
        },
{
    if body.len() == 0 {
        return Err(Fault::EmptyOid);
    }
    let mut arcs: Vec<u32> = Vec::new();
    let mut arc: u32 = 0;
    let mut begun: bool = false;
    let ghost mut numbers: Seq<u32> = seq![];
    assert(body@.skip(0) =~= body@);
    proof {
        lemma_after_nothing(arcs_in(body@, 0, false));
    }
    for i in 0..body.len()
        invariant
            body@.len() > 0,
            arcs@ == arcs_of(numbers),
            arcs_in(body@, 0, false) == after(numbers, arcs_in(body@.skip(i as int), arc, begun)),
    {
        let byte = body[i];
        assert(body@.skip(i as int).skip(1) =~= body@.skip(i + 1));
        if arc >= 0x200_0000 {
            return Err(Fault::LargeArc);
        }
        arc = arc * 128 + (byte % 128) as u32;
        if byte >= 128 {
            begun = true;
        } else {
            if arcs.len() == 0 {
                if arc < 80 {
                    arcs.push(arc / 40);
                    arcs.push(arc % 40);
                } else {
                    arcs.push(2);
                    arcs.push(arc - 80);
                }
            } else {
                arcs.push(arc);
            }
            proof {
                let rest = arcs_in(body@.skip(i + 1), 0, false);
                lemma_after_after(numbers, seq![arc], rest);
                let more = numbers + seq![arc];
                if numbers.len() == 0 {
                    assert(more.skip(1) =~= Seq::<u32>::empty());
                    assert(arcs@ =~= unfolded(arc));
                } else {
                    assert(more.skip(1) =~= numbers.skip(1).push(arc));
                }
                assert(arcs@ =~= arcs_of(more));
                numbers = more;
            }
            arc = 0;
            begun = false;
        }
    }
    assert(body@.skip(body@.len() as int) =~= Seq::<u8>::empty());
    if begun {
        return Err(Fault::UnendedArc);
    }
    assert(numbers + Seq::<u32>::empty() =~= numbers);
    Ok(arcs)
}

pub proof fn lemma_after_nothing<T>(rest: core::result::Result<Seq<T>, Refusal>)
    ensures
        after(seq![], rest) == rest,
{
    if let Ok(more) = rest {
        assert(Seq::<T>::empty() + more =~= more);
    }
}

pub proof fn lemma_after_after<T>(
    a: Seq<T>,
    b: Seq<T>,
    rest: core::result::Result<Seq<T>, Refusal>,
)
    ensures
        after(a, after(b, rest)) == after(a + b, rest),
{
    if let Ok(more) = rest {
        assert(a + (b + more) =~= (a + b) + more);
    }
}

fn read_items(body: &[u8]) -> (items: Result<Vec<Value>>)
    ensures
        match items {
            Ok(i) => items_in(body@) == Ok::<Seq<ValueModel>, Refusal>(models(i@)),
            Err(e) => items_in(body@) == Err::<Seq<ValueModel>, Refusal>(e@),
        },
    decreases body.len(), 1int,
{
    let mut items: Vec<Value> = Vec::new();
    let mut at: usize = 0;
    assert(body@.skip(0) =~= body@);
    assert(models(items@) =~= Seq::<ValueModel>::empty());
    proof {
        lemma_after_nothing(items_in(body@));
    }
    while at < body.len()
        invariant
            at <= body.len(),
            items_in(body@) == after(models(items@), items_in(body@.skip(at as int))),
        decreases body.len() - at,
    {
        let (item, next) = match read(body, at) {
            Ok(found) => found,
            Err(e) => {
                return Err(e);
            },
        };
        proof {
            let (tag, inner, rest) = frame(body@.skip(at as int))->Ok_0;
            assert(rest =~= body@.skip(next as int));
            lemma_after_after(models(items@), seq![item@], items_in(rest));
            assert(models(items@.push(item)) =~= models(items@) + seq![item@]);
        }
        items.push(item);
        at = next;
    }
    assert(body@.skip(at as int) =~= Seq::<u8>::empty());
    assert(models(items@) + Seq::<ValueModel>::empty() =~= models(items@));
    Ok(items)
}

/// The value at `at`, and where the next one starts.
///
/// Refused are a tag SNMP does not use, a length that runs past the end or
/// is indefinite, an INTEGER over eight bytes, an arc over what `u32` holds.
pub fn read(bytes: &[u8], at: usize) -> (found: Result<(Value, usize)>)
    ensures
        match found {
            Ok((v, next)) => {
                &&& reading(bytes@, at as int) == Ok::<(ValueModel, int), Refusal>(
                    (v@, next as int),
                )
                &&& at + 2 <= next <= bytes@.len()
            },
            Err(e) => reading(bytes@, at as int) == Err::<(ValueModel, int), Refusal>(e@),
        },
    decreases bytes.len() - at, 0int,
{
    if at > bytes.len() {
        return Err(Fault::ShortValue);
    }
    let element = slice_subrange(bytes, at, bytes.len());
    assert(element@ =~= bytes@.skip(at as int));
    let (tag, body, rest) = match tlv::read(element) {
        Ok(found) => found,
        Err(e) => {
            return Err(e);
        },
    };
    let end: usize = bytes.len() - rest.len();
    let value = if tag == INTEGER {
        match tlv::read_integer(body) {
            Ok(n) => Value::Integer(n),
            Err(e) => {
                return Err(e);
            },
        }
    } else if tag == OCTET_STRING {
        Value::OctetString(slice_to_vec(body))
    } else if tag == NULL {
        Value::Null
    } else if tag == OBJECT_IDENTIFIER {
        match read_oid(body) {
            Ok(arcs) => Value::Oid(arcs),
            Err(e) => {
                return Err(e);
            },
        }
    } else if tag == SEQUENCE {
        match read_items(body) {
            Ok(items) => {
                proof {
                    lemma_sequence_model(items);
                }
                Value::Sequence(items)
            },
            Err(e) => {
                return Err(e);
            },
        }
    } else if 0xA0 <= tag && tag <= 0xAF {
        match read_items(body) {
            Ok(items) => {
                proof {
                    lemma_context_model(tag, items);
                }
                Value::Context(tag, items)
            },
            Err(e) => {
                return Err(e);
            },
        }
    } else if tag == TAG_IP_ADDRESS {
        if body.len() != 4 {
            return Err(Fault::AddressLength);
        }
        let octets: [u8; 4] = [body[0], body[1], body[2], body[3]];
        assert(octets@ =~= body@);
        Value::IpAddress(octets)
    } else if tag == TAG_COUNTER32 || tag == TAG_GAUGE32 || tag == TAG_TIME_TICKS || tag
        == TAG_COUNTER64 {
        match read_unsigned(body) {
            Ok(n) => Value::Unsigned(tag, n),
            Err(e) => {
                return Err(e);
            },
        }
    } else if 0x80 <= tag && tag <= 0x82 {
        Value::Exception(tag)
    } else {
        return Err(Fault::UnusedTag(tag));
    };
    Ok((value, end))
}

/// Exactly one value, nothing after it.
///
/// Refused is anything [`read`] refuses, or bytes after the value.
pub fn decode(bytes: &[u8]) -> (value: Result<Value>)
    ensures
        match value {
            Ok(v) => decoding(bytes@) == Ok::<ValueModel, Refusal>(v@),
            Err(e) => decoding(bytes@) == Err::<ValueModel, Refusal>(e@),
        },
{
    assert(bytes@.skip(0) =~= bytes@);
    let (value, next) = match read(bytes, 0) {
        Ok(found) => found,
        Err(e) => {
            return Err(e);
        },
    };
    if next != bytes.len() {
        return Err(Fault::TrailingBytes);
    }
    Ok(value)
}

// ------------------------------------------------------------ dotted text

/// The arcs in decimal, a dot between one and the next.
pub open spec fn dotted(arcs: Seq<u32>) -> Seq<char>
    decreases arcs.len(),
{
    if arcs.len() == 0 {
        seq![]
    } else if arcs.len() == 1 {
        decimal(arcs[0] as nat)
    } else {
        decimal(arcs[0] as nat) + seq!['.'] + dotted(arcs.skip(1))
    }
}

/// The numbers that `parts` write, where each of them writes one.
pub open spec fn numbers_of(parts: Seq<Seq<char>>) -> Option<Seq<u32>> {
    if forall|i: int| 0 <= i < parts.len() ==> u32_of(#[trigger] parts[i]) is Some {
        Some(parts.map_values(|part: Seq<char>| u32_of(part)->0))
    } else {
        None
    }
}

/// The arcs of dotted text, with or without a dot before the first.
pub open spec fn oid_of(s: Seq<char>) -> Option<Seq<u32>> {
    numbers_of(
        split(
            if s.len() > 0 && s[0] == '.' {
                s.skip(1)
            } else {
                s
            },
            '.',
        ),
    )
}

/// Append `arcs` as dotted text.
pub(crate) fn push_oid(out: &mut String, arcs: &[u32])
    ensures
        final(out)@ == old(out)@ + dotted(arcs@),
{
    assert(arcs@.skip(0) =~= arcs@);
    for i in 0..arcs.len()
        invariant
            old(out)@ + dotted(arcs@) =~= out@ + dotted(arcs@.skip(i as int)),
    {
        assert(arcs@.skip(i as int).skip(1) =~= arcs@.skip(i + 1));
        push_decimal(out, arcs[i] as u64);
        if i + 1 < arcs.len() {
            out.push('.');
        }
    }
    assert(arcs@.skip(arcs@.len() as int) =~= Seq::<u32>::empty());
    assert(out@ + dotted(Seq::<u32>::empty()) =~= out@);
}

/// `1.3.6.1.2.1.1.3.0`.
pub fn oid_text(arcs: &[u32]) -> (text: String)
    ensures
        text@ == dotted(arcs@),
{
    let mut out = String::new();
    push_oid(&mut out, arcs);
    assert(out@ =~= dotted(arcs@));
    out
}

/// The arcs of dotted text, `None` where any part is not a number.
pub(crate) fn read_dotted(text: &[char]) -> (arcs: Option<Vec<u32>>)
    ensures
        match arcs {
            Some(a) => oid_of(text@) == Some(a@),
            None => oid_of(text@) is None,
        },
{
    let s = if text.len() > 0 && text[0] == '.' {
        slice_subrange(text, 1, text.len())
    } else {
        text
    };
    let ghost parts = split(s@, '.');
    let ghost mut done: Seq<Seq<char>> = seq![];
    let mut arcs: Vec<u32> = Vec::new();
    let mut at: usize = 0;
    assert(s@.skip(0) =~= s@);
    assert(done + parts =~= parts);
    loop
        invariant
            at <= s.len(),
            parts == split(s@, '.'),
            oid_of(text@) == numbers_of(parts),
            parts == done + split(s@.skip(at as int), '.'),
            done.len() == arcs@.len(),
            forall|i: int| 0 <= i < done.len() ==> u32_of(#[trigger] done[i]) == Some(arcs@[i]),
        decreases s.len() - at,
    {
        let rest = slice_subrange(s, at, s.len());
        assert(rest@ =~= s@.skip(at as int));
        let i = find(rest, '.');
        let part = slice_subrange(rest, 0, i);
        assert(part@ =~= rest@.take(i as int));
        assert(i == rest@.len() ==> part@ =~= rest@);
        let ghost here = done.len();
        assert(parts[here as int] == part@);
        let arc = match read_u32(part) {
            Some(arc) => arc,
            None => {
                assert(u32_of(parts[here as int]) is None);
                return None;
            },
        };
        let ghost before = arcs@;
        arcs.push(arc);
        proof {
            let more = done.push(part@);
            assert forall|k: int| 0 <= k < more.len() implies u32_of(#[trigger] more[k]) == Some(
                arcs@[k],
            ) by {
                if k < done.len() {
                    assert(more[k] == done[k]);
                }
            }
            if i < rest@.len() {
                assert(rest@.skip(i + 1) =~= s@.skip(at + i + 1));
                assert(done + (seq![part@] + split(s@.skip(at + i + 1), '.')) =~= more + split(
                    s@.skip(at + i + 1),
                    '.',
                ));
            } else {
                assert(done + seq![part@] =~= more);
            }
            done = more;
        }
        if i == rest.len() {
            assert(parts.map_values(|part: Seq<char>| u32_of(part)->0) =~= arcs@) by {
                assert forall|k: int| 0 <= k < parts.len() implies u32_of(parts[k])->0
                    == arcs@[k] by {
                    assert(u32_of(done[k]) == Some(arcs@[k]));
                }
            }
            return Some(arcs);
        }
        at = at + i + 1;
    }
}

/// The arcs of `1.3.6.1.2.1.1.3.0`, `None` where any part is not a number.
pub fn parse_oid(text: &str) -> (arcs: Option<Vec<u32>>)
    ensures
        match arcs {
            Some(a) => oid_of(text@) == Some(a@),
            None => oid_of(text@) is None,
        },
{
    let chars = chars_of(text);
    read_dotted(chars.as_slice())
}

/// Dotted text is digits and dots, and opens with a digit.
pub proof fn lemma_dotted(arcs: Seq<u32>)
    requires
        arcs.len() > 0,
    ensures
        dotted(arcs).len() > 0,
        '0' <= dotted(arcs)[0] <= '9',
        forall|i: int|
            0 <= i < dotted(arcs).len() ==> ('0' <= #[trigger] dotted(arcs)[i] <= '9'
                || dotted(arcs)[i] == '.'),
    decreases arcs.len(),
{
    let head = decimal(arcs[0] as nat);
    lemma_decimal(arcs[0] as nat);
    assert(crate::text::is_digit(head[0]));
    if arcs.len() > 1 {
        lemma_dotted(arcs.skip(1));
    }
    let s = dotted(arcs);
    assert forall|i: int| 0 <= i < s.len() implies ('0' <= #[trigger] s[i] <= '9' || s[i]
        == '.') by {
        if i < head.len() {
            assert(s[i] == head[i]);
            assert(crate::text::is_digit(head[i]));
        } else if i > head.len() {
            assert(s[i] == dotted(arcs.skip(1))[i - head.len() - 1]);
        }
    }
}

proof fn lemma_split_dotted(arcs: Seq<u32>)
    requires
        arcs.len() > 0,
    ensures
        split(dotted(arcs), '.') == arcs.map_values(|arc: u32| decimal(arc as nat)),
    decreases arcs.len(),
{
    let s = dotted(arcs);
    let head = decimal(arcs[0] as nat);
    let texts = arcs.map_values(|arc: u32| decimal(arc as nat));
    lemma_decimal(arcs[0] as nat);
    assert forall|j: int| 0 <= j < head.len() implies #[trigger] s[j] != '.' by {
        assert(s[j] == head[j]);
        assert(crate::text::is_digit(head[j]));
    }
    lemma_first_index(s, '.', head.len() as int);
    if arcs.len() == 1 {
        assert(texts =~= seq![s]);
    } else {
        lemma_split_dotted(arcs.skip(1));
        assert(s.take(head.len() as int) =~= head);
        assert(s.skip(head.len() as int + 1) =~= dotted(arcs.skip(1)));
        assert(texts =~= seq![head] + arcs.skip(1).map_values(|arc: u32| decimal(arc as nat)));
    }
}

/// An identifier reads back from its dotted text.
pub proof fn law_dotted_reads_back(arcs: Seq<u32>)
    requires
        arcs.len() > 0,
    ensures
        oid_of(dotted(arcs)) == Some(arcs),
{
    lemma_dotted(arcs);
    lemma_split_dotted(arcs);
    let parts = split(dotted(arcs), '.');
    assert forall|i: int| 0 <= i < parts.len() implies u32_of(#[trigger] parts[i]) == Some(
        arcs[i],
    ) by {
        lemma_decimal(arcs[i] as nat);
        assert(crate::text::is_digit(parts[i][0]));
    }
    assert(parts.map_values(|part: Seq<char>| u32_of(part)->0) =~= arcs);
}

// ------------------------------------------------------------------- laws

/// `arcs` is an identifier X.660 allows: two arcs at least, the first at
/// most two, the second under forty where the first is nought or one, and
/// the two folding into a `u32`.
pub open spec fn proper_oid(arcs: Seq<u32>) -> bool {
    &&& arcs.len() >= 2
    &&& arcs[0] <= 2
    &&& arcs[0] < 2 ==> arcs[1] < 40
    &&& folded(arcs) <= u32::MAX
}

/// `v` is a value SNMP has: every tag one it uses, every identifier one
/// X.660 allows, every address four octets.
pub open spec fn well_formed(v: ValueModel) -> bool
    decreases v,
{
    match v {
        ValueModel::Oid(arcs) => proper_oid(arcs),
        ValueModel::Sequence(items) => all_well_formed(items),
        ValueModel::Context(tag, items) => 0xA0 <= tag <= 0xAF && all_well_formed(items),
        ValueModel::Unsigned(tag, _) => unsigned_tag(tag),
        ValueModel::IpAddress(octets) => octets.len() == 4,
        ValueModel::Exception(tag) => 0x80 <= tag <= 0x82,
        _ => true,
    }
}

/// Each of `items` is a value SNMP has.
pub open spec fn all_well_formed(items: Seq<ValueModel>) -> bool
    decreases items,
{
    forall|i: int| 0 <= i < items.len() ==> well_formed(#[trigger] items[i])
}

proof fn lemma_more_octets(n: nat, rest: Seq<u8>, begun: bool)
    requires
        n < 0x200_0000,
    ensures
        arcs_in(more_octets(n) + rest, 0, begun) == arcs_in(rest, n as u32, begun || n > 0),
    decreases n,
{
    if n == 0 {
        assert(more_octets(n) + rest =~= rest);
    } else {
        let last = (128 + n % 128) as u8;
        let tail = seq![last] + rest;
        assert(more_octets(n) + rest =~= more_octets(n / 128) + tail);
        lemma_more_octets(n / 128, tail, begun);
        assert(tail.skip(1) =~= rest);
    }
}

proof fn lemma_arc_octets(arc: u32, rest: Seq<u8>)
    ensures
        arcs_in(arc_octets(arc as nat) + rest, 0, false) == after(
            seq![arc],
            arcs_in(rest, 0, false),
        ),
{
    let high = arc as nat / 128;
    let tail = seq![(arc % 128) as u8] + rest;
    assert(arc_octets(arc as nat) + rest =~= more_octets(high) + tail);
    lemma_more_octets(high, tail, false);
    assert(tail.skip(1) =~= rest);
}

proof fn lemma_arcs_octets(arcs: Seq<u32>)
    ensures
        arcs_in(arcs_octets(arcs), 0, false) == Ok::<Seq<u32>, Refusal>(arcs),
    decreases arcs.len(),
{
    if arcs.len() == 0 {
        assert(arcs =~= seq![]);
    } else {
        lemma_arcs_octets(arcs.skip(1));
        lemma_arc_octets(arcs[0], arcs_octets(arcs.skip(1)));
        assert(seq![arcs[0]] + arcs.skip(1) =~= arcs);
    }
}

/// An identifier X.660 allows reads back from its octets.
pub proof fn law_oid_reads_back(arcs: Seq<u32>)
    requires
        proper_oid(arcs),
    ensures
        oid_in(oid_octets(arcs)) == Ok::<Seq<u32>, Refusal>(arcs),
{
    let first = folded(arcs) as u32;
    let rest = if arcs.len() > 2 {
        arcs.skip(2)
    } else {
        seq![]
    };
    lemma_arcs_octets(rest);
    lemma_arc_octets(first, arcs_octets(rest));
    let numbers = seq![first] + rest;
    assert(numbers.skip(1) =~= rest);
    assert(unfolded(first) + rest =~= arcs);
}

/// An unsigned number reads back from its octets.
pub proof fn law_unsigned_reads_back(n: u64)
    ensures
        unsigned_in(int_octets(n as int)) == Ok::<u64, Refusal>(n),
{
    let plain = be_octets(n as nat);
    lemma_be_octets(n as nat);
    lemma_span_values();
    lemma_be_octets_len(n as nat, 8);
    lemma_int_octets_unsigned(n as nat);
    if plain[0] >= 128 {
        assert((seq![0u8] + plain).skip(1) =~= plain);
    } else if plain[0] == 0 {
        assert(plain =~= seq![0u8]);
        assert(plain.skip(1) =~= Seq::<u8>::empty());
        assert(be_value(plain.skip(1)) == 0);
    }
}

/// What is written reads back, whatever follows it: `read` gives the value
/// that `encode` appended, and stops where it ended.
pub proof fn law_value_reads_back(v: ValueModel, rest: Seq<u8>)
    requires
        well_formed(v),
        encoding(v).len() <= usize::MAX,
    ensures
        value_at(encoding(v) + rest) == Ok::<(ValueModel, Seq<u8>), Refusal>((v, rest)),
    decreases v,
{
    match v {
        ValueModel::Integer(n) => {
            law_element_reads_back(INTEGER, int_octets(n as int), rest);
            law_integer_reads_back(n);
        },
        ValueModel::OctetString(bytes) => {
            law_element_reads_back(OCTET_STRING, bytes, rest);
        },
        ValueModel::Null => {
            law_element_reads_back(NULL, seq![], rest);
        },
        ValueModel::Oid(arcs) => {
            law_element_reads_back(OBJECT_IDENTIFIER, oid_octets(arcs), rest);
            law_oid_reads_back(arcs);
        },
        ValueModel::Sequence(items) => {
            law_element_reads_back(SEQUENCE, encodings(items), rest);
            law_values_read_back(items);
        },
        ValueModel::Context(tag, items) => {
            law_element_reads_back(tag, encodings(items), rest);
            law_values_read_back(items);
        },
        ValueModel::Unsigned(tag, n) => {
            law_element_reads_back(tag, int_octets(n as int), rest);
            law_unsigned_reads_back(n);
        },
        ValueModel::IpAddress(octets) => {
            law_element_reads_back(TAG_IP_ADDRESS, octets, rest);
        },
        ValueModel::Exception(tag) => {
            law_element_reads_back(tag, seq![], rest);
        },
    }
}

/// Values written one after the other read back one after the other.
pub proof fn law_values_read_back(items: Seq<ValueModel>)
    requires
        all_well_formed(items),
        encodings(items).len() <= usize::MAX,
    ensures
        items_in(encodings(items)) == Ok::<Seq<ValueModel>, Refusal>(items),
    decreases items,
{
    if items.len() == 0 {
        assert(items =~= seq![]);
    } else {
        let left = items.subrange(1, items.len() as int);
        assert(well_formed(items[0]));
        assert forall|i: int| 0 <= i < left.len() implies well_formed(#[trigger] left[i]) by {
            assert(left[i] == items[i + 1]);
        }
        law_value_reads_back(items[0], encodings(left));
        law_values_read_back(left);
        assert(seq![items[0]] + left =~= items);
    }
}

/// A value SNMP has is the one value its bytes are.
pub proof fn law_decode_undoes_encode(v: ValueModel)
    requires
        well_formed(v),
        encoding(v).len() <= usize::MAX,
    ensures
        decoding(encoding(v)) == Ok::<ValueModel, Refusal>(v),
{
    law_value_reads_back(v, seq![]);
    assert(encoding(v) + Seq::<u8>::empty() =~= encoding(v));
}

/// A value is read from where it is, and the next one starts where it ends.
pub proof fn law_value_is_read_in_place(before: Seq<u8>, v: ValueModel, rest: Seq<u8>)
    requires
        well_formed(v),
        encoding(v).len() <= usize::MAX,
    ensures
        reading(before + encoding(v) + rest, before.len() as int) == Ok::<
            (ValueModel, int),
            Refusal,
        >((v, (before.len() + encoding(v).len()) as int)),
{
    law_value_reads_back(v, rest);
    assert((before + encoding(v) + rest).skip(before.len() as int) =~= encoding(v) + rest);
}

/// A value is not the one value of bytes that go on after it.
pub proof fn law_trailing_bytes_are_refused(v: ValueModel, rest: Seq<u8>)
    requires
        well_formed(v),
        encoding(v).len() <= usize::MAX,
        rest.len() > 0,
    ensures
        decoding(encoding(v) + rest) == Err::<ValueModel, Refusal>(Fault::TrailingBytes),
{
    law_value_reads_back(v, rest);
}

/// Whatever is read is a value SNMP has.
pub proof fn law_read_is_well_formed(tag: u8, body: Seq<u8>)
    ensures
        value_in(tag, body) matches Ok(v) ==> well_formed(v),
    decreases body.len(), 1int,
{
    if tag == OBJECT_IDENTIFIER {
        lemma_read_oid_is_proper(body);
    } else if tag == SEQUENCE || 0xA0 <= tag <= 0xAF {
        law_items_read_are_well_formed(body);
    }
}

/// Whatever items are read are values SNMP has.
pub proof fn law_items_read_are_well_formed(body: Seq<u8>)
    ensures
        items_in(body) matches Ok(items) ==> all_well_formed(items),
    decreases body.len(), 0int,
{
    if body.len() > 0 {
        if let Ok((tag, inner, rest)) = frame(body) {
            law_read_is_well_formed(tag, inner);
            law_items_read_are_well_formed(rest);
        }
    }
}

/// The one value that bytes are is a value SNMP has.
pub proof fn law_decoded_is_well_formed(bytes: Seq<u8>)
    ensures
        decoding(bytes) matches Ok(v) ==> well_formed(v),
{
    if let Ok((tag, body, rest)) = frame(bytes) {
        law_read_is_well_formed(tag, body);
    }
}

pub proof fn lemma_arcs_in_some(body: Seq<u8>, arc: u32, begun: bool)
    ensures
        arcs_in(body, arc, begun) matches Ok(numbers) ==> (numbers.len() > 0 || body.len() == 0),
    decreases body.len(),
{
    if body.len() > 0 {
        let next = (arc * 128 + body[0] % 128) as u32;
        lemma_arcs_in_some(body.skip(1), next, true);
        if body.len() == 1 {
            assert(body.skip(1) =~= Seq::<u8>::empty());
        }
    }
}

proof fn lemma_read_oid_is_proper(body: Seq<u8>)
    ensures
        oid_in(body) matches Ok(arcs) ==> proper_oid(arcs),
{
    lemma_arcs_in_some(body, 0, false);
}

/// A value SNMP has can be written.
pub proof fn law_well_formed_is_encodable(v: ValueModel)
    requires
        well_formed(v),
    ensures
        encodable(v),
    decreases v,
{
    match v {
        ValueModel::Sequence(items) => {
            law_all_well_formed_are_encodable(items);
        },
        ValueModel::Context(_, items) => {
            law_all_well_formed_are_encodable(items);
        },
        _ => {},
    }
}

/// Values SNMP has can be written.
pub proof fn law_all_well_formed_are_encodable(items: Seq<ValueModel>)
    requires
        all_well_formed(items),
    ensures
        all_encodable(items),
    decreases items,
{
    assert forall|i: int| 0 <= i < items.len() implies encodable(#[trigger] items[i]) by {
        assert(well_formed(items[i]));
        law_well_formed_is_encodable(items[i]);
    }
}

} // verus!
