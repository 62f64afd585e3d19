//! Messages by the place of their fields, written and read.
use vstd::prelude::*;
use vstd::utf8::{encode_utf8, encode_utf8_decode_utf8, encode_utf8_valid_utf8, valid_utf8};

use crate::ber::{decoding, encodable, encoding, lemma_after_after, lemma_after_nothing};
use crate::ber::{reading, well_formed, ValueModel};
use crate::envelope::{answer_to, credential_of, envelope_in, pdu_of, spoken, wire};
use crate::envelope::EnvelopeModel;
use crate::error::{Fault, MessageField, PduField, Refusal, Shape, V3Part};
use crate::pdu::{binding_encodable, binding_in, binding_value, binding_values, bindings_in};
use crate::pdu::{lemma_bindings_read_back, message_in, message_of, message_value, opened};
use crate::pdu::{pdu_encodable, pdu_in, pdu_value, plain_pdu, response_to, trap_oid_in, type_of};
use crate::pdu::{version_in, BindingModel, MessageModel, PduModel, PduType};
use crate::text::{lossy_text, repaired_text};
use crate::v3::{global_in, scoped_in, secured, usm_in, v3_answer, v3_from, v3_in, v3_of};
use crate::v3::{v3_value, V3Model};

verus! {

/// `sysUpTime.0`.
pub open spec fn sys_uptime() -> Seq<u32> {
    seq![1, 3, 6, 1, 2, 1, 1, 3, 0]
}

/// `snmpTrapOID.0`.
pub open spec fn snmp_trap_oid() -> Seq<u32> {
    seq![1, 3, 6, 1, 6, 3, 1, 1, 4, 1, 0]
}

proof fn lemma_names()
    ensures
        crate::pdu::SYS_UPTIME@ == sys_uptime(),
        crate::pdu::SNMP_TRAP_OID@ == snmp_trap_oid(),
{
    assert(crate::pdu::SYS_UPTIME@ =~= sys_uptime());
    assert(crate::pdu::SNMP_TRAP_OID@ =~= snmp_trap_oid());
}

// --------------------------------------------------------------------- PDUs

/// The six tags are six types, and no other tag is one.
pub proof fn law_six_types(tag: u8)
    ensures
        type_of(0xA0) == Ok::<PduType, Refusal>(PduType::GetRequest),
        type_of(0xA1) == Ok::<PduType, Refusal>(PduType::GetNextRequest),
        type_of(0xA2) == Ok::<PduType, Refusal>(PduType::GetResponse),
        type_of(0xA3) == Ok::<PduType, Refusal>(PduType::SetRequest),
        type_of(0xA6) == Ok::<PduType, Refusal>(PduType::InformRequest),
        type_of(0xA7) == Ok::<PduType, Refusal>(PduType::Trap),
        !(0xA0 <= tag <= 0xA3 || tag == 0xA6 || tag == 0xA7) ==> type_of(tag) == Err::<
            PduType,
            Refusal,
        >(Fault::PduTypeNotSpoken(tag)),
{
}

/// A PDU is written under the tag of its type as its request id, its error
/// status, its error index and its bindings, in that order; a binding as its
/// name and its value.
pub proof fn law_pdu_fields_are_written(p: PduModel)
    ensures
        pdu_value(p) matches ValueModel::Context(tag, items) && {
            &&& type_of(tag) == Ok::<PduType, Refusal>(p.kind)
            &&& items.len() == 4
            &&& items[0] == ValueModel::Integer(p.request_id as i64)
            &&& items[1] == ValueModel::Integer(p.error_status as i64)
            &&& items[2] == ValueModel::Integer(p.error_index as i64)
            &&& items[3] matches ValueModel::Sequence(values) && {
                &&& values.len() == p.bindings.len()
                &&& forall|i: int|
                    0 <= i < values.len() ==> #[trigger] values[i] == ValueModel::Sequence(
                        seq![ValueModel::Oid(p.bindings[i].oid), p.bindings[i].value],
                    )
            }
        },
{
    let values = binding_values(p.bindings);
    assert(pdu_value(p)->Context_1[3] == ValueModel::Sequence(values));
    assert forall|i: int| 0 <= i < values.len() implies #[trigger] values[i]
        == ValueModel::Sequence(
        seq![ValueModel::Oid(p.bindings[i].oid), p.bindings[i].value],
    ) by {
        assert(values[i] == binding_value(p.bindings[i]));
    }
}

/// Under the tag of a type, three INTEGERs that `i32` holds and a SEQUENCE
/// of names and values are read as a PDU: the first is its request id, the
/// second its error status, the third its error index.
pub proof fn law_pdu_fields_are_read(
    tag: u8,
    kind: PduType,
    a: i64,
    b: i64,
    c: i64,
    bindings: Seq<BindingModel>,
    values: Seq<ValueModel>,
)
    requires
        type_of(tag) == Ok::<PduType, Refusal>(kind),
        i32::MIN <= a <= i32::MAX,
        i32::MIN <= b <= i32::MAX,
        i32::MIN <= c <= i32::MAX,
        values.len() == bindings.len(),
        forall|i: int|
            0 <= i < values.len() ==> #[trigger] values[i] == ValueModel::Sequence(
                seq![ValueModel::Oid(bindings[i].oid), bindings[i].value],
            ),
    ensures
        pdu_in(
            ValueModel::Context(
                tag,
                seq![
                    ValueModel::Integer(a),
                    ValueModel::Integer(b),
                    ValueModel::Integer(c),
                    ValueModel::Sequence(values),
                ],
            ),
        ) matches Ok(p) && {
            &&& p.kind == kind
            &&& p.request_id == a
            &&& p.error_status == b
            &&& p.error_index == c
            &&& p.bindings == bindings
        },
{
    lemma_bindings_read_back(bindings);
    assert forall|i: int| 0 <= i < values.len() implies values[i] == binding_values(
        bindings,
    )[i] by {
        assert(binding_values(bindings)[i] == binding_value(bindings[i]));
    }
    assert(values =~= binding_values(bindings));
    let items = seq![
        ValueModel::Integer(a),
        ValueModel::Integer(b),
        ValueModel::Integer(c),
        ValueModel::Sequence(values),
    ];
    assert(items[0] == ValueModel::Integer(a));
    assert(items[1] == ValueModel::Integer(b));
    assert(items[2] == ValueModel::Integer(c));
    assert(items[3] == ValueModel::Sequence(values));
}

/// A PDU is refused for what its bindings are refused for.
pub proof fn law_bindings_that_are_refused(
    tag: u8,
    a: i32,
    b: i32,
    c: i32,
    values: Seq<ValueModel>,
    refusal: Refusal,
)
    requires
        type_of(tag) is Ok,
        bindings_in(values) == Err::<Seq<BindingModel>, Refusal>(refusal),
    ensures
        pdu_in(
            ValueModel::Context(
                tag,
                seq![
                    ValueModel::Integer(a as i64),
                    ValueModel::Integer(b as i64),
                    ValueModel::Integer(c as i64),
                    ValueModel::Sequence(values),
                ],
            ),
        ) == Err::<PduModel, Refusal>(refusal),
{
    let items = seq![
        ValueModel::Integer(a as i64),
        ValueModel::Integer(b as i64),
        ValueModel::Integer(c as i64),
        ValueModel::Sequence(values),
    ];
    assert(items[0] == ValueModel::Integer(a as i64));
    assert(items[1] == ValueModel::Integer(b as i64));
    assert(items[2] == ValueModel::Integer(c as i64));
    assert(items[3] == ValueModel::Sequence(values));
}

/// A field that `i32` does not hold is refused by its name, whatever is
/// after it.
pub proof fn law_large_fields_are_refused(
    tag: u8,
    a: i64,
    b: i64,
    c: i64,
    more: Seq<ValueModel>,
)
    requires
        type_of(tag) is Ok,
    ensures
        ({
            let one = seq![ValueModel::Integer(a)];
            let two = one.push(ValueModel::Integer(b));
            let three = two.push(ValueModel::Integer(c));
            let fits = |n: i64| i32::MIN <= n <= i32::MAX;
            &&& !fits(a) ==> pdu_in(ValueModel::Context(tag, one + more)) == Err::<
                PduModel,
                Refusal,
            >(Fault::PduFieldOutsideI32(PduField::RequestId))
            &&& fits(a) && !fits(b) ==> pdu_in(ValueModel::Context(tag, two + more)) == Err::<
                PduModel,
                Refusal,
            >(Fault::PduFieldOutsideI32(PduField::ErrorStatus))
            &&& fits(a) && fits(b) && !fits(c) ==> pdu_in(ValueModel::Context(tag, three + more))
                == Err::<PduModel, Refusal>(Fault::PduFieldOutsideI32(PduField::ErrorIndex))
        }),
{
    let one = seq![ValueModel::Integer(a)];
    let two = one.push(ValueModel::Integer(b));
    let three = two.push(ValueModel::Integer(c));
    assert((one + more)[0] == one[0]);
    assert((two + more)[0] == one[0] && (two + more)[1] == two[1]);
    let items = three + more;
    assert(items[0] == one[0] && items[1] == two[1] && items[2] == three[2]);
}

/// A PDU that ends before a field is refused by the name of the field, and
/// one that has something else in its place for that; what is under no
/// context tag, or under one of no type, is no PDU.
pub proof fn law_fields_that_are_missing(
    tag: u8,
    numbers: Seq<i32>,
    items: Seq<ValueModel>,
    more: Seq<ValueModel>,
    v: ValueModel,
)
    requires
        type_of(tag) is Ok,
        items.len() == numbers.len(),
        forall|i: int|
            0 <= i < items.len() ==> #[trigger] items[i] == ValueModel::Integer(numbers[i] as i64),
    ensures
        items.len() == 0 ==> pdu_in(ValueModel::Context(tag, items)) == Err::<PduModel, Refusal>(
            Fault::PduWithout(PduField::RequestId),
        ),
        items.len() == 1 ==> pdu_in(ValueModel::Context(tag, items)) == Err::<PduModel, Refusal>(
            Fault::PduWithout(PduField::ErrorStatus),
        ),
        items.len() == 2 ==> pdu_in(ValueModel::Context(tag, items)) == Err::<PduModel, Refusal>(
            Fault::PduWithout(PduField::ErrorIndex),
        ),
        items.len() == 3 ==> pdu_in(ValueModel::Context(tag, items)) == Err::<PduModel, Refusal>(
            Fault::PduWithout(PduField::Bindings),
        ),
        items.len() < 3 && !(v is Integer) ==> pdu_in(
            ValueModel::Context(tag, items + seq![v] + more),
        ) == Err::<PduModel, Refusal>(Fault::Expected(Shape::Integer, v)),
        items.len() == 3 && !(v is Sequence) ==> pdu_in(
            ValueModel::Context(tag, items + seq![v] + more),
        ) == Err::<PduModel, Refusal>(Fault::Expected(Shape::Sequence, v)),
        !(v is Context) ==> pdu_in(v) == Err::<PduModel, Refusal>(Fault::PduNotContextTagged),
        v matches ValueModel::Context(other, _) ==> (type_of(other) matches Err(e) ==> pdu_in(v)
            == Err::<PduModel, Refusal>(e)),
{
    let all = items + seq![v] + more;
    assert(all[items.len() as int] == v);
    assert forall|i: int| 0 <= i < items.len() implies #[trigger] all[i] == ValueModel::Integer(
        numbers[i] as i64,
    ) by {
        assert(all[i] == items[i]);
    }
    if items.len() >= 1 {
        assert(items[0] == ValueModel::Integer(numbers[0] as i64));
        assert(all[0] == items[0]);
    }
    if items.len() >= 2 {
        assert(items[1] == ValueModel::Integer(numbers[1] as i64));
        assert(all[1] == items[1]);
    }
    if items.len() >= 3 {
        assert(items[2] == ValueModel::Integer(numbers[2] as i64));
        assert(all[2] == items[2]);
    }
}

/// A binding is read as the name that is first and the value that is second,
/// and refused where either is missing or the first is no identifier;
/// bindings are read in their order, and the first that is refused is what
/// all are refused for.
pub proof fn law_bindings_are_read(
    oid: Seq<u32>,
    value: ValueModel,
    v: ValueModel,
    a: Seq<ValueModel>,
    b: Seq<ValueModel>,
)
    ensures
        binding_in(ValueModel::Sequence(seq![ValueModel::Oid(oid), value])) == Ok::<
            BindingModel,
            Refusal,
        >(BindingModel { oid, value }),
        binding_in(ValueModel::Sequence(Seq::empty())) == Err::<BindingModel, Refusal>(
            Fault::BindingWithoutName,
        ),
        binding_in(ValueModel::Sequence(seq![ValueModel::Oid(oid)])) == Err::<
            BindingModel,
            Refusal,
        >(Fault::BindingWithoutValue),
        !(v is Oid) ==> binding_in(ValueModel::Sequence(seq![v, value])) == Err::<
            BindingModel,
            Refusal,
        >(Fault::Expected(Shape::ObjectIdentifier, v)),
        !(v is Sequence) ==> binding_in(v) == Err::<BindingModel, Refusal>(
            Fault::Expected(Shape::Sequence, v),
        ),
        !(v is Oid) ==> binding_in(ValueModel::Sequence(seq![v])) == Err::<BindingModel, Refusal>(
            Fault::Expected(Shape::ObjectIdentifier, v),
        ),
        bindings_in(Seq::empty()) == Ok::<Seq<BindingModel>, Refusal>(Seq::empty()),
        bindings_in(seq![v]) == match binding_in(v) {
            Ok(read) => Ok::<Seq<BindingModel>, Refusal>(seq![read]),
            Err(e) => Err(e),
        },
        match (bindings_in(a), bindings_in(b)) {
            (Ok(x), Ok(y)) => bindings_in(a + b) == Ok::<Seq<BindingModel>, Refusal>(x + y),
            (Ok(x), Err(e)) => bindings_in(a + b) == Err::<Seq<BindingModel>, Refusal>(e),
            (Err(e), _) => bindings_in(a + b) == Err::<Seq<BindingModel>, Refusal>(e),
        },
    decreases a.len(),
{
    let pair = seq![ValueModel::Oid(oid), value];
    assert(pair[0] == ValueModel::Oid(oid) && pair[1] == value);
    assert(seq![v, value][0] == v);
    assert(seq![v][0] == v);
    assert(seq![ValueModel::Oid(oid)][0] == ValueModel::Oid(oid));
    assert(seq![v].skip(1) =~= Seq::<ValueModel>::empty());
    assert(bindings_in(seq![v].skip(1)) == Ok::<Seq<BindingModel>, Refusal>(seq![]));
    if let Ok(read) = binding_in(v) {
        assert(seq![read] + Seq::<BindingModel>::empty() =~= seq![read]);
    }
    if a.len() == 0 {
        assert(a + b =~= b);
        lemma_after_nothing(bindings_in(b));
    } else {
        law_bindings_are_read(oid, value, v, a.skip(1), b);
        assert((a + b).skip(1) =~= a.skip(1) + b);
        if let Ok(first) = binding_in(a[0]) {
            if let Ok(x) = bindings_in(a.skip(1)) {
                lemma_after_after(seq![first], x, bindings_in(b));
            }
        }
    }
}

/// What a PDU that is new, and the response to one, has in each field.
pub proof fn law_new_and_response_fields(
    kind: PduType,
    id: i32,
    bindings: Seq<BindingModel>,
    p: PduModel,
    status: i32,
)
    ensures
        plain_pdu(kind, id, bindings).kind == kind,
        plain_pdu(kind, id, bindings).request_id == id,
        plain_pdu(kind, id, bindings).error_status == 0,
        plain_pdu(kind, id, bindings).error_index == 0,
        plain_pdu(kind, id, bindings).bindings == bindings,
        response_to(p, status).kind == PduType::GetResponse,
        response_to(p, status).request_id == p.request_id,
        response_to(p, status).error_status == status,
        response_to(p, status).error_index == 0,
        response_to(p, status).bindings == p.bindings,
{
}

/// What a notification tells: the uptime in TimeTicks and the trap it names,
/// and then all it was given, less what it was given of the two in their
/// places.
pub proof fn law_notification_bindings(
    bindings: Seq<BindingModel>,
    trap_oid: Seq<u32>,
    uptime: u64,
)
    ensures
        ({
            let all = opened(bindings, trap_oid, uptime);
            let time = BindingModel {
                oid: sys_uptime(),
                value: ValueModel::Unsigned(0x43, uptime),
            };
            let name = BindingModel { oid: snmp_trap_oid(), value: ValueModel::Oid(trap_oid) };
            let timed = bindings.len() > 0 && bindings[0].oid == sys_uptime();
            &&& !timed && (bindings.len() == 0 || bindings[0].oid != snmp_trap_oid()) ==> all
                == seq![time, name] + bindings
            &&& !timed && bindings.len() > 0 && bindings[0].oid == snmp_trap_oid() ==> all
                == seq![time] + bindings
            &&& timed && (bindings.len() == 1 || bindings[1].oid != snmp_trap_oid()) ==> all
                == seq![bindings[0], name] + bindings.skip(1)
            &&& timed && bindings.len() > 1 && bindings[1].oid == snmp_trap_oid() ==> all
                == bindings
        }),
{
    lemma_names();
    let all = opened(bindings, trap_oid, uptime);
    let time = BindingModel { oid: sys_uptime(), value: ValueModel::Unsigned(0x43, uptime) };
    let name = BindingModel { oid: snmp_trap_oid(), value: ValueModel::Oid(trap_oid) };
    let timed = bindings.len() > 0 && bindings[0].oid == sys_uptime();
    if !timed {
        assert(crate::pdu::timed(bindings, uptime) =~= seq![time] + bindings);
        if bindings.len() == 0 || bindings[0].oid != snmp_trap_oid() {
            assert(all =~= seq![time, name] + bindings);
        }
    } else if bindings.len() == 1 || bindings[1].oid != snmp_trap_oid() {
        assert(all =~= seq![bindings[0], name] + bindings.skip(1));
    }
}

/// The trap a PDU names is what its first binding of `snmpTrapOID.0` is,
/// wherever that stands.
pub proof fn law_trap_is_named_where_it_stands(
    before: Seq<BindingModel>,
    b: BindingModel,
    rest: Seq<BindingModel>,
)
    requires
        forall|i: int| 0 <= i < before.len() ==> (#[trigger] before[i]).oid != snmp_trap_oid(),
    ensures
        trap_oid_in(before) is None,
        b.oid == snmp_trap_oid() ==> trap_oid_in(before + seq![b] + rest) == match b.value {
            ValueModel::Oid(arcs) => Some(arcs),
            _ => None,
        },
    decreases before.len(),
{
    lemma_names();
    let all = before + seq![b] + rest;
    if before.len() == 0 {
        assert(all[0] == b);
    } else {
        let less = before.skip(1);
        assert(before[0].oid != snmp_trap_oid());
        assert forall|i: int| 0 <= i < less.len() implies (#[trigger] less[i]).oid
            != snmp_trap_oid() by {
            assert(less[i] == before[i + 1]);
        }
        law_trap_is_named_where_it_stands(less, b, rest);
        assert(all.skip(1) =~= less + seq![b] + rest);
    }
}

/// A PDU can be written where every name and value in it can.
pub proof fn law_pdu_can_be_written(p: PduModel)
    ensures
        pdu_encodable(p) == (forall|i: int|
            0 <= i < p.bindings.len() ==> encodable(ValueModel::Oid((#[trigger] p.bindings[i]).oid))
                && encodable(p.bindings[i].value)),
{
    if pdu_encodable(p) {
        assert forall|i: int| 0 <= i < p.bindings.len() implies encodable(
            ValueModel::Oid((#[trigger] p.bindings[i]).oid),
        ) && encodable(p.bindings[i].value) by {
            assert(binding_encodable(p.bindings[i]));
        }
    }
}

// ---------------------------------------------------------------------- v2c

/// A v2c message is written as its version, its community and its PDU, in
/// that order, and read in that order.
pub proof fn law_message_fields(
    m: MessageModel,
    version: i64,
    community: Seq<u8>,
    pdu: ValueModel,
    bytes: Seq<u8>,
)
    ensures
        message_value(m) == ValueModel::Sequence(
            seq![
                ValueModel::Integer(m.version),
                ValueModel::OctetString(m.community),
                pdu_value(m.pdu),
            ],
        ),
        ({
            let items = seq![
                ValueModel::Integer(version),
                ValueModel::OctetString(community),
                pdu,
            ];
            decoding(bytes) == Ok::<ValueModel, Refusal>(ValueModel::Sequence(items)) ==> {
                &&& version_in(bytes) == Ok::<i64, Refusal>(version)
                &&& version != 3 ==> message_in(bytes) == match pdu_in(pdu) {
                    Ok(p) => Ok::<MessageModel, Refusal>(
                        MessageModel { version, community, pdu: p },
                    ),
                    Err(e) => Err(e),
                }
                &&& version == 3 ==> message_in(bytes) == Err::<MessageModel, Refusal>(
                    Fault::V3ReadAsV2c,
                )
            }
        }),
{
    assert(bytes.skip(0) =~= bytes);
    let items = seq![ValueModel::Integer(version), ValueModel::OctetString(community), pdu];
    assert(items[0] == ValueModel::Integer(version));
    assert(items[1] == ValueModel::OctetString(community));
    assert(items[2] == pdu);
}

/// A v2c message that ends before a field is refused by the name of the
/// field, and one that has something else in its place for that.
pub proof fn law_message_fields_that_are_missing(
    version: i64,
    community: Seq<u8>,
    v: ValueModel,
    more: Seq<ValueModel>,
    bytes: Seq<u8>,
)
    ensures
        message_of(Seq::empty()) == Err::<MessageModel, Refusal>(
            Fault::MessageWithout(MessageField::Version),
        ),
        version != 3 ==> message_of(seq![ValueModel::Integer(version)]) == Err::<
            MessageModel,
            Refusal,
        >(Fault::MessageWithout(MessageField::Community)),
        version != 3 ==> message_of(
            seq![ValueModel::Integer(version), ValueModel::OctetString(community)],
        ) == Err::<MessageModel, Refusal>(Fault::MessageWithout(MessageField::Pdu)),
        !(v is Integer) ==> message_of(seq![v] + more) == Err::<MessageModel, Refusal>(
            Fault::Expected(Shape::Integer, v),
        ),
        version == 3 ==> message_of(seq![ValueModel::Integer(version)] + more) == Err::<
            MessageModel,
            Refusal,
        >(Fault::V3ReadAsV2c),
        version != 3 && !(v is OctetString) ==> message_of(
            seq![ValueModel::Integer(version), v] + more,
        ) == Err::<MessageModel, Refusal>(Fault::Expected(Shape::OctetString, v)),
        reading(bytes, 0) matches Ok((ValueModel::Sequence(items), _)) ==> {
            &&& items.len() > 0 && !(items[0] is Integer) ==> version_in(bytes) == Err::<
                i64,
                Refusal,
            >(Fault::Expected(Shape::Integer, items[0]))
        },
        decoding(bytes) == Ok::<ValueModel, Refusal>(ValueModel::Sequence(Seq::empty()))
            ==> version_in(bytes) == Err::<i64, Refusal>(Fault::EmptyMessage),
        decoding(bytes) matches Err(e) ==> message_in(bytes) == Err::<MessageModel, Refusal>(e),
{
    assert(bytes.skip(0) =~= bytes);
    assert((seq![v] + more)[0] == v);
    let one = seq![ValueModel::Integer(version)];
    assert(one[0] == ValueModel::Integer(version));
    assert((one + more)[0] == ValueModel::Integer(version));
    let two = seq![ValueModel::Integer(version), ValueModel::OctetString(community)];
    assert(two[0] == ValueModel::Integer(version));
    assert(two[1] == ValueModel::OctetString(community));
    let other = seq![ValueModel::Integer(version), v] + more;
    assert(other[0] == ValueModel::Integer(version) && other[1] == v);
}

// ----------------------------------------------------------------------- v3

/// Which flags secure a message: those of the two lowest bits.
pub proof fn law_two_flags_secure(flags: u8)
    ensures
        secured(flags) == (flags % 4 != 0),
{
    assert((flags & (0x01u8 | 0x02u8) != 0) == (flags % 4 != 0)) by (bit_vector);
}

/// What a v3 message that is new has in each field, and the answer to one.
pub proof fn law_v3_fields(
    id: i32,
    engine: Seq<u8>,
    user: Seq<char>,
    pdu: PduModel,
    m: V3Model,
)
    ensures
        ({
            let new = v3_from(id, engine, user, pdu);
            &&& new.msg_id == id
            &&& new.max_size == 65_507
            &&& new.flags == if pdu.kind == PduType::Trap {
                0int
            } else {
                4int
            }
            &&& new.engine_id == engine
            &&& new.engine_boots == 0
            &&& new.engine_time == 0
            &&& new.user == user
            &&& new.context_engine_id == engine
            &&& new.context_name.len() == 0
            &&& new.pdu == pdu
        }),
        ({
            let answer = v3_answer(m, pdu);
            &&& answer.msg_id == m.msg_id
            &&& answer.max_size == m.max_size
            &&& answer.flags == 0
            &&& answer.engine_id == m.engine_id
            &&& answer.engine_boots == m.engine_boots
            &&& answer.engine_time == m.engine_time
            &&& answer.user == m.user
            &&& answer.context_engine_id == m.context_engine_id
            &&& answer.context_name == m.context_name
            &&& answer.pdu == pdu
        }),
{
}

/// A v3 message is written as version 3, the global data, the security
/// parameters in an OCTET STRING and the scoped PDU, each with its fields in
/// their order.
pub proof fn law_v3_fields_are_written(m: V3Model)
    ensures
        v3_value(m) == ValueModel::Sequence(
            seq![
                ValueModel::Integer(3),
                ValueModel::Sequence(
                    seq![
                        ValueModel::Integer(m.msg_id as i64),
                        ValueModel::Integer(m.max_size),
                        ValueModel::OctetString(seq![m.flags]),
                        ValueModel::Integer(3),
                    ],
                ),
                ValueModel::OctetString(
                    encoding(
                        ValueModel::Sequence(
                            seq![
                                ValueModel::OctetString(m.engine_id),
                                ValueModel::Integer(m.engine_boots),
                                ValueModel::Integer(m.engine_time),
                                ValueModel::OctetString(encode_utf8(m.user)),
                                ValueModel::OctetString(Seq::empty()),
                                ValueModel::OctetString(Seq::empty()),
                            ],
                        ),
                    ),
                ),
                ValueModel::Sequence(
                    seq![
                        ValueModel::OctetString(m.context_engine_id),
                        ValueModel::OctetString(encode_utf8(m.context_name)),
                        pdu_value(m.pdu),
                    ],
                ),
            ],
        ),
{
}

/// The values of a v3 message, by their places.
pub open spec fn v3_items(
    id: i64,
    max_size: i64,
    flags: Seq<u8>,
    model: i64,
    usm: Seq<u8>,
    context_engine: Seq<u8>,
    context_name: Seq<u8>,
    pdu: ValueModel,
) -> Seq<ValueModel> {
    seq![
        ValueModel::Integer(3),
        ValueModel::Sequence(
            seq![
                ValueModel::Integer(id),
                ValueModel::Integer(max_size),
                ValueModel::OctetString(flags),
                ValueModel::Integer(model),
            ],
        ),
        ValueModel::OctetString(usm),
        ValueModel::Sequence(
            seq![
                ValueModel::OctetString(context_engine),
                ValueModel::OctetString(context_name),
                pdu,
            ],
        ),
    ]
}

/// A v3 message of a security model that is USM and of no flag that secures
/// it is read field by field from their places.
#[verifier::spinoff_prover]
pub proof fn law_v3_fields_are_read(
    bytes: Seq<u8>,
    usm: Seq<u8>,
    pdu: ValueModel,
    m: V3Model,
    auth: ValueModel,
    privacy: ValueModel,
)
    requires
        m.flags % 4 == 0,
        decoding(usm) == Ok::<ValueModel, Refusal>(
            ValueModel::Sequence(
                seq![
                    ValueModel::OctetString(m.engine_id),
                    ValueModel::Integer(m.engine_boots),
                    ValueModel::Integer(m.engine_time),
                    ValueModel::OctetString(encode_utf8(m.user)),
                    auth,
                    privacy,
                ],
            ),
        ),
        pdu_in(pdu) == Ok::<PduModel, Refusal>(m.pdu),
        decoding(bytes) == Ok::<ValueModel, Refusal>(
            ValueModel::Sequence(
                v3_items(
                    m.msg_id as i64,
                    m.max_size,
                    seq![m.flags],
                    3,
                    usm,
                    m.context_engine_id,
                    encode_utf8(m.context_name),
                    pdu,
                ),
            ),
        ),
    ensures
        v3_in(bytes) == Ok::<V3Model, Refusal>(m),
{
    law_two_flags_secure(m.flags);
    lemma_usm_fields(usm, m, auth, privacy);
    lemma_text_kept(m.context_name);
    let scoped = seq![
        ValueModel::OctetString(m.context_engine_id),
        ValueModel::OctetString(encode_utf8(m.context_name)),
        pdu,
    ];
    assert(scoped[2] == pdu);
    assert(scoped_in(scoped) == Ok::<(Seq<u8>, Seq<char>, PduModel), Refusal>(
        (m.context_engine_id, m.context_name, m.pdu),
    ));
    let global = seq![
        ValueModel::Integer(m.msg_id as i64),
        ValueModel::Integer(m.max_size),
        ValueModel::OctetString(seq![m.flags]),
        ValueModel::Integer(3),
    ];
    assert(global[2] == ValueModel::OctetString(seq![m.flags]));
    assert(global_in(global) == Ok::<(i32, i64, u8), Refusal>(
        (m.msg_id, m.max_size, m.flags),
    ));
    let items = v3_items(
        m.msg_id as i64,
        m.max_size,
        seq![m.flags],
        3,
        usm,
        m.context_engine_id,
        encode_utf8(m.context_name),
        pdu,
    );
    assert(items[1] == ValueModel::Sequence(global));
    assert(items[2] == ValueModel::OctetString(usm));
    assert(items[3] == ValueModel::Sequence(scoped));
    assert(v3_of(items) == Ok::<V3Model, Refusal>(m));
}

proof fn lemma_text_kept(s: Seq<char>)
    ensures
        lossy_text(encode_utf8(s)) == s,
{
    encode_utf8_valid_utf8(s);
    encode_utf8_decode_utf8(s);
}

proof fn lemma_usm_fields(usm: Seq<u8>, m: V3Model, auth: ValueModel, privacy: ValueModel)
    requires
        decoding(usm) == Ok::<ValueModel, Refusal>(
            ValueModel::Sequence(
                seq![
                    ValueModel::OctetString(m.engine_id),
                    ValueModel::Integer(m.engine_boots),
                    ValueModel::Integer(m.engine_time),
                    ValueModel::OctetString(encode_utf8(m.user)),
                    auth,
                    privacy,
                ],
            ),
        ),
    ensures
        usm_in(usm) == Ok::<(Seq<u8>, i64, i64, Seq<char>), Refusal>(
            (m.engine_id, m.engine_boots, m.engine_time, m.user),
        ),
{
    lemma_text_kept(m.user);
    let items = seq![
        ValueModel::OctetString(m.engine_id),
        ValueModel::Integer(m.engine_boots),
        ValueModel::Integer(m.engine_time),
        ValueModel::OctetString(encode_utf8(m.user)),
        auth,
        privacy,
    ];
    assert(items[0] == ValueModel::OctetString(m.engine_id));
    assert(items[1] == ValueModel::Integer(m.engine_boots));
    assert(items[2] == ValueModel::Integer(m.engine_time));
    assert(items[3] == ValueModel::OctetString(encode_utf8(m.user)));
}

/// A v3 message with a flag that secures it is refused for that, and else
/// one of another security model for that, whatever else is in it.
pub proof fn law_v3_refusals(
    id: i32,
    max_size: i64,
    flags: Seq<u8>,
    model: i64,
    usm: Seq<u8>,
    context_engine: Seq<u8>,
    context_name: Seq<u8>,
    pdu: ValueModel,
)
    requires
        flags.len() > 0,
    ensures
        ({
            let read = v3_of(
                v3_items(
                    id as i64,
                    max_size,
                    flags,
                    model,
                    usm,
                    context_engine,
                    context_name,
                    pdu,
                ),
            );
            &&& flags[0] % 4 != 0 ==> read == Err::<V3Model, Refusal>(Fault::NotNoAuthNoPriv)
            &&& flags[0] % 4 == 0 && model != 3 ==> read == Err::<V3Model, Refusal>(Fault::NotUsm)
        }),
{
    law_two_flags_secure(flags[0]);
    let global = seq![
        ValueModel::Integer(id as i64),
        ValueModel::Integer(max_size),
        ValueModel::OctetString(flags),
        ValueModel::Integer(model),
    ];
    let items = v3_items(
        id as i64,
        max_size,
        flags,
        model,
        usm,
        context_engine,
        context_name,
        pdu,
    );
    assert(items[0] == ValueModel::Integer(3));
    assert(items[1] == ValueModel::Sequence(global));
    assert(global[0] == ValueModel::Integer(id as i64));
    assert(global[1] == ValueModel::Integer(max_size));
    assert(global[2] == ValueModel::OctetString(flags));
    assert(global[3] == ValueModel::Integer(model));
}

/// A v3 message, or a part of one, that ends before a field is refused by
/// the name of the part; so is what says another version, an id that `i32`
/// does not hold, and no flags.
#[verifier::spinoff_prover]
pub proof fn law_v3_fields_that_are_missing(
    id: i64,
    max_size: i64,
    flags: Seq<u8>,
    version: i64,
    k: int,
)
    requires
        0 <= k < 4,
    ensures
        ({
            let global = seq![
                ValueModel::Integer(id),
                ValueModel::Integer(max_size),
                ValueModel::OctetString(flags),
                ValueModel::Integer(3),
            ];
            let fits = i32::MIN <= id <= i32::MAX;
            let open = flags.len() > 0 && flags[0] % 4 == 0;
            &&& fits && open ==> global_in(global.take(k)) == Err::<(i32, i64, u8), Refusal>(
                Fault::V3FieldMissing(V3Part::GlobalData),
            )
            &&& !fits ==> global_in(global) == Err::<(i32, i64, u8), Refusal>(
                Fault::MsgIdOutsideI32,
            )
            &&& fits && flags.len() == 0 ==> global_in(global) == Err::<(i32, i64, u8), Refusal>(
                Fault::EmptyFlags,
            )
        }),
        version != 3 ==> v3_of(seq![ValueModel::Integer(version)]) == Err::<V3Model, Refusal>(
            Fault::NotVersion3,
        ),
        v3_of(Seq::empty()) == Err::<V3Model, Refusal>(Fault::V3FieldMissing(V3Part::Message)),
        v3_of(seq![ValueModel::Integer(3)]) == Err::<V3Model, Refusal>(
            Fault::V3FieldMissing(V3Part::Message),
        ),
{
    if flags.len() > 0 {
        law_two_flags_secure(flags[0]);
    }
    let global = seq![
        ValueModel::Integer(id),
        ValueModel::Integer(max_size),
        ValueModel::OctetString(flags),
        ValueModel::Integer(3),
    ];
    let some = global.take(k);
    assert(k > 0 ==> some[0] == ValueModel::Integer(id));
    assert(k > 1 ==> some[1] == ValueModel::Integer(max_size));
    assert(k > 2 ==> some[2] == ValueModel::OctetString(flags));
    assert(global[0] == ValueModel::Integer(id));
    assert(global[1] == ValueModel::Integer(max_size));
    assert(global[2] == ValueModel::OctetString(flags));
    assert(seq![ValueModel::Integer(version)][0] == ValueModel::Integer(version));
    assert(seq![ValueModel::Integer(3)][0] == ValueModel::Integer(3));
}

/// The security parameters and the scoped PDU are refused by their names
/// where they end before a field.
pub proof fn law_v3_parts_that_end_early(
    usm: Seq<u8>,
    engine: Seq<u8>,
    boots: i64,
    time: i64,
    name: Seq<u8>,
    k: int,
)
    requires
        0 <= k,
    ensures
        k < 4 && decoding(usm) == Ok::<ValueModel, Refusal>(
            ValueModel::Sequence(
                seq![
                    ValueModel::OctetString(engine),
                    ValueModel::Integer(boots),
                    ValueModel::Integer(time),
                ].take(
                    if k < 3 {
                        k
                    } else {
                        3
                    },
                ),
            ),
        ) ==> usm_in(usm) == Err::<(Seq<u8>, i64, i64, Seq<char>), Refusal>(
            Fault::V3FieldMissing(V3Part::SecurityParameters),
        ),
        k < 3 ==> scoped_in(
            seq![ValueModel::OctetString(engine), ValueModel::OctetString(name)].take(k),
        ) == Err::<(Seq<u8>, Seq<char>, PduModel), Refusal>(
            Fault::V3FieldMissing(V3Part::ScopedPdu),
        ),
{
    let n = if k < 3 {
        k
    } else {
        3
    };
    let three = seq![
        ValueModel::OctetString(engine),
        ValueModel::Integer(boots),
        ValueModel::Integer(time),
    ];
    let some = three.take(n);
    assert(n > 0 ==> some[0] == ValueModel::OctetString(engine));
    assert(n > 1 ==> some[1] == ValueModel::Integer(boots));
    assert(n > 2 ==> some[2] == ValueModel::Integer(time));
    if k < 3 {
        let two = seq![ValueModel::OctetString(engine), ValueModel::OctetString(name)];
        let few = two.take(k);
        assert(k > 0 ==> few[0] == ValueModel::OctetString(engine));
        assert(k > 1 ==> few[1] == ValueModel::OctetString(name));
    }
}

/// The global data is the id, the largest size and the first of the flags;
/// what is amiss in a place is what it is refused for, whatever is after it.
#[verifier::spinoff_prover]
pub proof fn law_global_data_is_read(
    id: i64,
    max_size: i64,
    flags: Seq<u8>,
    v: ValueModel,
    more: Seq<ValueModel>,
)
    ensures
        ({
            let fits = i32::MIN <= id <= i32::MAX;
            let open = flags.len() > 0 && flags[0] % 4 == 0;
            let one = seq![ValueModel::Integer(id)];
            let two = one.push(ValueModel::Integer(max_size));
            let three = two.push(ValueModel::OctetString(flags));
            let refused = |f: Refusal| Err::<(i32, i64, u8), Refusal>(f);
            &&& !(v is Integer) ==> global_in(seq![v] + more) == refused(
                Fault::Expected(Shape::Integer, v),
            )
            &&& !fits ==> global_in(one + more) == refused(Fault::MsgIdOutsideI32)
            &&& fits && !(v is Integer) ==> global_in(one.push(v) + more) == refused(
                Fault::Expected(Shape::Integer, v),
            )
            &&& fits && !(v is OctetString) ==> global_in(two.push(v) + more) == refused(
                Fault::Expected(Shape::OctetString, v),
            )
            &&& fits && flags.len() == 0 ==> global_in(three + more) == refused(Fault::EmptyFlags)
            &&& fits && flags.len() > 0 && !open ==> global_in(three + more) == refused(
                Fault::NotNoAuthNoPriv,
            )
            &&& fits && open && !(v is Integer) ==> global_in(three.push(v) + more) == refused(
                Fault::Expected(Shape::Integer, v),
            )
            &&& fits && open ==> (v matches ValueModel::Integer(model) ==> global_in(
                three.push(v) + more,
            ) == if model == 3 {
                Ok((id as i32, max_size, flags[0]))
            } else {
                refused(Fault::NotUsm)
            })
        }),
{
    if flags.len() > 0 {
        law_two_flags_secure(flags[0]);
    }
    let one = seq![ValueModel::Integer(id)];
    let two = one.push(ValueModel::Integer(max_size));
    let three = two.push(ValueModel::OctetString(flags));
    assert((seq![v] + more)[0] == v);
    assert((one + more)[0] == one[0]);
    assert((one.push(v) + more)[0] == one[0] && (one.push(v) + more)[1] == v);
    let b = two.push(v) + more;
    assert(b[0] == one[0] && b[1] == two[1] && b[2] == v);
    let c = three + more;
    assert(c[0] == one[0] && c[1] == two[1] && c[2] == three[2]);
    let d = three.push(v) + more;
    assert(d[0] == one[0] && d[1] == two[1] && d[2] == three[2] && d[3] == v);
}

/// The security parameters are the engine, its boots and time, and the user;
/// what is amiss in a place is what they are refused for, whatever is after
/// it.
#[verifier::spinoff_prover]
pub proof fn law_security_parameters_are_read(
    usm: Seq<u8>,
    engine: Seq<u8>,
    boots: i64,
    time: i64,
    v: ValueModel,
    more: Seq<ValueModel>,
)
    ensures
        ({
            let one = seq![ValueModel::OctetString(engine)];
            let two = one.push(ValueModel::Integer(boots));
            let three = two.push(ValueModel::Integer(time));
            let are = |items: Seq<ValueModel>|
                decoding(usm) == Ok::<ValueModel, Refusal>(ValueModel::Sequence(items));
            let refused = |f: Refusal| Err::<(Seq<u8>, i64, i64, Seq<char>), Refusal>(f);
            &&& decoding(usm) matches Err(e) ==> usm_in(usm) == refused(e)
            &&& decoding(usm) == Ok::<ValueModel, Refusal>(v) && !(v is Sequence) ==> usm_in(usm)
                == refused(Fault::Expected(Shape::Sequence, v))
            &&& are(seq![v] + more) && !(v is OctetString) ==> usm_in(usm) == refused(
                Fault::Expected(Shape::OctetString, v),
            )
            &&& are(one.push(v) + more) && !(v is Integer) ==> usm_in(usm) == refused(
                Fault::Expected(Shape::Integer, v),
            )
            &&& are(two.push(v) + more) && !(v is Integer) ==> usm_in(usm) == refused(
                Fault::Expected(Shape::Integer, v),
            )
            &&& are(three.push(v) + more) ==> usm_in(usm) == match v {
                ValueModel::OctetString(user) => Ok((engine, boots, time, lossy_text(user))),
                _ => refused(Fault::Expected(Shape::OctetString, v)),
            }
        }),
{
    let one = seq![ValueModel::OctetString(engine)];
    let two = one.push(ValueModel::Integer(boots));
    let three = two.push(ValueModel::Integer(time));
    assert((seq![v] + more)[0] == v);
    let a = one.push(v) + more;
    assert(a[0] == one[0] && a[1] == v);
    let b = two.push(v) + more;
    assert(b[0] == one[0] && b[1] == two[1] && b[2] == v);
    let c = three.push(v) + more;
    assert(c[0] == one[0] && c[1] == two[1] && c[2] == three[2] && c[3] == v);
}

/// The scoped PDU is the context's engine and name, and the PDU; what is
/// amiss in a place is what it is refused for, whatever is after it.
#[verifier::spinoff_prover]
pub proof fn law_scoped_pdu_is_read(
    engine: Seq<u8>,
    name: Seq<u8>,
    v: ValueModel,
    more: Seq<ValueModel>,
)
    ensures
        ({
            let one = seq![ValueModel::OctetString(engine)];
            let two = one.push(ValueModel::OctetString(name));
            let refused = |f: Refusal| Err::<(Seq<u8>, Seq<char>, PduModel), Refusal>(f);
            &&& !(v is OctetString) ==> scoped_in(seq![v] + more) == refused(
                Fault::Expected(Shape::OctetString, v),
            )
            &&& !(v is OctetString) ==> scoped_in(one.push(v) + more) == refused(
                Fault::Expected(Shape::OctetString, v),
            )
            &&& scoped_in(two.push(v) + more) == match pdu_in(v) {
                Ok(pdu) => Ok((engine, lossy_text(name), pdu)),
                Err(e) => refused(e),
            }
        }),
{
    let one = seq![ValueModel::OctetString(engine)];
    let two = one.push(ValueModel::OctetString(name));
    assert((seq![v] + more)[0] == v);
    let a = one.push(v) + more;
    assert(a[0] == one[0] && a[1] == v);
    let b = two.push(v) + more;
    assert(b[0] == one[0] && b[1] == two[1] && b[2] == v);
}

/// A v3 message is its global data, its security parameters and its scoped
/// PDU, in that order; what is amiss in a place, or in what is there, is
/// what it is refused for, whatever is after it.
#[verifier::spinoff_prover]
pub proof fn law_v3_is_its_parts(
    version: i64,
    global: Seq<ValueModel>,
    usm: Seq<u8>,
    v: ValueModel,
    more: Seq<ValueModel>,
)
    ensures
        ({
            let one = seq![ValueModel::Integer(3)];
            let two = one.push(ValueModel::Sequence(global));
            let three = two.push(ValueModel::OctetString(usm));
            let refused = |f: Refusal| Err::<V3Model, Refusal>(f);
            &&& !(v is Integer) ==> v3_of(seq![v] + more) == refused(
                Fault::Expected(Shape::Integer, v),
            )
            &&& version != 3 ==> v3_of(seq![ValueModel::Integer(version)] + more) == refused(
                Fault::NotVersion3,
            )
            &&& !(v is Sequence) ==> v3_of(one.push(v) + more) == refused(
                Fault::Expected(Shape::Sequence, v),
            )
            &&& match global_in(global) {
                Err(e) => v3_of(two + more) == refused(e),
                Ok((msg_id, max_size, flags)) => {
                    &&& v3_of(two) == refused(Fault::V3FieldMissing(V3Part::Message))
                    &&& !(v is OctetString) ==> v3_of(two.push(v) + more) == refused(
                        Fault::Expected(Shape::OctetString, v),
                    )
                    &&& match usm_in(usm) {
                        Err(e) => v3_of(three + more) == refused(e),
                        Ok((engine_id, engine_boots, engine_time, user)) => {
                            &&& v3_of(three) == refused(Fault::V3FieldMissing(V3Part::Message))
                            &&& v3_of(three.push(v) + more) == match v {
                                ValueModel::Sequence(scoped) => match scoped_in(scoped) {
                                    Err(e) => refused(e),
                                    Ok((context_engine_id, context_name, pdu)) => Ok(
                                        V3Model {
                                            msg_id,
                                            max_size,
                                            flags,
                                            engine_id,
                                            engine_boots,
                                            engine_time,
                                            user,
                                            context_engine_id,
                                            context_name,
                                            pdu,
                                        },
                                    ),
                                },
                                _ => refused(Fault::Expected(Shape::Sequence, v)),
                            }
                        },
                    }
                },
            }
        }),
{
    let one = seq![ValueModel::Integer(3)];
    let two = one.push(ValueModel::Sequence(global));
    let three = two.push(ValueModel::OctetString(usm));
    assert((seq![v] + more)[0] == v);
    assert((seq![ValueModel::Integer(version)] + more)[0] == ValueModel::Integer(version));
    let a = one.push(v) + more;
    assert(a[0] == one[0] && a[1] == v);
    let a2 = two + more;
    assert(a2[0] == one[0] && a2[1] == two[1]);
    let b = two.push(v) + more;
    assert(b[0] == one[0] && b[1] == two[1] && b[2] == v);
    let b2 = three + more;
    assert(b2[0] == one[0] && b2[1] == two[1] && b2[2] == three[2]);
    let c = three.push(v) + more;
    assert(c[0] == one[0] && c[1] == two[1] && c[2] == three[2] && c[3] == v);
}

/// Octets are the text they encode, and where they encode none, what they
/// are repaired to.
pub proof fn law_text_of_octets(text: Seq<char>, octets: Seq<u8>)
    ensures
        lossy_text(encode_utf8(text)) == text,
        !valid_utf8(octets) ==> lossy_text(octets) == repaired_text(octets),
{
    lemma_text_kept(text);
}

/// What comes after the last field that is read says nothing.
#[verifier::spinoff_prover]
pub proof fn law_further_fields_say_nothing(
    tag: u8,
    items: Seq<ValueModel>,
    more: Seq<ValueModel>,
)
    ensures
        items.len() == 4 ==> pdu_in(ValueModel::Context(tag, items + more)) == pdu_in(
            ValueModel::Context(tag, items),
        ),
        items.len() == 2 ==> binding_in(ValueModel::Sequence(items + more)) == binding_in(
            ValueModel::Sequence(items),
        ),
        items.len() == 3 ==> message_of(items + more) == message_of(items),
        items.len() == 4 ==> global_in(items + more) == global_in(items),
        items.len() == 3 ==> scoped_in(items + more) == scoped_in(items),
        items.len() == 4 ==> v3_of(items + more) == v3_of(items),
{
    let all = items + more;
    if items.len() >= 2 {
        assert(all[0] == items[0] && all[1] == items[1]);
    }
    if items.len() >= 3 {
        assert(all[2] == items[2]);
    }
    if items.len() >= 4 {
        assert(all[3] == items[3]);
    }
}

/// The version of a message is the INTEGER its SEQUENCE opens with, whatever
/// is after it in the SEQUENCE or after the SEQUENCE.
pub proof fn law_version_comes_first(
    bytes: Seq<u8>,
    n: i64,
    more: Seq<ValueModel>,
    end: int,
)
    requires
        reading(bytes, 0) == Ok::<(ValueModel, int), Refusal>(
            (ValueModel::Sequence(seq![ValueModel::Integer(n)] + more), end),
        ),
    ensures
        version_in(bytes) == Ok::<i64, Refusal>(n),
{
    assert((seq![ValueModel::Integer(n)] + more)[0] == ValueModel::Integer(n));
}

/// What is not one value, or not a SEQUENCE, is no message of any version.
pub proof fn law_what_is_no_message(bytes: Seq<u8>, v: ValueModel)
    ensures
        decoding(bytes) matches Err(e) ==> {
            &&& message_in(bytes) == Err::<MessageModel, Refusal>(e)
            &&& v3_in(bytes) == Err::<V3Model, Refusal>(e)
        },
        decoding(bytes) == Ok::<ValueModel, Refusal>(v) && !(v is Sequence) ==> {
            &&& message_in(bytes) == Err::<MessageModel, Refusal>(
                Fault::Expected(Shape::Sequence, v),
            )
            &&& v3_in(bytes) == Err::<V3Model, Refusal>(Fault::Expected(Shape::Sequence, v))
            &&& version_in(bytes) == Err::<i64, Refusal>(Fault::Expected(Shape::Sequence, v))
        },
        decoding(bytes) matches Ok(ValueModel::Sequence(items)) ==> {
            &&& message_in(bytes) == message_of(items)
            &&& v3_in(bytes) == v3_of(items)
        },
        reading(bytes, 0) matches Err(e) ==> version_in(bytes) == Err::<i64, Refusal>(e),
{
    assert(bytes.skip(0) =~= bytes);
}

/// Which messages are spoken: those of bindings SNMP has, v2c of version 1,
/// v3 with neither of the two lowest flags.
pub proof fn law_what_is_spoken(e: EnvelopeModel)
    ensures
        spoken(e) == ({
            &&& forall|i: int|
                0 <= i < pdu_of(e).bindings.len() ==> {
                    &&& well_formed(ValueModel::Oid((#[trigger] pdu_of(e).bindings[i]).oid))
                    &&& well_formed(pdu_of(e).bindings[i].value)
                }
            &&& e matches EnvelopeModel::V2c(m) ==> m.version == 1
            &&& e matches EnvelopeModel::V3(m) ==> m.flags % 4 == 0
        }),
{
    if let EnvelopeModel::V3(m) = e {
        law_two_flags_secure(m.flags);
    }
    let bindings = pdu_of(e).bindings;
    if spoken(e) {
        assert forall|i: int| 0 <= i < bindings.len() implies well_formed(
            ValueModel::Oid((#[trigger] bindings[i]).oid),
        ) && well_formed(bindings[i].value) by {
            assert(crate::pdu::binding_well_formed(bindings[i]));
        }
    }
}

// ----------------------------------------------------------------- envelopes

/// Bytes are read as v2c where they open with version 1, as v3 where they
/// open with 3, and are refused where they open with another.
pub proof fn law_version_decides(bytes: Seq<u8>)
    ensures
        match version_in(bytes) {
            Err(e) => envelope_in(bytes) == Err::<EnvelopeModel, Refusal>(e),
            Ok(n) => {
                &&& n == 1 ==> envelope_in(bytes) == match message_in(bytes) {
                    Ok(m) => Ok::<EnvelopeModel, Refusal>(EnvelopeModel::V2c(m)),
                    Err(e) => Err(e),
                }
                &&& n == 3 ==> envelope_in(bytes) == match v3_in(bytes) {
                    Ok(m) => Ok::<EnvelopeModel, Refusal>(EnvelopeModel::V3(m)),
                    Err(e) => Err(e),
                }
                &&& n != 1 && n != 3 ==> envelope_in(bytes) == Err::<EnvelopeModel, Refusal>(
                    Fault::MessageVersionNotSpoken(n),
                )
            },
        },
{
}

/// What an envelope is on the wire, what is inside it, what its answer is
/// wrapped in, and what its credential says.
pub proof fn law_envelope_parts(
    m: MessageModel,
    v3: V3Model,
    pdu: PduModel,
    community: Seq<char>,
)
    ensures
        wire(EnvelopeModel::V2c(m)) == encoding(message_value(m)),
        wire(EnvelopeModel::V3(v3)) == encoding(v3_value(v3)),
        pdu_of(EnvelopeModel::V2c(m)) == m.pdu,
        pdu_of(EnvelopeModel::V3(v3)) == v3.pdu,
        answer_to(EnvelopeModel::V2c(m), pdu) == EnvelopeModel::V2c(
            MessageModel { version: m.version, community: m.community, pdu },
        ),
        answer_to(EnvelopeModel::V3(v3), pdu) == EnvelopeModel::V3(v3_answer(v3, pdu)),
        m.community == encode_utf8(community) ==> credential_of(EnvelopeModel::V2c(m))
            == "community="@ + community + "&version=2c"@,
        credential_of(EnvelopeModel::V2c(m)) == "community="@ + lossy_text(m.community)
            + "&version=2c"@,
        credential_of(EnvelopeModel::V3(v3)) == "user="@ + v3.user + "&version=3"@,
{
    lemma_text_kept(community);
}

} // verus!
