//! What the public functions return, of whatever they are called with: each
//! call gives what the models say of its arguments.
use std::sync::atomic::{AtomicI32, Ordering};
use std::time::{Duration, Instant};

use vstd::prelude::*;
use vstd::utf8::encode_utf8;

use crate::ber;
use crate::ber::{decoding, dotted, encodable, encoding, models, oid_of, reading, Value, ValueModel};
use crate::envelope::{answer_to, credential_of, envelope_in, pdu_of, wire, Envelope};
use crate::envelope::{EnvelopeModel, MAX_DATAGRAM};
use crate::error::{Error, Refusal, Result, Shape};
use crate::lines;
use crate::lines::{stream_bindings, stream_text, text_value, value_text};
use crate::loopback::{about, ceiling, ceiling_measured, loopback_set_up, set_target, take};
use crate::loopback::{taken, Taken};
use crate::message::told;
use crate::pdu;
use crate::pdu::{binding_models, binding_of, message_in, message_value, opened, pdu_encodable};
use crate::pdu::{pdu_in, pdu_value, trap_oid_in, type_of, version_in, Binding, BindingModel};
use crate::pdu::{Message, MessageModel, Pdu, PduModel, PduType};
use crate::target::{arcs_there, is_address, target_of, Action, SnmpTarget, TargetModel};
use crate::transport::{composed, counted, drawn, fresh, hundredths, hundredths_of};
use crate::transport::{is_uptime, react, reaction, requested, ArrivedModel, Reaction};
use crate::transport::{ReactionModel, Request};
use crate::transport::{SnmpTransport, TransportModel};
use crate::v3;
use crate::v3::{v3_answer, v3_from, v3_in, v3_value, V3Message, V3Model};

verus! {

/// What `to_bytes` gives is the value on the wire.
pub proof fn law_calls_write_values(
    value: Value,
    bytes: Vec<u8>,
)
    requires
        call_ensures(ber::to_bytes, (&value,), bytes),
    ensures
        bytes@ == encoding(value@),
{
}

/// What `encode` gives is the value on the wire after what was there.
pub proof fn law_calls_append_values(value: Value, out: &mut Vec<u8>)
    requires
        call_ensures(ber::encode, (&value, out), ()),
    ensures
        final(out)@ == old(out)@ + encoding(value@),
{
}

/// What `decode` gives is the one value that the bytes are.
pub proof fn law_calls_read_one_value(
    bytes: &[u8],
    result: Result<Value>,
)
    requires
        call_ensures(ber::decode, (bytes,), result),
    ensures
        match result {
            Ok(r) => decoding(bytes@) == Ok::<ValueModel, Refusal>(r@),
            Err(e) => decoding(bytes@) == Err::<ValueModel, Refusal>(e@),
        },
{
}

/// What `read` gives is the value there, and where it ends.
pub proof fn law_calls_read_values_in_place(
    bytes: &[u8],
    at: usize,
    result: Result<(Value, usize)>,
)
    requires
        call_ensures(ber::read, (bytes, at), result),
    ensures
        match result {
            Ok(r) => reading(bytes@, at as int) == Ok::<(ValueModel, int), Refusal>(
                (r.0@, r.1 as int),
            ),
            Err(e) => reading(bytes@, at as int) == Err::<(ValueModel, int), Refusal>(e@),
        },
{
}

/// What `oid_text` gives is dotted, and `parse_oid` reads what is.
pub proof fn law_calls_dot_identifiers(
    arcs: &[u32],
    text: String,
    dots: &str,
    read: Option<Vec<u32>>,
)
    requires
        call_ensures(ber::oid_text, (arcs,), text),
        call_ensures(ber::parse_oid, (dots,), read),
    ensures
        text@ == dotted(arcs@),
        arcs_there(read) == oid_of(dots@),
{
}

/// What a value is taken as is what it is.
pub proof fn law_calls_take_shapes(
    value: Value,
    integer: Result<i64>,
    octets: Result<&[u8]>,
    oid: Result<&[u32]>,
    items: Result<Vec<Value>>,
    can: bool,
)
    requires
        call_ensures(Value::integer, (&value,), integer),
        call_ensures(Value::octets, (&value,), octets),
        call_ensures(Value::oid, (&value,), oid),
        call_ensures(Value::items, (value,), items),
        call_ensures(Value::is_encodable, (&value,), can),
    ensures
        match integer {
            Ok(n) => value@ == ValueModel::Integer(n),
            Err(e) => !(value@ is Integer) && e@ == Refusal::Expected(Shape::Integer, value@),
        },
        match octets {
            Ok(b) => value@ == ValueModel::OctetString(b@),
            Err(e) => !(value@ is OctetString) && e@ == Refusal::Expected(
                Shape::OctetString,
                value@,
            ),
        },
        match oid {
            Ok(arcs) => value@ == ValueModel::Oid(arcs@),
            Err(e) => !(value@ is Oid) && e@ == Refusal::Expected(
                Shape::ObjectIdentifier,
                value@,
            ),
        },
        match items {
            Ok(inside) => value@ == ValueModel::Sequence(models(inside@)),
            Err(e) => !(value@ is Sequence) && e@ == Refusal::Expected(Shape::Sequence, value@),
        },
        can == encodable(value@),
{
}

/// What `render_value` gives is what a line shows, and `parse_value` what it means.
pub proof fn law_calls_render_and_parse_values(
    value: Value,
    shown: String,
    text: &str,
    meant: Value,
)
    requires
        call_ensures(lines::render_value, (&value,), shown),
        call_ensures(lines::parse_value, (text,), meant),
    ensures
        shown@ == value_text(value@),
        meant@ == text_value(text@),
{
}

/// What `render` gives is the Stream, and `parse_lines` the bindings of one.
pub proof fn law_calls_render_and_parse_streams(
    bindings: &[Binding],
    bytes: Vec<u8>,
    stream: &[u8],
    result: Result<Vec<Binding>>,
)
    requires
        call_ensures(lines::render, (bindings,), bytes),
        call_ensures(lines::parse_lines, (stream,), result),
    ensures
        bytes@ == encode_utf8(stream_text(binding_models(bindings@))),
        match result {
            Ok(r) => stream_bindings(stream@) == Ok::<Seq<BindingModel>, Refusal>(
                binding_models(r@),
            ),
            Err(e) => stream_bindings(stream@) == Err::<Seq<BindingModel>, Refusal>(e@),
        },
{
}

/// What wears a tag is what the tag is of, and is called by its name.
pub proof fn law_calls_name_types(
    kind: PduType,
    tag: u8,
    name: &str,
    result: Result<PduType>,
    other: u8,
    found: Result<PduType>,
)
    requires
        call_ensures(PduType::tag, (kind,), tag),
        call_ensures(PduType::from_tag, (tag,), result),
        call_ensures(PduType::name, (kind,), name),
        call_ensures(PduType::from_tag, (other,), found),
    ensures
        result == Ok::<PduType, Error>(kind),
        match found {
            Ok(of) => type_of(other) == Ok::<PduType, Refusal>(of),
            Err(e) => type_of(other) == Err::<PduType, Refusal>(e@),
        },
        name@ == match kind {
            PduType::GetRequest => "get"@,
            PduType::GetNextRequest => "get-next"@,
            PduType::GetResponse => "response"@,
            PduType::SetRequest => "set"@,
            PduType::InformRequest => "inform"@,
            PduType::Trap => "trap"@,
        },
{
}

/// A binding is its name and its value, and reads and writes as its line.
pub proof fn law_calls_make_bindings(
    oid: &[u32],
    value: Value,
    binding: Binding,
    any: Binding,
    text: String,
    line: &str,
    result: Result<Binding>,
)
    requires
        call_ensures(Binding::new, (oid, value), binding),
        call_ensures(Binding::line, (&any,), text),
        call_ensures(Binding::parse, (line,), result),
    ensures
        binding@.oid == oid@,
        binding@.value == value@,
        text@ == dotted(any@.oid) + seq!['='] + value_text(any@.value),
        match result {
            Ok(r) => binding_of(line@) == Ok::<BindingModel, Refusal>(r@),
            Err(e) => binding_of(line@) == Err::<BindingModel, Refusal>(e@),
        },
{
}

/// A PDU has what it was made of in its fields.
pub proof fn law_calls_make_pdus(
    kind: PduType,
    id: i32,
    bindings: Vec<Binding>,
    pdu: Pdu,
    trap_oid: &[u32],
    uptime: u64,
    told: Pdu,
    any: Pdu,
    status: i32,
    response: Pdu,
)
    requires
        call_ensures(Pdu::new, (kind, id, bindings), pdu),
        call_ensures(Pdu::notification, (kind, id, trap_oid, uptime, bindings), told),
        call_ensures(Pdu::response, (&any, status), response),
    ensures
        pdu@ == (PduModel {
            kind,
            request_id: id,
            error_status: 0,
            error_index: 0,
            bindings: binding_models(bindings@),
        }),
        told@ == (PduModel {
            bindings: opened(binding_models(bindings@), trap_oid@, uptime),
            ..pdu@
        }),
        response@ == (PduModel {
            kind: PduType::GetResponse,
            request_id: any@.request_id,
            error_status: status,
            error_index: 0,
            bindings: any@.bindings,
        }),
{
}

/// A PDU is written as its value and read from it, and names its trap.
pub proof fn law_calls_read_and_write_pdus(
    pdu: Pdu,
    value: Value,
    arcs: Option<&[u32]>,
    found: Value,
    result: Result<Pdu>,
    can: bool,
)
    requires
        call_ensures(Pdu::to_value, (&pdu,), value),
        call_ensures(Pdu::trap_oid, (&pdu,), arcs),
        call_ensures(Pdu::from_value, (found,), result),
        call_ensures(Pdu::is_encodable, (&pdu,), can),
    ensures
        value@ == pdu_value(pdu@),
        match arcs {
            Some(a) => trap_oid_in(pdu@.bindings) == Some(a@),
            None => trap_oid_in(pdu@.bindings) is None,
        },
        match result {
            Ok(r) => pdu_in(found@) == Ok::<PduModel, Refusal>(r@),
            Err(e) => pdu_in(found@) == Err::<PduModel, Refusal>(e@),
        },
        can == pdu_encodable(pdu@),
{
}

/// A v2c message is of its community and PDU, and on the wire what it is.
pub proof fn law_calls_read_and_write_messages(
    community: &str,
    pdu: Pdu,
    message: Message,
    any: Message,
    bytes: Vec<u8>,
    wire: &[u8],
    version: Result<i64>,
    result: Result<Message>,
)
    requires
        call_ensures(Message::v2c, (community, pdu), message),
        call_ensures(pdu::encode, (&any,), bytes),
        call_ensures(pdu::version_of, (wire,), version),
        call_ensures(pdu::decode, (wire,), result),
    ensures
        message@.version == 1,
        message@.community == encode_utf8(community@),
        message@.pdu == pdu@,
        bytes@ == encoding(message_value(any@)),
        match version {
            Ok(n) => version_in(wire@) == Ok::<i64, Refusal>(n),
            Err(e) => version_in(wire@) == Err::<i64, Refusal>(e@),
        },
        match result {
            Ok(r) => message_in(wire@) == Ok::<MessageModel, Refusal>(r@),
            Err(e) => message_in(wire@) == Err::<MessageModel, Refusal>(e@),
        },
{
}

/// A v3 message is of its id, engine, user and PDU, and on the wire what it is.
pub proof fn law_calls_read_and_write_v3(
    id: i32,
    engine: &[u8],
    user: &str,
    pdu: Pdu,
    message: V3Message,
    any: V3Message,
    other: Pdu,
    answer: V3Message,
    bytes: Vec<u8>,
    wire: &[u8],
    result: Result<V3Message>,
)
    requires
        call_ensures(V3Message::new, (id, engine, user, pdu), message),
        call_ensures(V3Message::answering, (&any, other), answer),
        call_ensures(v3::encode, (&any,), bytes),
        call_ensures(v3::decode, (wire,), result),
    ensures
        message@ == v3_from(id, engine@, user@, pdu@),
        answer@ == v3_answer(any@, other@),
        bytes@ == encoding(v3_value(any@)),
        match result {
            Ok(r) => v3_in(wire@) == Ok::<V3Model, Refusal>(r@),
            Err(e) => v3_in(wire@) == Err::<V3Model, Refusal>(e@),
        },
{
}

/// An envelope is on the wire what it is, and is read, answered and named so.
pub proof fn law_calls_read_and_write_envelopes(
    message: Envelope,
    bytes: Vec<u8>,
    inside: &Pdu,
    pdu: Pdu,
    answer: Envelope,
    text: String,
    can: bool,
    datagram: &[u8],
    result: Result<Envelope>,
)
    requires
        call_ensures(Envelope::encode, (&message,), bytes),
        call_ensures(Envelope::pdu, (&message,), inside),
        call_ensures(Envelope::answering, (&message, pdu), answer),
        call_ensures(Envelope::credential, (&message,), text),
        call_ensures(Envelope::is_encodable, (&message,), can),
        call_ensures(Envelope::decode, (datagram,), result),
    ensures
        bytes@ == wire(message@),
        inside@ == pdu_of(message@),
        answer@ == answer_to(message@, pdu@),
        text@ == credential_of(message@),
        can == pdu_encodable(pdu_of(message@)),
        match result {
            Ok(r) => envelope_in(datagram@) == Ok::<EnvelopeModel, Refusal>(r@),
            Err(e) => envelope_in(datagram@) == Err::<EnvelopeModel, Refusal>(e@),
        },
{
}

/// What `parse` gives is the target that the text is.
pub proof fn law_calls_read_targets(
    text: &str,
    result: Result<SnmpTarget>,
)
    requires
        call_ensures(SnmpTarget::parse, (text,), result),
    ensures
        match result {
            Ok(r) => target_of(text@) == Ok::<TargetModel, Refusal>(r@),
            Err(e) => target_of(text@) == Err::<TargetModel, Refusal>(e@),
        },
{
}

/// Each setting sets what it names, and leaves the rest.
pub proof fn law_calls_set_up_transports(
    before: SnmpTransport,
    user: &str,
    third: SnmpTransport,
    engine: &[u8],
    named: SnmpTransport,
    timeout: Duration,
    timed: SnmpTransport,
    name: &str,
    bind: &str,
    waits: Option<Duration>,
)
    requires
        call_ensures(SnmpTransport::speaking_v3, (before, user), third),
        call_ensures(SnmpTransport::as_engine, (before, engine), named),
        call_ensures(SnmpTransport::timing_out_after, (before, timeout), timed),
        call_ensures(SnmpTransport::name, (&before,), name),
        call_ensures(SnmpTransport::bind, (&before,), bind),
        call_ensures(SnmpTransport::timeout, (&before,), waits),
    ensures
        third@ == (TransportModel { user: user@, version: 3, ..before@ }),
        named@ == (TransportModel { engine_id: engine@, ..before@ }),
        timed@ == (TransportModel { timeout: Some(timeout), ..before@ }),
        third.started() == before.started() && third.ids() == before.ids(),
        named.started() == before.started() && named.ids() == before.ids(),
        timed.started() == before.started() && timed.ids() == before.ids(),
        name@ == "snmp"@,
        bind@ == before@.bind,
        waits == before@.timeout,
{
}

/// A transport starts under its community, counting its ids from 1.
pub proof fn law_calls_start_transports(
    bind: &str,
    community: &str,
    transport: SnmpTransport,
    timeout: Duration,
    both: SnmpTransport,
)
    requires
        call_ensures(SnmpTransport::new::<&str>, (bind, community), transport),
        call_ensures(SnmpTransport::loopback, (timeout,), both),
    ensures
        transport@ == fresh(bind@, community@),
        call_ensures(AtomicI32::new, (1,), transport.ids()),
        both@ == loopback_set_up(timeout),
        call_ensures(AtomicI32::new, (1,), both.ids()),
{
}

/// An id is drawn by going on by one, and no other way.
pub proof fn law_calls_draw_ids(ids: AtomicI32, id: i32)
    ensures
        drawn(ids, id) == call_ensures(AtomicI32::fetch_add, (&ids, 1, Ordering::Relaxed), id),
{
}

/// What `compose` gives is what is sent under the id and at the uptime.
pub proof fn law_calls_compose(
    transport: SnmpTransport,
    target: SnmpTarget,
    id: i32,
    uptime: u64,
    bytes: &[u8],
    result: Result<Envelope>,
)
    requires
        call_ensures(SnmpTransport::compose, (&transport, &target, id, uptime, bytes), result),
    ensures
        match result {
            Ok(r) => composed(transport@, target@, id, uptime, bytes@) == Ok::<
                EnvelopeModel,
                Refusal,
            >(r@),
            Err(e) => composed(transport@, target@, id, uptime, bytes@) == Err::<
                EnvelopeModel,
                Refusal,
            >(e@),
        },
{
}

/// What `request` gives is what is sent under an id it drew, at the uptime it was.
pub proof fn law_calls_request(
    transport: SnmpTransport,
    text: &str,
    bytes: &[u8],
    result: Result<Request>,
)
    requires
        call_ensures(SnmpTransport::request, (&transport, text, bytes), result),
    ensures
        match result {
            Ok(r) => exists|id: i32, uptime: u64|
                {
                    &&& drawn(transport.ids(), id)
                    &&& is_uptime(transport.started(), uptime)
                    &&& #[trigger] requested(transport@, text@, id, uptime, bytes@) == Ok::<
                        (Seq<char>, EnvelopeModel),
                        Refusal,
                    >((r.address@, r.message@))
                },
            Err(e) => forall|id: i32, uptime: u64| #[trigger]
                requested(transport@, text@, id, uptime, bytes@) == Err::<
                    (Seq<char>, EnvelopeModel),
                    Refusal,
                >(e@),
        },
{
}

/// A response under the request's id is taken where its error status is 0, and
/// refused with its status and index where it is not, whatever the index; any
/// other message is refused as another's.
pub proof fn law_calls_judge_answers(
    request: Request,
    awaits: bool,
    bytes: &[u8],
    result: Result<Envelope>,
    response: EnvelopeModel,
)
    requires
        call_ensures(Request::awaits_answer, (&request,), awaits),
        call_ensures(Request::answer, (&request, bytes), result),
        envelope_in(bytes@) == Ok::<EnvelopeModel, Refusal>(response),
    ensures
        awaits == (pdu_of(request.message@).kind != PduType::Trap),
        ({
            let answer = pdu_of(response);
            if answer.kind != PduType::GetResponse || answer.request_id != pdu_of(
                request.message@,
            ).request_id {
                result matches Err(e) && e@ == Refusal::AnswerToAnother
            } else if answer.error_status != 0 {
                result matches Err(e) && e@ == Refusal::AgentError(
                    answer.error_status,
                    answer.error_index,
                )
            } else {
                result matches Ok(r) && r@ == response
            }
        }),
{
}

/// What reads as no message is refused as it reads.
pub proof fn law_calls_refuse_answers_that_are_no_messages(
    request: Request,
    bytes: &[u8],
    result: Result<Envelope>,
    refusal: Refusal,
)
    requires
        call_ensures(Request::answer, (&request, bytes), result),
        envelope_in(bytes@) == Err::<EnvelopeModel, Refusal>(refusal),
    ensures
        result matches Err(e) && e@ == refusal,
{
}

/// What `react` gives is what is done about the datagram.
pub proof fn law_calls_react(
    peer: &str,
    bytes: &[u8],
    result: Result<Reaction>,
)
    requires
        call_ensures(react, (peer, bytes), result),
    ensures
        match result {
            Ok(r) => reaction(peer@, bytes@) == Ok::<ReactionModel, Refusal>(r@),
            Err(e) => reaction(peer@, bytes@) == Err::<ReactionModel, Refusal>(e@),
        },
{
}

/// What `take` gives is what the agent makes of the datagram.
pub proof fn law_calls_take(
    peer: &str,
    bytes: &[u8],
    result: Result<Taken>,
)
    requires
        call_ensures(take, (peer, bytes), result),
    ensures
        match result {
            Ok(r) => taken(peer@, bytes@) == Ok::<(Seq<u8>, ArrivedModel), Refusal>(
                (r.answer@, r.arrived@),
            ),
            Err(e) => taken(peer@, bytes@) == Err::<(Seq<u8>, ArrivedModel), Refusal>(e@),
        },
{
}

/// What `ceiling` and `hundredths` give.
pub proof fn law_calls_measure(
    most: usize,
    millis: u128,
    ticks: u64,
)
    requires
        call_ensures(ceiling, (), most),
        call_ensures(hundredths, (millis,), ticks),
    ensures
        most == 65_456,
        most == ceiling_measured(),
        ticks == hundredths_of(millis),
{
}

/// Up to the ceiling the payload goes to an address as the SET of the object,
/// under id 1 and in one datagram; over it, it is refused. To what is no
/// address it goes, or is refused, as a request of that target does.
pub proof fn law_calls_send_over_the_loopback(
    timeout: Duration,
    address: &str,
    payload: &[u8],
    result: Result<Request>,
)
    requires
        call_ensures(SnmpTransport::loopback_request, (timeout, address, payload), result),
    ensures
        payload@.len() > ceiling_measured() ==> (result matches Err(e) && e@
            == Refusal::OverCeiling(payload@.len() as usize, ceiling_measured() as usize)),
        is_address(address@) && payload@.len() <= ceiling_measured() ==> (result matches Ok(r) && {
            &&& r.address@ == address@
            &&& r.message@ == about(PduType::SetRequest, 1, payload@)
            &&& wire(r.message@).len() <= MAX_DATAGRAM
        }),
        payload@.len() <= ceiling_measured() ==> forall|uptime: u64| #[trigger]
            requested(loopback_set_up(timeout), set_target(address@), 1, uptime, payload@)
                == match result {
                Ok(r) => Ok::<(Seq<char>, EnvelopeModel), Refusal>((r.address@, r.message@)),
                Err(e) => Err(e@),
            },
{
}

/// What a refusal says, and that trying again does not help.
pub proof fn law_calls_say_what_is_amiss(
    error: Error,
    text: String,
    may: bool,
)
    requires
        call_ensures(Error::message, (&error,), text),
        call_ensures(Error::retryable, (&error,), may),
    ensures
        text@ == told(error@),
        !may,
{
}

/// A clone is of the same model.
pub proof fn law_calls_copy(
    a: Value,
    a2: Value,
    b: Binding,
    b2: Binding,
    c: Pdu,
    c2: Pdu,
    d: Message,
    d2: Message,
    e: V3Message,
    e2: V3Message,
    f: Envelope,
    f2: Envelope,
    g: SnmpTarget,
    g2: SnmpTarget,
    h: Action,
    h2: Action,
)
    requires
        call_ensures(<Value as Clone>::clone, (&a,), a2),
        call_ensures(<Binding as Clone>::clone, (&b,), b2),
        call_ensures(<Pdu as Clone>::clone, (&c,), c2),
        call_ensures(<Message as Clone>::clone, (&d,), d2),
        call_ensures(<V3Message as Clone>::clone, (&e,), e2),
        call_ensures(<Envelope as Clone>::clone, (&f,), f2),
        call_ensures(<SnmpTarget as Clone>::clone, (&g,), g2),
        call_ensures(<Action as Clone>::clone, (&h,), h2),
    ensures
        a2@ == a@,
        b2@ == b@,
        c2@ == c@,
        d2@ == d@,
        e2@ == e@,
        f2@ == f@,
        g2@ == g@,
        h2@ == h@,
{
}

/// The uptime is counted from the milliseconds since the transport was built.
pub proof fn law_calls_count_time(
    transport: SnmpTransport,
    ticks: u64,
)
    requires
        call_ensures(SnmpTransport::uptime, (&transport,), ticks),
    ensures
        exists|since: Duration, millis: u128|
            {
                &&& #[trigger] counted(transport.started(), since, millis, ticks)
                &&& call_ensures(Instant::elapsed, (&transport.started(),), since)
                &&& call_ensures(Duration::as_millis, (&since,), millis)
                &&& ticks == hundredths_of(millis)
            },
{
}

} // verus!
