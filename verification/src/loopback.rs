//! Both ends of one SNMP exchange on this machine: an agent at an ephemeral
//! local port takes the one SET that binds an object to the Stream as an
//! OCTET STRING, answers it, and the response is what the manager waited
//! for. The manager the transport binds hands bindings up as `oid=value`
//! lines, and a line is a view of the bytes, not the bytes; the agent is the
//! far end a SET has, and the transport's own codec reads the request and
//! writes the response.
//!
//! The ceiling is a fact about the protocol: one SET goes in one datagram,
//! and what the v2c envelope, the PDU and the binding take around the OCTET
//! STRING is what the datagram cannot carry of the Stream. A payload over it
//! is refused before anything waits on it.
use std::sync::atomic::AtomicI32;
use std::time::{Duration, Instant};

use vstd::prelude::*;
use vstd::slice::slice_to_vec;
use vstd::utf8::{encode_utf8, encode_utf8_decode_utf8, encode_utf8_valid_utf8};
use vstd::utf8::is_ascii_chars_encode_utf8;

use crate::ber::{arc_octets, arcs_octets, as_octets, dotted, encoding, encodings, more_octets};
use crate::ber::{oid_octets, push_oid, Value, ValueModel};
use crate::envelope::{answer_to, credential_of, envelope_in, law_envelope_round_trips};
use crate::envelope::{law_read_message_is_spoken, pdu_of, wire};
use crate::envelope::{Envelope, EnvelopeModel, MAX_DATAGRAM};
use crate::error::{Fault, Refusal, Result};
use crate::octets::int_octets;
use crate::pdu::{binding_models, binding_value, binding_values, binding_well_formed, name_of};
use crate::pdu::{pdu_encodable, pdu_value, pdu_well_formed, plain_pdu, response_to, tag_of};
use crate::pdu::{Binding, BindingModel, Message, MessageModel, Pdu, PduType, VERSION_2C};
use crate::target::{is_address, law_set_scheme_sets, law_set_target, SnmpTarget};
use crate::text::lossy_text;
use crate::tlv::{lemma_tlv_len, INTEGER, OCTET_STRING, SEQUENCE};
use crate::transport::{answered, fresh, requested, Arrived, ArrivedModel, Request};
use crate::transport::{SnmpTransport, TransportModel};

verus! {

/// The object one SET binds: a scratch object under enterprise 0.
pub const OID: [u32; 9] = [1, 3, 6, 1, 4, 1, 0, 1, 0];

/// The community the loopback speaks under.
pub const COMMUNITY: &'static str = "private";

/// The binding of the object to the payload.
pub open spec fn bound_to(payload: Seq<u8>) -> BindingModel {
    BindingModel { oid: OID@, value: ValueModel::OctetString(payload) }
}

/// A message of the loopback about the payload.
pub open spec fn about(kind: PduType, id: i32, payload: Seq<u8>) -> EnvelopeModel {
    EnvelopeModel::V2c(
        MessageModel {
            version: VERSION_2C,
            community: encode_utf8(COMMUNITY@),
            pdu: plain_pdu(kind, id, seq![bound_to(payload)]),
        },
    )
}

/// How long the payload is that the ceiling is measured with: long enough
/// that every length around it is in the form it has near the ceiling.
pub const PROBE: usize = 300;

/// The most one SET carries: the datagram less what the envelope, the PDU
/// and the binding take around the OCTET STRING.
pub open spec fn ceiling_measured() -> int {
    MAX_DATAGRAM - (wire(
        about(PduType::SetRequest, 1, Seq::new(PROBE as nat, |i: int| 0u8)),
    ).len() - PROBE)
}

/// The most one SET carries: the datagram less what the v2c envelope, the
/// PDU and the binding take around the OCTET STRING, measured through the
/// transport's own codec at a size where every length is already in its long
/// form, as it is near the ceiling; the request id is the 1 a fresh
/// transport starts at.
pub fn ceiling() -> (most: usize)
    ensures
        most == ceiling_measured(),
        most == 65_456,
{
    let mut payload: Vec<u8> = Vec::new();
    for i in 0..PROBE
        invariant
            payload@ =~= Seq::new(i as nat, |j: int| 0u8),
    {
        payload.push(0);
    }
    let ghost zeros = payload@;
    let binding = Binding::new(&OID, Value::OctetString(payload));
    let bindings: Vec<Binding> = vec![binding];
    assert(binding_models(bindings@) =~= seq![bound_to(zeros)]);
    let set = Pdu::new(PduType::SetRequest, 1, bindings);
    proof {
        lemma_bound_encodable(zeros);
        lemma_about_len(PduType::SetRequest, 1, zeros);
    }
    let bytes = Envelope::V2c(Message::v2c(COMMUNITY, set)).encode();
    MAX_DATAGRAM - (bytes.len() - PROBE)
}

/// How the manager of a loopback is set up.
pub open spec fn loopback_set_up(timeout: Duration) -> TransportModel {
    TransportModel { timeout: Some(timeout), ..fresh("127.0.0.1:0"@, COMMUNITY@) }
}

/// The target of a SET of the object at `address`.
pub open spec fn set_target(address: Seq<char>) -> Seq<char> {
    "snmp+set://"@ + address + seq!['/'] + dotted(OID@)
}

impl SnmpTransport {
    /// Both ends on this machine: an agent at an ephemeral local port, a
    /// manager speaking v2c under [`COMMUNITY`], the timeout on both.
    pub fn loopback(timeout: Duration) -> (transport: Self)
        ensures
            transport@ == loopback_set_up(timeout),
            call_ensures(Instant::now, (), transport.started()),
            call_ensures(AtomicI32::new, (1,), transport.ids()),
    {
        SnmpTransport::new("127.0.0.1:0", COMMUNITY).timing_out_after(timeout)
    }

    /// The SET of [`OID`] at the agent to the payload, by a fresh manager,
    /// so under the request id 1 that the ceiling was measured with; refused
    /// is a payload over the ceiling. At an address that opens neither a path
    /// nor a query nothing else is refused, and the SET goes in one datagram.
    pub fn loopback_request(timeout: Duration, address: &str, payload: &[u8]) -> (request: Result<
        Request,
    >)
        ensures
            match request {
                Ok(r) => {
                    &&& payload@.len() <= ceiling_measured()
                    &&& forall|uptime: u64| #[trigger]
                        requested(
                            loopback_set_up(timeout),
                            set_target(address@),
                            1,
                            uptime,
                            payload@,
                        ) == Ok::<(Seq<char>, EnvelopeModel), Refusal>((r.address@, r.message@))
                },
                Err(e) => if payload@.len() > ceiling_measured() {
                    e@ == Refusal::OverCeiling(payload.len(), ceiling_measured() as usize)
                } else {
                    forall|uptime: u64| #[trigger]
                        requested(
                            loopback_set_up(timeout),
                            set_target(address@),
                            1,
                            uptime,
                            payload@,
                        ) == Err::<(Seq<char>, EnvelopeModel), Refusal>(e@)
                },
            },
            is_address(address@) && payload@.len() <= ceiling_measured() ==> {
                &&& request matches Ok(r)
                &&& r.address@ == address@
                &&& r.message@ == about(PduType::SetRequest, 1, payload@)
                &&& wire(r.message@).len() <= MAX_DATAGRAM
            },
    {
        let most: usize = ceiling();
        if payload.len() > most {
            return Err(Fault::OverCeiling(payload.len(), most));
        }
        let mut target = String::new();
        target.append("snmp+set://");
        target.append(address);
        target.push('/');
        push_oid(&mut target, &OID);
        assert(target@ =~= set_target(address@));
        let ghost to = target@;
        proof {
            if is_address(address@) {
                law_loopback_sends_a_set(timeout, address@, 1, 0, payload@);
                law_ceiling(1, payload@);
            }
            law_set_scheme_sets(address@ + seq!['/'] + dotted(OID@));
            assert(to =~= "snmp+set://"@ + (address@ + seq!['/'] + dotted(OID@)));
        }
        let parsed = match SnmpTarget::parse(target.as_str()) {
            Ok(parsed) => parsed,
            Err(e) => {
                return Err(e);
            },
        };
        // A SET tells no uptime.
        match SnmpTransport::loopback(timeout).compose(&parsed, 1, 0, payload) {
            Ok(message) => Ok(Request { address: parsed.address, message }),
            Err(e) => Err(e),
        }
    }
}

/// What the agent answers a SET with, and what of it is handed up.
#[derive(Debug, PartialEq, Eq)]
pub struct Taken {
    pub answer: Vec<u8>,
    pub arrived: Arrived,
}

/// What the agent makes of the datagram `bytes` from `peer`: the answer, and
/// the octets its first binding has.
pub open spec fn taken(peer: Seq<char>, bytes: Seq<u8>) -> core::result::Result<
    (Seq<u8>, ArrivedModel),
    Refusal,
> {
    match envelope_in(bytes) {
        Err(e) => Err(e),
        Ok(request) => {
            let pdu = pdu_of(request);
            if pdu.kind != PduType::SetRequest {
                Err(Fault::NotASet(pdu.kind))
            } else if pdu.bindings.len() == 0 {
                Err(Fault::SetBindsNothing)
            } else {
                match as_octets(pdu.bindings[0].value) {
                    Err(e) => Err(e),
                    Ok(octets) => Ok(
                        (
                            wire(answer_to(request, response_to(pdu, 0))),
                            ArrivedModel {
                                origin_uri: "snmp://"@ + peer + "?"@ + credential_of(request)
                                    + "&oid="@ + dotted(pdu.bindings[0].oid) + "&pdu="@
                                    + name_of(pdu.kind),
                                bytes: octets,
                            },
                        ),
                    ),
                }
            }
        },
    }
}

/// What the agent makes of the datagram `bytes` from `peer`; refused are
/// what is not SNMP, what is not a SET, a SET that binds nothing, and one
/// that does not bind an OCTET STRING.
pub fn take(peer: &str, bytes: &[u8]) -> (take: Result<Taken>)
    ensures
        match take {
            Ok(t) => taken(peer@, bytes@) == Ok::<(Seq<u8>, ArrivedModel), Refusal>(
                (t.answer@, t.arrived@),
            ),
            Err(e) => taken(peer@, bytes@) == Err::<(Seq<u8>, ArrivedModel), Refusal>(e@),
        },
{
    let request = match Envelope::decode(bytes) {
        Ok(request) => request,
        Err(e) => {
            return Err(e);
        },
    };
    proof {
        law_read_message_is_spoken(bytes@);
    }
    let pdu = request.pdu();
    if pdu.kind != PduType::SetRequest {
        return Err(Fault::NotASet(pdu.kind));
    }
    if pdu.bindings.len() == 0 {
        return Err(Fault::SetBindsNothing);
    }
    let binding = &pdu.bindings[0];
    assert(pdu@.bindings[0] == binding@);
    let octets = match binding.value.octets() {
        Ok(octets) => slice_to_vec(octets),
        Err(e) => {
            return Err(e);
        },
    };
    let answer = request.answering(pdu.response(0)).encode();
    let credential = request.credential();
    let mut origin_uri = String::new();
    origin_uri.append("snmp://");
    origin_uri.append(peer);
    origin_uri.append("?");
    origin_uri.append(credential.as_str());
    origin_uri.append("&oid=");
    push_oid(&mut origin_uri, binding.oid.as_slice());
    origin_uri.append("&pdu=");
    origin_uri.append(pdu.kind.name());
    assert(origin_uri@ =~= "snmp://"@ + peer@ + "?"@ + credential_of(request@) + "&oid="@ + dotted(
        binding@.oid,
    ) + "&pdu="@ + name_of(pdu@.kind));
    Ok(Taken { answer, arrived: Arrived { origin_uri, bytes: octets } })
}

// --------------------------------------------------------------------- laws

proof fn lemma_bound_encodable(payload: Seq<u8>)
    ensures
        forall|kind: PduType, id: i32|
            {
                let pdu = #[trigger] plain_pdu(kind, id, seq![bound_to(payload)]);
                pdu_well_formed(pdu) && pdu_encodable(pdu)
            },
{
    assert(binding_well_formed(bound_to(payload)));
}

proof fn lemma_oid_len()
    ensures
        encoding(ValueModel::Oid(OID@)).len() == 10,
{
    let arcs = OID@;
    let rest = arcs.skip(2);
    assert forall|arc: nat| arc < 128 implies #[trigger] arc_octets(arc).len() == 1 by {
        assert(more_octets(arc / 128) =~= seq![]);
    }
    assert(arc_octets(43).len() == 1);
    lemma_small_arcs(rest);
    assert(oid_octets(arcs).len() == 8);
    lemma_tlv_len(0x06, oid_octets(arcs));
}

proof fn lemma_small_arcs(arcs: Seq<u32>)
    requires
        forall|i: int| 0 <= i < arcs.len() ==> #[trigger] arcs[i] < 128,
    ensures
        arcs_octets(arcs).len() == arcs.len(),
    decreases arcs.len(),
{
    if arcs.len() > 0 {
        assert(arcs[0] < 128);
        assert(more_octets(arcs[0] as nat / 128) =~= seq![]);
        assert forall|i: int| 0 <= i < arcs.skip(1).len() implies #[trigger] arcs.skip(1)[i]
            < 128 by {
            assert(arcs[i + 1] < 128);
        }
        lemma_small_arcs(arcs.skip(1));
    }
}

/// How long a message of the loopback is on the wire.
proof fn lemma_about_len(kind: PduType, id: i32, payload: Seq<u8>)
    requires
        -128 <= id < 128,
    ensures
        ({
            let len = wire(about(kind, id, payload)).len();
            &&& payload.len() <= len
            &&& 0x100 <= payload.len() <= 0xffd0 ==> len == payload.len() + 51
            &&& payload.len() < 0x100 ==> len <= payload.len() + 51
            &&& payload.len() > 0xffd0 ==> len >= payload.len() + 51
        }),
{
    let value = ValueModel::OctetString(payload);
    let oid = ValueModel::Oid(OID@);
    let pair = seq![oid, value];
    let bindings = seq![bound_to(payload)];
    let values = binding_values(bindings);
    let pdu = plain_pdu(kind, id, bindings);
    let fields = pdu_value(pdu)->Context_1;
    let community = encode_utf8(COMMUNITY@);
    let items = seq![
        ValueModel::Integer(VERSION_2C),
        ValueModel::OctetString(community),
        pdu_value(pdu),
    ];
    lemma_oid_len();
    lemma_tlv_len(OCTET_STRING, payload);
    lemma_encodings_len(pair);
    lemma_tlv_len(SEQUENCE, encodings(pair));
    assert(values =~= seq![binding_value(bound_to(payload))]);
    lemma_encodings_len(values);
    lemma_tlv_len(SEQUENCE, encodings(values));
    lemma_small_integer(id as i64);
    lemma_small_integer(0);
    lemma_small_integer(VERSION_2C);
    lemma_encodings_len(fields);
    lemma_tlv_len(tag_of(kind), encodings(fields));
    lemma_community_len();
    lemma_tlv_len(OCTET_STRING, community);
    lemma_encodings_len(items);
    lemma_tlv_len(SEQUENCE, encodings(items));
}

/// How long few values are one after the other.
proof fn lemma_encodings_len(items: Seq<ValueModel>)
    ensures
        items.len() == 1 ==> encodings(items).len() == encoding(items[0]).len(),
        items.len() == 2 ==> encodings(items).len() == encoding(items[0]).len() + encoding(
            items[1],
        ).len(),
        items.len() == 3 ==> encodings(items).len() == encoding(items[0]).len() + encoding(
            items[1],
        ).len() + encoding(items[2]).len(),
        items.len() == 4 ==> encodings(items).len() == encoding(items[0]).len() + encoding(
            items[1],
        ).len() + encoding(items[2]).len() + encoding(items[3]).len(),
{
    let n = items.len() as int;
    reveal_with_fuel(encodings, 5);
    if n >= 1 {
        let one = items.subrange(1, n);
        if n >= 2 {
            let two = one.subrange(1, n - 1);
            assert(one[0] == items[1]);
            if n >= 3 {
                let three = two.subrange(1, n - 2);
                assert(two[0] == items[2]);
                if n >= 4 {
                    assert(three[0] == items[3]);
                    assert(three.subrange(1, n - 3).len() == n - 4);
                }
            }
        }
    }
}

proof fn lemma_small_integer(n: i64)
    requires
        -128 <= n < 128,
    ensures
        encoding(ValueModel::Integer(n)).len() == 3,
{
    lemma_tlv_len(INTEGER, int_octets(n as int));
}

proof fn lemma_community_len()
    ensures
        encode_utf8(COMMUNITY@).len() == 7,
{
    reveal_strlit("private");
    is_ascii_chars_encode_utf8(COMMUNITY@);
}

/// A payload up to the ceiling goes in one datagram, and one over it does
/// not.
pub proof fn law_ceiling(id: i32, payload: Seq<u8>)
    requires
        -128 <= id < 128,
    ensures
        payload.len() <= ceiling_measured() <==> wire(
            about(PduType::SetRequest, id, payload),
        ).len() <= MAX_DATAGRAM,
{
    lemma_about_len(PduType::SetRequest, 1, Seq::new(PROBE as nat, |i: int| 0u8));
    lemma_about_len(PduType::SetRequest, id, payload);
}

/// What a manager of the loopback sends to an address there is the SET of
/// the object to the payload.
pub proof fn law_loopback_sends_a_set(
    timeout: Duration,
    address: Seq<char>,
    id: i32,
    uptime: u64,
    payload: Seq<u8>,
)
    requires
        is_address(address),
    ensures
        requested(loopback_set_up(timeout), set_target(address), id, uptime, payload) == Ok::<
            (Seq<char>, EnvelopeModel),
            Refusal,
        >((address, about(PduType::SetRequest, id, payload))),
{
    law_set_target(address, OID@);
}

/// A payload that fits one datagram arrives at the agent whole, and what
/// the agent answers is the answer the manager waited for, in one datagram
/// too.
#[verifier::spinoff_prover]
pub proof fn law_payload_rounds(peer: Seq<char>, id: i32, payload: Seq<u8>)
    requires
        -128 <= id < 128,
        payload.len() <= ceiling_measured(),
    ensures
        ({
            let request = about(PduType::SetRequest, id, payload);
            let response = about(PduType::GetResponse, id, payload);
            &&& taken(peer, wire(request)) == Ok::<(Seq<u8>, ArrivedModel), Refusal>(
                (
                    wire(response),
                    ArrivedModel {
                        origin_uri: "snmp://"@ + peer + "?"@ + ("community="@ + COMMUNITY@
                            + "&version=2c"@) + "&oid="@ + dotted(OID@) + "&pdu="@ + "set"@,
                        bytes: payload,
                    },
                ),
            )
            &&& answered(request, wire(response)) == Ok::<EnvelopeModel, Refusal>(response)
            &&& wire(request).len() <= MAX_DATAGRAM
            &&& wire(response).len() <= MAX_DATAGRAM
        }),
{
    let request = about(PduType::SetRequest, id, payload);
    let response = about(PduType::GetResponse, id, payload);
    law_ceiling(id, payload);
    lemma_about_len(PduType::SetRequest, 1, Seq::new(PROBE as nat, |i: int| 0u8));
    lemma_about_len(PduType::GetResponse, id, payload);
    lemma_bound_encodable(payload);
    assert(pdu_well_formed(pdu_of(request)) && pdu_well_formed(pdu_of(response)));
    law_envelope_round_trips(request);
    law_envelope_round_trips(response);
    encode_utf8_valid_utf8(COMMUNITY@);
    encode_utf8_decode_utf8(COMMUNITY@);
    assert(lossy_text(encode_utf8(COMMUNITY@)) == COMMUNITY@);
}

} // verus!
