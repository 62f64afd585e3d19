//! What is sent for a target, which answers count, and what is done about
//! what arrives.
use std::time::Duration;

use vstd::prelude::*;
use vstd::utf8::encode_utf8;

use crate::ber::{dotted, ValueModel};
use crate::envelope::{answer_to, credential_of, envelope_in, pdu_of, wire, EnvelopeModel};
use crate::error::{Fault, Refusal, Shape};
use crate::lines::{stream_bindings, stream_text};
use crate::loopback::{about, loopback_set_up, set_target, taken};
use crate::pdu::{opened, trap_oid_in, BindingModel, MessageModel, PduModel, PduType};
use crate::target::{target_of, ActionModel, TargetModel};
use crate::transport::{answered, arrival, asking, awaits_answer, composed, default_engine, fresh};
use crate::transport::{hundredths_of, reaction, requested, wrapped, ArrivedModel};
use crate::transport::{ReactionModel, TransportModel};
use crate::v3::v3_from;

verus! {

/// Hundredths of a second are whole and lose less than one, as far as `u64`
/// holds them.
pub proof fn law_hundredths(millis: u128)
    ensures
        ({
            let ticks = hundredths_of(millis);
            &&& ticks < u64::MAX ==> ticks * 10 <= millis < ticks * 10 + 10
            &&& ticks == u64::MAX ==> millis >= u64::MAX * 10
        }),
{
}

/// How a transport starts.
pub proof fn law_fresh_transport(bind: Seq<char>, community: Seq<char>, timeout: Duration)
    ensures
        ({
            let t = fresh(bind, community);
            &&& t.bind == bind
            &&& t.community == community
            &&& t.user == "xmip"@
            &&& t.version == 1
            &&& t.engine_id == seq![0x80u8, 0, 0, 0, 4, 0x78, 0x6d, 0x69, 0x70]
            &&& t.timeout is None
        }),
        ({
            let t = loopback_set_up(timeout);
            &&& t.bind == "127.0.0.1:0"@
            &&& t.community == "private"@
            &&& t.user == "xmip"@
            &&& t.version == 1
            &&& t.engine_id == seq![0x80u8, 0, 0, 0, 4, 0x78, 0x6d, 0x69, 0x70]
            &&& t.timeout == Some(timeout)
        }),
{
    assert(default_engine() =~= seq![0x80u8, 0, 0, 0, 4, 0x78, 0x6d, 0x69, 0x70]);
}

/// A set is the one binding of its object to the bytes as they are; a trap
/// and an inform tell the lines of the bytes under the trap that is named,
/// or under `0.0`, and are refused where the lines are. Each goes under the
/// id it is given.
pub proof fn law_what_is_asked(
    oid: Seq<u32>,
    named: Option<Seq<u32>>,
    id: i32,
    uptime: u64,
    bytes: Seq<u8>,
)
    ensures
        asking(ActionModel::SetObject(oid), named, id, uptime, bytes) == Ok::<PduModel, Refusal>(
            PduModel {
                kind: PduType::SetRequest,
                request_id: id,
                error_status: 0,
                error_index: 0,
                bindings: seq![BindingModel { oid, value: ValueModel::OctetString(bytes) }],
            },
        ),
        ({
            let trap = match named {
                Some(arcs) => arcs,
                None => seq![0u32, 0u32],
            };
            match stream_bindings(bytes) {
                Ok(bindings) => {
                    let pdu = PduModel {
                        kind: PduType::Trap,
                        request_id: id,
                        error_status: 0,
                        error_index: 0,
                        bindings: opened(bindings, trap, uptime),
                    };
                    &&& asking(ActionModel::Trap, named, id, uptime, bytes) == Ok::<
                        PduModel,
                        Refusal,
                    >(pdu)
                    &&& asking(ActionModel::Inform, named, id, uptime, bytes) == Ok::<
                        PduModel,
                        Refusal,
                    >(PduModel { kind: PduType::InformRequest, ..pdu })
                },
                Err(e) => {
                    &&& asking(ActionModel::Trap, named, id, uptime, bytes) == Err::<
                        PduModel,
                        Refusal,
                    >(e)
                    &&& asking(ActionModel::Inform, named, id, uptime, bytes) == Err::<
                        PduModel,
                        Refusal,
                    >(e)
                },
            }
        }),
{
    assert(crate::pdu::ZERO_DOT_ZERO@ =~= seq![0u32, 0u32]);
}

/// A message goes out as v3 where the target says 3, or says nothing and the
/// transport speaks 3, and else as v2c; under the user or the community of
/// the target, or the transport's where the target names none.
pub proof fn law_what_a_message_is_wrapped_in(t: TransportModel, target: TargetModel, pdu: PduModel)
    ensures
        ({
            let third = target.version == Some(3i64) || target.version is None && t.version == 3;
            let message = wrapped(t, target, pdu);
            &&& pdu_of(message) == pdu
            &&& third ==> {
                &&& message matches EnvelopeModel::V3(m)
                &&& m == v3_from(
                    pdu.request_id,
                    t.engine_id,
                    match target.user {
                        Some(user) => user,
                        None => t.user,
                    },
                    pdu,
                )
            }
            &&& !third ==> {
                &&& message matches EnvelopeModel::V2c(m)
                &&& m.version == 1
                &&& m.community == encode_utf8(
                    match target.community {
                        Some(community) => community,
                        None => t.community,
                    },
                )
            }
        }),
{
}

/// A send goes to the address of its target, wrapped as the target asks; it
/// is refused where the target is, and then where what is asked is.
pub proof fn law_what_is_sent(
    t: TransportModel,
    text: Seq<char>,
    id: i32,
    uptime: u64,
    bytes: Seq<u8>,
)
    ensures
        match target_of(text) {
            Err(e) => requested(t, text, id, uptime, bytes) == Err::<
                (Seq<char>, EnvelopeModel),
                Refusal,
            >(e),
            Ok(target) => {
                &&& composed(t, target, id, uptime, bytes) == match asking(
                    target.action,
                    target.trap_oid,
                    id,
                    uptime,
                    bytes,
                ) {
                    Ok(pdu) => Ok::<EnvelopeModel, Refusal>(wrapped(t, target, pdu)),
                    Err(e) => Err(e),
                }
                &&& requested(t, text, id, uptime, bytes) == match composed(
                    t,
                    target,
                    id,
                    uptime,
                    bytes,
                ) {
                    Ok(message) => Ok::<(Seq<char>, EnvelopeModel), Refusal>(
                        (target.address, message),
                    ),
                    Err(e) => Err(e),
                }
            },
        },
{
}

/// Every request but a trap waits for an answer. Of what reads as a response
/// under the request's id, one of no error is taken, and one of any error
/// status is refused with that status and its index, whatever the index;
/// what is no response, or under another id, is refused as another's.
pub proof fn law_which_answers_count(
    request: EnvelopeModel,
    bytes: Seq<u8>,
    response: EnvelopeModel,
)
    ensures
        awaits_answer(request) == (pdu_of(request).kind != PduType::Trap),
        envelope_in(bytes) == Ok::<EnvelopeModel, Refusal>(response) ==> {
            let answer = pdu_of(response);
            let own = answer.kind == PduType::GetResponse && answer.request_id == pdu_of(
                request,
            ).request_id;
            &&& own && answer.error_status == 0 ==> answered(request, bytes) == Ok::<
                EnvelopeModel,
                Refusal,
            >(response)
            &&& own && answer.error_status != 0 ==> answered(request, bytes) == Err::<
                EnvelopeModel,
                Refusal,
            >(Fault::AgentError(answer.error_status, answer.error_index))
            &&& !own ==> answered(request, bytes) == Err::<EnvelopeModel, Refusal>(
                Fault::AnswerToAnother,
            )
        },
        envelope_in(bytes) matches Err(e) ==> answered(request, bytes) == Err::<
            EnvelopeModel,
            Refusal,
        >(e),
{
}

/// An origin names the peer, the credential, the trap and the type, and what
/// arrived is the Stream of the bindings.
pub proof fn law_what_arrives(peer: Seq<char>, e: EnvelopeModel)
    ensures
        ({
            let trap = match trap_oid_in(pdu_of(e).bindings) {
                Some(arcs) => dotted(arcs),
                None => Seq::empty(),
            };
            let kind = pdu_of(e).kind;
            let opening = "snmp://"@ + peer + "?"@ + credential_of(e) + "&trap-oid="@ + trap
                + "&pdu="@;
            let up = arrival(peer, e);
            &&& kind == PduType::Trap ==> up.origin_uri == opening + "trap"@
            &&& kind == PduType::InformRequest ==> up.origin_uri == opening + "inform"@
            &&& up.bytes == encode_utf8(stream_text(pdu_of(e).bindings))
        }),
{
}

/// A trap is handed up and not answered; an inform is handed up and answered
/// with a response of no error; a response is left; and every other request
/// is answered with a response of error status 5. A response is under the
/// request's id, of its bindings, at index 0, in the request's wrapping.
pub proof fn law_what_is_done_about_a_datagram(
    peer: Seq<char>,
    bytes: Seq<u8>,
    e: EnvelopeModel,
)
    ensures
        envelope_in(bytes) == Ok::<EnvelopeModel, Refusal>(e) ==> {
            let kind = pdu_of(e).kind;
            let accepted = PduModel {
                kind: PduType::GetResponse,
                request_id: pdu_of(e).request_id,
                error_status: 0,
                error_index: 0,
                bindings: pdu_of(e).bindings,
            };
            let refused = PduModel { error_status: 5, ..accepted };
            reaction(peer, bytes) == Ok::<ReactionModel, Refusal>(
                if kind == PduType::Trap {
                    ReactionModel::Deliver(arrival(peer, e))
                } else if kind == PduType::InformRequest {
                    ReactionModel::Acknowledge(wire(answer_to(e, accepted)), arrival(peer, e))
                } else if kind == PduType::GetResponse {
                    ReactionModel::Skip
                } else {
                    ReactionModel::Refuse(wire(answer_to(e, refused)))
                },
            )
        },
        envelope_in(bytes) matches Err(refusal) ==> reaction(peer, bytes) == Err::<
            ReactionModel,
            Refusal,
        >(refusal),
{
}

/// The agent of a loopback takes the octets of the first binding of a SET,
/// names in the origin the object it binds, and answers with a response of
/// no error; it refuses what is no SET, what binds nothing and what binds no
/// octets.
pub proof fn law_what_the_agent_takes(
    peer: Seq<char>,
    bytes: Seq<u8>,
    e: EnvelopeModel,
    octets: Seq<u8>,
)
    ensures
        envelope_in(bytes) == Ok::<EnvelopeModel, Refusal>(e) ==> {
            let pdu = pdu_of(e);
            let set = pdu.kind == PduType::SetRequest;
            let accepted = PduModel {
                kind: PduType::GetResponse,
                request_id: pdu.request_id,
                error_status: 0,
                error_index: 0,
                bindings: pdu.bindings,
            };
            &&& !set ==> taken(peer, bytes) == Err::<(Seq<u8>, ArrivedModel), Refusal>(
                Fault::NotASet(pdu.kind),
            )
            &&& set && pdu.bindings.len() == 0 ==> taken(peer, bytes) == Err::<
                (Seq<u8>, ArrivedModel),
                Refusal,
            >(Fault::SetBindsNothing)
            &&& set && pdu.bindings.len() > 0 && pdu.bindings[0].value == ValueModel::OctetString(
                octets,
            ) ==> taken(peer, bytes) == Ok::<(Seq<u8>, ArrivedModel), Refusal>(
                (
                    wire(answer_to(e, accepted)),
                    ArrivedModel {
                        origin_uri: "snmp://"@ + peer + "?"@ + credential_of(e) + "&oid="@ + dotted(
                            pdu.bindings[0].oid,
                        ) + "&pdu="@ + "set"@,
                        bytes: octets,
                    },
                ),
            )
            &&& set && pdu.bindings.len() > 0 && !(pdu.bindings[0].value is OctetString) ==> taken(
                peer,
                bytes,
            ) == Err::<(Seq<u8>, ArrivedModel), Refusal>(
                Fault::Expected(Shape::OctetString, pdu.bindings[0].value),
            )
        },
        envelope_in(bytes) matches Err(refusal) ==> taken(peer, bytes) == Err::<
            (Seq<u8>, ArrivedModel),
            Refusal,
        >(refusal),
{
}

/// What the loopback sends, and where it says it goes.
pub proof fn law_what_the_loopback_sends(
    kind: PduType,
    id: i32,
    payload: Seq<u8>,
    address: Seq<char>,
)
    ensures
        ({
            let oid = seq![1u32, 3, 6, 1, 4, 1, 0, 1, 0];
            &&& about(kind, id, payload) == EnvelopeModel::V2c(
                MessageModel {
                    version: 1,
                    community: encode_utf8("private"@),
                    pdu: PduModel {
                        kind,
                        request_id: id,
                        error_status: 0,
                        error_index: 0,
                        bindings: seq![
                            BindingModel { oid, value: ValueModel::OctetString(payload) },
                        ],
                    },
                },
            )
            &&& set_target(address) == "snmp+set://"@ + address + seq!['/'] + dotted(oid)
        }),
{
    assert(crate::loopback::OID@ =~= seq![1u32, 3, 6, 1, 4, 1, 0, 1, 0]);
}

} // verus!
