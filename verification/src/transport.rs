//! The transport: how it is set up, what it sends, and what it makes of what
//! arrives. The sockets are the caller's: a request is composed here and
//! its answer judged here, a datagram that arrived is handed in and what to
//! do about it is handed out.
use std::sync::atomic::{AtomicI32, Ordering};
use std::time::{Duration, Instant};

use vstd::prelude::*;
use vstd::slice::slice_to_vec;
use vstd::utf8::{encode_utf8, encode_utf8_decode_utf8, encode_utf8_valid_utf8};

use crate::ber::{dotted, law_well_formed_is_encodable, push_oid, Value, ValueModel};
use crate::envelope::{answer_to, credential_of, envelope_in, law_answer_keeps_the_wrapping};
use crate::envelope::{law_envelope_round_trips, law_read_message_is_spoken, pdu_of, spoken, wire};
use crate::envelope::{Envelope, EnvelopeModel, GEN_ERR};
use crate::error::{Fault, Refusal, Result};
use crate::lines;
use crate::lines::{all_renderable, renderable, stream_bindings, stream_text};
use crate::pdu::{binding_models, name_of, opened, plain_pdu, response_to, trap_oid_in};
use crate::pdu::{binding_well_formed, pdu_well_formed, Binding, BindingModel};
use crate::pdu::{line_of, timed, trap_oid_binding, uptime_binding};
use crate::pdu::{Message, MessageModel, Pdu, PduModel, PduType, SNMP_TRAP_OID, SYS_UPTIME};
use crate::pdu::{VERSION_2C, VERSION_3, ZERO_DOT_ZERO};
use crate::target::{target_of, Action, ActionModel, SnmpTarget, TargetModel};
use crate::v3::{law_flags, v3_from, V3Message};

verus! {

/// `std::time::Instant`, a point in time that is only carried.
#[verifier::external_type_specification]
#[verifier::external_body]
pub struct ExInstant(Instant);

/// `Instant::now`: the time it is, of which nothing is claimed.
pub assume_specification[ Instant::now ]() -> Instant;

/// `Instant::elapsed`: the time since then, of which nothing is claimed.
pub assume_specification[ Instant::elapsed ](started: &Instant) -> Duration;

/// `Duration::as_millis`: the whole milliseconds of a duration. What a
/// duration holds is not modelled, so how many they are is left unsaid.
pub assume_specification[ Duration::as_millis ](duration: &Duration) -> u128;

/// `String::from` of a text: the same text, owned.
pub assume_specification<'a>[ <String as From<&'a str>>::from ](text: &str) -> (owned: String)
    ensures
        owned@ == text@,
;

/// The transport: where it listens, and what it sends as.
pub struct SnmpTransport {
    bind: String,
    community: String,
    user: String,
    version: i64,
    engine_id: Vec<u8>,
    timeout: Option<Duration>,
    started: Instant,
    next_id: AtomicI32,
}

/// How a transport is set up, as the contracts speak of it.
pub struct TransportModel {
    pub bind: Seq<char>,
    pub community: Seq<char>,
    pub user: Seq<char>,
    pub version: i64,
    pub engine_id: Seq<u8>,
    pub timeout: Option<Duration>,
}

impl View for SnmpTransport {
    type V = TransportModel;

    closed spec fn view(&self) -> TransportModel {
        TransportModel {
            bind: self.bind@,
            community: self.community@,
            user: self.user@,
            version: self.version,
            engine_id: self.engine_id@,
            timeout: self.timeout,
        }
    }
}

/// The engine id a transport names unless told another: the text form of
/// `xmip` under enterprise 0.
pub open spec fn default_engine() -> Seq<u8> {
    seq![0x80, 0, 0, 0, 4, 0x78, 0x6d, 0x69, 0x70]
}

/// A v2c transport that listens at `bind` and sends under `community`.
pub open spec fn fresh(bind: Seq<char>, community: Seq<char>) -> TransportModel {
    TransportModel {
        bind,
        community,
        user: "xmip"@,
        version: VERSION_2C,
        engine_id: default_engine(),
        timeout: None,
    }
}

/// The hundredths of a second that so many milliseconds make, as far as
/// `u64` holds them.
pub open spec fn hundredths_of(millis: u128) -> u64 {
    if millis / 10 <= u64::MAX {
        (millis / 10) as u64
    } else {
        u64::MAX
    }
}

/// `ticks` are counted from `millis`, which are those of `since`, the time
/// since `started`.
pub open spec fn counted(started: Instant, since: Duration, millis: u128, ticks: u64) -> bool {
    &&& call_ensures(Instant::elapsed, (&started,), since)
    &&& call_ensures(Duration::as_millis, (&since,), millis)
    &&& ticks == hundredths_of(millis)
}

/// `ticks` is an uptime of a transport built at `started`.
pub open spec fn is_uptime(started: Instant, ticks: u64) -> bool {
    exists|since: Duration, millis: u128| #[trigger] counted(started, since, millis, ticks)
}

/// `id` is drawn from `ids`, which goes on by one. What a counter that is
/// shared holds has no model, so which id it is is left unsaid.
pub open spec fn drawn(ids: AtomicI32, id: i32) -> bool {
    call_ensures(AtomicI32::fetch_add, (&ids, 1, Ordering::Relaxed), id)
}

/// The hundredths of a second that so many milliseconds make.
pub fn hundredths(millis: u128) -> (ticks: u64)
    ensures
        ticks == hundredths_of(millis),
{
    let ticks: u128 = millis / 10;
    if ticks <= u64::MAX as u128 {
        ticks as u64
    } else {
        u64::MAX
    }
}

impl SnmpTransport {
    /// When this transport was built.
    pub closed spec fn started(self) -> Instant {
        self.started
    }

    /// Where this transport draws its request ids.
    pub closed spec fn ids(self) -> AtomicI32 {
        self.next_id
    }

    /// Listen at `bind`, `0.0.0.0:162` being the standard port; send v2c
    /// under `community`.
    pub fn new<B: Into<String>>(bind: B, community: &str) -> (transport: Self)
        ensures
            exists|at: String|
                #![trigger at@]
                call_ensures(<B as Into<String>>::into, (bind,), at) && transport@ == fresh(
                    at@,
                    community@,
                ),
            call_ensures(Instant::now, (), transport.started()),
            call_ensures(AtomicI32::new, (1,), transport.ids()),
    {
        let at: String = bind.into();
        assert(call_ensures(<B as Into<String>>::into, (bind,), at));
        let engine_id: Vec<u8> = vec![0x80, 0, 0, 0, 4, 0x78, 0x6d, 0x69, 0x70];
        assert(engine_id@ =~= default_engine());
        SnmpTransport {
            bind: at,
            community: community.to_owned(),
            user: "xmip".to_owned(),
            version: VERSION_2C,
            engine_id,
            timeout: None,
            started: Instant::now(),
            next_id: AtomicI32::new(1),
        }
    }

    /// Send v3 as `user` at noAuthNoPriv unless a target says otherwise.
    pub fn speaking_v3(self, user: &str) -> (transport: Self)
        ensures
            transport@ == (TransportModel { user: user@, version: VERSION_3, ..self@ }),
            transport.started() == self.started(),
            transport.ids() == self.ids(),
    {
        SnmpTransport { user: user.to_owned(), version: VERSION_3, ..self }
    }

    /// The engine id v3 messages name; the default is the text form of
    /// `xmip` under enterprise 0.
    pub fn as_engine(self, engine_id: &[u8]) -> (transport: Self)
        ensures
            transport@ == (TransportModel { engine_id: engine_id@, ..self@ }),
            transport.started() == self.started(),
            transport.ids() == self.ids(),
    {
        SnmpTransport { engine_id: slice_to_vec(engine_id), ..self }
    }

    /// Give up waiting for a message or an answer after `timeout`.
    pub fn timing_out_after(self, timeout: Duration) -> (transport: Self)
        ensures
            transport@ == (TransportModel { timeout: Some(timeout), ..self@ }),
            transport.started() == self.started(),
            transport.ids() == self.ids(),
    {
        SnmpTransport { timeout: Some(timeout), ..self }
    }

    /// What this transport is called.
    pub fn name(&self) -> (name: &'static str)
        ensures
            name@ == "snmp"@,
    {
        "snmp"
    }

    /// Where this transport listens.
    pub fn bind(&self) -> (bind: &str)
        ensures
            bind@ == self@.bind,
    {
        self.bind.as_str()
    }

    /// How long this transport waits for a message or an answer.
    pub fn timeout(&self) -> (timeout: Option<Duration>)
        ensures
            timeout == self@.timeout,
    {
        self.timeout
    }

    /// Hundredths of a second since this transport was built: `sysUpTime`.
    pub fn uptime(&self) -> (ticks: u64)
        ensures
            is_uptime(self.started(), ticks),
    {
        let since = self.started.elapsed();
        let millis: u128 = since.as_millis();
        let ticks: u64 = hundredths(millis);
        assert(counted(self.started(), since, millis, ticks));
        ticks
    }

    fn draw_id(&self) -> (id: i32)
        ensures
            drawn(self.ids(), id),
    {
        self.next_id.fetch_add(1, Ordering::Relaxed)
    }
}

// ------------------------------------------------------------------ sending

/// The PDU that asks for `action`: the bytes set the named object, or their
/// lines are what a notification tells of `trap_oid`.
pub open spec fn asking(
    action: ActionModel,
    trap_oid: Option<Seq<u32>>,
    id: i32,
    uptime: u64,
    bytes: Seq<u8>,
) -> core::result::Result<PduModel, Refusal> {
    let named = match trap_oid {
        Some(arcs) => arcs,
        None => ZERO_DOT_ZERO@,
    };
    match action {
        ActionModel::SetObject(oid) => Ok(
            plain_pdu(
                PduType::SetRequest,
                id,
                seq![BindingModel { oid, value: ValueModel::OctetString(bytes) }],
            ),
        ),
        ActionModel::Trap => match stream_bindings(bytes) {
            Err(e) => Err(e),
            Ok(bindings) => Ok(plain_pdu(PduType::Trap, id, opened(bindings, named, uptime))),
        },
        ActionModel::Inform => match stream_bindings(bytes) {
            Err(e) => Err(e),
            Ok(bindings) => Ok(
                plain_pdu(PduType::InformRequest, id, opened(bindings, named, uptime)),
            ),
        },
    }
}

/// The message `target` asks for, carrying `pdu`: what the target does not
/// say is as the transport is set up.
pub open spec fn wrapped(
    transport: TransportModel,
    target: TargetModel,
    pdu: PduModel,
) -> EnvelopeModel {
    let version = match target.version {
        Some(version) => version,
        None => transport.version,
    };
    if version == VERSION_3 {
        let user = match target.user {
            Some(user) => user,
            None => transport.user,
        };
        EnvelopeModel::V3(v3_from(pdu.request_id, transport.engine_id, user, pdu))
    } else {
        let community = match target.community {
            Some(community) => community,
            None => transport.community,
        };
        EnvelopeModel::V2c(
            MessageModel { version: VERSION_2C, community: encode_utf8(community), pdu },
        )
    }
}

/// The message that sends `bytes` to `target` under the id and at the
/// uptime given.
pub open spec fn composed(
    transport: TransportModel,
    target: TargetModel,
    id: i32,
    uptime: u64,
    bytes: Seq<u8>,
) -> core::result::Result<EnvelopeModel, Refusal> {
    match asking(target.action, target.trap_oid, id, uptime, bytes) {
        Err(e) => Err(e),
        Ok(pdu) => Ok(wrapped(transport, target, pdu)),
    }
}

/// Where the message that sends `bytes` to the target that `text` is goes,
/// and the message.
pub open spec fn requested(
    transport: TransportModel,
    text: Seq<char>,
    id: i32,
    uptime: u64,
    bytes: Seq<u8>,
) -> core::result::Result<(Seq<char>, EnvelopeModel), Refusal> {
    match target_of(text) {
        Err(e) => Err(e),
        Ok(target) => match composed(transport, target, id, uptime, bytes) {
            Err(e) => Err(e),
            Ok(message) => Ok((target.address, message)),
        },
    }
}

/// `request` waits for an answer: every one but a trap does.
pub open spec fn awaits_answer(request: EnvelopeModel) -> bool {
    pdu_of(request).kind != PduType::Trap
}

/// The answer to `request` that `bytes` are: a response to that request, of
/// no error.
pub open spec fn answered(request: EnvelopeModel, bytes: Seq<u8>) -> core::result::Result<
    EnvelopeModel,
    Refusal,
> {
    match envelope_in(bytes) {
        Err(e) => Err(e),
        Ok(response) => {
            let answer = pdu_of(response);
            if answer.request_id != pdu_of(request).request_id || answer.kind
                != PduType::GetResponse {
                Err(Fault::AnswerToAnother)
            } else if answer.error_status != 0 {
                Err(Fault::AgentError(answer.error_status, answer.error_index))
            } else {
                Ok(response)
            }
        },
    }
}

/// A message on its way: where to, and what.
#[derive(Debug, PartialEq, Eq)]
pub struct Request {
    pub address: String,
    pub message: Envelope,
}

impl SnmpTransport {
    /// The message `target` asks for, carrying `pdu`.
    fn wrap(&self, target: &SnmpTarget, pdu: Pdu) -> (message: Envelope)
        ensures
            message@ == wrapped(self@, target@, pdu@),
    {
        let version: i64 = match target.version {
            Some(version) => version,
            None => self.version,
        };
        if version == VERSION_3 {
            let user = match &target.user {
                Some(user) => user.as_str(),
                None => self.user.as_str(),
            };
            Envelope::V3(V3Message::new(pdu.request_id, self.engine_id.as_slice(), user, pdu))
        } else {
            let community = match &target.community {
                Some(community) => community.as_str(),
                None => self.community.as_str(),
            };
            Envelope::V2c(Message::v2c(community, pdu))
        }
    }

    /// The message that sends `bytes` to `target`, under `id` and at
    /// `uptime`; refused are bytes that a notification cannot tell because
    /// they are not `oid=value` lines.
    pub fn compose(&self, target: &SnmpTarget, id: i32, uptime: u64, bytes: &[u8]) -> (message:
        Result<Envelope>)
        ensures
            match message {
                Ok(m) => composed(self@, target@, id, uptime, bytes@) == Ok::<
                    EnvelopeModel,
                    Refusal,
                >(m@),
                Err(e) => composed(self@, target@, id, uptime, bytes@) == Err::<
                    EnvelopeModel,
                    Refusal,
                >(e@),
            },
    {
        let kind = match &target.action {
            Action::SetObject(oid) => {
                let binding = Binding::new(oid.as_slice(), Value::OctetString(slice_to_vec(bytes)));
                let bindings: Vec<Binding> = vec![binding];
                assert(binding_models(bindings@) =~= seq![binding@]);
                return Ok(self.wrap(target, Pdu::new(PduType::SetRequest, id, bindings)));
            },
            Action::Trap => PduType::Trap,
            Action::Inform => PduType::InformRequest,
        };
        let bindings = match lines::parse_lines(bytes) {
            Ok(bindings) => bindings,
            Err(e) => {
                return Err(e);
            },
        };
        let pdu = match &target.trap_oid {
            Some(arcs) => Pdu::notification(kind, id, arcs.as_slice(), uptime, bindings),
            None => Pdu::notification(kind, id, &ZERO_DOT_ZERO, uptime, bindings),
        };
        Ok(self.wrap(target, pdu))
    }

    /// The message that sends `bytes` to the target that the text is, under
    /// the next request id and at the uptime it is; refused are what is not
    /// a target, and what `compose` refuses.
    pub fn request(&self, target: &str, bytes: &[u8]) -> (request: Result<Request>)
        ensures
            match request {
                Ok(r) => exists|id: i32, uptime: u64|
                    {
                        &&& drawn(self.ids(), id)
                        &&& is_uptime(self.started(), uptime)
                        &&& #[trigger] requested(self@, target@, id, uptime, bytes@) == Ok::<
                            (Seq<char>, EnvelopeModel),
                            Refusal,
                        >((r.address@, r.message@))
                    },
                Err(e) => forall|id: i32, uptime: u64| #[trigger]
                    requested(self@, target@, id, uptime, bytes@) == Err::<
                        (Seq<char>, EnvelopeModel),
                        Refusal,
                    >(e@),
            },
    {
        let parsed = match SnmpTarget::parse(target) {
            Ok(parsed) => parsed,
            Err(e) => {
                return Err(e);
            },
        };
        let id: i32 = self.draw_id();
        let uptime: u64 = self.uptime();
        match self.compose(&parsed, id, uptime, bytes) {
            Ok(message) => {
                assert(requested(self@, target@, id, uptime, bytes@) is Ok);
                Ok(Request { address: parsed.address, message })
            },
            Err(e) => {
                assert forall|other: i32, then: u64| #[trigger]
                    requested(self@, target@, other, then, bytes@) == Err::<
                        (Seq<char>, EnvelopeModel),
                        Refusal,
                    >(e@) by {
                    assert(composed(self@, parsed@, id, uptime, bytes@) is Err);
                }
                Err(e)
            },
        }
    }
}

impl Request {
    /// The sender waits for an answer.
    pub fn awaits_answer(&self) -> (awaits: bool)
        ensures
            awaits == awaits_answer(self.message@),
    {
        self.message.pdu().kind != PduType::Trap
    }

    /// The answer that `bytes` are; refused are what is not a message, an
    /// answer to another request, and an answer of an error.
    pub fn answer(&self, bytes: &[u8]) -> (answer: Result<Envelope>)
        ensures
            match answer {
                Ok(a) => answered(self.message@, bytes@) == Ok::<EnvelopeModel, Refusal>(a@),
                Err(e) => answered(self.message@, bytes@) == Err::<EnvelopeModel, Refusal>(e@),
            },
    {
        let response = match Envelope::decode(bytes) {
            Ok(response) => response,
            Err(e) => {
                return Err(e);
            },
        };
        let answer = response.pdu();
        if answer.request_id != self.message.pdu().request_id || answer.kind
            != PduType::GetResponse {
            return Err(Fault::AnswerToAnother);
        }
        if answer.error_status != 0 {
            return Err(Fault::AgentError(answer.error_status, answer.error_index));
        }
        Ok(response)
    }
}

// ---------------------------------------------------------------- receiving

/// One Stream that arrived: where it came from, and the bytes.
#[derive(Debug, PartialEq, Eq)]
pub struct Arrived {
    pub origin_uri: String,
    pub bytes: Vec<u8>,
}

/// What arrived, as the contracts speak of it.
pub struct ArrivedModel {
    pub origin_uri: Seq<char>,
    pub bytes: Seq<u8>,
}

impl View for Arrived {
    type V = ArrivedModel;

    open spec fn view(&self) -> ArrivedModel {
        ArrivedModel { origin_uri: self.origin_uri@, bytes: self.bytes@ }
    }
}

/// What to do about a datagram.
#[derive(Debug, PartialEq, Eq)]
pub enum Reaction {
    /// A trap: hand it up.
    Deliver(Arrived),
    /// An inform: answer with these bytes, and hand it up.
    Acknowledge(Vec<u8>, Arrived),
    /// A request this manager does not serve: answer with these bytes.
    Refuse(Vec<u8>),
    /// A stray response: nothing.
    Skip,
}

/// A reaction, as the contracts speak of it.
pub enum ReactionModel {
    Deliver(ArrivedModel),
    Acknowledge(Seq<u8>, ArrivedModel),
    Refuse(Seq<u8>),
    Skip,
}

impl View for Reaction {
    type V = ReactionModel;

    open spec fn view(&self) -> ReactionModel {
        match *self {
            Reaction::Deliver(arrived) => ReactionModel::Deliver(arrived@),
            Reaction::Acknowledge(answer, arrived) => ReactionModel::Acknowledge(
                answer@,
                arrived@,
            ),
            Reaction::Refuse(answer) => ReactionModel::Refuse(answer@),
            Reaction::Skip => ReactionModel::Skip,
        }
    }
}

/// What `snmpTrapOID.0` names, dotted; nothing where it is not bound.
pub open spec fn trap_text(pdu: PduModel) -> Seq<char> {
    match trap_oid_in(pdu.bindings) {
        Some(arcs) => dotted(arcs),
        None => Seq::empty(),
    }
}

/// A notification from `peer` as it is handed up: the header in the origin,
/// the bindings as lines.
pub open spec fn arrival(peer: Seq<char>, e: EnvelopeModel) -> ArrivedModel {
    ArrivedModel {
        origin_uri: "snmp://"@ + peer + "?"@ + credential_of(e) + "&trap-oid="@ + trap_text(
            pdu_of(e),
        ) + "&pdu="@ + name_of(pdu_of(e).kind),
        bytes: encode_utf8(stream_text(pdu_of(e).bindings)),
    }
}

/// What to do about `e` from `peer`.
pub open spec fn reaction_to(peer: Seq<char>, e: EnvelopeModel) -> ReactionModel {
    match pdu_of(e).kind {
        PduType::Trap => ReactionModel::Deliver(arrival(peer, e)),
        PduType::InformRequest => ReactionModel::Acknowledge(
            wire(answer_to(e, response_to(pdu_of(e), 0))),
            arrival(peer, e),
        ),
        PduType::GetResponse => ReactionModel::Skip,
        _ => ReactionModel::Refuse(wire(answer_to(e, response_to(pdu_of(e), GEN_ERR)))),
    }
}

/// What to do about the datagram `bytes` from `peer`.
pub open spec fn reaction(peer: Seq<char>, bytes: Seq<u8>) -> core::result::Result<
    ReactionModel,
    Refusal,
> {
    match envelope_in(bytes) {
        Err(e) => Err(e),
        Ok(e) => Ok(reaction_to(peer, e)),
    }
}

proof fn lemma_read_renders(bytes: Seq<u8>)
    ensures
        envelope_in(bytes) matches Ok(e) ==> all_renderable(pdu_of(e).bindings),
{
    law_read_message_is_spoken(bytes);
    if let Ok(e) = envelope_in(bytes) {
        let bindings = pdu_of(e).bindings;
        assert forall|i: int| 0 <= i < bindings.len() implies renderable(
            (#[trigger] bindings[i]).value,
        ) by {
            assert(binding_well_formed(bindings[i]));
            law_well_formed_is_encodable(bindings[i].value);
        }
    }
}

fn arrive(peer: &str, message: &Envelope) -> (arrived: Arrived)
    requires
        all_renderable(pdu_of(message@).bindings),
    ensures
        arrived@ == arrival(peer@, message@),
{
    let pdu = message.pdu();
    let credential = message.credential();
    let mut origin_uri = String::new();
    origin_uri.append("snmp://");
    origin_uri.append(peer);
    origin_uri.append("?");
    origin_uri.append(credential.as_str());
    origin_uri.append("&trap-oid=");
    let ghost opening = origin_uri@;
    if let Some(arcs) = pdu.trap_oid() {
        push_oid(&mut origin_uri, arcs);
    }
    assert(origin_uri@ =~= opening + trap_text(pdu@));
    origin_uri.append("&pdu=");
    origin_uri.append(pdu.kind.name());
    let arrived = Arrived { origin_uri, bytes: lines::render(pdu.bindings.as_slice()) };
    assert(arrived@.origin_uri =~= arrival(peer@, message@).origin_uri);
    arrived
}

/// What to do about the datagram `bytes` from `peer`: a trap is handed up,
/// an inform is acknowledged and handed up, a get or set aimed at this
/// manager is answered `genErr`, and a stray response is skipped; refused
/// is what is not SNMP.
pub fn react(peer: &str, bytes: &[u8]) -> (react: Result<Reaction>)
    ensures
        match react {
            Ok(r) => reaction(peer@, bytes@) == Ok::<ReactionModel, Refusal>(r@),
            Err(e) => reaction(peer@, bytes@) == Err::<ReactionModel, Refusal>(e@),
        },
{
    let message = match Envelope::decode(bytes) {
        Ok(message) => message,
        Err(e) => {
            return Err(e);
        },
    };
    proof {
        law_read_message_is_spoken(bytes@);
        lemma_read_renders(bytes@);
    }
    let pdu = message.pdu();
    let reaction = match pdu.kind {
        PduType::Trap => Reaction::Deliver(arrive(peer, &message)),
        PduType::InformRequest => {
            let answer = message.answering(pdu.response(0)).encode();
            Reaction::Acknowledge(answer, arrive(peer, &message))
        },
        PduType::GetResponse => Reaction::Skip,
        _ => Reaction::Refuse(message.answering(pdu.response(GEN_ERR)).encode()),
    };
    Ok(reaction)
}

// --------------------------------------------------------------------- laws

/// The response to a PDU SNMP has is one SNMP has.
proof fn lemma_response_well_formed(pdu: PduModel, error_status: i32)
    requires
        pdu_well_formed(pdu),
    ensures
        pdu_well_formed(response_to(pdu, error_status)),
{
}

/// What a transport composes of bindings SNMP has is spoken: v2c, or v3 at
/// noAuthNoPriv.
pub proof fn law_composed_message_is_spoken(
    transport: TransportModel,
    target: TargetModel,
    id: i32,
    uptime: u64,
    bytes: Seq<u8>,
)
    ensures
        composed(transport, target, id, uptime, bytes) matches Ok(e) ==> {
            &&& pdu_of(e).request_id == id
            &&& pdu_well_formed(pdu_of(e)) ==> spoken(e)
        },
{
    law_flags(0);
}

/// A trap is handed up as it was sent, and nobody waits for an answer to
/// it.
pub proof fn law_trap_arrives(peer: Seq<char>, e: EnvelopeModel)
    requires
        spoken(e),
        pdu_of(e).kind == PduType::Trap,
        wire(e).len() <= usize::MAX,
    ensures
        reaction(peer, wire(e)) == Ok::<ReactionModel, Refusal>(
            ReactionModel::Deliver(arrival(peer, e)),
        ),
        !awaits_answer(e),
{
    law_envelope_round_trips(e);
}

/// What a message is sent under is what its credential says: the community
/// or the user of the target, or the transport's where the target names
/// none.
pub proof fn law_credential_is_what_it_is_sent_under(
    transport: TransportModel,
    target: TargetModel,
    pdu: PduModel,
)
    ensures
        ({
            let version = target.version.unwrap_or(transport.version);
            let community = target.community.unwrap_or(transport.community);
            let user = target.user.unwrap_or(transport.user);
            credential_of(wrapped(transport, target, pdu)) == if version == VERSION_3 {
                "user="@ + user + "&version=3"@
            } else {
                "community="@ + community + "&version=2c"@
            }
        }),
{
    let community = target.community.unwrap_or(transport.community);
    encode_utf8_valid_utf8(community);
    encode_utf8_decode_utf8(community);
}

/// The Stream that is sent as a notification is handed up at the far end
/// after the two bindings that open one, under the credential it was sent
/// under.
pub proof fn law_stream_is_handed_up(
    transport: TransportModel,
    target: TargetModel,
    id: i32,
    uptime: u64,
    bytes: Seq<u8>,
    bindings: Seq<BindingModel>,
    e: EnvelopeModel,
    peer: Seq<char>,
)
    requires
        !(target.action is SetObject),
        stream_bindings(bytes) == Ok::<Seq<BindingModel>, Refusal>(bindings),
        composed(transport, target, id, uptime, bytes) == Ok::<EnvelopeModel, Refusal>(e),
        pdu_well_formed(pdu_of(e)),
        wire(e).len() <= usize::MAX,
    ensures
        ({
            let trap_oid = target.trap_oid.unwrap_or(ZERO_DOT_ZERO@);
            let up = arrival(peer, e);
            &&& up.bytes == encode_utf8(stream_text(opened(bindings, trap_oid, uptime)))
            &&& reaction(peer, wire(e)) matches Ok(r) && match target.action {
                ActionModel::Trap => r == ReactionModel::Deliver(up),
                _ => r matches ReactionModel::Acknowledge(_, handed) && handed == up,
            }
        }),
{
    law_composed_message_is_spoken(transport, target, id, uptime, bytes);
    law_envelope_round_trips(e);
}

/// Where the first binding of a Stream is neither of the two that open a
/// notification, its lines come after those two.
pub proof fn law_stream_arrives_after_the_opening(
    bindings: Seq<BindingModel>,
    trap_oid: Seq<u32>,
    uptime: u64,
)
    requires
        bindings.len() > 0 ==> bindings[0].oid != SYS_UPTIME@ && bindings[0].oid != SNMP_TRAP_OID@,
    ensures
        stream_text(opened(bindings, trap_oid, uptime)) == line_of(uptime_binding(uptime))
            + seq!['\n'] + line_of(trap_oid_binding(trap_oid)) + seq!['\n'] + stream_text(bindings),
{
    let all = opened(bindings, trap_oid, uptime);
    assert(timed(bindings, uptime) =~= seq![uptime_binding(uptime)] + bindings);
    assert(all =~= seq![uptime_binding(uptime), trap_oid_binding(trap_oid)] + bindings);
    assert(all.skip(1)[0] == trap_oid_binding(trap_oid));
    assert(all.skip(1).skip(1) =~= bindings);
    reveal_with_fuel(stream_text, 3);
    assert(stream_text(all) =~= line_of(uptime_binding(uptime)) + seq!['\n'] + line_of(
        trap_oid_binding(trap_oid),
    ) + seq!['\n'] + stream_text(bindings));
}

/// An inform is handed up as it was sent, and the acknowledgement is the
/// answer its sender waits for.
pub proof fn law_inform_is_acknowledged(peer: Seq<char>, e: EnvelopeModel)
    requires
        spoken(e),
        pdu_of(e).kind == PduType::InformRequest,
        wire(e).len() <= usize::MAX,
        wire(answer_to(e, response_to(pdu_of(e), 0))).len() <= usize::MAX,
    ensures
        ({
            let answer = answer_to(e, response_to(pdu_of(e), 0));
            &&& awaits_answer(e)
            &&& reaction(peer, wire(e)) == Ok::<ReactionModel, Refusal>(
                ReactionModel::Acknowledge(wire(answer), arrival(peer, e)),
            )
            &&& answered(e, wire(answer)) == Ok::<EnvelopeModel, Refusal>(answer)
        }),
{
    let answer = answer_to(e, response_to(pdu_of(e), 0));
    law_envelope_round_trips(e);
    lemma_response_well_formed(pdu_of(e), 0);
    law_answer_keeps_the_wrapping(e, response_to(pdu_of(e), 0));
    law_envelope_round_trips(answer);
}

/// A get or a set aimed at a manager is answered `genErr`, which is what
/// its sender learns.
pub proof fn law_request_is_refused(peer: Seq<char>, e: EnvelopeModel)
    requires
        spoken(e),
        pdu_of(e).kind == PduType::GetRequest || pdu_of(e).kind == PduType::GetNextRequest
            || pdu_of(e).kind == PduType::SetRequest,
        wire(e).len() <= usize::MAX,
        wire(answer_to(e, response_to(pdu_of(e), GEN_ERR))).len() <= usize::MAX,
    ensures
        ({
            let answer = answer_to(e, response_to(pdu_of(e), GEN_ERR));
            &&& awaits_answer(e)
            &&& reaction(peer, wire(e)) == Ok::<ReactionModel, Refusal>(
                ReactionModel::Refuse(wire(answer)),
            )
            &&& answered(e, wire(answer)) == Err::<EnvelopeModel, Refusal>(
                Fault::AgentError(GEN_ERR, 0),
            )
        }),
{
    let answer = answer_to(e, response_to(pdu_of(e), GEN_ERR));
    law_envelope_round_trips(e);
    lemma_response_well_formed(pdu_of(e), GEN_ERR);
    law_answer_keeps_the_wrapping(e, response_to(pdu_of(e), GEN_ERR));
    law_envelope_round_trips(answer);
}

/// A response that strays to a manager is skipped, so nothing answers an
/// answer.
pub proof fn law_response_is_skipped(peer: Seq<char>, e: EnvelopeModel)
    requires
        spoken(e),
        pdu_of(e).kind == PduType::GetResponse,
        wire(e).len() <= usize::MAX,
    ensures
        reaction(peer, wire(e)) == Ok::<ReactionModel, Refusal>(ReactionModel::Skip),
{
    law_envelope_round_trips(e);
}

/// The answer to one request is refused as the answer to another.
pub proof fn law_answer_is_to_its_request(
    request: EnvelopeModel,
    other: EnvelopeModel,
    error_status: i32,
)
    requires
        spoken(other),
        pdu_of(other).request_id != pdu_of(request).request_id,
        wire(answer_to(other, response_to(pdu_of(other), error_status))).len() <= usize::MAX,
    ensures
        answered(
            request,
            wire(answer_to(other, response_to(pdu_of(other), error_status))),
        ) == Err::<EnvelopeModel, Refusal>(Fault::AnswerToAnother),
{
    let answer = answer_to(other, response_to(pdu_of(other), error_status));
    lemma_response_well_formed(pdu_of(other), error_status);
    law_answer_keeps_the_wrapping(other, response_to(pdu_of(other), error_status));
    law_envelope_round_trips(answer);
}

/// An agent that answers with an error status has it told to the sender,
/// and one that answers with none has its answer taken.
pub proof fn law_agent_is_heard(request: EnvelopeModel, error_status: i32)
    requires
        spoken(request),
        wire(answer_to(request, response_to(pdu_of(request), error_status))).len() <= usize::MAX,
    ensures
        ({
            let answer = answer_to(request, response_to(pdu_of(request), error_status));
            answered(request, wire(answer)) == if error_status == 0 {
                Ok::<EnvelopeModel, Refusal>(answer)
            } else {
                Err::<EnvelopeModel, Refusal>(Fault::AgentError(error_status, 0))
            }
        }),
{
    let answer = answer_to(request, response_to(pdu_of(request), error_status));
    lemma_response_well_formed(pdu_of(request), error_status);
    law_answer_keeps_the_wrapping(request, response_to(pdu_of(request), error_status));
    law_envelope_round_trips(answer);
}

} // verus!
