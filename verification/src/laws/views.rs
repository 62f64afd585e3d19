//! What the models hold of the types they are of: every field, each in its
//! own place.
use vstd::prelude::*;

use crate::ber::{models, Value, ValueModel};
use crate::envelope::{Envelope, EnvelopeModel};
use crate::error::{Error, Refusal};
use crate::pdu::{Binding, Message, Pdu};
use crate::target::{Action, ActionModel, SnmpTarget};
use crate::transport::{Arrived, Reaction, ReactionModel};
use crate::v3::V3Message;

verus! {

/// A value is of the shape it has and holds what it holds.
pub proof fn law_values(value: Value)
    ensures
        match value {
            Value::Integer(n) => value@ == ValueModel::Integer(n),
            Value::OctetString(bytes) => value@ == ValueModel::OctetString(bytes@),
            Value::Null => value@ == ValueModel::Null,
            Value::Oid(arcs) => value@ == ValueModel::Oid(arcs@),
            Value::Sequence(items) => value@ matches ValueModel::Sequence(inside) && {
                &&& inside.len() == items@.len()
                &&& forall|i: int| 0 <= i < inside.len() ==> #[trigger] inside[i] == items@[i]@
            },
            Value::Context(tag, items) => value@ matches ValueModel::Context(t, inside) && {
                &&& t == tag
                &&& inside.len() == items@.len()
                &&& forall|i: int| 0 <= i < inside.len() ==> #[trigger] inside[i] == items@[i]@
            },
            Value::Unsigned(tag, n) => value@ == ValueModel::Unsigned(tag, n),
            Value::IpAddress(octets) => value@ == ValueModel::IpAddress(octets@),
            Value::Exception(tag) => value@ == ValueModel::Exception(tag),
        },
{
    match value {
        Value::Sequence(items) => {
            crate::ber::lemma_sequence_model(items);
            assert(models(items@) =~= Seq::new(items@.len(), |i: int| items@[i]@));
        },
        Value::Context(tag, items) => {
            crate::ber::lemma_context_model(tag, items);
            assert(models(items@) =~= Seq::new(items@.len(), |i: int| items@[i]@));
        },
        _ => {},
    }
}

/// Bindings, PDUs and messages have their fields.
pub proof fn law_messages(b: Binding, p: Pdu, m: Message, v3: V3Message, e: Envelope)
    ensures
        b@.oid == b.oid@ && b@.value == b.value@,
        p@.kind == p.kind && p@.request_id == p.request_id,
        p@.error_status == p.error_status && p@.error_index == p.error_index,
        p@.bindings.len() == p.bindings@.len(),
        forall|i: int| 0 <= i < p@.bindings.len() ==> #[trigger] p@.bindings[i] == p.bindings@[i]@,
        m@.version == m.version && m@.community == m.community@ && m@.pdu == m.pdu@,
        v3@.msg_id == v3.msg_id && v3@.max_size == v3.max_size && v3@.flags == v3.flags,
        v3@.engine_id == v3.engine_id@ && v3@.context_engine_id == v3.context_engine_id@,
        v3@.engine_boots == v3.engine_boots && v3@.engine_time == v3.engine_time,
        v3@.user == v3.user@ && v3@.context_name == v3.context_name@ && v3@.pdu == v3.pdu@,
        match e {
            Envelope::V2c(message) => e@ == EnvelopeModel::V2c(message@),
            Envelope::V3(message) => e@ == EnvelopeModel::V3(message@),
        },
{
}

/// Targets, what arrives and what is done about it have their parts.
pub proof fn law_targets_and_arrivals(t: SnmpTarget, a: Arrived, r: Reaction)
    ensures
        t@.address == t.address@ && t@.version == t.version,
        match t.action {
            Action::Trap => t@.action == ActionModel::Trap,
            Action::Inform => t@.action == ActionModel::Inform,
            Action::SetObject(oid) => t@.action == ActionModel::SetObject(oid@),
        },
        match t.community {
            Some(text) => t@.community == Some(text@),
            None => t@.community is None,
        },
        match t.user {
            Some(text) => t@.user == Some(text@),
            None => t@.user is None,
        },
        match t.trap_oid {
            Some(arcs) => t@.trap_oid == Some(arcs@),
            None => t@.trap_oid is None,
        },
        a@.origin_uri == a.origin_uri@ && a@.bytes == a.bytes@,
        match r {
            Reaction::Deliver(up) => r@ == ReactionModel::Deliver(up@),
            Reaction::Acknowledge(answer, up) => r@ == ReactionModel::Acknowledge(answer@, up@),
            Reaction::Refuse(answer) => r@ == ReactionModel::Refuse(answer@),
            Reaction::Skip => r@ == ReactionModel::Skip,
        },
{
}

/// A refusal is of what it holds.
pub proof fn law_refusals(e: Error)
    ensures
        match e {
            Error::UnusedTag(tag) => e@ == Refusal::UnusedTag(tag),
            Error::Expected(shape, found) => e@ == Refusal::Expected(shape, found@),
            Error::PduTypeNotSpoken(tag) => e@ == Refusal::PduTypeNotSpoken(tag),
            Error::BindingWithoutEquals(line) => e@ == Refusal::BindingWithoutEquals(line@),
            Error::NameNotOid(name) => e@ == Refusal::NameNotOid(name@),
            Error::PduWithout(field) => e@ == Refusal::PduWithout(field),
            Error::PduFieldOutsideI32(field) => e@ == Refusal::PduFieldOutsideI32(field),
            Error::MessageWithout(field) => e@ == Refusal::MessageWithout(field),
            Error::MessageVersionNotSpoken(n) => e@ == Refusal::MessageVersionNotSpoken(n),
            Error::V3FieldMissing(part) => e@ == Refusal::V3FieldMissing(part),
            Error::NotSnmpTarget(text) => e@ == Refusal::NotSnmpTarget(text@),
            Error::TargetWithoutHost(text) => e@ == Refusal::TargetWithoutHost(text@),
            Error::SetWithoutOid(text) => e@ == Refusal::SetWithoutOid(text@),
            Error::VersionNotSpoken(text) => e@ == Refusal::VersionNotSpoken(text@),
            Error::TrapOidNotDotted(text) => e@ == Refusal::TrapOidNotDotted(text@),
            Error::AgentError(status, index) => e@ == Refusal::AgentError(status, index),
            Error::NotASet(kind) => e@ == Refusal::NotASet(kind),
            Error::OverCeiling(len, most) => e@ == Refusal::OverCeiling(len, most),
            Error::ShortValue => e@ is ShortValue,
            Error::IndefiniteLength => e@ is IndefiniteLength,
            Error::EmptyInteger => e@ is EmptyInteger,
            Error::LongInteger => e@ is LongInteger,
            Error::TrailingBytes => e@ is TrailingBytes,
            Error::AddressLength => e@ is AddressLength,
            Error::LongUnsigned => e@ is LongUnsigned,
            Error::EmptyOid => e@ is EmptyOid,
            Error::LargeArc => e@ is LargeArc,
            Error::UnendedArc => e@ is UnendedArc,
            Error::BindingWithoutName => e@ is BindingWithoutName,
            Error::BindingWithoutValue => e@ is BindingWithoutValue,
            Error::PduNotContextTagged => e@ is PduNotContextTagged,
            Error::EmptyMessage => e@ is EmptyMessage,
            Error::V3ReadAsV2c => e@ is V3ReadAsV2c,
            Error::NotVersion3 => e@ is NotVersion3,
            Error::MsgIdOutsideI32 => e@ is MsgIdOutsideI32,
            Error::EmptyFlags => e@ is EmptyFlags,
            Error::NotNoAuthNoPriv => e@ is NotNoAuthNoPriv,
            Error::NotUsm => e@ is NotUsm,
            Error::BindingsNotText => e@ is BindingsNotText,
            Error::AnswerToAnother => e@ is AnswerToAnother,
            Error::SetBindsNothing => e@ is SetBindsNothing,
        },
{
}

} // verus!
