//! A message as it came, whichever version wrapped it.
use vstd::prelude::*;
use vstd::slice::slice_to_vec;

use crate::ber::{encoding, ValueModel};
use crate::error::{Fault, Refusal, Result};
use crate::pdu;
use crate::pdu::{law_message_read_is_well_formed, law_message_round_trips, message_in};
use crate::pdu::{message_value, pdu_encodable, pdu_well_formed, version_in};
use crate::pdu::{Message, MessageModel, Pdu, PduModel, VERSION_2C, VERSION_3};
use crate::text::{lossy_text, utf8_lossy};
use crate::v3;
use crate::v3::{law_flags, law_secured_message_is_refused, law_v3_read_is_well_formed};
use crate::v3::{law_v3_round_trips, secured, v3_answer, v3_in, v3_value, V3Message, V3Model};

verus! {

/// The largest datagram an SNMP entity must take, and then some: what UDP
/// over IPv4 carries.
pub const MAX_DATAGRAM: usize = 65_507;

/// `genErr`, the error status an unwanted request is answered with.
pub const GEN_ERR: i32 = 5;

/// A message as the contracts speak of it.
pub enum EnvelopeModel {
    V2c(MessageModel),
    V3(V3Model),
}

/// A message as it came, whichever version wrapped it.
#[derive(Debug, PartialEq, Eq)]
pub enum Envelope {
    V2c(Message),
    V3(V3Message),
}

impl View for Envelope {
    type V = EnvelopeModel;

    open spec fn view(&self) -> EnvelopeModel {
        match *self {
            Envelope::V2c(message) => EnvelopeModel::V2c(message@),
            Envelope::V3(message) => EnvelopeModel::V3(message@),
        }
    }
}

impl Clone for Envelope {
    fn clone(&self) -> (copy: Self)
        ensures
            copy@ == self@,
    {
        match self {
            Envelope::V2c(message) => Envelope::V2c(message.clone()),
            Envelope::V3(message) => Envelope::V3(message.clone()),
        }
    }
}

/// The PDU inside.
pub open spec fn pdu_of(e: EnvelopeModel) -> PduModel {
    match e {
        EnvelopeModel::V2c(m) => m.pdu,
        EnvelopeModel::V3(m) => m.pdu,
    }
}

/// The BER value of a message.
pub open spec fn envelope_value(e: EnvelopeModel) -> ValueModel {
    match e {
        EnvelopeModel::V2c(m) => message_value(m),
        EnvelopeModel::V3(m) => v3_value(m),
    }
}

/// A message on the wire.
pub open spec fn wire(e: EnvelopeModel) -> Seq<u8> {
    encoding(envelope_value(e))
}

/// The message that `bytes` are, by the version they open with: v2c and v3
/// are the two that are spoken.
pub open spec fn envelope_in(bytes: Seq<u8>) -> core::result::Result<EnvelopeModel, Refusal> {
    match version_in(bytes) {
        Err(e) => Err(e),
        Ok(version) => if version == VERSION_3 {
            match v3_in(bytes) {
                Ok(m) => Ok(EnvelopeModel::V3(m)),
                Err(e) => Err(e),
            }
        } else if version == VERSION_2C {
            match message_in(bytes) {
                Ok(m) => Ok(EnvelopeModel::V2c(m)),
                Err(e) => Err(e),
            }
        } else {
            Err(Fault::MessageVersionNotSpoken(version))
        },
    }
}

/// The same wrapping around `pdu`, answering `e`.
pub open spec fn answer_to(e: EnvelopeModel, pdu: PduModel) -> EnvelopeModel {
    match e {
        EnvelopeModel::V2c(m) => EnvelopeModel::V2c(MessageModel { pdu, ..m }),
        EnvelopeModel::V3(m) => EnvelopeModel::V3(v3_answer(m, pdu)),
    }
}

/// Who sent it, and in which version, as an origin says it.
pub open spec fn credential_of(e: EnvelopeModel) -> Seq<char> {
    match e {
        EnvelopeModel::V2c(m) => "community="@ + lossy_text(m.community) + "&version=2c"@,
        EnvelopeModel::V3(m) => "user="@ + m.user + "&version=3"@,
    }
}

impl Envelope {
    /// Read `bytes` by the version they open with; refused is what is not
    /// BER, a version not spoken, and anything `pdu` and `v3` refuse.
    pub fn decode(bytes: &[u8]) -> (envelope: Result<Self>)
        ensures
            match envelope {
                Ok(e) => envelope_in(bytes@) == Ok::<EnvelopeModel, Refusal>(e@),
                Err(e) => envelope_in(bytes@) == Err::<EnvelopeModel, Refusal>(e@),
            },
    {
        let version: i64 = match pdu::version_of(bytes) {
            Ok(version) => version,
            Err(e) => {
                return Err(e);
            },
        };
        if version == VERSION_3 {
            match v3::decode(bytes) {
                Ok(message) => Ok(Envelope::V3(message)),
                Err(e) => Err(e),
            }
        } else if version == VERSION_2C {
            match pdu::decode(bytes) {
                Ok(message) => Ok(Envelope::V2c(message)),
                Err(e) => Err(e),
            }
        } else {
            Err(Fault::MessageVersionNotSpoken(version))
        }
    }

    /// On the wire.
    pub fn encode(&self) -> (bytes: Vec<u8>)
        requires
            pdu_encodable(pdu_of(self@)),
        ensures
            bytes@ == wire(self@),
    {
        match self {
            Envelope::V2c(message) => pdu::encode(message),
            Envelope::V3(message) => v3::encode(message),
        }
    }

    /// This can be written: nothing in it is over what the encoding holds.
    pub fn is_encodable(&self) -> (can: bool)
        ensures
            can == pdu_encodable(pdu_of(self@)),
    {
        self.pdu().is_encodable()
    }

    pub fn pdu(&self) -> (pdu: &Pdu)
        ensures
            pdu@ == pdu_of(self@),
    {
        match self {
            Envelope::V2c(message) => &message.pdu,
            Envelope::V3(message) => &message.pdu,
        }
    }

    /// The same wrapping around `pdu`, answering this message.
    pub fn answering(&self, pdu: Pdu) -> (answer: Self)
        ensures
            answer@ == answer_to(self@, pdu@),
    {
        match self {
            Envelope::V2c(message) => Envelope::V2c(
                Message {
                    version: message.version,
                    community: slice_to_vec(message.community.as_slice()),
                    pdu,
                },
            ),
            Envelope::V3(message) => Envelope::V3(message.answering(pdu)),
        }
    }

    /// `community=public&version=2c` or `user=ops&version=3`.
    pub fn credential(&self) -> (text: String)
        ensures
            text@ == credential_of(self@),
    {
        let mut out = String::new();
        match self {
            Envelope::V2c(message) => {
                out.append("community=");
                let community = utf8_lossy(message.community.as_slice());
                out.append(community.as_str());
                out.append("&version=2c");
            },
            Envelope::V3(message) => {
                out.append("user=");
                out.append(message.user.as_str());
                out.append("&version=3");
            },
        }
        assert(out@ =~= credential_of(self@));
        out
    }
}

// --------------------------------------------------------------------- laws

/// A message this transport speaks: of bindings SNMP has, v2c in a wrapping
/// that says so, v3 at noAuthNoPriv.
pub open spec fn spoken(e: EnvelopeModel) -> bool {
    &&& pdu_well_formed(pdu_of(e))
    &&& match e {
        EnvelopeModel::V2c(m) => m.version == VERSION_2C,
        EnvelopeModel::V3(m) => !secured(m.flags),
    }
}

/// A message that is spoken reads back from the wire, in the wrapping it
/// had.
pub proof fn law_envelope_round_trips(e: EnvelopeModel)
    requires
        spoken(e),
        wire(e).len() <= usize::MAX,
    ensures
        envelope_in(wire(e)) == Ok::<EnvelopeModel, Refusal>(e),
{
    match e {
        EnvelopeModel::V2c(m) => {
            law_message_round_trips(m);
        },
        EnvelopeModel::V3(m) => {
            law_v3_round_trips(m);
        },
    }
}

/// A message that was read is one that is spoken, and can be written.
pub proof fn law_read_message_is_spoken(bytes: Seq<u8>)
    ensures
        envelope_in(bytes) matches Ok(e) ==> spoken(e) && pdu_encodable(pdu_of(e)),
{
    law_message_read_is_well_formed(bytes);
    law_v3_read_is_well_formed(bytes);
    if let Ok(e) = envelope_in(bytes) {
        pdu::law_well_formed_pdu_is_encodable(pdu_of(e));
    }
}

/// A message of another version than the two is refused for it, whatever
/// it carries.
pub proof fn law_other_versions_are_refused(m: MessageModel)
    requires
        m.version != VERSION_2C,
        m.version != VERSION_3,
        pdu_well_formed(m.pdu),
        encoding(message_value(m)).len() <= usize::MAX,
    ensures
        envelope_in(encoding(message_value(m))) == Err::<EnvelopeModel, Refusal>(
            Fault::MessageVersionNotSpoken(m.version),
        ),
{
    law_message_round_trips(m);
}

/// The answer to a message carries the PDU it is given in the wrapping of
/// the message: whoever was asked under a credential answers under it.
pub proof fn law_answer_keeps_the_wrapping(e: EnvelopeModel, pdu: PduModel)
    ensures
        pdu_of(answer_to(e, pdu)) == pdu,
        credential_of(answer_to(e, pdu)) == credential_of(e),
        answer_to(e, pdu) is V3 == e is V3,
        spoken(e) && pdu_well_formed(pdu) ==> spoken(answer_to(e, pdu)),
{
    law_flags(0);
}

/// An authenticated or encrypted message is refused, whatever it carries.
pub proof fn law_secured_envelope_is_refused(m: V3Model)
    requires
        secured(m.flags),
        pdu_well_formed(m.pdu),
        wire(EnvelopeModel::V3(m)).len() <= usize::MAX,
    ensures
        envelope_in(wire(EnvelopeModel::V3(m))) == Err::<EnvelopeModel, Refusal>(
            Fault::NotNoAuthNoPriv,
        ),
{
    law_secured_message_is_refused(m);
}

} // verus!
