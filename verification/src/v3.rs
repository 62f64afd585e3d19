//! RFC 3412 and RFC 3414: the SNMP v3 message with User-based Security
//! Model parameters, at noAuthNoPriv.
//!
//! `SEQUENCE { version 3, msgGlobalData, msgSecurityParameters, ScopedPDU }`
//! where the global data is `msgID, msgMaxSize, msgFlags, msgSecurityModel`,
//! the security parameters are an OCTET STRING wrapping a BER `SEQUENCE {
//! engineID, engineBoots, engineTime, userName, authParameters,
//! privParameters }`, and the scoped PDU is `contextEngineID, contextName,
//! PDU`. Authentication (HMAC over the whole message) and privacy (an
//! encrypted scoped PDU) stay open: a message with either flag set is
//! refused rather than half-read, and engine id discovery, the report
//! exchange a manager runs before it authenticates, is not needed until
//! they land.
use vstd::prelude::*;
use vstd::slice::slice_to_vec;
use vstd::utf8::{encode_utf8, encode_utf8_decode_utf8, encode_utf8_valid_utf8};

use crate::ber;
use crate::ber::{all_encodable, all_well_formed, as_integer, as_items, as_octets, decoding};
use crate::ber::{encodable, encoding, encodings, lemma_sequence_model, models, well_formed};
use crate::ber::{Value, ValueModel};
use crate::error::{Fault, Refusal, Result, V3Part};
use crate::pdu::{law_pdu_read_is_well_formed, law_pdu_reads_back, lemma_pdu_encodable};
use crate::pdu::{lemma_pdu_value_well_formed, lemma_value_opens, pdu_encodable, pdu_in};
use crate::pdu::{pdu_value, pdu_well_formed, version_in, Pdu, PduModel, PduType, VERSION_3};
use crate::pdu::{lemma_message_well_formed, message_in, message_value, MessageModel};
use crate::text::{lossy_text, utf8_lossy};
use crate::tlv::{tlv, OCTET_STRING};

verus! {

/// The message is authenticated.
pub const FLAG_AUTH: u8 = 0x01;

/// The scoped PDU is encrypted.
pub const FLAG_PRIV: u8 = 0x02;

/// The receiver may answer with a Report.
pub const FLAG_REPORTABLE: u8 = 0x04;

/// The User-based Security Model, `msgSecurityModel` 3.
pub const SECURITY_USM: i64 = 3;

/// `msgMaxSize`: what a datagram carries.
pub const MAX_SIZE: i64 = 65_507;

/// A v3 message as the contracts speak of it.
pub struct V3Model {
    pub msg_id: i32,
    pub max_size: i64,
    pub flags: u8,
    pub engine_id: Seq<u8>,
    pub engine_boots: i64,
    pub engine_time: i64,
    pub user: Seq<char>,
    pub context_engine_id: Seq<u8>,
    pub context_name: Seq<char>,
    pub pdu: PduModel,
}

/// One SNMP v3 message, noAuthNoPriv.
#[derive(Debug, PartialEq, Eq)]
pub struct V3Message {
    pub msg_id: i32,
    pub max_size: i64,
    pub flags: u8,
    pub engine_id: Vec<u8>,
    pub engine_boots: i64,
    pub engine_time: i64,
    pub user: String,
    pub context_engine_id: Vec<u8>,
    pub context_name: String,
    pub pdu: Pdu,
}

impl View for V3Message {
    type V = V3Model;

    open spec fn view(&self) -> V3Model {
        V3Model {
            msg_id: self.msg_id,
            max_size: self.max_size,
            flags: self.flags,
            engine_id: self.engine_id@,
            engine_boots: self.engine_boots,
            engine_time: self.engine_time,
            user: self.user@,
            context_engine_id: self.context_engine_id@,
            context_name: self.context_name@,
            pdu: self.pdu@,
        }
    }
}

impl Clone for V3Message {
    fn clone(&self) -> (copy: Self)
        ensures
            copy@ == self@,
    {
        V3Message {
            msg_id: self.msg_id,
            max_size: self.max_size,
            flags: self.flags,
            engine_id: slice_to_vec(self.engine_id.as_slice()),
            engine_boots: self.engine_boots,
            engine_time: self.engine_time,
            user: self.user.clone(),
            context_engine_id: slice_to_vec(self.context_engine_id.as_slice()),
            context_name: self.context_name.clone(),
            pdu: self.pdu.clone(),
        }
    }
}

/// A message from `user` at the engine `engine_id`, reportable unless it is
/// a trap.
pub open spec fn v3_from(
    msg_id: i32,
    engine_id: Seq<u8>,
    user: Seq<char>,
    pdu: PduModel,
) -> V3Model {
    V3Model {
        msg_id,
        max_size: MAX_SIZE,
        flags: if pdu.kind == PduType::Trap {
            0
        } else {
            FLAG_REPORTABLE
        },
        engine_id,
        engine_boots: 0,
        engine_time: 0,
        user,
        context_engine_id: engine_id,
        context_name: Seq::empty(),
        pdu,
    }
}

/// The answer to `m` carrying `pdu`.
pub open spec fn v3_answer(m: V3Model, pdu: PduModel) -> V3Model {
    V3Model { flags: 0, pdu, ..m }
}

impl V3Message {
    /// A message from `user` at the engine `engine_id`, reportable unless it
    /// is a trap: nobody answers a trap, so nobody should report on one.
    pub fn new(msg_id: i32, engine_id: &[u8], user: &str, pdu: Pdu) -> (message: Self)
        ensures
            message@ == v3_from(msg_id, engine_id@, user@, pdu@),
    {
        let flags: u8 = if pdu.kind == PduType::Trap {
            0
        } else {
            FLAG_REPORTABLE
        };
        let context_name = String::new();
        assert(context_name@ =~= Seq::empty());
        V3Message {
            msg_id,
            max_size: MAX_SIZE,
            flags,
            engine_id: slice_to_vec(engine_id),
            engine_boots: 0,
            engine_time: 0,
            user: user.to_owned(),
            context_engine_id: slice_to_vec(engine_id),
            context_name,
            pdu,
        }
    }

    /// The answer to `self` carrying `pdu`: same id, engine and user, not
    /// reportable.
    pub fn answering(&self, pdu: Pdu) -> (message: Self)
        ensures
            message@ == v3_answer(self@, pdu@),
    {
        let mut answer = self.clone();
        answer.flags = 0;
        answer.pdu = pdu;
        answer
    }
}

// ------------------------------------------------------------------ writing

/// The security parameters of `m`.
pub open spec fn usm_value(m: V3Model) -> ValueModel {
    ValueModel::Sequence(
        seq![
            ValueModel::OctetString(m.engine_id),
            ValueModel::Integer(m.engine_boots),
            ValueModel::Integer(m.engine_time),
            ValueModel::OctetString(encode_utf8(m.user)),
            ValueModel::OctetString(Seq::empty()),
            ValueModel::OctetString(Seq::empty()),
        ],
    )
}

/// The global data of `m`.
pub open spec fn global_value(m: V3Model) -> ValueModel {
    ValueModel::Sequence(
        seq![
            ValueModel::Integer(m.msg_id as i64),
            ValueModel::Integer(m.max_size),
            ValueModel::OctetString(seq![m.flags]),
            ValueModel::Integer(SECURITY_USM),
        ],
    )
}

/// The scoped PDU of `m`.
pub open spec fn scoped_value(m: V3Model) -> ValueModel {
    ValueModel::Sequence(
        seq![
            ValueModel::OctetString(m.context_engine_id),
            ValueModel::OctetString(encode_utf8(m.context_name)),
            pdu_value(m.pdu),
        ],
    )
}

/// The BER value of a v3 message.
pub open spec fn v3_value(m: V3Model) -> ValueModel {
    ValueModel::Sequence(
        seq![
            ValueModel::Integer(VERSION_3),
            global_value(m),
            ValueModel::OctetString(encoding(usm_value(m))),
            scoped_value(m),
        ],
    )
}

fn to_usm(message: &V3Message) -> (value: Value)
    ensures
        value@ == usm_value(message@),
{
    let items: Vec<Value> = vec![
        Value::OctetString(slice_to_vec(message.engine_id.as_slice())),
        Value::Integer(message.engine_boots),
        Value::Integer(message.engine_time),
        Value::OctetString(slice_to_vec(message.user.as_str().as_bytes())),
        Value::OctetString(Vec::new()),
        Value::OctetString(Vec::new()),
    ];
    proof {
        lemma_sequence_model(items);
        assert(models(items@) =~= usm_value(message@)->Sequence_0);
    }
    Value::Sequence(items)
}

fn to_global(message: &V3Message) -> (value: Value)
    ensures
        value@ == global_value(message@),
{
    let flags: Vec<u8> = vec![message.flags];
    assert(flags@ =~= seq![message.flags]);
    let items: Vec<Value> = vec![
        Value::Integer(message.msg_id as i64),
        Value::Integer(message.max_size),
        Value::OctetString(flags),
        Value::Integer(SECURITY_USM),
    ];
    proof {
        lemma_sequence_model(items);
        assert(models(items@) =~= global_value(message@)->Sequence_0);
    }
    Value::Sequence(items)
}

fn to_scoped(message: &V3Message) -> (value: Value)
    ensures
        value@ == scoped_value(message@),
{
    let items: Vec<Value> = vec![
        Value::OctetString(slice_to_vec(message.context_engine_id.as_slice())),
        Value::OctetString(slice_to_vec(message.context_name.as_str().as_bytes())),
        message.pdu.to_value(),
    ];
    proof {
        lemma_sequence_model(items);
        assert(models(items@) =~= scoped_value(message@)->Sequence_0);
    }
    Value::Sequence(items)
}

proof fn lemma_v3_encodable(m: V3Model)
    requires
        pdu_encodable(m.pdu),
    ensures
        encodable(usm_value(m)),
        encodable(v3_value(m)),
{
    lemma_pdu_encodable(m.pdu);
    let usm = usm_value(m)->Sequence_0;
    assert forall|i: int| 0 <= i < usm.len() implies encodable(#[trigger] usm[i]) by {}
    assert(all_encodable(usm));
    let global = global_value(m)->Sequence_0;
    assert forall|i: int| 0 <= i < global.len() implies encodable(#[trigger] global[i]) by {}
    assert(all_encodable(global));
    let scoped = scoped_value(m)->Sequence_0;
    assert forall|i: int| 0 <= i < scoped.len() implies encodable(#[trigger] scoped[i]) by {}
    assert(all_encodable(scoped));
    let items = v3_value(m)->Sequence_0;
    assert forall|i: int| 0 <= i < items.len() implies encodable(#[trigger] items[i]) by {
        assert(encodable(items[1]) && encodable(items[3]));
    }
    assert(all_encodable(items));
}

/// `message` on the wire.
pub fn encode(message: &V3Message) -> (bytes: Vec<u8>)
    requires
        pdu_encodable(message@.pdu),
    ensures
        bytes@ == encoding(v3_value(message@)),
{
    proof {
        lemma_v3_encodable(message@);
    }
    let usm = ber::to_bytes(&to_usm(message));
    let items: Vec<Value> = vec![
        Value::Integer(VERSION_3),
        to_global(message),
        Value::OctetString(usm),
        to_scoped(message),
    ];
    proof {
        lemma_sequence_model(items);
        assert(models(items@) =~= v3_value(message@)->Sequence_0);
    }
    ber::to_bytes(&Value::Sequence(items))
}

// ------------------------------------------------------------------ reading

/// Field `i` of the SEQUENCE that is `part` of a message.
pub open spec fn field(items: Seq<ValueModel>, i: int, part: V3Part) -> core::result::Result<
    ValueModel,
    Refusal,
> {
    if i < items.len() {
        Ok(items[i])
    } else {
        Err(Fault::V3FieldMissing(part))
    }
}

/// Field `i` as an INTEGER.
pub open spec fn integer_field(
    items: Seq<ValueModel>,
    i: int,
    part: V3Part,
) -> core::result::Result<i64, Refusal> {
    match field(items, i, part) {
        Err(e) => Err(e),
        Ok(v) => as_integer(v),
    }
}

/// Field `i` as an OCTET STRING.
pub open spec fn octets_field(
    items: Seq<ValueModel>,
    i: int,
    part: V3Part,
) -> core::result::Result<Seq<u8>, Refusal> {
    match field(items, i, part) {
        Err(e) => Err(e),
        Ok(v) => as_octets(v),
    }
}

/// Field `i` as a SEQUENCE.
pub open spec fn items_field(
    items: Seq<ValueModel>,
    i: int,
    part: V3Part,
) -> core::result::Result<Seq<ValueModel>, Refusal> {
    match field(items, i, part) {
        Err(e) => Err(e),
        Ok(v) => as_items(v),
    }
}

/// A flag of authentication or privacy is set.
pub open spec fn secured(flags: u8) -> bool {
    flags & (FLAG_AUTH | FLAG_PRIV) != 0
}

/// `msgID`, `msgMaxSize` and `msgFlags` of the global data, where it asks
/// for nothing but USM at noAuthNoPriv.
pub open spec fn global_in(items: Seq<ValueModel>) -> core::result::Result<
    (i32, i64, u8),
    Refusal,
> {
    match integer_field(items, 0, V3Part::GlobalData) {
        Err(e) => Err(e),
        Ok(msg_id) => if !(i32::MIN <= msg_id <= i32::MAX) {
            Err(Fault::MsgIdOutsideI32)
        } else {
            match integer_field(items, 1, V3Part::GlobalData) {
                Err(e) => Err(e),
                Ok(max_size) => match octets_field(items, 2, V3Part::GlobalData) {
                    Err(e) => Err(e),
                    Ok(flags) => if flags.len() == 0 {
                        Err(Fault::EmptyFlags)
                    } else if secured(flags[0]) {
                        Err(Fault::NotNoAuthNoPriv)
                    } else {
                        match integer_field(items, 3, V3Part::GlobalData) {
                            Err(e) => Err(e),
                            Ok(model) => if model != SECURITY_USM {
                                Err(Fault::NotUsm)
                            } else {
                                Ok((msg_id as i32, max_size, flags[0]))
                            },
                        }
                    },
                },
            }
        },
    }
}

/// `engineID`, `engineBoots`, `engineTime` and `userName` of the security
/// parameters; what follows them is not read.
pub open spec fn usm_in(bytes: Seq<u8>) -> core::result::Result<
    (Seq<u8>, i64, i64, Seq<char>),
    Refusal,
> {
    match decoding(bytes) {
        Err(e) => Err(e),
        Ok(v) => match as_items(v) {
            Err(e) => Err(e),
            Ok(items) => match octets_field(items, 0, V3Part::SecurityParameters) {
                Err(e) => Err(e),
                Ok(engine_id) => match integer_field(items, 1, V3Part::SecurityParameters) {
                    Err(e) => Err(e),
                    Ok(boots) => match integer_field(items, 2, V3Part::SecurityParameters) {
                        Err(e) => Err(e),
                        Ok(time) => match octets_field(items, 3, V3Part::SecurityParameters) {
                            Err(e) => Err(e),
                            Ok(user) => Ok((engine_id, boots, time, lossy_text(user))),
                        },
                    },
                },
            },
        },
    }
}

/// `contextEngineID`, `contextName` and the PDU of the scoped PDU.
pub open spec fn scoped_in(items: Seq<ValueModel>) -> core::result::Result<
    (Seq<u8>, Seq<char>, PduModel),
    Refusal,
> {
    match octets_field(items, 0, V3Part::ScopedPdu) {
        Err(e) => Err(e),
        Ok(engine_id) => match octets_field(items, 1, V3Part::ScopedPdu) {
            Err(e) => Err(e),
            Ok(name) => match field(items, 2, V3Part::ScopedPdu) {
                Err(e) => Err(e),
                Ok(v) => match pdu_in(v) {
                    Err(e) => Err(e),
                    Ok(pdu) => Ok((engine_id, lossy_text(name), pdu)),
                },
            },
        },
    }
}

/// The v3 message that the items of a SEQUENCE are: the first thing amiss,
/// in the order of the fields, is what it is refused for.
pub open spec fn v3_of(items: Seq<ValueModel>) -> core::result::Result<V3Model, Refusal> {
    match integer_field(items, 0, V3Part::Message) {
        Err(e) => Err(e),
        Ok(version) => if version != VERSION_3 {
            Err(Fault::NotVersion3)
        } else {
            match items_field(items, 1, V3Part::Message) {
                Err(e) => Err(e),
                Ok(global) => match global_in(global) {
                    Err(e) => Err(e),
                    Ok((msg_id, max_size, flags)) => match octets_field(
                        items,
                        2,
                        V3Part::Message,
                    ) {
                        Err(e) => Err(e),
                        Ok(bytes) => match usm_in(bytes) {
                            Err(e) => Err(e),
                            Ok((engine_id, engine_boots, engine_time, user)) => match items_field(
                                items,
                                3,
                                V3Part::Message,
                            ) {
                                Err(e) => Err(e),
                                Ok(scoped) => match scoped_in(scoped) {
                                    Err(e) => Err(e),
                                    Ok((context_engine_id, context_name, pdu)) => Ok(
                                        V3Model {
                                            msg_id,
                                            max_size,
                                            flags,
                                            engine_id,
                                            engine_boots,
                                            engine_time,
                                            user,
                                            context_engine_id,
                                            context_name,
                                            pdu,
                                        },
                                    ),
                                },
                            },
                        },
                    },
                },
            }
        },
    }
}

/// The v3 message that `bytes` are.
pub open spec fn v3_in(bytes: Seq<u8>) -> core::result::Result<V3Model, Refusal> {
    match decoding(bytes) {
        Err(e) => Err(e),
        Ok(outer) => match as_items(outer) {
            Err(e) => Err(e),
            Ok(items) => v3_of(items),
        },
    }
}

fn integer_at(items: &Vec<Value>, i: usize, part: V3Part) -> (n: Result<i64>)
    ensures
        match n {
            Ok(v) => integer_field(models(items@), i as int, part) == Ok::<i64, Refusal>(v),
            Err(e) => integer_field(models(items@), i as int, part) == Err::<i64, Refusal>(e@),
        },
{
    if i >= items.len() {
        return Err(Fault::V3FieldMissing(part));
    }
    assert(models(items@)[i as int] == items@[i as int]@);
    items[i].integer()
}

fn octets_at(items: &Vec<Value>, i: usize, part: V3Part) -> (bytes: Result<&[u8]>)
    ensures
        match bytes {
            Ok(b) => octets_field(models(items@), i as int, part) == Ok::<Seq<u8>, Refusal>(b@),
            Err(e) => octets_field(models(items@), i as int, part) == Err::<Seq<u8>, Refusal>(e@),
        },
{
    if i >= items.len() {
        return Err(Fault::V3FieldMissing(part));
    }
    assert(models(items@)[i as int] == items@[i as int]@);
    items[i].octets()
}

fn read_global(items: &Vec<Value>) -> (read: Result<(i32, i64, u8)>)
    ensures
        match read {
            Ok(r) => global_in(models(items@)) == Ok::<(i32, i64, u8), Refusal>(r),
            Err(e) => global_in(models(items@)) == Err::<(i32, i64, u8), Refusal>(e@),
        },
{
    let msg_id: i64 = match integer_at(items, 0, V3Part::GlobalData) {
        Ok(n) => n,
        Err(e) => {
            return Err(e);
        },
    };
    if msg_id < i32::MIN as i64 || msg_id > i32::MAX as i64 {
        return Err(Fault::MsgIdOutsideI32);
    }
    let max_size: i64 = match integer_at(items, 1, V3Part::GlobalData) {
        Ok(n) => n,
        Err(e) => {
            return Err(e);
        },
    };
    let flags = match octets_at(items, 2, V3Part::GlobalData) {
        Ok(bytes) => bytes,
        Err(e) => {
            return Err(e);
        },
    };
    if flags.len() == 0 {
        return Err(Fault::EmptyFlags);
    }
    let flags: u8 = flags[0];
    if flags & (FLAG_AUTH | FLAG_PRIV) != 0 {
        return Err(Fault::NotNoAuthNoPriv);
    }
    match integer_at(items, 3, V3Part::GlobalData) {
        Err(e) => Err(e),
        Ok(model) => if model != SECURITY_USM {
            Err(Fault::NotUsm)
        } else {
            Ok((msg_id as i32, max_size, flags))
        },
    }
}

fn read_usm(bytes: &[u8]) -> (read: Result<(Vec<u8>, i64, i64, String)>)
    ensures
        match read {
            Ok(r) => usm_in(bytes@) == Ok::<(Seq<u8>, i64, i64, Seq<char>), Refusal>(
                (r.0@, r.1, r.2, r.3@),
            ),
            Err(e) => usm_in(bytes@) == Err::<(Seq<u8>, i64, i64, Seq<char>), Refusal>(e@),
        },
{
    let outer = match ber::decode(bytes) {
        Ok(outer) => outer,
        Err(e) => {
            return Err(e);
        },
    };
    let items = match outer.items() {
        Ok(items) => items,
        Err(e) => {
            return Err(e);
        },
    };
    let engine_id = match octets_at(&items, 0, V3Part::SecurityParameters) {
        Ok(bytes) => slice_to_vec(bytes),
        Err(e) => {
            return Err(e);
        },
    };
    let boots: i64 = match integer_at(&items, 1, V3Part::SecurityParameters) {
        Ok(n) => n,
        Err(e) => {
            return Err(e);
        },
    };
    let time: i64 = match integer_at(&items, 2, V3Part::SecurityParameters) {
        Ok(n) => n,
        Err(e) => {
            return Err(e);
        },
    };
    match octets_at(&items, 3, V3Part::SecurityParameters) {
        Ok(user) => Ok((engine_id, boots, time, utf8_lossy(user))),
        Err(e) => Err(e),
    }
}

fn read_scoped(items: Vec<Value>) -> (read: Result<(Vec<u8>, String, Pdu)>)
    ensures
        match read {
            Ok(r) => scoped_in(models(items@)) == Ok::<(Seq<u8>, Seq<char>, PduModel), Refusal>(
                (r.0@, r.1@, r.2@),
            ),
            Err(e) => scoped_in(models(items@)) == Err::<(Seq<u8>, Seq<char>, PduModel), Refusal>(
                e@,
            ),
        },
{
    let mut items = items;
    let engine_id = match octets_at(&items, 0, V3Part::ScopedPdu) {
        Ok(bytes) => slice_to_vec(bytes),
        Err(e) => {
            return Err(e);
        },
    };
    let name = match octets_at(&items, 1, V3Part::ScopedPdu) {
        Ok(bytes) => utf8_lossy(bytes),
        Err(e) => {
            return Err(e);
        },
    };
    if items.len() < 3 {
        return Err(Fault::V3FieldMissing(V3Part::ScopedPdu));
    }
    assert(models(items@)[2] == items@[2]@);
    match Pdu::from_value(items.swap_remove(2)) {
        Ok(pdu) => Ok((engine_id, name, pdu)),
        Err(e) => Err(e),
    }
}

/// One v3 message; refused is what is not a v3 message, a security model
/// that is not USM, and the auth or priv flag set: those stay open, and are
/// refused rather than half-read.
pub fn decode(bytes: &[u8]) -> (message: Result<V3Message>)
    ensures
        match message {
            Ok(m) => v3_in(bytes@) == Ok::<V3Model, Refusal>(m@),
            Err(e) => v3_in(bytes@) == Err::<V3Model, Refusal>(e@),
        },
{
    let outer = match ber::decode(bytes) {
        Ok(outer) => outer,
        Err(e) => {
            return Err(e);
        },
    };
    let mut items = match outer.items() {
        Ok(items) => items,
        Err(e) => {
            return Err(e);
        },
    };
    let ghost all = models(items@);
    match integer_at(&items, 0, V3Part::Message) {
        Err(e) => {
            return Err(e);
        },
        Ok(version) => {
            if version != VERSION_3 {
                return Err(Fault::NotVersion3);
            }
        },
    }
    if items.len() < 2 {
        return Err(Fault::V3FieldMissing(V3Part::Message));
    }
    assert(all[1] == items@[1]@);
    let global = match items[1].clone().items() {
        Ok(global) => global,
        Err(e) => {
            return Err(e);
        },
    };
    let (msg_id, max_size, flags) = match read_global(&global) {
        Ok(read) => read,
        Err(e) => {
            return Err(e);
        },
    };
    let (engine_id, engine_boots, engine_time, user) = match octets_at(
        &items,
        2,
        V3Part::Message,
    ) {
        Err(e) => {
            return Err(e);
        },
        Ok(usm) => match read_usm(usm) {
            Ok(read) => read,
            Err(e) => {
                return Err(e);
            },
        },
    };
    if items.len() < 4 {
        return Err(Fault::V3FieldMissing(V3Part::Message));
    }
    assert(all[3] == items@[3]@);
    let scoped = match items.swap_remove(3).items() {
        Ok(scoped) => scoped,
        Err(e) => {
            return Err(e);
        },
    };
    let (context_engine_id, context_name, pdu) = match read_scoped(scoped) {
        Ok(read) => read,
        Err(e) => {
            return Err(e);
        },
    };
    Ok(
        V3Message {
            msg_id,
            max_size,
            flags,
            engine_id,
            engine_boots,
            engine_time,
            user,
            context_engine_id,
            context_name,
            pdu,
        },
    )
}

// --------------------------------------------------------------------- laws

proof fn lemma_v3_well_formed(m: V3Model)
    requires
        pdu_well_formed(m.pdu),
    ensures
        well_formed(usm_value(m)),
        well_formed(v3_value(m)),
{
    lemma_pdu_value_well_formed(m.pdu);
    let usm = usm_value(m)->Sequence_0;
    assert forall|i: int| 0 <= i < usm.len() implies well_formed(#[trigger] usm[i]) by {}
    assert(all_well_formed(usm));
    let global = global_value(m)->Sequence_0;
    assert forall|i: int| 0 <= i < global.len() implies well_formed(#[trigger] global[i]) by {}
    assert(all_well_formed(global));
    let scoped = scoped_value(m)->Sequence_0;
    assert forall|i: int| 0 <= i < scoped.len() implies well_formed(#[trigger] scoped[i]) by {}
    assert(all_well_formed(scoped));
    let items = v3_value(m)->Sequence_0;
    assert forall|i: int| 0 <= i < items.len() implies well_formed(#[trigger] items[i]) by {
        assert(well_formed(items[1]) && well_formed(items[3]));
    }
    assert(all_well_formed(items));
}

/// The whole is no shorter than the security parameters in it.
proof fn lemma_usm_fits(m: V3Model)
    ensures
        encoding(usm_value(m)).len() <= encoding(v3_value(m)).len(),
{
    let items = v3_value(m)->Sequence_0;
    let usm = encoding(usm_value(m));
    reveal_with_fuel(encodings, 4);
    assert(items.skip(1).skip(1)[0] == items[2]);
    assert(encoding(items[2]) == tlv(OCTET_STRING, usm));
    assert(encodings(items) == encoding(items[0]) + (encoding(items.skip(1)[0]) + (encoding(
        items.skip(1).skip(1)[0],
    ) + encodings(items.skip(1).skip(1).skip(1)))));
}

proof fn lemma_text_is_kept(s: Seq<char>)
    ensures
        lossy_text(encode_utf8(s)) == s,
{
    encode_utf8_valid_utf8(s);
    encode_utf8_decode_utf8(s);
}

proof fn lemma_global_reads_back(m: V3Model)
    requires
        !secured(m.flags),
    ensures
        global_in(global_value(m)->Sequence_0) == Ok::<(i32, i64, u8), Refusal>(
            (m.msg_id, m.max_size, m.flags),
        ),
{
    let items = global_value(m)->Sequence_0;
    assert(items[2] == ValueModel::OctetString(seq![m.flags]));
}

proof fn lemma_usm_reads_back(m: V3Model)
    requires
        pdu_well_formed(m.pdu),
        encoding(v3_value(m)).len() <= usize::MAX,
    ensures
        usm_in(encoding(usm_value(m))) == Ok::<(Seq<u8>, i64, i64, Seq<char>), Refusal>(
            (m.engine_id, m.engine_boots, m.engine_time, m.user),
        ),
{
    lemma_v3_well_formed(m);
    lemma_usm_fits(m);
    lemma_value_opens(usm_value(m));
    lemma_text_is_kept(m.user);
}

proof fn lemma_scoped_reads_back(m: V3Model)
    ensures
        scoped_in(scoped_value(m)->Sequence_0) == Ok::<
            (Seq<u8>, Seq<char>, PduModel),
            Refusal,
        >((m.context_engine_id, m.context_name, m.pdu)),
{
    lemma_text_is_kept(m.context_name);
    law_pdu_reads_back(m.pdu);
}

/// A noAuthNoPriv message reads back from the wire, its version first.
#[verifier::spinoff_prover]
pub proof fn law_v3_round_trips(m: V3Model)
    requires
        !secured(m.flags),
        pdu_well_formed(m.pdu),
        encoding(v3_value(m)).len() <= usize::MAX,
    ensures
        v3_in(encoding(v3_value(m))) == Ok::<V3Model, Refusal>(m),
        version_in(encoding(v3_value(m))) == Ok::<i64, Refusal>(VERSION_3),
{
    lemma_v3_well_formed(m);
    lemma_value_opens(v3_value(m));
    lemma_usm_reads_back(m);
    lemma_global_reads_back(m);
    lemma_scoped_reads_back(m);
    let items = v3_value(m)->Sequence_0;
    assert(items[1] == global_value(m) && items[3] == scoped_value(m));
    assert(v3_of(items) == Ok::<V3Model, Refusal>(m));
}

/// An authenticated or encrypted message is refused, whatever it carries.
#[verifier::spinoff_prover]
pub proof fn law_secured_message_is_refused(m: V3Model)
    requires
        secured(m.flags),
        pdu_well_formed(m.pdu),
        encoding(v3_value(m)).len() <= usize::MAX,
    ensures
        v3_in(encoding(v3_value(m))) == Err::<V3Model, Refusal>(Fault::NotNoAuthNoPriv),
        version_in(encoding(v3_value(m))) == Ok::<i64, Refusal>(VERSION_3),
{
    lemma_v3_well_formed(m);
    lemma_value_opens(v3_value(m));
    let items = v3_value(m)->Sequence_0;
    let global = global_value(m)->Sequence_0;
    assert(global[2] == ValueModel::OctetString(seq![m.flags]));
    assert(global_in(global) == Err::<(i32, i64, u8), Refusal>(Fault::NotNoAuthNoPriv));
    assert(items[1] == global_value(m));
}

/// The auth flag and the priv flag each secure a message; none, or the
/// reportable one, does not.
pub proof fn law_flags(flags: u8)
    ensures
        secured(flags | FLAG_AUTH),
        secured(flags | FLAG_PRIV),
        !secured(0),
        !secured(FLAG_REPORTABLE),
{
    assert((flags | 0x01u8) & (0x01u8 | 0x02u8) != 0) by (bit_vector);
    assert((flags | 0x02u8) & (0x01u8 | 0x02u8) != 0) by (bit_vector);
    assert(0u8 & (0x01u8 | 0x02u8) == 0) by (bit_vector);
    assert(0x04u8 & (0x01u8 | 0x02u8) == 0) by (bit_vector);
}

/// A message that is built, and the answer to one, are never secured.
pub proof fn law_built_messages_are_spoken(
    msg_id: i32,
    engine_id: Seq<u8>,
    user: Seq<char>,
    pdu: PduModel,
    answer: PduModel,
)
    ensures
        ({
            let m = v3_from(msg_id, engine_id, user, pdu);
            &&& !secured(m.flags)
            &&& !secured(v3_answer(m, answer).flags)
        }),
{
    law_flags(0);
}

/// A v3 message that was read is one SNMP has, at noAuthNoPriv.
pub proof fn law_v3_read_is_well_formed(bytes: Seq<u8>)
    ensures
        v3_in(bytes) matches Ok(m) ==> pdu_well_formed(m.pdu) && !secured(m.flags),
{
    ber::law_decoded_is_well_formed(bytes);
    if let Ok(outer) = decoding(bytes) {
        if let Ok(items) = as_items(outer) {
            if items.len() >= 4 {
                assert(well_formed(items[3]));
                if let Ok(scoped) = as_items(items[3]) {
                    if scoped.len() >= 3 {
                        assert(well_formed(scoped[2]));
                        law_pdu_read_is_well_formed(scoped[2]);
                    }
                }
            }
        }
    }
}

/// A message of another version is not read as v3.
#[verifier::spinoff_prover]
pub proof fn law_v2c_is_not_read_as_v3(m: MessageModel)
    requires
        m.version != VERSION_3,
        pdu_well_formed(m.pdu),
        encoding(message_value(m)).len() <= usize::MAX,
    ensures
        v3_in(encoding(message_value(m))) == Err::<V3Model, Refusal>(Fault::NotVersion3),
{
    lemma_message_well_formed(m);
    lemma_value_opens(message_value(m));
    let items = message_value(m)->Sequence_0;
    assert(integer_field(items, 0, V3Part::Message) == Ok::<i64, Refusal>(m.version));
}

/// A v3 message is not read as v2c.
#[verifier::spinoff_prover]
pub proof fn law_v3_is_not_read_as_v2c(m: V3Model)
    requires
        pdu_well_formed(m.pdu),
        encoding(v3_value(m)).len() <= usize::MAX,
    ensures
        message_in(encoding(v3_value(m))) == Err::<MessageModel, Refusal>(Fault::V3ReadAsV2c),
{
    lemma_v3_well_formed(m);
    lemma_value_opens(v3_value(m));
    let items = v3_value(m)->Sequence_0;
    assert(as_integer(items[0]) == Ok::<i64, Refusal>(VERSION_3));
}

} // verus!
