use xmip_core_transport_snmp::ber;
use xmip_core_transport_snmp::error::{Fault, V3Part};
use xmip_core_transport_snmp::pdu::ZERO_DOT_ZERO;
use xmip_core_transport_snmp::v3::{
    decode, encode, FLAG_AUTH, FLAG_PRIV, FLAG_REPORTABLE, MAX_SIZE,
};
use xmip_core_transport_snmp::{Binding, Pdu, PduType, V3Message, Value};

fn inform() -> V3Message {
    let pdu = Pdu::notification(
        PduType::InformRequest,
        5,
        &ZERO_DOT_ZERO,
        10,
        vec![Binding::new(&[1, 3, 6, 1, 4, 1, 1, 0], Value::Integer(1))],
    );
    V3Message::new(77, b"\x80\x00\x00\x00\x04xmip", "ops", pdu)
}

#[test]
fn a_noauthnopriv_message_round_trips_and_its_answer_is_not_reportable() {
    let message = inform();
    assert_eq!(message.flags, FLAG_REPORTABLE);
    let bytes = encode(&message);
    assert_eq!(
        xmip_core_transport_snmp::pdu::version_of(&bytes).expect("version"),
        3
    );
    let back = decode(&bytes).expect("decode");
    assert_eq!(back, message);
    let answer = back.answering(back.pdu.response(0));
    assert_eq!(answer.flags, 0);
    assert_eq!(answer.msg_id, 77);
    assert_eq!(answer.pdu.kind, PduType::GetResponse);
    let trap = V3Message::new(1, b"e", "u", Pdu::new(PduType::Trap, 1, vec![]));
    assert_eq!(trap.flags, 0, "a trap is not reportable");
}

#[test]
fn authenticated_encrypted_or_other_models_are_refused() {
    let mut message = inform();
    message.flags = FLAG_AUTH | FLAG_REPORTABLE;
    let refused = decode(&encode(&message)).expect_err("auth");
    assert!(refused.message().contains("noAuthNoPriv"));
    assert!(!refused.retryable());
    message.flags = FLAG_PRIV;
    assert!(decode(&encode(&message)).is_err(), "priv");
    let v2c = xmip_core_transport_snmp::pdu::encode(&xmip_core_transport_snmp::Message::v2c(
        "public",
        inform().pdu,
    ));
    assert!(decode(&v2c).is_err(), "v2c is not v3");
    let bare = ber::to_bytes(&Value::Sequence(vec![Value::Integer(3)]));
    assert!(decode(&bare).is_err(), "global data missing");
    let other_model = ber::to_bytes(&Value::Sequence(vec![
        Value::Integer(3),
        Value::Sequence(vec![
            Value::Integer(1),
            Value::Integer(484),
            Value::OctetString(vec![0]),
            Value::Integer(1),
        ]),
    ]));
    assert!(decode(&other_model).is_err(), "SNMPv1 security model");
}

fn message_of(items: Vec<Value>) -> Vec<u8> {
    ber::to_bytes(&Value::Sequence(items))
}

fn global(id: i64, flags: Vec<u8>, model: i64) -> Value {
    Value::Sequence(vec![
        Value::Integer(id),
        Value::Integer(484),
        Value::OctetString(flags),
        Value::Integer(model),
    ])
}

fn usm(user: &[u8]) -> Value {
    Value::OctetString(ber::to_bytes(&Value::Sequence(vec![
        Value::OctetString(b"engine".to_vec()),
        Value::Integer(2),
        Value::Integer(3),
        Value::OctetString(user.to_vec()),
        Value::OctetString(vec![]),
        Value::OctetString(vec![]),
    ])))
}

fn scoped() -> Value {
    Value::Sequence(vec![
        Value::OctetString(b"other".to_vec()),
        Value::OctetString(b"context".to_vec()),
        Pdu::new(PduType::Trap, 9, vec![]).to_value(),
    ])
}

#[test]
fn every_field_is_read() {
    let read = decode(&message_of(vec![
        Value::Integer(3),
        global(-8, vec![FLAG_REPORTABLE], 3),
        usm(b"ops"),
        scoped(),
    ]))
    .expect("decode");
    assert_eq!(read.msg_id, -8);
    assert_eq!(read.max_size, 484);
    assert_eq!(read.flags, FLAG_REPORTABLE);
    assert_eq!(read.engine_id, b"engine");
    assert_eq!(read.engine_boots, 2);
    assert_eq!(read.engine_time, 3);
    assert_eq!(read.user, "ops");
    assert_eq!(read.context_engine_id, b"other");
    assert_eq!(read.context_name, "context");
    assert_eq!(read.pdu.request_id, 9);
    assert_eq!(read.clone(), read);
}

#[test]
fn a_user_that_is_not_text_is_repaired() {
    let read = decode(&message_of(vec![
        Value::Integer(3),
        global(1, vec![0], 3),
        usm(b"o\xffs"),
        scoped(),
    ]))
    .expect("decode");
    assert_eq!(read.user, "o\u{fffd}s");
}

#[test]
fn each_refusal_of_v3_names_its_reason() {
    let of = |items: Vec<Value>| decode(&message_of(items)).expect_err("refused");
    let three = || Value::Integer(3);
    let missing = Fault::V3FieldMissing;
    assert_eq!(of(vec![]), missing(V3Part::Message));
    assert_eq!(of(vec![Value::Integer(1)]), Fault::NotVersion3);
    assert_eq!(of(vec![three()]), missing(V3Part::Message));
    assert_eq!(
        of(vec![three(), Value::Sequence(vec![])]),
        missing(V3Part::GlobalData)
    );
    assert_eq!(
        of(vec![three(), global(1 << 40, vec![0], 3)]),
        Fault::MsgIdOutsideI32
    );
    assert_eq!(of(vec![three(), global(1, vec![], 3)]), Fault::EmptyFlags);
    assert_eq!(
        of(vec![three(), global(1, vec![FLAG_AUTH], 1)]),
        Fault::NotNoAuthNoPriv
    );
    assert_eq!(
        of(vec![three(), global(1, vec![FLAG_PRIV | 0xf0], 3)]),
        Fault::NotNoAuthNoPriv
    );
    assert_eq!(of(vec![three(), global(1, vec![0xfc], 1)]), Fault::NotUsm);
    assert_eq!(
        of(vec![three(), global(1, vec![0], 3)]),
        missing(V3Part::Message)
    );
    assert_eq!(
        of(vec![
            three(),
            global(1, vec![0], 3),
            Value::OctetString(vec![0x30, 0])
        ]),
        missing(V3Part::SecurityParameters)
    );
    assert_eq!(
        of(vec![three(), global(1, vec![0], 3), usm(b"u")]),
        missing(V3Part::Message)
    );
    assert_eq!(
        of(vec![
            three(),
            global(1, vec![0], 3),
            usm(b"u"),
            Value::Sequence(vec![
                Value::OctetString(vec![]),
                Value::OctetString(vec![])
            ])
        ]),
        missing(V3Part::ScopedPdu)
    );
}

#[test]
fn a_new_message_speaks_for_its_engine() {
    let message = inform();
    assert_eq!(message.max_size, MAX_SIZE);
    assert_eq!(message.engine_id, b"\x80\x00\x00\x00\x04xmip");
    assert_eq!(message.context_engine_id, message.engine_id);
    assert_eq!(message.context_name, "");
    assert_eq!(message.engine_boots, 0);
    assert_eq!(message.engine_time, 0);
    let answer = message.answering(message.pdu.response(2));
    assert_eq!(answer.user, "ops");
    assert_eq!(answer.engine_id, message.engine_id);
    assert_eq!(answer.pdu.error_status, 2);
}
