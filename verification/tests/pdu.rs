use xmip_core_transport_snmp::ber;
use xmip_core_transport_snmp::error::{Fault, MessageField, PduField, Shape};
use xmip_core_transport_snmp::lines::{parse_lines, render, render_value};
use xmip_core_transport_snmp::pdu::{
    decode, encode, version_of, SNMP_TRAP_OID, SYS_UPTIME, VERSION_2C, ZERO_DOT_ZERO,
};
use xmip_core_transport_snmp::{Binding, Message, Pdu, PduType, Value};

#[test]
fn a_trap_round_trips_and_its_bindings_read_as_lines() {
    let bindings = parse_lines(
        b"1.3.6.1.4.1.9.9.1.0=link down\n\n1.3.6.1.4.1.9.9.2.0=3\r\n\
          1.3.6.1.4.1.9.9.3.0=0x00ff\n1.3.6.1.4.1.9.9.4.0=\n1.3.6.1.4.1.9.9.5.0=1.3.6",
    )
    .expect("lines");
    assert_eq!(bindings[0].value, Value::OctetString(b"link down".to_vec()));
    assert_eq!(bindings[1].value, Value::Integer(3));
    assert_eq!(bindings[2].value, Value::OctetString(vec![0, 0xff]));
    assert_eq!(bindings[3].value, Value::Null);
    assert_eq!(bindings[4].value, Value::Oid(vec![1, 3, 6]));
    let pdu = Pdu::notification(PduType::Trap, 7, &[1, 3, 6, 1, 4, 1, 9, 0, 1], 42, bindings);
    assert_eq!(pdu.bindings[0].oid, SYS_UPTIME);
    assert_eq!(pdu.trap_oid(), Some(&[1, 3, 6, 1, 4, 1, 9, 0, 1][..]));
    let message = Message::v2c("public", pdu);
    let bytes = encode(&message);
    assert_eq!(version_of(&bytes).expect("version"), VERSION_2C);
    let back = decode(&bytes).expect("decode");
    assert_eq!(back, message);
    let text = String::from_utf8(render(&back.pdu.bindings)).expect("utf8");
    assert_eq!(
        text,
        "1.3.6.1.2.1.1.3.0=42\n1.3.6.1.6.3.1.1.4.1.0=1.3.6.1.4.1.9.0.1\n\
         1.3.6.1.4.1.9.9.1.0=link down\n1.3.6.1.4.1.9.9.2.0=3\n\
         1.3.6.1.4.1.9.9.3.0=0x00ff\n1.3.6.1.4.1.9.9.4.0=\n1.3.6.1.4.1.9.9.5.0=1.3.6\n"
    );
    let again = Pdu::notification(
        PduType::InformRequest,
        8,
        &ZERO_DOT_ZERO,
        0,
        back.pdu.bindings,
    );
    assert_eq!(again.bindings.len(), 7, "already opens with the two");
    let response = again.response(0);
    assert_eq!(response.kind, PduType::GetResponse);
    assert_eq!(response.request_id, 8);
    assert_eq!(render_value(&Value::IpAddress([10, 0, 0, 1])), "10.0.0.1");
    assert_eq!(render_value(&Value::Exception(0x82)), "endOfMibView");
    assert_eq!(render_value(&Value::Sequence(vec![])), "0x3000");
    assert_eq!(PduType::from_tag(0xA1).expect("tag").name(), "get-next");
}

#[test]
fn what_is_not_a_v2c_message_is_refused() {
    assert!(decode(b"hello").is_err(), "not BER");
    assert!(decode(&[0x30, 0]).is_err(), "empty");
    let v1_trap = ber::to_bytes(&Value::Sequence(vec![
        Value::Integer(0),
        Value::OctetString(b"public".to_vec()),
        Value::Context(0xA4, vec![]),
    ]));
    assert!(decode(&v1_trap).is_err(), "a v1 trap PDU");
    let v3 = ber::to_bytes(&Value::Sequence(vec![Value::Integer(3)]));
    assert!(decode(&v3).is_err(), "v3 is not v2c");
    assert_eq!(version_of(&v3).expect("version"), 3);
    let no_bindings = ber::to_bytes(&Value::Sequence(vec![
        Value::Integer(1),
        Value::OctetString(vec![]),
        Value::Context(0xA7, vec![Value::Integer(1), Value::Integer(0)]),
    ]));
    assert!(decode(&no_bindings).is_err());
    assert!(Binding::parse("no equals").is_err());
    assert!(Binding::parse("x.y=1").is_err());
    assert!(parse_lines(&[0xff, b'=']).is_err(), "not text");
    assert!(PduType::from_tag(0xA5).is_err(), "bulk");
}

#[test]
fn each_type_wears_its_tag() {
    for (kind, tag, name) in [
        (PduType::GetRequest, 0xA0, "get"),
        (PduType::GetNextRequest, 0xA1, "get-next"),
        (PduType::GetResponse, 0xA2, "response"),
        (PduType::SetRequest, 0xA3, "set"),
        (PduType::InformRequest, 0xA6, "inform"),
        (PduType::Trap, 0xA7, "trap"),
    ] {
        assert_eq!(kind.tag(), tag);
        assert_eq!(kind.name(), name);
        assert_eq!(PduType::from_tag(tag), Ok(kind));
    }
    assert_eq!(PduType::from_tag(0xA4), Err(Fault::PduTypeNotSpoken(0xA4)));
    assert_eq!(PduType::from_tag(0xA8), Err(Fault::PduTypeNotSpoken(0xA8)));
}

#[test]
fn a_notification_opens_with_the_two() {
    let bare = Pdu::notification(PduType::Trap, 1, &[1, 3, 9], 5, vec![]);
    assert_eq!(
        bare.bindings,
        vec![
            Binding::new(&SYS_UPTIME, Value::Unsigned(0x43, 5)),
            Binding::new(&SNMP_TRAP_OID, Value::Oid(vec![1, 3, 9])),
        ]
    );
    assert_eq!(bare.error_status, 0);
    let timed = Pdu::notification(
        PduType::Trap,
        1,
        &[1, 3, 9],
        5,
        vec![
            Binding::new(&SYS_UPTIME, Value::Integer(9)),
            Binding::new(&[1, 4], Value::Null),
        ],
    );
    assert_eq!(timed.bindings.len(), 3);
    assert_eq!(timed.bindings[0].value, Value::Integer(9), "its own uptime");
    assert_eq!(timed.bindings[1].oid, SNMP_TRAP_OID);
    assert_eq!(timed.bindings[2].oid, [1, 4]);
    let named = Pdu::notification(
        PduType::Trap,
        1,
        &[1, 3, 9],
        5,
        vec![Binding::new(&SNMP_TRAP_OID, Value::Oid(vec![1, 3, 7]))],
    );
    assert_eq!(named.bindings.len(), 2, "second once the uptime is first");
    assert_eq!(named.trap_oid(), Some(&[1, 3, 7][..]));
    let again = Pdu::notification(PduType::Trap, 1, &[2, 2], 77, named.bindings.clone());
    assert_eq!(again.bindings, named.bindings);
}

#[test]
fn a_trap_is_named_by_its_first_trap_oid() {
    let of = |bindings: Vec<Binding>| {
        Pdu::new(PduType::Trap, 1, bindings)
            .trap_oid()
            .map(|arcs| arcs.to_vec())
    };
    assert_eq!(of(vec![]), None);
    assert_eq!(of(vec![Binding::new(&[1, 3], Value::Oid(vec![1]))]), None);
    assert_eq!(
        of(vec![
            Binding::new(&SNMP_TRAP_OID, Value::Integer(1)),
            Binding::new(&SNMP_TRAP_OID, Value::Oid(vec![1])),
        ]),
        None,
        "the first one is no identifier"
    );
}

#[test]
fn a_response_keeps_the_id_and_the_bindings() {
    let mut request = Pdu::new(
        PduType::SetRequest,
        -9,
        vec![Binding::new(&[1, 3], Value::Integer(4))],
    );
    request.error_status = 3;
    request.error_index = 1;
    let response = request.response(17);
    assert_eq!(response.kind, PduType::GetResponse);
    assert_eq!(response.request_id, -9);
    assert_eq!(response.error_status, 17);
    assert_eq!(response.error_index, 0);
    assert_eq!(response.bindings, request.bindings);
}

#[test]
fn each_missing_field_is_named() {
    let pdu = |items: Vec<Value>| Pdu::from_value(Value::Context(0xA7, items));
    let n = Value::Integer;
    assert_eq!(pdu(vec![]), Err(Fault::PduWithout(PduField::RequestId)));
    assert_eq!(
        pdu(vec![n(1)]),
        Err(Fault::PduWithout(PduField::ErrorStatus))
    );
    assert_eq!(
        pdu(vec![n(1), n(0)]),
        Err(Fault::PduWithout(PduField::ErrorIndex))
    );
    assert_eq!(
        pdu(vec![n(1), n(0), n(0)]),
        Err(Fault::PduWithout(PduField::Bindings))
    );
    assert_eq!(
        pdu(vec![n(1 << 31), n(0), n(0)]),
        Err(Fault::PduFieldOutsideI32(PduField::RequestId))
    );
    assert_eq!(
        pdu(vec![n(-1), n(-2_147_483_649)]),
        Err(Fault::PduFieldOutsideI32(PduField::ErrorStatus))
    );
    let bind = |binding: Value| pdu(vec![n(1), n(0), n(0), Value::Sequence(vec![binding])]);
    assert_eq!(
        bind(Value::Sequence(vec![])),
        Err(Fault::BindingWithoutName)
    );
    assert_eq!(
        bind(Value::Sequence(vec![Value::Oid(vec![1, 3])])),
        Err(Fault::BindingWithoutValue)
    );
    assert_eq!(
        bind(Value::Sequence(vec![n(1), n(2)])),
        Err(Fault::Expected(Shape::ObjectIdentifier, n(1)))
    );
    assert_eq!(
        Pdu::from_value(Value::Null),
        Err(Fault::PduNotContextTagged)
    );
    let message = |items: Vec<Value>| decode(&ber::to_bytes(&Value::Sequence(items)));
    assert_eq!(
        message(vec![]),
        Err(Fault::MessageWithout(MessageField::Version))
    );
    assert_eq!(
        message(vec![n(1)]),
        Err(Fault::MessageWithout(MessageField::Community))
    );
    assert_eq!(
        message(vec![n(1), Value::OctetString(vec![])]),
        Err(Fault::MessageWithout(MessageField::Pdu))
    );
    assert_eq!(message(vec![n(3)]), Err(Fault::V3ReadAsV2c));
    assert_eq!(version_of(&[0x30, 0]), Err(Fault::EmptyMessage));
    assert_eq!(
        version_of(&[5, 0]),
        Err(Fault::Expected(Shape::Sequence, Value::Null))
    );
}

#[test]
fn a_message_is_laid_out_as_rfc_3416_has_it() {
    let pdu = Pdu::new(
        PduType::GetRequest,
        1,
        vec![Binding::new(&[1, 3], Value::Null)],
    );
    let message = Message::v2c("ab", pdu);
    assert_eq!(
        encode(&message),
        [
            0x30, 27, 2, 1, 1, 4, 2, b'a', b'b', 0xA0, 18, 2, 1, 1, 2, 1, 0, 2, 1, 0, 0x30, 7,
            0x30, 5, 6, 1, 0x2b, 5, 0
        ]
    );
    assert_eq!(message.clone(), message);
}

#[test]
fn what_does_not_fold_cannot_be_written() {
    let good = Pdu::new(PduType::Trap, 1, vec![Binding::new(&[1, 3], Value::Null)]);
    assert!(good.is_encodable());
    let bad = Pdu::new(
        PduType::Trap,
        1,
        vec![Binding::new(&[u32::MAX, 3], Value::Null)],
    );
    assert!(!bad.is_encodable());
}
