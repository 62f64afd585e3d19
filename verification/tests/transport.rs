use std::time::Duration;

use xmip_core_transport_snmp::error::Fault;
use xmip_core_transport_snmp::pdu::{self, ZERO_DOT_ZERO};
use xmip_core_transport_snmp::transport::hundredths;
use xmip_core_transport_snmp::v3;
use xmip_core_transport_snmp::{
    react, Arrived, Binding, Envelope, Message, Pdu, PduType, Reaction, Request, SnmpTarget,
    SnmpTransport, V3Message, Value, GEN_ERR,
};

const PEER: &str = "127.0.0.1:40000";

fn node() -> SnmpTransport {
    SnmpTransport::new("127.0.0.1:0", "public").timing_out_after(Duration::from_secs(2))
}

fn send(node: &SnmpTransport, target: &str, bytes: &[u8]) -> Request {
    node.request(target, bytes).expect("sending")
}

fn delivered(bytes: &[u8]) -> Arrived {
    match react(PEER, bytes).expect("receiving") {
        Reaction::Deliver(arrived) => arrived,
        other => panic!("{other:?}"),
    }
}

fn acknowledged(bytes: &[u8]) -> (Vec<u8>, Arrived) {
    match react(PEER, bytes).expect("receiving") {
        Reaction::Acknowledge(answer, arrived) => (answer, arrived),
        other => panic!("{other:?}"),
    }
}

#[test]
fn a_trap_arrives_as_its_bindings_with_the_header_in_the_origin() {
    let address = "127.0.0.1:162";
    let trap = send(
        &node(),
        &format!("snmp://{address}?community=ops&trap-oid=1.3.6.1.4.1.9.0.1"),
        b"1.3.6.1.4.1.9.9.1.0=link down\n1.3.6.1.2.1.2.2.1.1.3=3\n",
    );
    assert_eq!(trap.address, address);
    assert!(!trap.awaits_answer());
    let arrived = delivered(&trap.message.encode());
    assert!(
        arrived
            .origin_uri
            .ends_with("?community=ops&version=2c&trap-oid=1.3.6.1.4.1.9.0.1&pdu=trap"),
        "{}",
        arrived.origin_uri
    );
    let text = String::from_utf8(arrived.bytes).expect("text");
    assert!(text.starts_with("1.3.6.1.2.1.1.3.0="), "{text}");
    assert!(text.ends_with(
        "1.3.6.1.6.3.1.1.4.1.0=1.3.6.1.4.1.9.0.1\n\
         1.3.6.1.4.1.9.9.1.0=link down\n1.3.6.1.2.1.2.2.1.1.3=3\n"
    ));
    let bare = send(&node(), address, b"");
    let bare = delivered(&bare.message.encode());
    assert!(bare
        .origin_uri
        .contains("community=public&version=2c&trap-oid=0.0"));
    assert!(bare.origin_uri.starts_with("snmp://127.0.0.1:40000?"));
}

#[test]
fn an_inform_is_acknowledged_and_a_set_waits_for_the_agent() {
    let address = "127.0.0.1:162";
    let near = node();
    let v2c = send(
        &near,
        &format!("snmp+inform://{address}"),
        b"1.3.6.1.4.1.1.0=1\n",
    );
    let (answer, arrived) = acknowledged(&v2c.message.encode());
    assert!(arrived
        .origin_uri
        .contains("community=public&version=2c&trap-oid=0.0&pdu=inform"));
    assert!(v2c.awaits_answer());
    assert!(v2c.answer(&answer).is_ok(), "acknowledged");
    let v3 = send(
        &near,
        &format!("snmp+inform://{address}?version=3&user=ops"),
        b"1.3.6.1.4.1.1.0=2\n",
    );
    let (other, arrived) = acknowledged(&v3.message.encode());
    assert!(arrived
        .origin_uri
        .contains("user=ops&version=3&trap-oid=0.0&pdu=inform"));
    assert!(arrived.bytes.ends_with(b"1.3.6.1.4.1.1.0=2\n"));
    assert!(v3.answer(&other).is_ok(), "both acknowledged");
    assert_eq!(
        v3.answer(&answer),
        Err(Fault::AnswerToAnother),
        "the ids go on by one"
    );

    let set = send(
        &near,
        &format!("snmp+set://{address}/1.3.6.1.4.1.9.9.1.0?community=private"),
        b"new value",
    );
    let again = send(
        &near,
        &format!("snmp+set://{address}/1.3.6.1.4.1.9.9.1.0"),
        b"x",
    );
    for (turn, (request, status)) in [(set, 0), (again, 17)].into_iter().enumerate() {
        assert!(request.awaits_answer());
        let envelope = Envelope::decode(&request.message.encode()).expect("decode");
        let Envelope::V2c(message) = &envelope else {
            panic!("v2c expected")
        };
        let expected = if turn == 0 {
            b"private".to_vec()
        } else {
            b"public".to_vec()
        };
        assert_eq!(message.community, expected);
        assert_eq!(message.pdu.kind, PduType::SetRequest);
        assert_eq!(message.pdu.bindings[0].oid, [1, 3, 6, 1, 4, 1, 9, 9, 1, 0]);
        let answer = envelope.answering(message.pdu.response(status)).encode();
        if turn == 0 {
            assert!(request.answer(&answer).is_ok());
        } else {
            let refused = request.answer(&answer).expect_err("wrongValue");
            assert!(refused.message().contains("error status 17"));
            assert!(!refused.retryable());
        }
    }
}

#[test]
fn what_is_not_snmp_is_refused_and_a_request_is_answered_generr() {
    let error = react(PEER, b"not snmp").expect_err("junk");
    assert!(!error.retryable());
    let get = Pdu::new(
        PduType::GetRequest,
        9,
        vec![Binding::new(&[1, 3], Value::Null)],
    );
    let request = Envelope::V2c(Message::v2c("public", get)).encode();
    let Reaction::Refuse(answer) = react(PEER, &request).expect("get") else {
        panic!("refused expected")
    };
    let answer = Envelope::decode(&answer).expect("decode");
    assert_eq!(answer.pdu().kind, PduType::GetResponse);
    assert_eq!(answer.pdu().error_status, GEN_ERR);
    assert_eq!(answer.pdu().request_id, 9);
    let mut authenticated = V3Message::new(1, b"e", "u", Pdu::new(PduType::Trap, 1, vec![]));
    authenticated.flags = v3::FLAG_AUTH;
    let refused = react(PEER, &v3::encode(&authenticated)).expect_err("noAuthNoPriv only");
    assert!(refused.message().contains("noAuthNoPriv"));
    assert!(node().request("http://x", b"").is_err());
    assert_eq!(node().name(), "snmp");
    assert!(node().speaking_v3("ops").as_engine(b"e").uptime() < 100);
}

#[test]
fn a_response_is_skipped_and_every_request_is_refused() {
    for kind in [
        PduType::GetRequest,
        PduType::GetNextRequest,
        PduType::SetRequest,
    ] {
        let e = Envelope::V2c(Message::v2c("c", Pdu::new(kind, 4, vec![])));
        let request = Request {
            address: String::new(),
            message: e.clone(),
        };
        let Reaction::Refuse(answer) = react(PEER, &e.encode()).expect("request") else {
            panic!("refused expected")
        };
        assert_eq!(request.answer(&answer), Err(Fault::AgentError(GEN_ERR, 0)));
        assert_eq!(react(PEER, &answer), Ok(Reaction::Skip), "no answer to it");
    }
}

#[test]
fn an_answer_keeps_the_wrapping_it_answers() {
    let v3 = Envelope::V3(V3Message::new(
        3,
        b"engine",
        "ops",
        Pdu::new(PduType::InformRequest, 6, vec![]),
    ));
    let answer = v3.answering(v3.pdu().response(0));
    assert_eq!(answer.credential(), "user=ops&version=3");
    assert_eq!(Envelope::decode(&answer.encode()), Ok(answer.clone()));
    let v1 = Envelope::V2c(Message {
        version: 0,
        community: b"\xffx".to_vec(),
        pdu: Pdu::new(PduType::GetRequest, 6, vec![]),
    });
    assert_eq!(v1.credential(), "community=\u{fffd}x&version=2c");
    let Envelope::V2c(answer) = v1.answering(v1.pdu().response(0)) else {
        panic!("v2c expected")
    };
    assert_eq!(answer.version, 0);
    assert_eq!(answer.community, b"\xffx");
}

#[test]
fn a_message_of_a_version_not_spoken_is_refused() {
    for version in [0, 2, 4, -1] {
        let bytes = pdu::encode(&Message {
            version,
            community: b"public".to_vec(),
            pdu: Pdu::new(PduType::Trap, 1, vec![]),
        });
        let refused = Fault::MessageVersionNotSpoken(version);
        assert_eq!(Envelope::decode(&bytes), Err(refused));
        assert!(react(PEER, &bytes).is_err());
        assert!(send(&node(), "snmp+set://nms/1.3", b"")
            .answer(&bytes)
            .is_err());
    }
    let spoken = Envelope::V2c(Message::v2c("public", Pdu::new(PduType::Trap, 1, vec![])));
    assert_eq!(Envelope::decode(&spoken.encode()), Ok(spoken));
}

#[test]
fn the_ids_count_the_sends_whose_target_parses() {
    let near = node();
    let mut next = 1;
    for _ in 0..3 {
        assert!(near.request("http://x", b"").is_err(), "draws no id");
        let trap = send(&near, "nms", b"1.3=1\n");
        assert_eq!(trap.message.pdu().request_id, next);
        assert!(near.request("nms", b"no lines").is_err(), "draws one");
        let set = send(&near, "snmp+set://nms/1.3", b"");
        assert_eq!(set.message.pdu().request_id, next + 2);
        next += 3;
    }
}

#[test]
fn a_trap_without_a_name_has_none_in_the_origin() {
    let e = Envelope::V2c(Message::v2c(
        "c",
        Pdu::new(PduType::Trap, 4, vec![Binding::new(&[1, 3], Value::Null)]),
    ));
    assert_eq!(
        react("10.0.0.1:5", &e.encode()),
        Ok(Reaction::Deliver(Arrived {
            origin_uri: "snmp://10.0.0.1:5?community=c&version=2c&trap-oid=&pdu=trap".to_string(),
            bytes: b"1.3=\n".to_vec(),
        }))
    );
}

#[test]
fn a_message_is_composed_as_the_transport_is_set_up() {
    let v3 = node().speaking_v3("ops").as_engine(b"here");
    let target = SnmpTarget::parse("nms").expect("target");
    let composed = v3.compose(&target, 12, 34, b"1.3=x\n").expect("composed");
    let mut bindings = vec![
        Binding::new(&[1, 3, 6, 1, 2, 1, 1, 3, 0], Value::Unsigned(0x43, 34)),
        Binding::new(
            &[1, 3, 6, 1, 6, 3, 1, 1, 4, 1, 0],
            Value::Oid(ZERO_DOT_ZERO.to_vec()),
        ),
        Binding::new(&[1, 3], Value::OctetString(b"x".to_vec())),
    ];
    assert_eq!(
        composed,
        Envelope::V3(V3Message::new(
            12,
            b"here",
            "ops",
            Pdu::new(PduType::Trap, 12, bindings.clone())
        ))
    );
    let target = SnmpTarget::parse("snmp+inform://nms?version=2c&trap-oid=1.3.5").expect("target");
    bindings[1].value = Value::Oid(vec![1, 3, 5]);
    assert_eq!(
        v3.compose(&target, 12, 34, b"1.3=x\n"),
        Ok(Envelope::V2c(Message::v2c(
            "public",
            Pdu::new(PduType::InformRequest, 12, bindings)
        )))
    );
    let target = SnmpTarget::parse("snmp+set://nms/1.3.7").expect("target");
    assert_eq!(
        v3.compose(&target, 1, 0, b"\xff no lines"),
        Ok(Envelope::V3(V3Message::new(
            1,
            b"here",
            "ops",
            Pdu::new(
                PduType::SetRequest,
                1,
                vec![Binding::new(
                    &[1, 3, 7],
                    Value::OctetString(b"\xff no lines".to_vec())
                )]
            )
        )))
    );
    let target = SnmpTarget::parse("nms").expect("target");
    assert_eq!(
        v3.compose(&target, 1, 0, b"\xff"),
        Err(Fault::BindingsNotText)
    );
}

#[test]
fn a_transport_starts_as_it_is_told() {
    let plain = SnmpTransport::new(String::from("0.0.0.0:162"), "public");
    assert_eq!(plain.bind(), "0.0.0.0:162");
    assert_eq!(plain.timeout(), None);
    assert_eq!(node().timeout(), Some(Duration::from_secs(2)));
    let first = send(&plain, "snmp+set://nms/1.3", b"");
    assert_eq!(first.message.pdu().request_id, 1);
    let second = send(&plain, "snmp+set://nms/1.3", b"");
    assert_eq!(second.message.pdu().request_id, 2);
    let v3 = plain.speaking_v3("ops");
    let Envelope::V3(message) = send(&v3, "snmp+set://nms/1.3", b"").message else {
        panic!("v3 expected")
    };
    assert_eq!(message.engine_id, b"\x80\x00\x00\x00\x04xmip");
    assert_eq!(message.msg_id, 3, "the ids go on");
    assert!(message.pdu.is_encodable());
}

#[test]
fn uptime_is_hundredths_as_far_as_they_go() {
    assert_eq!(hundredths(0), 0);
    assert_eq!(hundredths(9), 0);
    assert_eq!(hundredths(12_345), 1_234);
    assert_eq!(hundredths(u128::from(u64::MAX) * 10 + 9), u64::MAX);
    assert_eq!(hundredths(u128::from(u64::MAX) * 10 + 10), u64::MAX);
    assert_eq!(hundredths(u128::MAX), u64::MAX);
}
