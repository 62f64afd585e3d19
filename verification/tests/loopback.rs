use std::time::Duration;

use xmip_core_transport_snmp::error::{Fault, Shape};
use xmip_core_transport_snmp::loopback::{ceiling, take, COMMUNITY, OID};
use xmip_core_transport_snmp::{
    Arrived, Binding, Envelope, Error, Message, Pdu, PduType, SnmpTransport, Value, MAX_DATAGRAM,
};

const AGENT: &str = "127.0.0.1:50000";
const PEER: &str = "127.0.0.1:40000";

fn round(payload: &[u8]) -> Result<Arrived, Error> {
    let request =
        SnmpTransport::loopback_request(Duration::from_secs(5), AGENT, payload)?;
    assert_eq!(request.address, AGENT);
    assert!(request.awaits_answer());
    let wire = request.message.encode();
    assert!(wire.len() <= MAX_DATAGRAM, "{}", wire.len());
    let taken = take(PEER, &wire)?;
    assert!(taken.answer.len() <= MAX_DATAGRAM);
    request.answer(&taken.answer)?;
    Ok(taken.arrived)
}

#[test]
fn a_stream_rounds_as_one_set_the_agent_answers() {
    let opaque: &[u8] = b"\x00line\r\nbreak \xff";
    let arrived = round(opaque).expect("opaque");
    assert_eq!(arrived.bytes, opaque);
    assert!(
        arrived.origin_uri.starts_with("snmp://127.0.0.1:"),
        "{}",
        arrived.origin_uri
    );
    assert!(
        arrived
            .origin_uri
            .ends_with("?community=private&version=2c&oid=1.3.6.1.4.1.0.1.0&pdu=set"),
        "{}",
        arrived.origin_uri
    );
    let long = vec![0x2a; 5000];
    assert_eq!(round(&long).expect("long").bytes, long);
    assert!(round(b"").expect("empty").bytes.is_empty());
    let loopback = SnmpTransport::loopback(Duration::from_secs(5));
    assert_eq!(loopback.bind(), "127.0.0.1:0");
    assert_eq!(loopback.timeout(), Some(Duration::from_secs(5)));
}

#[test]
fn the_loopback_returns_the_edges_whole_and_refuses_over_the_ceiling() {
    let ceiling = ceiling();
    assert!((65_000..MAX_DATAGRAM).contains(&ceiling), "{ceiling}");
    assert_eq!(ceiling, 65_456);
    let patterned = |len: usize| (0..len).map(|i| (i % 251) as u8).collect::<Vec<u8>>();
    let mut edges = vec![
        ("empty", vec![]),
        ("one", vec![0]),
        ("every byte", (0..=255).collect()),
        ("newline", b"\n".to_vec()),
        ("not text", vec![0xff, 0xfe]),
    ];
    for len in [127, 128, 255, 256, 300, 65_000] {
        edges.push(("length", patterned(len)));
    }
    edges.push(("brim", patterned(ceiling)));
    for (name, payload) in edges {
        assert_eq!(round(&payload).expect(name).bytes, payload, "{name}");
    }
    let over = round(&vec![0; ceiling + 1]).expect_err("over");
    assert_eq!(over, Fault::OverCeiling(ceiling + 1, ceiling));
    assert!(over.message().contains("one SET carries"));
}

#[test]
fn the_brim_fills_the_datagram() {
    let full = SnmpTransport::loopback_request(Duration::from_secs(5), AGENT, &vec![1; ceiling()])
        .expect("brim");
    assert_eq!(full.message.encode().len(), MAX_DATAGRAM);
    let probe = SnmpTransport::loopback_request(Duration::from_secs(5), AGENT, &[0; 300])
        .expect("probe");
    assert_eq!(probe.message.encode().len(), 351);
    assert_eq!(probe.message.pdu().request_id, 1);
    for _ in 0..3 {
        let again = SnmpTransport::loopback_request(Duration::from_secs(5), AGENT, b"x")
            .expect("again");
        let pdu = Pdu::new(
            PduType::SetRequest,
            1,
            vec![Binding::new(&OID, Value::OctetString(b"x".to_vec()))],
        );
        assert_eq!(again.message, Envelope::V2c(Message::v2c(COMMUNITY, pdu)));
    }
}

#[test]
fn the_agent_takes_one_set_of_octets_and_nothing_else() {
    let say = |kind: PduType, bindings: Vec<Binding>| {
        let pdu = Pdu::new(kind, 1, bindings);
        take(PEER, &Envelope::V2c(Message::v2c(COMMUNITY, pdu)).encode())
    };
    assert_eq!(
        say(PduType::GetRequest, vec![]),
        Err(Fault::NotASet(PduType::GetRequest))
    );
    assert_eq!(
        say(PduType::SetRequest, vec![]),
        Err(Fault::SetBindsNothing)
    );
    assert_eq!(
        say(
            PduType::SetRequest,
            vec![Binding::new(&OID, Value::Integer(5))]
        ),
        Err(Fault::Expected(Shape::OctetString, Value::Integer(5)))
    );
    let taken = say(
        PduType::SetRequest,
        vec![
            Binding::new(&[1, 3, 9], Value::OctetString(b"first".to_vec())),
            Binding::new(&OID, Value::Integer(5)),
        ],
    )
    .expect("the first binding is what is taken");
    assert_eq!(taken.arrived.bytes, b"first");
    assert_eq!(
        taken.arrived.origin_uri,
        "snmp://127.0.0.1:40000?community=private&version=2c&oid=1.3.9&pdu=set"
    );
    let answer = Envelope::decode(&taken.answer).expect("answer");
    assert_eq!(answer.pdu().kind, PduType::GetResponse);
    assert_eq!(answer.pdu().error_status, 0);
    assert_eq!(answer.pdu().bindings.len(), 2);
    assert_eq!(take(PEER, b"\x30"), Err(Fault::ShortValue));
}

#[test]
fn an_address_that_is_none_is_refused() {
    assert_eq!(
        SnmpTransport::loopback_request(Duration::from_secs(5), "", b""),
        Err(Fault::TargetWithoutHost(
            "snmp+set:///1.3.6.1.4.1.0.1.0".to_string()
        ))
    );
}
