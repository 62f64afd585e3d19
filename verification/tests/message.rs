use xmip_core_transport_snmp::error::{Error, Fault, MessageField, PduField, Shape, V3Part};
use xmip_core_transport_snmp::{PduType, Value};

fn text(of: &str) -> String {
    of.to_string()
}

#[test]
fn each_refusal_says_what_is_amiss() {
    let cases: Vec<(Error, &str)> = vec![
        (Fault::ShortValue, "a value shorter than its length"),
        (Fault::IndefiniteLength, "a length of the indefinite form"),
        (Fault::EmptyInteger, "an INTEGER of no bytes"),
        (Fault::LongInteger, "an INTEGER over eight bytes"),
        (Fault::TrailingBytes, "bytes after the value"),
        (Fault::UnusedTag(0x13), "a tag SNMP does not use: 0x13"),
        (Fault::UnusedTag(0x0a), "a tag SNMP does not use: 0x0a"),
        (Fault::AddressLength, "an IpAddress that is not four bytes"),
        (Fault::LongUnsigned, "an unsigned over eight bytes"),
        (Fault::EmptyOid, "an empty OBJECT IDENTIFIER"),
        (Fault::LargeArc, "an arc over what u32 holds"),
        (Fault::UnendedArc, "an arc that does not end"),
        (Fault::PduTypeNotSpoken(0xA5), "a PDU type not spoken: 0xa5"),
        (
            Fault::BindingWithoutEquals(text("no \"equals\"\t")),
            "a binding without =: \"no \\\"equals\\\"\\t\"",
        ),
        (
            Fault::NameNotOid(text("x.y")),
            "a name that is not an OID: \"x.y\"",
        ),
        (Fault::BindingWithoutName, "a binding without a name"),
        (Fault::BindingWithoutValue, "a binding without a value"),
        (
            Fault::PduNotContextTagged,
            "a PDU that is not context-tagged",
        ),
        (
            Fault::PduWithout(PduField::RequestId),
            "a PDU without request-id",
        ),
        (
            Fault::PduWithout(PduField::ErrorStatus),
            "a PDU without error-status",
        ),
        (
            Fault::PduWithout(PduField::Bindings),
            "a PDU without bindings",
        ),
        (
            Fault::PduFieldOutsideI32(PduField::ErrorIndex),
            "error-index outside i32",
        ),
        (Fault::EmptyMessage, "an empty message"),
        (
            Fault::MessageWithout(MessageField::Version),
            "a message without a version",
        ),
        (
            Fault::MessageWithout(MessageField::Community),
            "a message without a community",
        ),
        (
            Fault::MessageWithout(MessageField::Pdu),
            "a message without a PDU",
        ),
        (
            Fault::MessageVersionNotSpoken(-2),
            "a version not spoken: -2",
        ),
        (Fault::V3ReadAsV2c, "a v3 message read as v2c"),
        (Fault::NotVersion3, "a message that is not version 3"),
        (
            Fault::V3FieldMissing(V3Part::Message),
            "a message with a field missing",
        ),
        (
            Fault::V3FieldMissing(V3Part::GlobalData),
            "a msgGlobalData with a field missing",
        ),
        (
            Fault::V3FieldMissing(V3Part::SecurityParameters),
            "a msgSecurityParameters with a field missing",
        ),
        (
            Fault::V3FieldMissing(V3Part::ScopedPdu),
            "a ScopedPDU with a field missing",
        ),
        (Fault::MsgIdOutsideI32, "msgID outside i32"),
        (Fault::EmptyFlags, "msgFlags of no bytes"),
        (
            Fault::NotNoAuthNoPriv,
            "an authenticated or encrypted message; only noAuthNoPriv is spoken",
        ),
        (Fault::NotUsm, "a security model that is not USM"),
        (Fault::BindingsNotText, "bindings that are not UTF-8 text"),
        (
            Fault::NotSnmpTarget(text("http://x")),
            "not an snmp target: http://x",
        ),
        (
            Fault::TargetWithoutHost(text("snmp://")),
            "an snmp target with no host: snmp://",
        ),
        (
            Fault::SetWithoutOid(text("snmp+set://a")),
            "snmp+set needs /<oid> to set: snmp+set://a",
        ),
        (
            Fault::VersionNotSpoken(text("4")),
            "a version not spoken: 4",
        ),
        (
            Fault::TrapOidNotDotted(text("x")),
            "a trap-oid not dotted: x",
        ),
        (Fault::AnswerToAnother, "a response to another request"),
        (
            Fault::AgentError(17, -1),
            "the agent answered error status 17 at index -1",
        ),
        (
            Fault::NotASet(PduType::GetNextRequest),
            "a get-next where a set was due",
        ),
        (Fault::SetBindsNothing, "a set binding nothing"),
        (
            Fault::OverCeiling(70_000, 65_456),
            "70000 bytes is over the 65456 one SET carries in a datagram",
        ),
    ];
    for (refusal, said) in cases {
        assert_eq!(refusal.message(), said);
        assert!(!refusal.retryable());
    }
}

#[test]
fn a_refusal_shows_the_value_it_found() {
    let values = vec![
        Value::Integer(-5),
        Value::OctetString(vec![]),
        Value::OctetString(vec![1, 255]),
        Value::Null,
        Value::Oid(vec![1, 3, 4_294_967_295]),
        Value::Sequence(vec![]),
        Value::Sequence(vec![Value::Null, Value::Integer(2)]),
        Value::Context(0xA0, vec![Value::Integer(5), Value::Sequence(vec![Value::Null])]),
        Value::Unsigned(67, 10),
        Value::IpAddress([10, 0, 0, 1]),
        Value::Exception(128),
    ];
    for value in values {
        for (shape, name) in [
            (Shape::Integer, "an INTEGER"),
            (Shape::OctetString, "an OCTET STRING"),
            (Shape::ObjectIdentifier, "an OBJECT IDENTIFIER"),
            (Shape::Sequence, "a SEQUENCE"),
        ] {
            let said = format!("expected {name}, found {value:?}");
            let refusal: Error = Fault::Expected(shape, value.clone());
            assert_eq!(refusal.message(), said);
        }
    }
}
