use xmip_core_transport_snmp::ber::{
    decode, encode, oid_text, parse_oid, read, to_bytes, TAG_COUNTER32, TAG_COUNTER64,
    TAG_GAUGE32, TAG_IP_ADDRESS, TAG_TIME_TICKS,
};
use xmip_core_transport_snmp::error::{Fault, Shape};
use xmip_core_transport_snmp::Value;

fn round_trip(value: &Value) {
    let bytes = to_bytes(value);
    assert_eq!(&decode(&bytes).expect("decode"), value, "{bytes:02x?}");
}

#[test]
fn every_shape_round_trips() {
    for n in [0, 1, 127, 128, 255, 256, -1, -128, -129, i64::MAX, i64::MIN] {
        round_trip(&Value::Integer(n));
    }
    assert_eq!(to_bytes(&Value::Integer(128)), [2, 2, 0, 0x80]);
    assert_eq!(to_bytes(&Value::Integer(-129)), [2, 2, 0xff, 0x7f]);
    for n in [0, 127, 128, u64::from(u32::MAX), u64::MAX] {
        round_trip(&Value::Unsigned(TAG_COUNTER64, n));
    }
    assert_eq!(
        to_bytes(&Value::Unsigned(TAG_GAUGE32, 200)),
        [0x42, 2, 0, 200]
    );
    round_trip(&Value::OctetString(vec![0; 300]));
    assert_eq!(
        to_bytes(&Value::OctetString(vec![0; 300]))[..4],
        [4, 0x82, 1, 44]
    );
    round_trip(&Value::Null);
    round_trip(&Value::Oid(vec![1, 3, 6, 1, 4, 1, 9, 9, 1, 0, 70_000]));
    round_trip(&Value::Oid(vec![2, 999, 3]));
    assert_eq!(to_bytes(&Value::Oid(vec![1, 3, 6, 1])), [6, 3, 0x2b, 6, 1]);
    round_trip(&Value::IpAddress([10, 0, 0, 1]));
    round_trip(&Value::Exception(0x80));
    round_trip(&Value::Context(
        0xA7,
        vec![
            Value::Integer(5),
            Value::Sequence(vec![Value::Sequence(vec![
                Value::Oid(vec![1, 3]),
                Value::Unsigned(TAG_TIME_TICKS, 12),
            ])]),
        ],
    ));
    assert_eq!(oid_text(&[1, 3, 6]), "1.3.6");
    assert_eq!(parse_oid(".1.3.6"), Some(vec![1, 3, 6]));
    assert_eq!(parse_oid("1.x"), None);
}

#[test]
fn what_is_not_ber_is_refused() {
    assert!(decode(&[]).is_err(), "nothing");
    assert!(decode(&[2, 5, 1]).is_err(), "short");
    assert!(decode(&[2, 0x80, 1, 0, 0]).is_err(), "indefinite");
    assert!(decode(&[2, 0]).is_err(), "empty integer");
    assert!(decode(&[2, 9, 0, 0, 0, 0, 0, 0, 0, 0, 0]).is_err(), "nine");
    assert!(decode(&[6, 0]).is_err(), "empty oid");
    assert!(decode(&[6, 1, 0x81]).is_err(), "arc that does not end");
    assert!(decode(&[6, 6, 0x2b, 0xff, 0xff, 0xff, 0xff, 0x7f]).is_err());
    assert!(decode(&[0x40, 3, 1, 2, 3]).is_err(), "three-byte address");
    assert!(decode(&[0x13, 1, b'a']).is_err(), "PrintableString");
    assert!(decode(&[5, 0, 5, 0]).is_err(), "trailing bytes");
    assert!(Value::Null.integer().is_err());
    assert!(Value::Null.octets().is_err());
    assert!(Value::Null.oid().is_err());
    assert!(Value::Null.items().is_err());
}

#[test]
fn each_refusal_names_its_reason() {
    assert_eq!(decode(&[]), Err(Fault::ShortValue));
    assert_eq!(decode(&[2]), Err(Fault::ShortValue));
    assert_eq!(decode(&[2, 5, 1]), Err(Fault::ShortValue));
    assert_eq!(decode(&[4, 0x82, 1]), Err(Fault::ShortValue));
    assert_eq!(decode(&[4, 0xff, 1, 2, 3]), Err(Fault::ShortValue));
    assert_eq!(decode(&[2, 0x80, 1, 0, 0]), Err(Fault::IndefiniteLength));
    assert_eq!(decode(&[2, 0]), Err(Fault::EmptyInteger));
    assert_eq!(
        decode(&[2, 9, 0, 0, 0, 0, 0, 0, 0, 0, 0]),
        Err(Fault::LongInteger)
    );
    assert_eq!(decode(&[6, 0]), Err(Fault::EmptyOid));
    assert_eq!(decode(&[6, 1, 0x81]), Err(Fault::UnendedArc));
    assert_eq!(
        decode(&[6, 6, 0x2b, 0xff, 0xff, 0xff, 0xff, 0x7f]),
        Err(Fault::LargeArc)
    );
    assert_eq!(decode(&[0x40, 3, 1, 2, 3]), Err(Fault::AddressLength));
    assert_eq!(decode(&[0x13, 1, b'a']), Err(Fault::UnusedTag(0x13)));
    assert_eq!(decode(&[5, 0, 5, 0]), Err(Fault::TrailingBytes));
    assert_eq!(
        decode(&[0x46, 10, 0, 1, 0, 0, 0, 0, 0, 0, 0, 0]),
        Err(Fault::LongUnsigned)
    );
    assert_eq!(
        Value::Null.integer(),
        Err(Fault::Expected(Shape::Integer, Value::Null))
    );
    assert_eq!(
        Value::Integer(1).octets(),
        Err(Fault::Expected(Shape::OctetString, Value::Integer(1)))
    );
    assert_eq!(
        Value::Null.oid(),
        Err(Fault::Expected(Shape::ObjectIdentifier, Value::Null))
    );
    assert_eq!(
        Value::Context(0xA0, vec![]).items(),
        Err(Fault::Expected(
            Shape::Sequence,
            Value::Context(0xA0, vec![])
        ))
    );
}

#[test]
fn a_value_is_read_from_where_it_is() {
    let mut bytes = Vec::new();
    encode(&Value::Integer(-3), &mut bytes);
    encode(&Value::IpAddress([192, 168, 0, 1]), &mut bytes);
    assert_eq!(bytes, [2, 1, 0xfd, TAG_IP_ADDRESS, 4, 192, 168, 0, 1]);
    let (first, next) = read(&bytes, 0).expect("first");
    assert_eq!(first, Value::Integer(-3));
    assert_eq!(next, 3);
    let (second, end) = read(&bytes, next).expect("second");
    assert_eq!(second, Value::IpAddress([192, 168, 0, 1]));
    assert_eq!(end, bytes.len());
    assert_eq!(read(&bytes, end), Err(Fault::ShortValue));
    assert_eq!(read(&bytes, 100), Err(Fault::ShortValue));
}

#[test]
fn lengths_take_the_octets_they_need() {
    for (len, opening) in [
        (0usize, vec![4u8, 0]),
        (127, vec![4, 127]),
        (128, vec![4, 0x81, 128]),
        (255, vec![4, 0x81, 255]),
        (256, vec![4, 0x82, 1, 0]),
        (65_535, vec![4, 0x82, 0xff, 0xff]),
        (65_536, vec![4, 0x83, 1, 0, 0]),
    ] {
        let value = Value::OctetString(vec![7; len]);
        let bytes = to_bytes(&value);
        assert_eq!(bytes[..opening.len()], opening[..], "{len}");
        assert_eq!(bytes.len(), opening.len() + len);
        assert_eq!(decode(&bytes), Ok(value));
    }
    assert_eq!(
        decode(&[4, 0x83, 0, 0, 1, 9]),
        Ok(Value::OctetString(vec![9])),
        "a longer length than it needs"
    );
}

#[test]
fn identifiers_fold_their_first_two_arcs() {
    assert_eq!(to_bytes(&Value::Oid(vec![])), [6, 1, 0]);
    assert_eq!(to_bytes(&Value::Oid(vec![1])), [6, 1, 40]);
    assert_eq!(to_bytes(&Value::Oid(vec![2, 999])), [6, 2, 0x88, 0x37]);
    assert_eq!(decode(&[6, 1, 79]), Ok(Value::Oid(vec![1, 39])));
    assert_eq!(decode(&[6, 1, 80]), Ok(Value::Oid(vec![2, 0])));
    round_trip(&Value::Oid(vec![2, u32::MAX - 80]));
    round_trip(&Value::Oid(vec![0, 0, u32::MAX]));
    assert!(Value::Oid(vec![2, u32::MAX - 80]).is_encodable());
    assert!(!Value::Oid(vec![2, u32::MAX - 79]).is_encodable());
    assert!(!Value::Sequence(vec![Value::Oid(vec![u32::MAX])]).is_encodable());
    assert!(Value::Context(0xA0, vec![Value::Null]).is_encodable());
}

#[test]
fn unsigned_numbers_take_a_zero_before_a_top_bit() {
    assert_eq!(to_bytes(&Value::Unsigned(TAG_COUNTER32, 0)), [0x41, 1, 0]);
    assert_eq!(
        to_bytes(&Value::Unsigned(TAG_COUNTER64, u64::MAX)),
        [0x46, 9, 0, 255, 255, 255, 255, 255, 255, 255, 255]
    );
    assert_eq!(
        decode(&[0x43, 2, 1, 0]),
        Ok(Value::Unsigned(TAG_TIME_TICKS, 256))
    );
    assert_eq!(
        decode(&[0x42, 0]),
        Ok(Value::Unsigned(TAG_GAUGE32, 0)),
        "no octets are nought"
    );
}

#[test]
fn dotted_text_reads_back() {
    assert_eq!(oid_text(&[]), "");
    assert_eq!(oid_text(&[0, 4_294_967_295]), "0.4294967295");
    assert_eq!(parse_oid("0.4294967295"), Some(vec![0, u32::MAX]));
    assert_eq!(parse_oid("7"), Some(vec![7]));
    assert_eq!(parse_oid("4294967296"), None);
    assert_eq!(parse_oid(""), None);
    assert_eq!(parse_oid("1..3"), None);
    assert_eq!(parse_oid("1.3."), None);
    assert_eq!(parse_oid("-1"), None);
}

#[test]
fn a_clone_is_the_same_value() {
    let value = Value::Context(
        0xA2,
        vec![
            Value::Oid(vec![1, 3]),
            Value::OctetString(vec![1]),
            Value::Exception(0x81),
            Value::Unsigned(TAG_COUNTER32, 3),
            Value::IpAddress([1, 2, 3, 4]),
            Value::Sequence(vec![Value::Null, Value::Integer(1)]),
        ],
    );
    assert_eq!(value.clone(), value);
}
