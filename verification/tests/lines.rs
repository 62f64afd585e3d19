use xmip_core_transport_snmp::error::Fault;
use xmip_core_transport_snmp::lines::{parse_lines, parse_value, render, render_value};
use xmip_core_transport_snmp::{Binding, Value};

#[test]
fn each_shape_writes_and_reads() {
    assert_eq!(render_value(&Value::IpAddress([10, 0, 0, 1])), "10.0.0.1");
    assert_eq!(render_value(&Value::Exception(0x82)), "endOfMibView");
    assert_eq!(render_value(&Value::Sequence(vec![])), "0x3000");
    assert_eq!(render_value(&Value::OctetString(vec![0, 1])), "0x0001");
    assert_eq!(render_value(&Value::Unsigned(0x41, 7)), "7");
    assert_eq!(parse_value(""), Value::Null);
    assert_eq!(parse_value("-3\r"), Value::Integer(-3));
    assert_eq!(parse_value("0x00ff"), Value::OctetString(vec![0, 0xff]));
    assert_eq!(parse_value("0xzz"), Value::OctetString(b"0xzz".to_vec()));
    assert_eq!(parse_value("1.3.6"), Value::Oid(vec![1, 3, 6]));
    assert_eq!(parse_value("up"), Value::OctetString(b"up".to_vec()));
    let bindings = parse_lines(b"1.3=a\n\n1.4=2\r\n").expect("lines");
    assert_eq!(bindings.len(), 2);
    assert_eq!(render(&bindings), b"1.3=a\n1.4=2\n");
    assert!(parse_lines(&[0xff, b'=']).is_err(), "not text");
    assert!(parse_lines(b"1.3").is_err(), "no equals");
}

#[test]
fn values_that_keep_their_meaning_read_back() {
    for value in [
        Value::Integer(0),
        Value::Integer(i64::MIN),
        Value::Integer(i64::MAX),
        Value::Null,
        Value::Oid(vec![1, 3]),
        Value::Oid(vec![0, u32::MAX, 7]),
        Value::OctetString(vec![]),
        Value::OctetString(vec![0xff, 0x00]),
        Value::OctetString(b"link down".to_vec()),
        Value::OctetString("n\u{e9}v\u{20ac}".as_bytes().to_vec()),
        Value::OctetString(b"a=b".to_vec()),
        Value::OctetString(b"two\nlines".to_vec()),
    ] {
        assert_eq!(parse_value(&render_value(&value)), value, "{value:?}");
    }
}

#[test]
fn ambiguous_values_read_as_what_they_look_like() {
    for (value, read) in [
        (Value::OctetString(b"5".to_vec()), Value::Integer(5)),
        (Value::OctetString(b"1.3".to_vec()), Value::Oid(vec![1, 3])),
        (
            Value::OctetString(b"0xff".to_vec()),
            Value::OctetString(vec![0xff]),
        ),
        (Value::Unsigned(0x41, 7), Value::Integer(7)),
        (
            Value::Unsigned(0x46, u64::MAX),
            Value::OctetString(b"18446744073709551615".to_vec()),
        ),
        (
            Value::IpAddress([10, 0, 0, 1]),
            Value::Oid(vec![10, 0, 0, 1]),
        ),
        (
            Value::Sequence(vec![Value::Null]),
            Value::OctetString(vec![0x30, 2, 5, 0]),
        ),
        (Value::Oid(vec![7]), Value::Integer(7)),
        (
            Value::Exception(0x80),
            Value::OctetString(b"noSuchObject".to_vec()),
        ),
    ] {
        assert_eq!(parse_value(&render_value(&value)), read, "{value:?}");
    }
}

#[test]
fn text_is_shown_unless_it_is_empty_or_holds_a_control_character() {
    assert_eq!(render_value(&Value::OctetString(vec![])), "0x");
    assert_eq!(render_value(&Value::OctetString(b"a b".to_vec())), "a b");
    assert_eq!(render_value(&Value::OctetString(b"a\tb".to_vec())), "0x610962");
    assert_eq!(
        render_value(&Value::OctetString("\u{85}".as_bytes().to_vec())),
        "0xc285"
    );
    assert_eq!(
        render_value(&Value::OctetString("\u{a0}".as_bytes().to_vec())),
        "\u{a0}"
    );
    assert_eq!(render_value(&Value::OctetString(vec![0xc3])), "0xc3");
    assert_eq!(render_value(&Value::Exception(0x80)), "noSuchObject");
    assert_eq!(render_value(&Value::Exception(0x81)), "noSuchInstance");
    assert_eq!(render_value(&Value::Null), "");
    assert_eq!(render_value(&Value::Integer(-12)), "-12");
    assert_eq!(
        render_value(&Value::Context(0xA0, vec![Value::Integer(5)])),
        "0xa003020105"
    );
}

#[test]
fn numbers_and_hex_are_read_in_every_form() {
    assert_eq!(parse_value("-0"), Value::Integer(0));
    assert_eq!(
        parse_value("9223372036854775808"),
        Value::OctetString(b"9223372036854775808".to_vec())
    );
    assert_eq!(
        parse_value("-9223372036854775808"),
        Value::Integer(i64::MIN)
    );
    assert_eq!(parse_value("0xAbCd"), Value::OctetString(vec![0xab, 0xcd]));
    assert_eq!(parse_value("0x"), Value::OctetString(vec![]));
    assert_eq!(parse_value("0x123"), Value::OctetString(b"0x123".to_vec()));
    assert_eq!(parse_value(" 5"), Value::OctetString(b" 5".to_vec()));
    assert_eq!(parse_value("-"), Value::OctetString(b"-".to_vec()));
    assert_eq!(parse_value("\r\r"), Value::Null);
    assert_eq!(parse_value(".5"), Value::Oid(vec![5]));
}

#[test]
fn a_stream_reads_back() {
    let bindings = vec![
        Binding::new(&[1, 3, 6], Value::OctetString(b"up = yes".to_vec())),
        Binding::new(&[1], Value::Null),
        Binding::new(&[2, 5], Value::OctetString(vec![0, 1, 2])),
    ];
    let stream = render(&bindings);
    assert_eq!(stream, b"1.3.6=up = yes\n1=\n2.5=0x000102\n");
    assert_eq!(parse_lines(&stream), Ok(bindings));
    assert_eq!(parse_lines(b""), Ok(vec![]));
    assert_eq!(parse_lines(b" \n\t\r\n\xc2\xa0\n"), Ok(vec![]), "blank");
    assert_eq!(render(&[]), b"");
}

#[test]
fn a_line_needs_a_name_and_an_equals() {
    assert_eq!(
        Binding::parse(" 1.3 = x"),
        Ok(Binding::new(
            &[1, 3],
            Value::OctetString(b" x".to_vec())
        ))
    );
    assert_eq!(
        Binding::parse("no equals"),
        Err(Fault::BindingWithoutEquals("no equals".to_string()))
    );
    assert_eq!(
        Binding::parse("x.y=1"),
        Err(Fault::NameNotOid("x.y".to_string()))
    );
    assert_eq!(
        Binding::parse("=1"),
        Err(Fault::NameNotOid(String::new()))
    );
    assert_eq!(
        parse_lines(&[0xff, b'=']),
        Err(Fault::BindingsNotText)
    );
    assert_eq!(Binding::new(&[1, 3], Value::Integer(2)).line(), "1.3=2");
}

#[test]
fn streams_join_and_hold_one_line_for_each_binding() {
    let a = || {
        vec![
            Binding::new(&[1, 3], Value::OctetString(b"two\nlines\r".to_vec())),
            Binding::new(&[1, 4], Value::OctetString("n\u{e9}\u{20ac}".as_bytes().to_vec())),
        ]
    };
    let b = || vec![Binding::new(&[1, 5], Value::OctetString(vec![0x0a]))];
    let mut all = a();
    all.extend(b());
    let mut joined = render(&a());
    joined.extend(render(&b()));
    assert_eq!(render(&all), joined);
    assert_eq!(joined.iter().filter(|octet| **octet == b'\n').count(), 3);
    let text = String::from_utf8(joined).expect("utf8");
    assert!(text.chars().all(|c| c == '\n' || !c.is_control()));
    let lines: Vec<&str> = text.lines().collect();
    assert_eq!(
        lines,
        vec!["1.3=0x74776f0a6c696e65730d", "1.4=n\u{e9}\u{20ac}", "1.5=0x0a"]
    );
}

#[test]
fn blank_lines_and_carriage_returns_change_nothing() {
    let bindings = parse_lines(b"1.3=a\n1.4=2\n1.5=\n").expect("plain");
    for laid_out in [
        &b"1.3=a\r\n1.4=2\r\n1.5=\r\n"[..],
        b"\n1.3=a\n \t\n\n1.4=2\n\r\n1.5=\n\n",
        b"\r\n1.3=a\r\n\r\r\n1.4=2\n \r\n1.5=\r\n",
    ] {
        assert_eq!(parse_lines(laid_out).as_ref(), Ok(&bindings));
    }
    for laid_out in [&b"1.3=a\nno equals\n"[..], b"1.3=a\r\n\nno equals\r\n"] {
        assert_eq!(
            parse_lines(laid_out),
            Err(Fault::BindingWithoutEquals("no equals".to_string()))
        );
    }
}
