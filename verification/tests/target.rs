use xmip_core_transport_snmp::error::Fault;
use xmip_core_transport_snmp::pdu::{VERSION_2C, VERSION_3};
use xmip_core_transport_snmp::{Action, SnmpTarget};

#[test]
fn each_form_reads() {
    let trap = SnmpTarget::parse("snmp://nms:162?community=ops&trap-oid=1.3.6.1.4.1.9.0.1")
        .expect("trap");
    assert_eq!(trap.address, "nms:162");
    assert_eq!(trap.action, Action::Trap);
    assert_eq!(trap.community.as_deref(), Some("ops"));
    assert_eq!(trap.trap_oid, Some(vec![1, 3, 6, 1, 4, 1, 9, 0, 1]));
    assert_eq!(trap.version, None);
    let set = SnmpTarget::parse("snmp+set://agent:161/1.3.6.1.4.1.9.9.1.0?community=private")
        .expect("set");
    assert_eq!(
        set.action,
        Action::SetObject(vec![1, 3, 6, 1, 4, 1, 9, 9, 1, 0])
    );
    let inform = SnmpTarget::parse("snmp+inform://nms:162?version=3&user=xmip").expect("inform");
    assert_eq!(inform.action, Action::Inform);
    assert_eq!(inform.version, Some(VERSION_3));
    assert_eq!(inform.user.as_deref(), Some("xmip"));
    let bare = SnmpTarget::parse("127.0.0.1:162").expect("bare");
    assert_eq!(bare.address, "127.0.0.1:162");
    assert_eq!(bare.action, Action::Trap);
}

#[test]
fn what_is_not_an_snmp_target_is_refused() {
    assert!(SnmpTarget::parse("http://nms").is_err());
    assert!(SnmpTarget::parse("snmp://").is_err());
    assert!(SnmpTarget::parse("snmp+set://agent:161").is_err(), "no oid");
    assert!(SnmpTarget::parse("snmp+set://agent:161/x").is_err());
    assert!(SnmpTarget::parse("snmp://nms?version=4").is_err());
    assert!(SnmpTarget::parse("snmp://nms?trap-oid=x").is_err());
}

#[test]
fn each_refused_target_names_its_reason() {
    let refused = |target: &str| SnmpTarget::parse(target).expect_err(target);
    assert_eq!(
        refused("http://nms"),
        Fault::NotSnmpTarget("http://nms".to_string())
    );
    assert_eq!(
        refused("snmp://?community=x"),
        Fault::TargetWithoutHost("snmp://?community=x".to_string())
    );
    assert_eq!(refused(""), Fault::TargetWithoutHost(String::new()));
    assert_eq!(
        refused("snmp+set://agent:161"),
        Fault::SetWithoutOid("snmp+set://agent:161".to_string())
    );
    assert_eq!(
        refused("snmp+set://agent:161/1"),
        Fault::SetWithoutOid("snmp+set://agent:161/1".to_string()),
        "one arc names nothing"
    );
    assert_eq!(
        refused("snmp://nms?version=4&trap-oid=x"),
        Fault::VersionNotSpoken("4".to_string()),
        "the version is looked at first"
    );
    assert_eq!(
        refused("snmp://nms?trap-oid=x"),
        Fault::TrapOidNotDotted("x".to_string())
    );
}

#[test]
fn the_query_gives_the_first_value_of_each_key() {
    let parse = |query: &str| SnmpTarget::parse(&format!("nms{query}")).expect(query);
    assert_eq!(
        parse("?community=a&community=b").community.as_deref(),
        Some("a")
    );
    assert_eq!(
        parse("?communityx=a&community=b").community.as_deref(),
        Some("b"),
        "a longer key is another key"
    );
    assert_eq!(parse("?community").community, None);
    assert_eq!(parse("?community=").community.as_deref(), Some(""));
    assert_eq!(
        parse("?community=a=b?c/d").community.as_deref(),
        Some("a=b?c/d")
    );
    assert_eq!(parse("?&&user=u").user.as_deref(), Some("u"));
    for (text, version) in [("2c", VERSION_2C), ("3", VERSION_3)] {
        assert_eq!(
            parse(&format!("?version={text}")).version,
            Some(version),
            "{text}"
        );
    }
    assert_eq!(parse("?trap-oid=.1.3").trap_oid, Some(vec![1, 3]));
}

#[test]
fn a_version_is_2c_or_3_and_nothing_else() {
    for text in ["1", "2", "4", "2C", "v3", "3 ", ""] {
        assert_eq!(
            SnmpTarget::parse(&format!("snmp://nms?version={text}")),
            Err(Fault::VersionNotSpoken(text.to_string())),
            "{text}"
        );
    }
}

#[test]
fn plain_targets_leave_the_rest_as_configured() {
    for (target, action) in [
        ("nms:162", Action::Trap),
        ("snmp://nms:162", Action::Trap),
        ("snmp+trap://nms:162", Action::Trap),
        ("snmp+inform://nms:162", Action::Inform),
        ("snmp+set://nms:162/1.3", Action::SetObject(vec![1, 3])),
        ("snmp://nms:162/ignored", Action::Trap),
    ] {
        let parsed = SnmpTarget::parse(target).expect(target);
        assert_eq!(
            parsed,
            SnmpTarget {
                address: "nms:162".to_string(),
                action,
                community: None,
                version: None,
                user: None,
                trap_oid: None,
            },
            "{target}"
        );
        assert_eq!(parsed.clone(), parsed);
    }
}
