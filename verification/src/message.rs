//! What a refusal says.
use vstd::prelude::*;

use crate::ber::{lemma_context_model, lemma_sequence_model, models, Value, ValueModel};
use crate::error::{Fault, MessageField, PduField, Refusal, Shape, V3Part};
use crate::hex::{hex_char, push_octet};
use crate::pdu::name_of;
use crate::text::{decimal, push_decimal, push_signed, signed_decimal};

verus! {

/// A text as `Debug` quotes it: in double quotes, what does not print
/// escaped.
pub uninterp spec fn quoted_text(text: Seq<char>) -> Seq<char>;

/// `Debug` of `str`: the text quoted, in a way that depends on the text
/// alone. Which characters are escaped, and how, is left unsaid.
#[verifier::external_body]
fn quoted(text: &str) -> (quote: String)
    ensures
        quote@ == quoted_text(text@),
{
    format!("{text:?}")
}

// ------------------------------------------------------------------- values

/// Numbers, a comma and a space between one and the next.
pub open spec fn number_list(numbers: Seq<nat>) -> Seq<char>
    decreases numbers.len(),
{
    if numbers.len() == 0 {
        seq![]
    } else if numbers.len() == 1 {
        decimal(numbers[0])
    } else {
        decimal(numbers[0]) + ", "@ + number_list(numbers.skip(1))
    }
}

/// A value as a refusal shows it: its shape, and in brackets what is in it.
pub open spec fn shown(v: ValueModel) -> Seq<char>
    decreases v,
{
    match v {
        ValueModel::Integer(n) => "Integer("@ + signed_decimal(n as int) + ")"@,
        ValueModel::OctetString(bytes) => "OctetString(["@ + number_list(
            bytes.map_values(|b: u8| b as nat),
        ) + "])"@,
        ValueModel::Null => "Null"@,
        ValueModel::Oid(arcs) => "Oid(["@ + number_list(arcs.map_values(|a: u32| a as nat))
            + "])"@,
        ValueModel::Sequence(items) => "Sequence(["@ + all_shown(items) + "])"@,
        ValueModel::Context(tag, items) => "Context("@ + decimal(tag as nat) + ", ["@ + all_shown(
            items,
        ) + "])"@,
        ValueModel::Unsigned(tag, n) => "Unsigned("@ + decimal(tag as nat) + ", "@ + decimal(
            n as nat,
        ) + ")"@,
        ValueModel::IpAddress(octets) => "IpAddress(["@ + number_list(
            octets.map_values(|b: u8| b as nat),
        ) + "])"@,
        ValueModel::Exception(tag) => "Exception("@ + decimal(tag as nat) + ")"@,
    }
}

/// Values as a refusal shows them, a comma and a space between one and the
/// next.
pub open spec fn all_shown(items: Seq<ValueModel>) -> Seq<char>
    decreases items,
{
    if items.len() == 0 {
        seq![]
    } else if items.len() == 1 {
        shown(items[0])
    } else {
        shown(items[0]) + ", "@ + all_shown(items.subrange(1, items.len() as int))
    }
}

fn push_octets(out: &mut String, octets: &[u8])
    ensures
        final(out)@ == old(out)@ + number_list(octets@.map_values(|b: u8| b as nat)),
{
    let ghost all = octets@.map_values(|b: u8| b as nat);
    assert(all.skip(0) =~= all);
    for i in 0..octets.len()
        invariant
            all == octets@.map_values(|b: u8| b as nat),
            old(out)@ + number_list(all) =~= out@ + number_list(all.skip(i as int)),
    {
        assert(all.skip(i as int).skip(1) =~= all.skip(i + 1));
        push_decimal(out, octets[i] as u64);
        if i + 1 < octets.len() {
            out.append(", ");
        }
    }
    assert(all.skip(all.len() as int) =~= Seq::<nat>::empty());
    assert(out@ + number_list(Seq::<nat>::empty()) =~= out@);
}

fn push_arcs(out: &mut String, arcs: &[u32])
    ensures
        final(out)@ == old(out)@ + number_list(arcs@.map_values(|a: u32| a as nat)),
{
    let ghost all = arcs@.map_values(|a: u32| a as nat);
    assert(all.skip(0) =~= all);
    for i in 0..arcs.len()
        invariant
            all == arcs@.map_values(|a: u32| a as nat),
            old(out)@ + number_list(all) =~= out@ + number_list(all.skip(i as int)),
    {
        assert(all.skip(i as int).skip(1) =~= all.skip(i + 1));
        push_decimal(out, arcs[i] as u64);
        if i + 1 < arcs.len() {
            out.append(", ");
        }
    }
    assert(all.skip(all.len() as int) =~= Seq::<nat>::empty());
    assert(out@ + number_list(Seq::<nat>::empty()) =~= out@);
}

fn push_items(out: &mut String, items: &Vec<Value>)
    ensures
        final(out)@ == old(out)@ + all_shown(models(items@)),
    decreases items,
{
    let ghost all = models(items@);
    assert(all.skip(0) =~= all);
    for i in 0..items.len()
        invariant
            all == models(items@),
            old(out)@ + all_shown(all) =~= out@ + all_shown(all.skip(i as int)),
    {
        let ghost rest = all.skip(i as int);
        assert(rest.subrange(1, rest.len() as int) =~= all.skip(i + 1));
        assert(rest[0] == items@[i as int]@);
        assert(decreases_to!(*items => items[i as int]));
        push_shown(out, &items[i]);
        if i + 1 < items.len() {
            out.append(", ");
        }
    }
    assert(all.skip(all.len() as int) =~= Seq::<ValueModel>::empty());
    assert(out@ + all_shown(Seq::<ValueModel>::empty()) =~= out@);
}

fn push_shown(out: &mut String, value: &Value)
    ensures
        final(out)@ == old(out)@ + shown(value@),
    decreases value,
{
    match value {
        Value::Integer(n) => {
            out.append("Integer(");
            push_signed(out, *n);
            out.append(")");
        },
        Value::OctetString(bytes) => {
            out.append("OctetString([");
            push_octets(out, bytes.as_slice());
            out.append("])");
        },
        Value::Null => {
            out.append("Null");
        },
        Value::Oid(arcs) => {
            out.append("Oid([");
            push_arcs(out, arcs.as_slice());
            out.append("])");
        },
        Value::Sequence(items) => {
            proof {
                lemma_sequence_model(*items);
            }
            out.append("Sequence([");
            push_items(out, items);
            out.append("])");
        },
        Value::Context(tag, items) => {
            proof {
                lemma_context_model(*tag, *items);
            }
            out.append("Context(");
            push_decimal(out, *tag as u64);
            out.append(", [");
            push_items(out, items);
            out.append("])");
        },
        Value::Unsigned(tag, n) => {
            out.append("Unsigned(");
            push_decimal(out, *tag as u64);
            out.append(", ");
            push_decimal(out, *n);
            out.append(")");
        },
        Value::IpAddress(octets) => {
            out.append("IpAddress([");
            push_octets(out, octets.as_slice());
            out.append("])");
        },
        Value::Exception(tag) => {
            out.append("Exception(");
            push_decimal(out, *tag as u64);
            out.append(")");
        },
    }
    assert(out@ =~= old(out)@ + shown(value@));
}

// ----------------------------------------------------------------- refusals

/// The shape that was expected, as a refusal names it.
pub open spec fn shape_name(of: Shape) -> Seq<char> {
    match of {
        Shape::Integer => "an INTEGER"@,
        Shape::OctetString => "an OCTET STRING"@,
        Shape::ObjectIdentifier => "an OBJECT IDENTIFIER"@,
        Shape::Sequence => "a SEQUENCE"@,
    }
}

fn shape_named(of: Shape) -> (name: &'static str)
    ensures
        name@ == shape_name(of),
{
    match of {
        Shape::Integer => "an INTEGER",
        Shape::OctetString => "an OCTET STRING",
        Shape::ObjectIdentifier => "an OBJECT IDENTIFIER",
        Shape::Sequence => "a SEQUENCE",
    }
}

/// The field of a PDU, as a refusal names it.
pub open spec fn pdu_field_name(of: PduField) -> Seq<char> {
    match of {
        PduField::RequestId => "request-id"@,
        PduField::ErrorStatus => "error-status"@,
        PduField::ErrorIndex => "error-index"@,
        PduField::Bindings => "bindings"@,
    }
}

fn pdu_field_named(of: PduField) -> (name: &'static str)
    ensures
        name@ == pdu_field_name(of),
{
    match of {
        PduField::RequestId => "request-id",
        PduField::ErrorStatus => "error-status",
        PduField::ErrorIndex => "error-index",
        PduField::Bindings => "bindings",
    }
}

/// The field of a v2c message, as a refusal names it.
pub open spec fn message_field_name(of: MessageField) -> Seq<char> {
    match of {
        MessageField::Version => "a version"@,
        MessageField::Community => "a community"@,
        MessageField::Pdu => "a PDU"@,
    }
}

fn message_field_named(of: MessageField) -> (name: &'static str)
    ensures
        name@ == message_field_name(of),
{
    match of {
        MessageField::Version => "a version",
        MessageField::Community => "a community",
        MessageField::Pdu => "a PDU",
    }
}

/// The part of a v3 message, as a refusal names it.
pub open spec fn part_name(of: V3Part) -> Seq<char> {
    match of {
        V3Part::Message => "message"@,
        V3Part::GlobalData => "msgGlobalData"@,
        V3Part::SecurityParameters => "msgSecurityParameters"@,
        V3Part::ScopedPdu => "ScopedPDU"@,
    }
}

fn part_named(of: V3Part) -> (name: &'static str)
    ensures
        name@ == part_name(of),
{
    match of {
        V3Part::Message => "message",
        V3Part::GlobalData => "msgGlobalData",
        V3Part::SecurityParameters => "msgSecurityParameters",
        V3Part::ScopedPdu => "ScopedPDU",
    }
}

/// A tag as a refusal names it: `0x` and two digits.
pub open spec fn tag_text(tag: u8) -> Seq<char> {
    "0x"@ + seq![hex_char(tag as nat / 16), hex_char(tag as nat % 16)]
}

fn push_tag(out: &mut String, tag: u8)
    ensures
        final(out)@ == old(out)@ + tag_text(tag),
{
    out.append("0x");
    push_octet(out, tag);
    assert(out@ =~= old(out)@ + tag_text(tag));
}

fn push_quoted(out: &mut String, text: &str)
    ensures
        final(out)@ == old(out)@ + quoted_text(text@),
{
    let quote = quoted(text);
    out.append(quote.as_str());
}

/// What a refusal says.
pub open spec fn told(refusal: Refusal) -> Seq<char> {
    match refusal {
        Fault::ShortValue => "a value shorter than its length"@,
        Fault::IndefiniteLength => "a length of the indefinite form"@,
        Fault::EmptyInteger => "an INTEGER of no bytes"@,
        Fault::LongInteger => "an INTEGER over eight bytes"@,
        Fault::TrailingBytes => "bytes after the value"@,
        Fault::UnusedTag(tag) => "a tag SNMP does not use: "@ + tag_text(tag),
        Fault::AddressLength => "an IpAddress that is not four bytes"@,
        Fault::LongUnsigned => "an unsigned over eight bytes"@,
        Fault::EmptyOid => "an empty OBJECT IDENTIFIER"@,
        Fault::LargeArc => "an arc over what u32 holds"@,
        Fault::UnendedArc => "an arc that does not end"@,
        Fault::Expected(shape, found) => "expected "@ + shape_name(shape) + ", found "@ + shown(
            found,
        ),
        Fault::PduTypeNotSpoken(tag) => "a PDU type not spoken: "@ + tag_text(tag),
        Fault::BindingWithoutEquals(line) => "a binding without =: "@ + quoted_text(line),
        Fault::NameNotOid(name) => "a name that is not an OID: "@ + quoted_text(name),
        Fault::BindingWithoutName => "a binding without a name"@,
        Fault::BindingWithoutValue => "a binding without a value"@,
        Fault::PduNotContextTagged => "a PDU that is not context-tagged"@,
        Fault::PduWithout(field) => "a PDU without "@ + pdu_field_name(field),
        Fault::PduFieldOutsideI32(field) => pdu_field_name(field) + " outside i32"@,
        Fault::EmptyMessage => "an empty message"@,
        Fault::MessageWithout(field) => "a message without "@ + message_field_name(field),
        Fault::MessageVersionNotSpoken(version) => "a version not spoken: "@ + signed_decimal(
            version as int,
        ),
        Fault::V3ReadAsV2c => "a v3 message read as v2c"@,
        Fault::NotVersion3 => "a message that is not version 3"@,
        Fault::V3FieldMissing(part) => "a "@ + part_name(part) + " with a field missing"@,
        Fault::MsgIdOutsideI32 => "msgID outside i32"@,
        Fault::EmptyFlags => "msgFlags of no bytes"@,
        Fault::NotNoAuthNoPriv =>
            "an authenticated or encrypted message; only noAuthNoPriv is spoken"@,
        Fault::NotUsm => "a security model that is not USM"@,
        Fault::BindingsNotText => "bindings that are not UTF-8 text"@,
        Fault::NotSnmpTarget(target) => "not an snmp target: "@ + target,
        Fault::TargetWithoutHost(target) => "an snmp target with no host: "@ + target,
        Fault::SetWithoutOid(target) => "snmp+set needs /<oid> to set: "@ + target,
        Fault::VersionNotSpoken(version) => "a version not spoken: "@ + version,
        Fault::TrapOidNotDotted(text) => "a trap-oid not dotted: "@ + text,
        Fault::AnswerToAnother => "a response to another request"@,
        Fault::AgentError(status, index) => "the agent answered error status "@ + signed_decimal(
            status as int,
        ) + " at index "@ + signed_decimal(index as int),
        Fault::NotASet(kind) => "a "@ + name_of(kind) + " where a set was due"@,
        Fault::SetBindsNothing => "a set binding nothing"@,
        Fault::OverCeiling(len, most) => decimal(len as nat) + " bytes is over the "@ + decimal(
            most as nat,
        ) + " one SET carries in a datagram"@,
    }
}

impl Fault<String, Value> {
    /// What this says.
    pub fn message(&self) -> (text: String)
        ensures
            text@ == told(self@),
    {
        let mut out = String::new();
        match self {
            Fault::ShortValue => {
                out.append("a value shorter than its length");
            },
            Fault::IndefiniteLength => {
                out.append("a length of the indefinite form");
            },
            Fault::EmptyInteger => {
                out.append("an INTEGER of no bytes");
            },
            Fault::LongInteger => {
                out.append("an INTEGER over eight bytes");
            },
            Fault::TrailingBytes => {
                out.append("bytes after the value");
            },
            Fault::UnusedTag(tag) => {
                out.append("a tag SNMP does not use: ");
                push_tag(&mut out, *tag);
            },
            Fault::AddressLength => {
                out.append("an IpAddress that is not four bytes");
            },
            Fault::LongUnsigned => {
                out.append("an unsigned over eight bytes");
            },
            Fault::EmptyOid => {
                out.append("an empty OBJECT IDENTIFIER");
            },
            Fault::LargeArc => {
                out.append("an arc over what u32 holds");
            },
            Fault::UnendedArc => {
                out.append("an arc that does not end");
            },
            Fault::Expected(shape, found) => {
                out.append("expected ");
                out.append(shape_named(*shape));
                out.append(", found ");
                push_shown(&mut out, found);
            },
            Fault::PduTypeNotSpoken(tag) => {
                out.append("a PDU type not spoken: ");
                push_tag(&mut out, *tag);
            },
            Fault::BindingWithoutEquals(line) => {
                out.append("a binding without =: ");
                push_quoted(&mut out, line.as_str());
            },
            Fault::NameNotOid(name) => {
                out.append("a name that is not an OID: ");
                push_quoted(&mut out, name.as_str());
            },
            Fault::BindingWithoutName => {
                out.append("a binding without a name");
            },
            Fault::BindingWithoutValue => {
                out.append("a binding without a value");
            },
            Fault::PduNotContextTagged => {
                out.append("a PDU that is not context-tagged");
            },
            Fault::PduWithout(field) => {
                out.append("a PDU without ");
                out.append(pdu_field_named(*field));
            },
            Fault::PduFieldOutsideI32(field) => {
                out.append(pdu_field_named(*field));
                out.append(" outside i32");
            },
            Fault::EmptyMessage => {
                out.append("an empty message");
            },
            Fault::MessageWithout(field) => {
                out.append("a message without ");
                out.append(message_field_named(*field));
            },
            Fault::MessageVersionNotSpoken(version) => {
                out.append("a version not spoken: ");
                push_signed(&mut out, *version);
            },
            Fault::V3ReadAsV2c => {
                out.append("a v3 message read as v2c");
            },
            Fault::NotVersion3 => {
                out.append("a message that is not version 3");
            },
            Fault::V3FieldMissing(part) => {
                out.append("a ");
                out.append(part_named(*part));
                out.append(" with a field missing");
            },
            Fault::MsgIdOutsideI32 => {
                out.append("msgID outside i32");
            },
            Fault::EmptyFlags => {
                out.append("msgFlags of no bytes");
            },
            Fault::NotNoAuthNoPriv => {
                out.append("an authenticated or encrypted message; only noAuthNoPriv is spoken");
            },
            Fault::NotUsm => {
                out.append("a security model that is not USM");
            },
            Fault::BindingsNotText => {
                out.append("bindings that are not UTF-8 text");
            },
            Fault::NotSnmpTarget(target) => {
                out.append("not an snmp target: ");
                out.append(target.as_str());
            },
            Fault::TargetWithoutHost(target) => {
                out.append("an snmp target with no host: ");
                out.append(target.as_str());
            },
            Fault::SetWithoutOid(target) => {
                out.append("snmp+set needs /<oid> to set: ");
                out.append(target.as_str());
            },
            Fault::VersionNotSpoken(version) => {
                out.append("a version not spoken: ");
                out.append(version.as_str());
            },
            Fault::TrapOidNotDotted(text) => {
                out.append("a trap-oid not dotted: ");
                out.append(text.as_str());
            },
            Fault::AnswerToAnother => {
                out.append("a response to another request");
            },
            Fault::AgentError(status, index) => {
                out.append("the agent answered error status ");
                push_signed(&mut out, *status as i64);
                out.append(" at index ");
                push_signed(&mut out, *index as i64);
            },
            Fault::NotASet(kind) => {
                out.append("a ");
                out.append(kind.name());
                out.append(" where a set was due");
            },
            Fault::SetBindsNothing => {
                out.append("a set binding nothing");
            },
            Fault::OverCeiling(len, most) => {
                push_decimal(&mut out, *len as u64);
                out.append(" bytes is over the ");
                push_decimal(&mut out, *most as u64);
                out.append(" one SET carries in a datagram");
            },
        }
        assert(out@ =~= told(self@));
        out
    }

    /// Trying again may help: never, as what was refused is refused for what
    /// it is.
    pub fn retryable(&self) -> (may: bool)
        ensures
            !may,
    {
        false
    }
}

} // verus!
