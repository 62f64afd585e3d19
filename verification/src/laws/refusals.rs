//! What refusals say of what they refuse.
use vstd::prelude::*;

use crate::ber::ValueModel;
use crate::error::{Fault, MessageField, PduField, Shape, V3Part};
use crate::message::{all_shown, number_list, quoted_text, shown, told};
use crate::pdu::PduType;
use crate::text::{decimal, signed_decimal};

verus! {

/// A list of numbers or of values is each of them, a comma and a space
/// between one and the next, however many.
pub proof fn law_lists_go_on(
    numbers: Seq<nat>,
    n: nat,
    items: Seq<ValueModel>,
    v: ValueModel,
)
    ensures
        number_list(Seq::empty()) == Seq::<char>::empty(),
        number_list(seq![n]) == decimal(n),
        numbers.len() > 0 ==> number_list(numbers.push(n)) == number_list(numbers) + ", "@
            + decimal(n),
        all_shown(Seq::empty()) == Seq::<char>::empty(),
        all_shown(seq![v]) == shown(v),
        items.len() > 0 ==> all_shown(items.push(v)) == all_shown(items) + ", "@ + shown(v),
{
    lemma_number_list_push(numbers, n);
    lemma_all_shown_push(items, v);
}

proof fn lemma_number_list_push(numbers: Seq<nat>, n: nat)
    ensures
        numbers.len() > 0 ==> number_list(numbers.push(n)) == number_list(numbers) + ", "@
            + decimal(n),
    decreases numbers.len(),
{
    if numbers.len() > 0 {
        let all = numbers.push(n);
        let rest = numbers.skip(1);
        lemma_number_list_push(rest, n);
        assert(all.skip(1) =~= rest.push(n));
        if numbers.len() == 1 {
            assert(all.skip(1) =~= seq![n]);
            assert(number_list(seq![n]) == decimal(n));
        }
        assert(all[0] == numbers[0]);
        assert(number_list(all) == decimal(all[0]) + ", "@ + number_list(all.skip(1)));
        assert(number_list(all) =~= number_list(numbers) + ", "@ + decimal(n));
    }
}

proof fn lemma_all_shown_push(items: Seq<ValueModel>, v: ValueModel)
    ensures
        items.len() > 0 ==> all_shown(items.push(v)) == all_shown(items) + ", "@ + shown(v),
    decreases items.len(),
{
    if items.len() > 0 {
        let all = items.push(v);
        let rest = items.subrange(1, items.len() as int);
        lemma_all_shown_push(rest, v);
        assert(all.subrange(1, all.len() as int) =~= rest.push(v));
        if items.len() == 1 {
            assert(all.subrange(1, all.len() as int) =~= seq![v]);
            assert(all_shown(seq![v]) == shown(v));
        }
        assert(all[0] == items[0]);
        assert(all_shown(all) == shown(all[0]) + ", "@ + all_shown(
            all.subrange(1, all.len() as int),
        ));
        assert(all_shown(all) =~= all_shown(items) + ", "@ + shown(v));
    }
}

/// A value is shown by its shape and what is in it.
pub proof fn law_values_are_shown(
    n: i64,
    octets: Seq<u8>,
    arcs: Seq<u32>,
    items: Seq<ValueModel>,
    tag: u8,
    count: u64,
    numbers: Seq<nat>,
)
    ensures
        shown(ValueModel::Integer(n)) == "Integer("@ + signed_decimal(n as int) + ")"@,
        numbers.len() == octets.len() && (forall|i: int|
            0 <= i < octets.len() ==> #[trigger] numbers[i] == octets[i]) ==> {
            &&& shown(ValueModel::OctetString(octets)) == "OctetString(["@ + number_list(numbers)
                + "])"@
            &&& shown(ValueModel::IpAddress(octets)) == "IpAddress(["@ + number_list(numbers)
                + "])"@
        },
        numbers.len() == arcs.len() && (forall|i: int|
            0 <= i < arcs.len() ==> #[trigger] numbers[i] == arcs[i]) ==> shown(
            ValueModel::Oid(arcs),
        ) == "Oid(["@ + number_list(numbers) + "])"@,
        shown(ValueModel::Null) == "Null"@,
        shown(ValueModel::Sequence(items)) == "Sequence(["@ + all_shown(items) + "])"@,
        shown(ValueModel::Context(tag, items)) == "Context("@ + decimal(tag as nat) + ", ["@
            + all_shown(items) + "])"@,
        shown(ValueModel::Unsigned(tag, count)) == "Unsigned("@ + decimal(tag as nat) + ", "@
            + decimal(count as nat) + ")"@,
        shown(ValueModel::Exception(tag)) == "Exception("@ + decimal(tag as nat) + ")"@,
{
    if numbers.len() == octets.len() && (forall|i: int|
        0 <= i < octets.len() ==> #[trigger] numbers[i] == octets[i]) {
        assert(octets.map_values(|b: u8| b as nat) =~= numbers);
    }
    if numbers.len() == arcs.len() && (forall|i: int|
        0 <= i < arcs.len() ==> #[trigger] numbers[i] == arcs[i]) {
        assert(arcs.map_values(|a: u32| a as nat) =~= numbers);
    }
}

/// A refusal of something names it.
pub proof fn law_refusals_name_what_is_amiss(
    tag: u8,
    shape: Shape,
    v: ValueModel,
    text: Seq<char>,
    a: i32,
    b: i32,
    x: usize,
    y: usize,
    version: i64,
    field: PduField,
    part: MessageField,
    missing: V3Part,
    kind: PduType,
)
    ensures
        ({
            let hex = "0x"@ + seq![
                "0123456789abcdef"@[tag as int / 16],
                "0123456789abcdef"@[tag as int % 16],
            ];
            &&& told(Fault::UnusedTag(tag)) == "a tag SNMP does not use: "@ + hex
            &&& told(Fault::PduTypeNotSpoken(tag)) == "a PDU type not spoken: "@ + hex
        }),
        told(Fault::Expected(shape, v)) == "expected "@ + match shape {
            Shape::Integer => "an INTEGER"@,
            Shape::OctetString => "an OCTET STRING"@,
            Shape::ObjectIdentifier => "an OBJECT IDENTIFIER"@,
            Shape::Sequence => "a SEQUENCE"@,
        } + ", found "@ + shown(v),
        told(Fault::BindingWithoutEquals(text)) == "a binding without =: "@ + quoted_text(text),
        told(Fault::NameNotOid(text)) == "a name that is not an OID: "@ + quoted_text(text),
        told(Fault::MessageVersionNotSpoken(version)) == "a version not spoken: "@
            + signed_decimal(version as int),
        ({
            let name = match field {
                PduField::RequestId => "request-id"@,
                PduField::ErrorStatus => "error-status"@,
                PduField::ErrorIndex => "error-index"@,
                PduField::Bindings => "bindings"@,
            };
            &&& told(Fault::PduWithout(field)) == "a PDU without "@ + name
            &&& told(Fault::PduFieldOutsideI32(field)) == name + " outside i32"@
        }),
        told(Fault::MessageWithout(part)) == "a message without "@ + match part {
            MessageField::Version => "a version"@,
            MessageField::Community => "a community"@,
            MessageField::Pdu => "a PDU"@,
        },
        told(Fault::V3FieldMissing(missing)) == "a "@ + match missing {
            V3Part::Message => "message"@,
            V3Part::GlobalData => "msgGlobalData"@,
            V3Part::SecurityParameters => "msgSecurityParameters"@,
            V3Part::ScopedPdu => "ScopedPDU"@,
        } + " with a field missing"@,
        told(Fault::NotASet(kind)) == "a "@ + match kind {
            PduType::GetRequest => "get"@,
            PduType::GetNextRequest => "get-next"@,
            PduType::GetResponse => "response"@,
            PduType::SetRequest => "set"@,
            PduType::InformRequest => "inform"@,
            PduType::Trap => "trap"@,
        } + " where a set was due"@,
        told(Fault::NotSnmpTarget(text)) == "not an snmp target: "@ + text,
        told(Fault::TargetWithoutHost(text)) == "an snmp target with no host: "@ + text,
        told(Fault::SetWithoutOid(text)) == "snmp+set needs /<oid> to set: "@ + text,
        told(Fault::VersionNotSpoken(text)) == "a version not spoken: "@ + text,
        told(Fault::TrapOidNotDotted(text)) == "a trap-oid not dotted: "@ + text,
        told(Fault::AgentError(a, b)) == "the agent answered error status "@ + signed_decimal(
            a as int,
        ) + " at index "@ + signed_decimal(b as int),
        told(Fault::OverCeiling(x, y)) == decimal(x as nat) + " bytes is over the "@ + decimal(
            y as nat,
        ) + " one SET carries in a datagram"@,
{
    crate::laws::numbers::lemma_hex_char(tag as nat / 16);
    crate::laws::numbers::lemma_hex_char(tag as nat % 16);
}

/// A refusal of what names itself says just that.
pub proof fn law_plain_refusals()
    ensures
        told(Fault::ShortValue) == "a value shorter than its length"@,
        told(Fault::IndefiniteLength) == "a length of the indefinite form"@,
        told(Fault::EmptyInteger) == "an INTEGER of no bytes"@,
        told(Fault::LongInteger) == "an INTEGER over eight bytes"@,
        told(Fault::TrailingBytes) == "bytes after the value"@,
        told(Fault::AddressLength) == "an IpAddress that is not four bytes"@,
        told(Fault::LongUnsigned) == "an unsigned over eight bytes"@,
        told(Fault::EmptyOid) == "an empty OBJECT IDENTIFIER"@,
        told(Fault::LargeArc) == "an arc over what u32 holds"@,
        told(Fault::UnendedArc) == "an arc that does not end"@,
        told(Fault::BindingWithoutName) == "a binding without a name"@,
        told(Fault::BindingWithoutValue) == "a binding without a value"@,
        told(Fault::PduNotContextTagged) == "a PDU that is not context-tagged"@,
        told(Fault::EmptyMessage) == "an empty message"@,
        told(Fault::V3ReadAsV2c) == "a v3 message read as v2c"@,
        told(Fault::NotVersion3) == "a message that is not version 3"@,
        told(Fault::MsgIdOutsideI32) == "msgID outside i32"@,
        told(Fault::EmptyFlags) == "msgFlags of no bytes"@,
        told(Fault::NotNoAuthNoPriv)
            == "an authenticated or encrypted message; only noAuthNoPriv is spoken"@,
        told(Fault::NotUsm) == "a security model that is not USM"@,
        told(Fault::BindingsNotText) == "bindings that are not UTF-8 text"@,
        told(Fault::AnswerToAnother) == "a response to another request"@,
        told(Fault::SetBindsNothing) == "a set binding nothing"@,
{
}

} // verus!
