//! What is refused, and why.
use vstd::prelude::*;

use crate::ber::{Value, ValueModel};
use crate::pdu::PduType;

verus! {

/// The shape a BER value was expected to have.
#[derive(Clone, Copy, Debug, PartialEq, Eq, Structural)]
pub enum Shape {
    Integer,
    OctetString,
    ObjectIdentifier,
    Sequence,
}

/// A field of a PDU.
#[derive(Clone, Copy, Debug, PartialEq, Eq, Structural)]
pub enum PduField {
    RequestId,
    ErrorStatus,
    ErrorIndex,
    Bindings,
}

/// A field of a v2c message.
#[derive(Clone, Copy, Debug, PartialEq, Eq, Structural)]
pub enum MessageField {
    Version,
    Community,
    Pdu,
}

/// A SEQUENCE of a v3 message.
#[derive(Clone, Copy, Debug, PartialEq, Eq, Structural)]
pub enum V3Part {
    Message,
    GlobalData,
    SecurityParameters,
    ScopedPdu,
}

/// Why something was refused, over texts `T` and BER values `V`.
#[derive(Debug, PartialEq, Eq)]
pub enum Fault<T, V> {
    /// A value ends before the length it announces.
    ShortValue,
    /// The length is of the indefinite form.
    IndefiniteLength,
    /// An INTEGER has no octets.
    EmptyInteger,
    /// An INTEGER has more octets than eight.
    LongInteger,
    /// There are bytes after the one value.
    TrailingBytes,
    /// The tag is none that SNMP uses.
    UnusedTag(u8),
    /// An `IpAddress` is not four octets.
    AddressLength,
    /// An unsigned number has more octets than eight.
    LongUnsigned,
    /// An OBJECT IDENTIFIER has no octets.
    EmptyOid,
    /// An arc is over what `u32` holds.
    LargeArc,
    /// The last arc does not end.
    UnendedArc,
    /// A value is of another shape than the one expected.
    Expected(Shape, V),
    /// The tag is no PDU type that is spoken.
    PduTypeNotSpoken(u8),
    /// A line has no `=`.
    BindingWithoutEquals(T),
    /// What is before the `=` is not an identifier.
    NameNotOid(T),
    /// A binding has no name.
    BindingWithoutName,
    /// A binding has no value.
    BindingWithoutValue,
    /// A PDU is not under a context tag.
    PduNotContextTagged,
    /// A PDU ends before the field.
    PduWithout(PduField),
    /// A field of a PDU is outside `i32`.
    PduFieldOutsideI32(PduField),
    /// A message has no fields at all.
    EmptyMessage,
    /// A v2c message ends before the field.
    MessageWithout(MessageField),
    /// A message is of a version that is neither v2c nor v3.
    MessageVersionNotSpoken(i64),
    /// A v3 message was read as v2c.
    V3ReadAsV2c,
    /// A message read as v3 is another version.
    NotVersion3,
    /// A part of a v3 message ends before a field.
    V3FieldMissing(V3Part),
    /// `msgID` is outside `i32`.
    MsgIdOutsideI32,
    /// `msgFlags` has no octets.
    EmptyFlags,
    /// A message is authenticated or encrypted.
    NotNoAuthNoPriv,
    /// The security model is not USM.
    NotUsm,
    /// A Stream of bindings is not UTF-8 text.
    BindingsNotText,
    /// The scheme of a target is not SNMP's.
    NotSnmpTarget(T),
    /// A target names no host.
    TargetWithoutHost(T),
    /// A set names no object to set.
    SetWithoutOid(T),
    /// A target asks for a version that is not spoken.
    VersionNotSpoken(T),
    /// The `trap-oid` of a target is not dotted numbers.
    TrapOidNotDotted(T),
    /// The answer is to another request.
    AnswerToAnother,
    /// The agent answered this error status, at this index.
    AgentError(i32, i32),
    /// Something else arrived where a set was due.
    NotASet(PduType),
    /// A set binds nothing.
    SetBindsNothing,
    /// So many bytes are over what one set carries, which is so many.
    OverCeiling(usize, usize),
}

/// Why something was refused.
pub type Error = Fault<String, Value>;

/// Why something was refused, as the contracts say it.
pub type Refusal = Fault<Seq<char>, ValueModel>;

pub type Result<T> = core::result::Result<T, Error>;

impl View for Fault<String, Value> {
    type V = Fault<Seq<char>, ValueModel>;

    open spec fn view(&self) -> Refusal {
        match *self {
            Fault::ShortValue => Fault::ShortValue,
            Fault::IndefiniteLength => Fault::IndefiniteLength,
            Fault::EmptyInteger => Fault::EmptyInteger,
            Fault::LongInteger => Fault::LongInteger,
            Fault::TrailingBytes => Fault::TrailingBytes,
            Fault::UnusedTag(tag) => Fault::UnusedTag(tag),
            Fault::AddressLength => Fault::AddressLength,
            Fault::LongUnsigned => Fault::LongUnsigned,
            Fault::EmptyOid => Fault::EmptyOid,
            Fault::LargeArc => Fault::LargeArc,
            Fault::UnendedArc => Fault::UnendedArc,
            Fault::Expected(shape, found) => Fault::Expected(shape, found@),
            Fault::PduTypeNotSpoken(tag) => Fault::PduTypeNotSpoken(tag),
            Fault::BindingWithoutEquals(line) => Fault::BindingWithoutEquals(line@),
            Fault::NameNotOid(name) => Fault::NameNotOid(name@),
            Fault::BindingWithoutName => Fault::BindingWithoutName,
            Fault::BindingWithoutValue => Fault::BindingWithoutValue,
            Fault::PduNotContextTagged => Fault::PduNotContextTagged,
            Fault::PduWithout(field) => Fault::PduWithout(field),
            Fault::PduFieldOutsideI32(field) => Fault::PduFieldOutsideI32(field),
            Fault::EmptyMessage => Fault::EmptyMessage,
            Fault::MessageWithout(field) => Fault::MessageWithout(field),
            Fault::MessageVersionNotSpoken(version) => Fault::MessageVersionNotSpoken(version),
            Fault::V3ReadAsV2c => Fault::V3ReadAsV2c,
            Fault::NotVersion3 => Fault::NotVersion3,
            Fault::V3FieldMissing(part) => Fault::V3FieldMissing(part),
            Fault::MsgIdOutsideI32 => Fault::MsgIdOutsideI32,
            Fault::EmptyFlags => Fault::EmptyFlags,
            Fault::NotNoAuthNoPriv => Fault::NotNoAuthNoPriv,
            Fault::NotUsm => Fault::NotUsm,
            Fault::BindingsNotText => Fault::BindingsNotText,
            Fault::NotSnmpTarget(target) => Fault::NotSnmpTarget(target@),
            Fault::TargetWithoutHost(target) => Fault::TargetWithoutHost(target@),
            Fault::SetWithoutOid(target) => Fault::SetWithoutOid(target@),
            Fault::VersionNotSpoken(version) => Fault::VersionNotSpoken(version@),
            Fault::TrapOidNotDotted(text) => Fault::TrapOidNotDotted(text@),
            Fault::AnswerToAnother => Fault::AnswerToAnother,
            Fault::AgentError(status, index) => Fault::AgentError(status, index),
            Fault::NotASet(kind) => Fault::NotASet(kind),
            Fault::SetBindsNothing => Fault::SetBindsNothing,
            Fault::OverCeiling(len, ceiling) => Fault::OverCeiling(len, ceiling),
        }
    }
}

} // verus!
