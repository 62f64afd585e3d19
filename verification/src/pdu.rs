//! RFC 3416: the SNMP v2c message and the PDU inside it.
//!
//! A message is `SEQUENCE { version, community, PDU }`; a PDU is a context
//! tag over `request-id, error-status, error-index, SEQUENCE OF binding`,
//! and a binding is `SEQUENCE { name OBJECT IDENTIFIER, value }`. A v2c
//! trap and an inform carry `sysUpTime.0` and `snmpTrapOID.0` as their
//! first two bindings; this file puts them there.
use vstd::prelude::*;
use vstd::slice::{slice_subrange, slice_to_vec};
use vstd::utf8::encode_utf8;

use crate::ber;
use crate::ber::{after, as_integer, as_items, as_octets, as_oid, decoding, encodable, encoding};
use crate::ber::{all_encodable, all_well_formed, folded, models, proper_oid, reading, well_formed};
use crate::ber::{dotted, lemma_after_after, lemma_after_nothing, oid_of, push_oid, read_dotted};
use crate::ber::{lemma_context_model, lemma_sequence_model, Value, ValueModel, TAG_TIME_TICKS};
use crate::error::{Fault, MessageField, PduField, Refusal, Result};
use crate::lines::{push_value, read_value, renderable, text_value, value_text};
use crate::text::{chars_of, find, split_once, string_of, trim, trimmed};

verus! {

/// `version` as SNMP v2c writes it.
pub const VERSION_2C: i64 = 1;

/// `version` as SNMP v3 writes it.
pub const VERSION_3: i64 = 3;

/// `sysUpTime.0`, the first binding of every notification.
pub const SYS_UPTIME: [u32; 9] = [1, 3, 6, 1, 2, 1, 1, 3, 0];

/// `snmpTrapOID.0`, the second.
pub const SNMP_TRAP_OID: [u32; 11] = [1, 3, 6, 1, 6, 3, 1, 1, 4, 1, 0];

/// `zeroDotZero`, RFC 2578: what a notification names when nobody named one.
pub const ZERO_DOT_ZERO: [u32; 2] = [0, 0];

/// The six PDU types this transport speaks, by their context tag.
#[derive(Clone, Copy, Debug, PartialEq, Eq, Structural)]
pub enum PduType {
    GetRequest,
    GetNextRequest,
    GetResponse,
    SetRequest,
    InformRequest,
    Trap,
}

/// The context tag of `kind`.
pub open spec fn tag_of(kind: PduType) -> u8 {
    match kind {
        PduType::GetRequest => 0xA0,
        PduType::GetNextRequest => 0xA1,
        PduType::GetResponse => 0xA2,
        PduType::SetRequest => 0xA3,
        PduType::InformRequest => 0xA6,
        PduType::Trap => 0xA7,
    }
}

/// The name an origin URI writes for `kind`.
pub open spec fn name_of(kind: PduType) -> Seq<char> {
    match kind {
        PduType::GetRequest => "get"@,
        PduType::GetNextRequest => "get-next"@,
        PduType::GetResponse => "response"@,
        PduType::SetRequest => "set"@,
        PduType::InformRequest => "inform"@,
        PduType::Trap => "trap"@,
    }
}

/// The type wearing `tag`.
pub open spec fn type_of(tag: u8) -> core::result::Result<PduType, Refusal> {
    if tag == 0xA0 {
        Ok(PduType::GetRequest)
    } else if tag == 0xA1 {
        Ok(PduType::GetNextRequest)
    } else if tag == 0xA2 {
        Ok(PduType::GetResponse)
    } else if tag == 0xA3 {
        Ok(PduType::SetRequest)
    } else if tag == 0xA6 {
        Ok(PduType::InformRequest)
    } else if tag == 0xA7 {
        Ok(PduType::Trap)
    } else {
        Err(Fault::PduTypeNotSpoken(tag))
    }
}

impl PduType {
    /// The context tag on the wire.
    pub fn tag(self) -> (tag: u8)
        ensures
            tag == tag_of(self),
    {
        match self {
            PduType::GetRequest => 0xA0,
            PduType::GetNextRequest => 0xA1,
            PduType::GetResponse => 0xA2,
            PduType::SetRequest => 0xA3,
            PduType::InformRequest => 0xA6,
            PduType::Trap => 0xA7,
        }
    }

    /// The type wearing `tag`; refused is a tag that is none of the six, a
    /// v1 trap or a bulk request.
    pub fn from_tag(tag: u8) -> (kind: Result<Self>)
        ensures
            match kind {
                Ok(k) => type_of(tag) == Ok::<PduType, Refusal>(k),
                Err(e) => type_of(tag) == Err::<PduType, Refusal>(e@),
            },
    {
        match tag {
            0xA0 => Ok(PduType::GetRequest),
            0xA1 => Ok(PduType::GetNextRequest),
            0xA2 => Ok(PduType::GetResponse),
            0xA3 => Ok(PduType::SetRequest),
            0xA6 => Ok(PduType::InformRequest),
            0xA7 => Ok(PduType::Trap),
            other => Err(Fault::PduTypeNotSpoken(other)),
        }
    }

    /// The name an origin URI writes.
    pub fn name(self) -> (name: &'static str)
        ensures
            name@ == name_of(self),
    {
        match self {
            PduType::GetRequest => "get",
            PduType::GetNextRequest => "get-next",
            PduType::GetResponse => "response",
            PduType::SetRequest => "set",
            PduType::InformRequest => "inform",
            PduType::Trap => "trap",
        }
    }
}

/// Each type is the one that wears its tag, and a tag is worn by the type
/// it names.
pub proof fn law_tags_name_types(kind: PduType, tag: u8)
    ensures
        type_of(tag_of(kind)) == Ok::<PduType, Refusal>(kind),
        type_of(tag) matches Ok(k) ==> tag_of(k) == tag,
{
}

// ---------------------------------------------------------------- bindings

/// A binding as the contracts speak of it.
pub struct BindingModel {
    pub oid: Seq<u32>,
    pub value: ValueModel,
}

/// One variable binding: a name and its value.
#[derive(Debug, PartialEq, Eq)]
pub struct Binding {
    pub oid: Vec<u32>,
    pub value: Value,
}

impl View for Binding {
    type V = BindingModel;

    open spec fn view(&self) -> BindingModel {
        BindingModel { oid: self.oid@, value: self.value@ }
    }
}

impl Clone for Binding {
    fn clone(&self) -> (copy: Self)
        ensures
            copy@ == self@,
    {
        Binding { oid: slice_to_vec(self.oid.as_slice()), value: self.value.clone() }
    }
}

/// `oid=value`, the line a Stream carries.
pub open spec fn line_of(b: BindingModel) -> Seq<char> {
    dotted(b.oid) + seq!['='] + value_text(b.value)
}

/// The binding written as `oid=value`.
pub open spec fn binding_of(line: Seq<char>) -> core::result::Result<BindingModel, Refusal> {
    match split_once(line, '=') {
        None => Err(Fault::BindingWithoutEquals(line)),
        Some((name, value)) => match oid_of(trim(name)) {
            None => Err(Fault::NameNotOid(name)),
            Some(oid) => Ok(BindingModel { oid, value: text_value(value) }),
        },
    }
}

/// The BER value of a binding.
pub open spec fn binding_value(b: BindingModel) -> ValueModel {
    ValueModel::Sequence(seq![ValueModel::Oid(b.oid), b.value])
}

/// The binding a BER value is.
pub open spec fn binding_in(v: ValueModel) -> core::result::Result<BindingModel, Refusal> {
    match as_items(v) {
        Err(e) => Err(e),
        Ok(items) => if items.len() == 0 {
            Err(Fault::BindingWithoutName)
        } else {
            match as_oid(items[0]) {
                Err(e) => Err(e),
                Ok(oid) => if items.len() == 1 {
                    Err(Fault::BindingWithoutValue)
                } else {
                    Ok(BindingModel { oid, value: items[1] })
                },
            }
        },
    }
}

/// The binding that the characters of a line write.
pub(crate) fn read_binding(line: &[char]) -> (binding: Result<Binding>)
    ensures
        match binding {
            Ok(b) => binding_of(line@) == Ok::<BindingModel, Refusal>(b@),
            Err(e) => binding_of(line@) == Err::<BindingModel, Refusal>(e@),
        },
{
    let i = find(line, '=');
    if i == line.len() {
        return Err(Fault::BindingWithoutEquals(string_of(line)));
    }
    let name = slice_subrange(line, 0, i);
    let value = slice_subrange(line, i + 1, line.len());
    assert(name@ =~= line@.take(i as int));
    assert(value@ =~= line@.skip(i + 1));
    match read_dotted(trimmed(name)) {
        Some(oid) => Ok(Binding { oid, value: read_value(value) }),
        None => Err(Fault::NameNotOid(string_of(name))),
    }
}

impl Binding {
    pub fn new(oid: &[u32], value: Value) -> (binding: Self)
        ensures
            binding@ == (BindingModel { oid: oid@, value: value@ }),
    {
        Binding { oid: slice_to_vec(oid), value }
    }

    /// Append `oid=value`.
    pub(crate) fn push_line(&self, out: &mut String)
        requires
            renderable(self@.value),
        ensures
            final(out)@ == old(out)@ + line_of(self@),
    {
        push_oid(out, self.oid.as_slice());
        out.push('=');
        push_value(out, &self.value);
        assert(out@ =~= old(out)@ + line_of(self@));
    }

    /// `oid=value`, the line a Stream carries.
    pub fn line(&self) -> (text: String)
        requires
            renderable(self@.value),
        ensures
            text@ == line_of(self@),
    {
        let mut out = String::new();
        self.push_line(&mut out);
        assert(out@ =~= line_of(self@));
        out
    }

    /// The binding written as `oid=value`; refused are a line with no `=`
    /// and a name that is not dotted numbers.
    pub fn parse(line: &str) -> (binding: Result<Self>)
        ensures
            match binding {
                Ok(b) => binding_of(line@) == Ok::<BindingModel, Refusal>(b@),
                Err(e) => binding_of(line@) == Err::<BindingModel, Refusal>(e@),
            },
    {
        let chars = chars_of(line);
        read_binding(chars.as_slice())
    }

    fn to_value(&self) -> (value: Value)
        ensures
            value@ == binding_value(self@),
    {
        let items: Vec<Value> = vec![
            Value::Oid(slice_to_vec(self.oid.as_slice())),
            self.value.clone(),
        ];
        proof {
            lemma_sequence_model(items);
            assert(models(items@) =~= seq![ValueModel::Oid(self@.oid), self@.value]);
        }
        Value::Sequence(items)
    }

    fn from_value(value: Value) -> (binding: Result<Self>)
        ensures
            match binding {
                Ok(b) => binding_in(value@) == Ok::<BindingModel, Refusal>(b@),
                Err(e) => binding_in(value@) == Err::<BindingModel, Refusal>(e@),
            },
    {
        let mut items = match value.items() {
            Ok(items) => items,
            Err(e) => {
                return Err(e);
            },
        };
        let ghost all = models(items@);
        if items.len() == 0 {
            return Err(Fault::BindingWithoutName);
        }
        assert(all[0] == items@[0]@);
        let oid = match items[0].oid() {
            Ok(arcs) => slice_to_vec(arcs),
            Err(e) => {
                return Err(e);
            },
        };
        if items.len() == 1 {
            return Err(Fault::BindingWithoutValue);
        }
        assert(all[1] == items@[1]@);
        let value = items.swap_remove(1);
        Ok(Binding { oid, value })
    }
}

// -------------------------------------------------------------------- PDUs

/// A PDU as the contracts speak of it.
pub struct PduModel {
    pub kind: PduType,
    pub request_id: i32,
    pub error_status: i32,
    pub error_index: i32,
    pub bindings: Seq<BindingModel>,
}

/// One PDU.
#[derive(Debug, PartialEq, Eq)]
pub struct Pdu {
    pub kind: PduType,
    pub request_id: i32,
    pub error_status: i32,
    pub error_index: i32,
    pub bindings: Vec<Binding>,
}

/// The models of `bindings`, one for one.
pub open spec fn binding_models(bindings: Seq<Binding>) -> Seq<BindingModel> {
    bindings.map_values(|b: Binding| b@)
}

impl View for Pdu {
    type V = PduModel;

    open spec fn view(&self) -> PduModel {
        PduModel {
            kind: self.kind,
            request_id: self.request_id,
            error_status: self.error_status,
            error_index: self.error_index,
            bindings: binding_models(self.bindings@),
        }
    }
}

/// `bindings`, cloned.
pub(crate) fn clone_bindings(bindings: &Vec<Binding>) -> (copies: Vec<Binding>)
    ensures
        binding_models(copies@) == binding_models(bindings@),
{
    let mut out: Vec<Binding> = Vec::new();
    for i in 0..bindings.len()
        invariant
            out@.len() == i,
            forall|j: int| 0 <= j < i ==> #[trigger] out@[j]@ == bindings@[j]@,
    {
        out.push(bindings[i].clone());
    }
    assert(binding_models(out@) =~= binding_models(bindings@));
    out
}

impl Clone for Pdu {
    fn clone(&self) -> (copy: Self)
        ensures
            copy@ == self@,
    {
        Pdu {
            kind: self.kind,
            request_id: self.request_id,
            error_status: self.error_status,
            error_index: self.error_index,
            bindings: clone_bindings(&self.bindings),
        }
    }
}

/// A PDU with no error.
pub open spec fn plain_pdu(
    kind: PduType,
    request_id: i32,
    bindings: Seq<BindingModel>,
) -> PduModel {
    PduModel { kind, request_id, error_status: 0, error_index: 0, bindings }
}

/// The binding of `sysUpTime.0`.
pub open spec fn uptime_binding(uptime: u64) -> BindingModel {
    BindingModel { oid: SYS_UPTIME@, value: ValueModel::Unsigned(TAG_TIME_TICKS, uptime) }
}

/// The binding of `snmpTrapOID.0`.
pub open spec fn trap_oid_binding(trap_oid: Seq<u32>) -> BindingModel {
    BindingModel { oid: SNMP_TRAP_OID@, value: ValueModel::Oid(trap_oid) }
}

/// `bindings`, with `sysUpTime.0` put first where it is not.
pub open spec fn timed(bindings: Seq<BindingModel>, uptime: u64) -> Seq<BindingModel> {
    if bindings.len() > 0 && bindings[0].oid == SYS_UPTIME@ {
        bindings
    } else {
        bindings.insert(0, uptime_binding(uptime))
    }
}

/// `snmpTrapOID.0` is second among `bindings`.
pub open spec fn names_trap(bindings: Seq<BindingModel>) -> bool {
    bindings.len() > 1 && bindings[1].oid == SNMP_TRAP_OID@
}

/// `bindings`, with `sysUpTime.0` put first where it is not, and then
/// `snmpTrapOID.0` second where it is not.
pub open spec fn opened(
    bindings: Seq<BindingModel>,
    trap_oid: Seq<u32>,
    uptime: u64,
) -> Seq<BindingModel> {
    if names_trap(timed(bindings, uptime)) {
        timed(bindings, uptime)
    } else {
        timed(bindings, uptime).insert(1, trap_oid_binding(trap_oid))
    }
}

/// The response to `p`: same id and bindings, `error_status` set.
pub open spec fn response_to(p: PduModel, error_status: i32) -> PduModel {
    PduModel {
        kind: PduType::GetResponse,
        request_id: p.request_id,
        error_status,
        error_index: 0,
        bindings: p.bindings,
    }
}

/// What the first `snmpTrapOID.0` of `bindings` names.
pub open spec fn trap_oid_in(bindings: Seq<BindingModel>) -> Option<Seq<u32>>
    decreases bindings.len(),
{
    if bindings.len() == 0 {
        None
    } else if bindings[0].oid == SNMP_TRAP_OID@ {
        match bindings[0].value {
            ValueModel::Oid(arcs) => Some(arcs),
            _ => None,
        }
    } else {
        trap_oid_in(bindings.skip(1))
    }
}

/// The BER values of bindings.
pub open spec fn binding_values(bindings: Seq<BindingModel>) -> Seq<ValueModel> {
    bindings.map_values(|b: BindingModel| binding_value(b))
}

/// The BER value of a PDU.
pub open spec fn pdu_value(p: PduModel) -> ValueModel {
    ValueModel::Context(
        tag_of(p.kind),
        seq![
            ValueModel::Integer(p.request_id as i64),
            ValueModel::Integer(p.error_status as i64),
            ValueModel::Integer(p.error_index as i64),
            ValueModel::Sequence(binding_values(p.bindings)),
        ],
    )
}

/// The `i32` that item `i` of a PDU is.
pub open spec fn i32_field(items: Seq<ValueModel>, i: int, field: PduField) -> core::result::Result<
    i32,
    Refusal,
> {
    if i >= items.len() {
        Err(Fault::PduWithout(field))
    } else {
        match as_integer(items[i]) {
            Err(e) => Err(e),
            Ok(n) => if i32::MIN <= n <= i32::MAX {
                Ok(n as i32)
            } else {
                Err(Fault::PduFieldOutsideI32(field))
            },
        }
    }
}

/// The bindings that BER values are.
pub open spec fn bindings_in(values: Seq<ValueModel>) -> core::result::Result<
    Seq<BindingModel>,
    Refusal,
>
    decreases values.len(),
{
    if values.len() == 0 {
        Ok(seq![])
    } else {
        match binding_in(values[0]) {
            Err(e) => Err(e),
            Ok(b) => after(seq![b], bindings_in(values.skip(1))),
        }
    }
}

/// The bindings of a PDU, the fourth of its items.
pub open spec fn bindings_field(items: Seq<ValueModel>) -> core::result::Result<
    Seq<BindingModel>,
    Refusal,
> {
    if items.len() < 4 {
        Err(Fault::PduWithout(PduField::Bindings))
    } else {
        match as_items(items[3]) {
            Err(e) => Err(e),
            Ok(values) => bindings_in(values),
        }
    }
}

/// The PDU a BER value is: the first thing amiss, in the order of the
/// fields, is what it is refused for.
pub open spec fn pdu_in(v: ValueModel) -> core::result::Result<PduModel, Refusal> {
    match v {
        ValueModel::Context(tag, items) => match type_of(tag) {
            Err(e) => Err(e),
            Ok(kind) => match i32_field(items, 0, PduField::RequestId) {
                Err(e) => Err(e),
                Ok(request_id) => match i32_field(items, 1, PduField::ErrorStatus) {
                    Err(e) => Err(e),
                    Ok(error_status) => match i32_field(items, 2, PduField::ErrorIndex) {
                        Err(e) => Err(e),
                        Ok(error_index) => match bindings_field(items) {
                            Err(e) => Err(e),
                            Ok(bindings) => Ok(
                                PduModel {
                                    kind,
                                    request_id,
                                    error_status,
                                    error_index,
                                    bindings,
                                },
                            ),
                        },
                    },
                },
            },
        },
        _ => Err(Fault::PduNotContextTagged),
    }
}

/// The identifiers agree.
pub(crate) fn same_arcs(a: &[u32], b: &[u32]) -> (same: bool)
    ensures
        same == (a@ == b@),
{
    if a.len() != b.len() {
        return false;
    }
    for i in 0..a.len()
        invariant
            a@.len() == b@.len(),
            forall|j: int| 0 <= j < i ==> a@[j] == b@[j],
    {
        if a[i] != b[i] {
            return false;
        }
    }
    assert(a@ =~= b@);
    true
}

fn read_i32(items: &Vec<Value>, i: usize, field: PduField) -> (n: Result<i32>)
    ensures
        match n {
            Ok(v) => i32_field(models(items@), i as int, field) == Ok::<i32, Refusal>(v),
            Err(e) => i32_field(models(items@), i as int, field) == Err::<i32, Refusal>(e@),
        },
{
    if i >= items.len() {
        return Err(Fault::PduWithout(field));
    }
    assert(models(items@)[i as int] == items@[i as int]@);
    match items[i].integer() {
        Err(e) => Err(e),
        Ok(n) => if i32::MIN as i64 <= n && n <= i32::MAX as i64 {
            Ok(n as i32)
        } else {
            Err(Fault::PduFieldOutsideI32(field))
        },
    }
}

fn read_bindings(values: Vec<Value>) -> (bindings: Result<Vec<Binding>>)
    ensures
        match bindings {
            Ok(b) => bindings_in(models(values@)) == Ok::<Seq<BindingModel>, Refusal>(
                binding_models(b@),
            ),
            Err(e) => bindings_in(models(values@)) == Err::<Seq<BindingModel>, Refusal>(e@),
        },
{
    let ghost all = models(values@);
    let mut out: Vec<Binding> = Vec::new();
    assert(all.skip(0) =~= all);
    assert(binding_models(out@) =~= Seq::<BindingModel>::empty());
    proof {
        lemma_after_nothing(bindings_in(all));
    }
    for value in it: values
        invariant
            all == models(it.seq()),
            bindings_in(all) == after(
                binding_models(out@),
                bindings_in(all.skip(it.index() as int)),
            ),
    {
        let ghost i = it.index() as int;
        assert(all.skip(i).skip(1) =~= all.skip(i + 1));
        assert(all[i] == value@);
        match Binding::from_value(value) {
            Err(e) => {
                return Err(e);
            },
            Ok(b) => {
                proof {
                    lemma_after_after(
                        binding_models(out@),
                        seq![b@],
                        bindings_in(all.skip(i + 1)),
                    );
                    assert(binding_models(out@.push(b)) =~= binding_models(out@) + seq![b@]);
                }
                out.push(b);
            },
        }
    }
    assert(all.skip(all.len() as int) =~= Seq::<ValueModel>::empty());
    assert(binding_models(out@) + Seq::<BindingModel>::empty() =~= binding_models(out@));
    Ok(out)
}

impl Pdu {
    pub fn new(kind: PduType, request_id: i32, bindings: Vec<Binding>) -> (pdu: Self)
        ensures
            pdu@ == plain_pdu(kind, request_id, binding_models(bindings@)),
    {
        Pdu { kind, request_id, error_status: 0, error_index: 0, bindings }
    }

    /// A trap or inform: `sysUpTime.0` and `snmpTrapOID.0` first, unless
    /// `bindings` already opens with them.
    pub fn notification(
        kind: PduType,
        request_id: i32,
        trap_oid: &[u32],
        uptime: u64,
        bindings: Vec<Binding>,
    ) -> (pdu: Self)
        ensures
            pdu@ == plain_pdu(
                kind,
                request_id,
                opened(binding_models(bindings@), trap_oid@, uptime),
            ),
    {
        let mut bindings = bindings;
        let ghost given = binding_models(bindings@);
        if bindings.len() == 0 || !same_arcs(bindings[0].oid.as_slice(), &SYS_UPTIME) {
            let first = Binding::new(&SYS_UPTIME, Value::Unsigned(TAG_TIME_TICKS, uptime));
            bindings.insert(0, first);
            assert(binding_models(bindings@) =~= given.insert(0, uptime_binding(uptime)));
        }
        let ghost with_time = binding_models(bindings@);
        if bindings.len() < 2 || !same_arcs(bindings[1].oid.as_slice(), &SNMP_TRAP_OID) {
            let second = Binding::new(&SNMP_TRAP_OID, Value::Oid(slice_to_vec(trap_oid)));
            bindings.insert(1, second);
            assert(binding_models(bindings@) =~= with_time.insert(1, trap_oid_binding(trap_oid@)));
        }
        Pdu::new(kind, request_id, bindings)
    }

    /// The response to `self`: same id and bindings, `error_status` set.
    pub fn response(&self, error_status: i32) -> (pdu: Self)
        ensures
            pdu@ == response_to(self@, error_status),
    {
        Pdu {
            kind: PduType::GetResponse,
            request_id: self.request_id,
            error_status,
            error_index: 0,
            bindings: clone_bindings(&self.bindings),
        }
    }

    /// What `snmpTrapOID.0` names, where it is bound.
    pub fn trap_oid(&self) -> (arcs: Option<&[u32]>)
        ensures
            match arcs {
                Some(a) => trap_oid_in(self@.bindings) == Some(a@),
                None => trap_oid_in(self@.bindings) is None,
            },
    {
        let ghost all = self@.bindings;
        assert(all.skip(0) =~= all);
        for i in 0..self.bindings.len()
            invariant
                all == binding_models(self.bindings@),
                trap_oid_in(all) == trap_oid_in(all.skip(i as int)),
        {
            assert(all.skip(i as int).skip(1) =~= all.skip(i + 1));
            assert(all[i as int] == self.bindings@[i as int]@);
            if same_arcs(self.bindings[i].oid.as_slice(), &SNMP_TRAP_OID) {
                return match &self.bindings[i].value {
                    Value::Oid(arcs) => Some(arcs.as_slice()),
                    _ => None,
                };
            }
        }
        None
    }

    /// The PDU as its BER value.
    pub fn to_value(&self) -> (value: Value)
        ensures
            value@ == pdu_value(self@),
    {
        let mut bindings: Vec<Value> = Vec::new();
        for i in 0..self.bindings.len()
            invariant
                bindings@.len() == i,
                forall|j: int|
                    0 <= j < i ==> #[trigger] bindings@[j]@ == binding_value(self.bindings@[j]@),
        {
            bindings.push(self.bindings[i].to_value());
        }
        proof {
            lemma_sequence_model(bindings);
            assert(models(bindings@) =~= binding_values(self@.bindings));
        }
        let items: Vec<Value> = vec![
            Value::Integer(self.request_id as i64),
            Value::Integer(self.error_status as i64),
            Value::Integer(self.error_index as i64),
            Value::Sequence(bindings),
        ];
        let tag = self.kind.tag();
        proof {
            lemma_context_model(tag, items);
            assert(models(items@) =~= pdu_value(self@)->Context_1);
        }
        Value::Context(tag, items)
    }

    /// The PDU a BER value is; refused are a value that is not under a
    /// context tag this transport speaks, and four fields missing or
    /// mistyped.
    pub fn from_value(value: Value) -> (pdu: Result<Self>)
        ensures
            match pdu {
                Ok(p) => pdu_in(value@) == Ok::<PduModel, Refusal>(p@),
                Err(e) => pdu_in(value@) == Err::<PduModel, Refusal>(e@),
            },
    {
        let (tag, mut items) = match value {
            Value::Context(tag, items) => {
                proof {
                    lemma_context_model(tag, items);
                }
                (tag, items)
            },
            _ => {
                return Err(Fault::PduNotContextTagged);
            },
        };
        let ghost all = models(items@);
        let kind = match PduType::from_tag(tag) {
            Ok(kind) => kind,
            Err(e) => {
                return Err(e);
            },
        };
        let request_id = match read_i32(&items, 0, PduField::RequestId) {
            Ok(n) => n,
            Err(e) => {
                return Err(e);
            },
        };
        let error_status = match read_i32(&items, 1, PduField::ErrorStatus) {
            Ok(n) => n,
            Err(e) => {
                return Err(e);
            },
        };
        let error_index = match read_i32(&items, 2, PduField::ErrorIndex) {
            Ok(n) => n,
            Err(e) => {
                return Err(e);
            },
        };
        if items.len() < 4 {
            return Err(Fault::PduWithout(PduField::Bindings));
        }
        assert(all[3] == items@[3]@);
        let values = match items.swap_remove(3).items() {
            Ok(values) => values,
            Err(e) => {
                return Err(e);
            },
        };
        let bindings = match read_bindings(values) {
            Ok(bindings) => bindings,
            Err(e) => {
                return Err(e);
            },
        };
        Ok(Pdu { kind, request_id, error_status, error_index, bindings })
    }
}

/// The binding can be written.
pub open spec fn binding_encodable(b: BindingModel) -> bool {
    folded(b.oid) <= u32::MAX && encodable(b.value)
}

/// Every binding of the PDU can be written.
pub open spec fn pdu_encodable(p: PduModel) -> bool {
    forall|i: int| 0 <= i < p.bindings.len() ==> binding_encodable(#[trigger] p.bindings[i])
}

pub proof fn lemma_pdu_encodable(p: PduModel)
    requires
        pdu_encodable(p),
    ensures
        encodable(pdu_value(p)),
{
    let values = binding_values(p.bindings);
    assert forall|i: int| 0 <= i < values.len() implies encodable(#[trigger] values[i]) by {
        assert(binding_encodable(p.bindings[i]));
        let pair = seq![ValueModel::Oid(p.bindings[i].oid), p.bindings[i].value];
        assert(encodable(pair[0]) && encodable(pair[1]));
        assert(all_encodable(pair));
    }
    assert(all_encodable(values));
    let items = pdu_value(p)->Context_1;
    assert(encodable(items[3]));
    assert(all_encodable(items));
}

impl Pdu {
    /// This can be written: nothing in it is over what the encoding holds.
    pub fn is_encodable(&self) -> (can: bool)
        ensures
            can == pdu_encodable(self@),
    {
        let ghost all = self@.bindings;
        for i in 0..self.bindings.len()
            invariant
                all == binding_models(self.bindings@),
                forall|j: int| 0 <= j < i ==> binding_encodable(#[trigger] all[j]),
        {
            let b = &self.bindings[i];
            assert(all[i as int] == b@);
            if !ber::folds(b.oid.as_slice()) || !b.value.is_encodable() {
                assert(!binding_encodable(self@.bindings[i as int]));
                return false;
            }
        }
        true
    }
}

// ---------------------------------------------------------------- messages

/// A v2c message as the contracts speak of it.
pub struct MessageModel {
    pub version: i64,
    pub community: Seq<u8>,
    pub pdu: PduModel,
}

/// An SNMP v2c message.
#[derive(Debug, PartialEq, Eq)]
pub struct Message {
    pub version: i64,
    pub community: Vec<u8>,
    pub pdu: Pdu,
}

impl View for Message {
    type V = MessageModel;

    open spec fn view(&self) -> MessageModel {
        MessageModel { version: self.version, community: self.community@, pdu: self.pdu@ }
    }
}

impl Clone for Message {
    fn clone(&self) -> (copy: Self)
        ensures
            copy@ == self@,
    {
        Message {
            version: self.version,
            community: slice_to_vec(self.community.as_slice()),
            pdu: self.pdu.clone(),
        }
    }
}

impl Message {
    pub fn v2c(community: &str, pdu: Pdu) -> (message: Self)
        ensures
            message@ == (MessageModel {
                version: VERSION_2C,
                community: encode_utf8(community@),
                pdu: pdu@,
            }),
    {
        Message { version: VERSION_2C, community: slice_to_vec(community.as_bytes()), pdu }
    }
}

/// The BER value of a v2c message.
pub open spec fn message_value(m: MessageModel) -> ValueModel {
    ValueModel::Sequence(
        seq![
            ValueModel::Integer(m.version),
            ValueModel::OctetString(m.community),
            pdu_value(m.pdu),
        ],
    )
}

/// The version a message opens with.
pub open spec fn version_in(bytes: Seq<u8>) -> core::result::Result<i64, Refusal> {
    match reading(bytes, 0) {
        Err(e) => Err(e),
        Ok((outer, _)) => match as_items(outer) {
            Err(e) => Err(e),
            Ok(items) => if items.len() == 0 {
                Err(Fault::EmptyMessage)
            } else {
                as_integer(items[0])
            },
        },
    }
}

/// The v2c message that the items of a SEQUENCE are.
pub open spec fn message_of(items: Seq<ValueModel>) -> core::result::Result<MessageModel, Refusal> {
    if items.len() == 0 {
        Err(Fault::MessageWithout(MessageField::Version))
    } else {
        match as_integer(items[0]) {
            Err(e) => Err(e),
            Ok(version) => if version == VERSION_3 {
                Err(Fault::V3ReadAsV2c)
            } else if items.len() == 1 {
                Err(Fault::MessageWithout(MessageField::Community))
            } else {
                match as_octets(items[1]) {
                    Err(e) => Err(e),
                    Ok(community) => if items.len() == 2 {
                        Err(Fault::MessageWithout(MessageField::Pdu))
                    } else {
                        match pdu_in(items[2]) {
                            Err(e) => Err(e),
                            Ok(pdu) => Ok(MessageModel { version, community, pdu }),
                        }
                    },
                }
            },
        }
    }
}

/// The v2c message that `bytes` are.
pub open spec fn message_in(bytes: Seq<u8>) -> core::result::Result<MessageModel, Refusal> {
    match decoding(bytes) {
        Err(e) => Err(e),
        Ok(outer) => match as_items(outer) {
            Err(e) => Err(e),
            Ok(items) => message_of(items),
        },
    }
}

/// `message` on the wire.
pub fn encode(message: &Message) -> (bytes: Vec<u8>)
    requires
        pdu_encodable(message@.pdu),
    ensures
        bytes@ == encoding(message_value(message@)),
{
    let items: Vec<Value> = vec![
        Value::Integer(message.version),
        Value::OctetString(slice_to_vec(message.community.as_slice())),
        message.pdu.to_value(),
    ];
    proof {
        lemma_sequence_model(items);
        lemma_pdu_encodable(message@.pdu);
        let fields = message_value(message@)->Sequence_0;
        assert(models(items@) =~= fields);
        assert(encodable(fields[0]) && encodable(fields[1]) && encodable(fields[2]));
        assert(all_encodable(fields));
    }
    ber::to_bytes(&Value::Sequence(items))
}

/// The version a message opens with, before deciding how to read the rest;
/// refused is what is not a SEQUENCE opening with an INTEGER.
pub fn version_of(bytes: &[u8]) -> (version: Result<i64>)
    ensures
        match version {
            Ok(v) => version_in(bytes@) == Ok::<i64, Refusal>(v),
            Err(e) => version_in(bytes@) == Err::<i64, Refusal>(e@),
        },
{
    let outer = match ber::read(bytes, 0) {
        Ok((outer, _)) => outer,
        Err(e) => {
            return Err(e);
        },
    };
    let items = match outer.items() {
        Ok(items) => items,
        Err(e) => {
            return Err(e);
        },
    };
    if items.len() == 0 {
        return Err(Fault::EmptyMessage);
    }
    assert(models(items@)[0] == items@[0]@);
    items[0].integer()
}

/// One v2c message; refused is what is not BER, not `SEQUENCE { INTEGER,
/// OCTET STRING, PDU }`, or of version 3, which the `v3` module reads.
pub fn decode(bytes: &[u8]) -> (message: Result<Message>)
    ensures
        match message {
            Ok(m) => message_in(bytes@) == Ok::<MessageModel, Refusal>(m@),
            Err(e) => message_in(bytes@) == Err::<MessageModel, Refusal>(e@),
        },
{
    let outer = match ber::decode(bytes) {
        Ok(outer) => outer,
        Err(e) => {
            return Err(e);
        },
    };
    let mut items = match outer.items() {
        Ok(items) => items,
        Err(e) => {
            return Err(e);
        },
    };
    let ghost all = models(items@);
    if items.len() == 0 {
        return Err(Fault::MessageWithout(MessageField::Version));
    }
    assert(all[0] == items@[0]@);
    let version = match items[0].integer() {
        Ok(version) => version,
        Err(e) => {
            return Err(e);
        },
    };
    if version == VERSION_3 {
        return Err(Fault::V3ReadAsV2c);
    }
    if items.len() == 1 {
        return Err(Fault::MessageWithout(MessageField::Community));
    }
    assert(all[1] == items@[1]@);
    let community = match items[1].octets() {
        Ok(community) => slice_to_vec(community),
        Err(e) => {
            return Err(e);
        },
    };
    if items.len() == 2 {
        return Err(Fault::MessageWithout(MessageField::Pdu));
    }
    assert(all[2] == items@[2]@);
    let pdu = match Pdu::from_value(items.swap_remove(2)) {
        Ok(pdu) => pdu,
        Err(e) => {
            return Err(e);
        },
    };
    Ok(Message { version, community, pdu })
}

// -------------------------------------------------------------------- laws

/// The binding is one SNMP has.
pub open spec fn binding_well_formed(b: BindingModel) -> bool {
    proper_oid(b.oid) && well_formed(b.value)
}

/// Every binding of the PDU is one SNMP has.
pub open spec fn pdu_well_formed(p: PduModel) -> bool {
    forall|i: int| 0 <= i < p.bindings.len() ==> binding_well_formed(#[trigger] p.bindings[i])
}

/// A notification opens with `sysUpTime.0` and `snmpTrapOID.0`, and has at
/// most those two more than it was given.
pub proof fn law_notification_opens_with_the_two(
    bindings: Seq<BindingModel>,
    trap_oid: Seq<u32>,
    uptime: u64,
)
    ensures
        ({
            let all = opened(bindings, trap_oid, uptime);
            &&& all.len() >= 2
            &&& all[0].oid == SYS_UPTIME@
            &&& all[1].oid == SNMP_TRAP_OID@
            &&& bindings.len() <= all.len() <= bindings.len() + 2
        }),
{
}

/// Bindings that open with the two already stay as they are.
pub proof fn law_notification_is_idempotent(
    bindings: Seq<BindingModel>,
    trap_oid: Seq<u32>,
    uptime: u64,
    other_oid: Seq<u32>,
    other_uptime: u64,
)
    ensures
        opened(opened(bindings, trap_oid, uptime), other_oid, other_uptime) == opened(
            bindings,
            trap_oid,
            uptime,
        ),
{
}

/// A notification names the trap it was given, unless its bindings named
/// one already.
pub proof fn law_notification_names_its_trap(
    bindings: Seq<BindingModel>,
    trap_oid: Seq<u32>,
    uptime: u64,
)
    requires
        !names_trap(timed(bindings, uptime)),
    ensures
        trap_oid_in(opened(bindings, trap_oid, uptime)) == Some(trap_oid),
{
    let all = opened(bindings, trap_oid, uptime);
    assert(SYS_UPTIME@.len() == 9 && SNMP_TRAP_OID@.len() == 11);
    reveal_with_fuel(trap_oid_in, 3);
    assert(all.skip(1)[0] == all[1]);
}

pub proof fn lemma_bindings_read_back(bindings: Seq<BindingModel>)
    ensures
        bindings_in(binding_values(bindings)) == Ok::<Seq<BindingModel>, Refusal>(bindings),
    decreases bindings.len(),
{
    let values = binding_values(bindings);
    if bindings.len() == 0 {
        assert(bindings =~= seq![]);
    } else {
        lemma_bindings_read_back(bindings.skip(1));
        assert(values.skip(1) =~= binding_values(bindings.skip(1)));
        assert(values[0] == binding_value(bindings[0]));
        assert(seq![bindings[0]] + bindings.skip(1) =~= bindings);
    }
}

/// A PDU reads back from its BER value.
pub proof fn law_pdu_reads_back(p: PduModel)
    ensures
        pdu_in(pdu_value(p)) == Ok::<PduModel, Refusal>(p),
{
    lemma_bindings_read_back(p.bindings);
}

pub proof fn lemma_pdu_value_well_formed(p: PduModel)
    requires
        pdu_well_formed(p),
    ensures
        well_formed(pdu_value(p)),
{
    let values = binding_values(p.bindings);
    assert forall|i: int| 0 <= i < values.len() implies well_formed(#[trigger] values[i]) by {
        assert(binding_well_formed(p.bindings[i]));
        let pair = seq![ValueModel::Oid(p.bindings[i].oid), p.bindings[i].value];
        assert(well_formed(pair[0]) && well_formed(pair[1]));
        assert(all_well_formed(pair));
    }
    assert(all_well_formed(values));
    let items = pdu_value(p)->Context_1;
    assert(well_formed(items[3]));
    assert(all_well_formed(items));
}

pub proof fn lemma_message_well_formed(m: MessageModel)
    requires
        pdu_well_formed(m.pdu),
    ensures
        well_formed(message_value(m)),
{
    let fields = message_value(m)->Sequence_0;
    lemma_pdu_value_well_formed(m.pdu);
    assert(well_formed(fields[0]) && well_formed(fields[1]) && well_formed(fields[2]));
    assert(all_well_formed(fields));
}

/// A v2c message reads back from the wire, its version first.
pub proof fn law_message_round_trips(m: MessageModel)
    requires
        m.version != VERSION_3,
        pdu_well_formed(m.pdu),
        encoding(message_value(m)).len() <= usize::MAX,
    ensures
        message_in(encoding(message_value(m))) == Ok::<MessageModel, Refusal>(m),
        version_in(encoding(message_value(m))) == Ok::<i64, Refusal>(m.version),
{
    lemma_message_well_formed(m);
    law_pdu_reads_back(m.pdu);
    lemma_value_opens(message_value(m));
}

/// A value SNMP has is what its bytes are, and what they open with.
pub proof fn lemma_value_opens(v: ValueModel)
    requires
        well_formed(v),
        encoding(v).len() <= usize::MAX,
    ensures
        decoding(encoding(v)) == Ok::<ValueModel, Refusal>(v),
        reading(encoding(v), 0) == Ok::<(ValueModel, int), Refusal>((v, encoding(v).len() as int)),
{
    ber::law_decode_undoes_encode(v);
    ber::law_value_reads_back(v, seq![]);
    assert(encoding(v) + Seq::<u8>::empty() =~= encoding(v));
    assert(encoding(v).skip(0) =~= encoding(v));
}

proof fn lemma_bindings_read_are_well_formed(values: Seq<ValueModel>)
    requires
        all_well_formed(values),
    ensures
        bindings_in(values) matches Ok(bindings) ==> forall|i: int|
            0 <= i < bindings.len() ==> binding_well_formed(#[trigger] bindings[i]),
    decreases values.len(),
{
    if values.len() > 0 {
        let rest = values.skip(1);
        assert(well_formed(values[0]));
        assert forall|i: int| 0 <= i < rest.len() implies well_formed(#[trigger] rest[i]) by {
            assert(rest[i] == values[i + 1]);
        }
        lemma_bindings_read_are_well_formed(rest);
        if let Ok(items) = as_items(values[0]) {
            if items.len() > 1 {
                assert(well_formed(items[0]) && well_formed(items[1]));
            }
        }
    }
}

/// A PDU read from a value SNMP has is one SNMP has.
pub proof fn law_pdu_read_is_well_formed(v: ValueModel)
    requires
        well_formed(v),
    ensures
        pdu_in(v) matches Ok(p) ==> pdu_well_formed(p),
{
    if let ValueModel::Context(_, items) = v {
        if items.len() >= 4 {
            assert(well_formed(items[3]));
            if let Ok(values) = as_items(items[3]) {
                lemma_bindings_read_are_well_formed(values);
            }
        }
    }
}

/// A PDU SNMP has can be written.
pub proof fn law_well_formed_pdu_is_encodable(p: PduModel)
    requires
        pdu_well_formed(p),
    ensures
        pdu_encodable(p),
{
    assert forall|i: int| 0 <= i < p.bindings.len() implies binding_encodable(
        #[trigger] p.bindings[i],
    ) by {
        assert(binding_well_formed(p.bindings[i]));
        ber::law_well_formed_is_encodable(p.bindings[i].value);
    }
}

/// A v2c message that was read is one SNMP has, of the version its bytes
/// open with, and not of version 3.
pub proof fn law_message_read_is_well_formed(bytes: Seq<u8>)
    ensures
        message_in(bytes) matches Ok(m) ==> {
            &&& pdu_well_formed(m.pdu)
            &&& version_in(bytes) == Ok::<i64, Refusal>(m.version)
            &&& m.version != VERSION_3
        },
{
    assert(bytes.skip(0) =~= bytes);
    ber::law_decoded_is_well_formed(bytes);
    if let Ok(v) = decoding(bytes) {
        if let Ok(items) = as_items(v) {
            if items.len() >= 3 {
                assert(well_formed(items[2]));
                law_pdu_read_is_well_formed(items[2]);
            }
        }
    }
}

} // verus!
