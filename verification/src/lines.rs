//! The one-line text form of a variable binding, `oid=value`, that a Stream
//! of bindings is made of: one line each, newline-terminated.
//!
//! Numbers are digits, identifiers are dotted, text is as it is, other
//! octets are `0x` hex and NULL is nothing. Reading goes the other way with
//! one ambiguity accepted: text that happens to be digits, dotted numbers or
//! `0x` hex reads back as the INTEGER, the OBJECT IDENTIFIER or the octets
//! it looks like.
use vstd::prelude::*;
use vstd::slice::{slice_subrange, slice_to_vec};
use vstd::utf8::{decode_utf8, encode_utf8, valid_utf8};
use vstd::utf8::{decode_utf8_encode_utf8, encode_utf8_decode_utf8, encode_utf8_valid_utf8};

use crate::ber::{law_dotted_reads_back, lemma_dotted};
use crate::ber::{dotted, encodable, encoding, oid_of, push_oid, read_dotted, to_bytes};
use crate::ber::{after, lemma_after_after, lemma_after_nothing, Value, ValueModel};
use crate::error::{Fault, Refusal, Result};
use crate::hex::{hex_bytes, hex_text, push_hex, read_hex};
use crate::hex::{law_hex_round_trips, lemma_hex_text};
use crate::pdu::{binding_models, binding_of, line_of, read_binding, Binding, BindingModel};
use crate::text::{any_control, chars_of, find, push_chars, push_decimal, push_signed};
use crate::text::{control, decimal, i64_of, signed_decimal, strip_prefix, trim_end_matches};
use crate::text::{lemma_first_index_is, read_i64, string_of, utf8_text, without_prefix};
use crate::text::{lemma_blank, lemma_encode_add, lemma_newline_octets, lemma_occurrences_add};
use crate::text::{lemma_occurrences_none, occurrences, white_space};
use crate::text::{all_digits, is_digit, lemma_decimal, lemma_not_blank};
use crate::text::{lemma_first_index, lines, trim, trimmed, without_return, without_trailing};

verus! {

/// Octets a line shows as the text they are: some, valid UTF-8, and no
/// control character among them.
pub open spec fn shown_as_text(bytes: Seq<u8>) -> bool {
    &&& bytes.len() > 0
    &&& valid_utf8(bytes)
    &&& forall|i: int|
        0 <= i < decode_utf8(bytes).len() ==> !control(#[trigger] decode_utf8(bytes)[i])
}

/// Octets as `0x` and the pairs.
pub open spec fn hex_form(bytes: Seq<u8>) -> Seq<char> {
    "0x"@ + hex_text(bytes)
}

/// A value as a Stream line writes it.
pub open spec fn value_text(v: ValueModel) -> Seq<char> {
    match v {
        ValueModel::Integer(n) => signed_decimal(n as int),
        ValueModel::Unsigned(_, n) => decimal(n as nat),
        ValueModel::Null => seq![],
        ValueModel::Oid(arcs) => dotted(arcs),
        ValueModel::IpAddress(octets) => dotted(octets.map_values(|octet: u8| octet as u32)),
        ValueModel::Exception(tag) => if tag == 0x80 {
            "noSuchObject"@
        } else if tag == 0x81 {
            "noSuchInstance"@
        } else {
            "endOfMibView"@
        },
        ValueModel::OctetString(bytes) => if shown_as_text(bytes) {
            decode_utf8(bytes)
        } else {
            hex_form(bytes)
        },
        ValueModel::Sequence(_) => hex_form(encoding(v)),
        ValueModel::Context(_, _) => hex_form(encoding(v)),
    }
}

/// A line can show `v`: what it shows as octets can be written.
pub open spec fn renderable(v: ValueModel) -> bool {
    (v is Sequence || v is Context) ==> encodable(v)
}

/// The value a Stream line means.
pub open spec fn text_value(s: Seq<char>) -> ValueModel {
    let t = trim_end_matches(s, '\r');
    if t.len() == 0 {
        ValueModel::Null
    } else if i64_of(t) is Some {
        ValueModel::Integer(i64_of(t)->0)
    } else if strip_prefix(t, "0x"@) is Some && hex_bytes(strip_prefix(t, "0x"@)->0) is Some {
        ValueModel::OctetString(hex_bytes(strip_prefix(t, "0x"@)->0)->0)
    } else if t.contains('.') && oid_of(t) is Some {
        ValueModel::Oid(oid_of(t)->0)
    } else {
        ValueModel::OctetString(encode_utf8(t))
    }
}

/// Octets a line cannot show as text: `0x` and the pairs.
fn push_hex_form(out: &mut String, bytes: &[u8])
    ensures
        final(out)@ == old(out)@ + hex_form(bytes@),
{
    out.append("0x");
    push_hex(out, bytes);
    assert(out@ =~= old(out)@ + hex_form(bytes@));
}

/// Append a value as a Stream line writes it.
pub(crate) fn push_value(out: &mut String, value: &Value)
    requires
        renderable(value@),
    ensures
        final(out)@ == old(out)@ + value_text(value@),
{
    match value {
        Value::Integer(n) => push_signed(out, *n),
        Value::Unsigned(_, n) => push_decimal(out, *n),
        Value::Null => {
            assert(out@ =~= old(out)@ + value_text(value@));
        },
        Value::Oid(arcs) => push_oid(out, arcs.as_slice()),
        Value::IpAddress(octets) => {
            let arcs: [u32; 4] = [
                octets[0] as u32,
                octets[1] as u32,
                octets[2] as u32,
                octets[3] as u32,
            ];
            assert(arcs@ =~= octets@.map_values(|octet: u8| octet as u32));
            push_oid(out, &arcs);
        },
        Value::Exception(tag) => if *tag == 0x80 {
            out.append("noSuchObject");
        } else if *tag == 0x81 {
            out.append("noSuchInstance");
        } else {
            out.append("endOfMibView");
        },
        Value::OctetString(bytes) => {
            if bytes.len() > 0 {
                if let Some(text) = utf8_text(bytes.as_slice()) {
                    let chars = chars_of(text);
                    if !any_control(chars.as_slice()) {
                        assert(shown_as_text(bytes@));
                        push_chars(out, chars.as_slice());
                        return;
                    }
                    assert(!shown_as_text(bytes@));
                }
            }
            push_hex_form(out, bytes.as_slice());
        },
        _ => {
            let bytes = to_bytes(value);
            push_hex_form(out, bytes.as_slice());
        },
    }
}

/// A value as a Stream line writes it.
pub fn render_value(value: &Value) -> (text: String)
    requires
        renderable(value@),
    ensures
        text@ == value_text(value@),
{
    let mut out = String::new();
    push_value(&mut out, value);
    assert(out@ =~= value_text(value@));
    out
}

/// The value that the characters of a line mean.
pub(crate) fn read_value(line: &[char]) -> (value: Value)
    ensures
        value@ == text_value(line@),
{
    let text = without_trailing(line, '\r');
    if text.len() == 0 {
        return Value::Null;
    }
    if let Some(n) = read_i64(text) {
        return Value::Integer(n);
    }
    if let Some(digits) = without_prefix(text, "0x") {
        if let Some(bytes) = read_hex(digits) {
            return Value::OctetString(bytes);
        }
    }
    let dot = find(text, '.');
    proof {
        lemma_first_index_is(text@, '.');
        if dot < text@.len() {
            assert(text@.contains('.'));
        }
    }
    if dot < text.len() {
        if let Some(arcs) = read_dotted(text) {
            return Value::Oid(arcs);
        }
    }
    let text = string_of(text);
    Value::OctetString(slice_to_vec(text.as_str().as_bytes()))
}

/// The value a Stream line means.
pub fn parse_value(text: &str) -> (value: Value)
    ensures
        value@ == text_value(text@),
{
    let chars = chars_of(text);
    read_value(chars.as_slice())
}

// ------------------------------------------------------------------ Streams

/// `bindings` as text: one line each, newline-terminated.
pub open spec fn stream_text(bindings: Seq<BindingModel>) -> Seq<char>
    decreases bindings.len(),
{
    if bindings.len() == 0 {
        seq![]
    } else {
        line_of(bindings[0]) + seq!['\n'] + stream_text(bindings.skip(1))
    }
}

/// A line can show every one of `bindings`.
pub open spec fn all_renderable(bindings: Seq<BindingModel>) -> bool {
    forall|i: int| 0 <= i < bindings.len() ==> renderable((#[trigger] bindings[i]).value)
}

/// The bindings that `lines` write, the blank ones skipped; the first that
/// is no binding is what they are refused for.
pub open spec fn bindings_of(lines: Seq<Seq<char>>) -> core::result::Result<
    Seq<BindingModel>,
    Refusal,
>
    decreases lines.len(),
{
    if lines.len() == 0 {
        Ok(seq![])
    } else if trim(lines[0]).len() == 0 {
        bindings_of(lines.skip(1))
    } else {
        match binding_of(lines[0]) {
            Err(e) => Err(e),
            Ok(b) => after(seq![b], bindings_of(lines.skip(1))),
        }
    }
}

/// The bindings a Stream names.
pub open spec fn stream_bindings(bytes: Seq<u8>) -> core::result::Result<
    Seq<BindingModel>,
    Refusal,
> {
    if valid_utf8(bytes) {
        bindings_of(lines(decode_utf8(bytes)))
    } else {
        Err(Fault::BindingsNotText)
    }
}

/// `bindings` as the Stream: one `oid=value` line each, newline-terminated.
pub fn render(bindings: &[Binding]) -> (bytes: Vec<u8>)
    requires
        all_renderable(binding_models(bindings@)),
    ensures
        bytes@ == encode_utf8(stream_text(binding_models(bindings@))),
{
    let ghost all = binding_models(bindings@);
    let mut out = String::new();
    assert(all.skip(0) =~= all);
    for i in 0..bindings.len()
        invariant
            all == binding_models(bindings@),
            all_renderable(all),
            stream_text(all) =~= out@ + stream_text(all.skip(i as int)),
    {
        assert(all.skip(i as int).skip(1) =~= all.skip(i + 1));
        assert(all[i as int] == bindings@[i as int]@);
        bindings[i].push_line(&mut out);
        out.push('\n');
    }
    assert(all.skip(all.len() as int) =~= Seq::<BindingModel>::empty());
    assert(out@ =~= stream_text(all));
    slice_to_vec(out.as_str().as_bytes())
}

/// `line` without the one carriage return it ends with.
fn without_one_return(line: &[char]) -> (rest: &[char])
    ensures
        rest@ == without_return(line@),
{
    if line.len() > 0 && line[line.len() - 1] == '\r' {
        let rest = slice_subrange(line, 0, line.len() - 1);
        assert(rest@ =~= line@.drop_last());
        rest
    } else {
        line
    }
}

/// The bindings a Stream of `oid=value` lines names, blank lines skipped;
/// refused is what is not UTF-8, and a line that is not a binding.
pub fn parse_lines(bytes: &[u8]) -> (bindings: Result<Vec<Binding>>)
    ensures
        match bindings {
            Ok(b) => stream_bindings(bytes@) == Ok::<Seq<BindingModel>, Refusal>(
                binding_models(b@),
            ),
            Err(e) => stream_bindings(bytes@) == Err::<Seq<BindingModel>, Refusal>(e@),
        },
{
    let chars = match utf8_text(bytes) {
        Some(text) => chars_of(text),
        None => {
            return Err(Fault::BindingsNotText);
        },
    };
    let s = chars.as_slice();
    let mut out: Vec<Binding> = Vec::new();
    let mut at: usize = 0;
    assert(s@.skip(0) =~= s@);
    assert(binding_models(out@) =~= Seq::<BindingModel>::empty());
    proof {
        lemma_after_nothing(bindings_of(lines(s@)));
    }
    while at < s.len()
        invariant
            at <= s.len(),
            stream_bindings(bytes@) == bindings_of(lines(s@)),
            bindings_of(lines(s@)) == after(
                binding_models(out@),
                bindings_of(lines(s@.skip(at as int))),
            ),
        decreases s.len() - at,
    {
        let rest = slice_subrange(s, at, s.len());
        assert(rest@ =~= s@.skip(at as int));
        let i = find(rest, '\n');
        let taken = slice_subrange(rest, 0, i);
        assert(taken@ =~= rest@.take(i as int));
        let (line, next) = if i < rest.len() {
            (without_one_return(taken), at + i + 1)
        } else {
            assert(taken@ =~= rest@);
            (taken, s.len())
        };
        let ghost ends = lines(s@.skip(next as int));
        proof {
            if i < rest@.len() {
                assert(rest@.skip(i + 1) =~= s@.skip(next as int));
            } else {
                assert(s@.skip(next as int) =~= Seq::<char>::empty());
                assert(lines(rest@) =~= seq![line@] + ends);
            }
            assert(lines(rest@) == seq![line@] + ends);
            assert((seq![line@] + ends).skip(1) =~= ends);
        }
        if trimmed(line).len() > 0 {
            match read_binding(line) {
                Err(e) => {
                    return Err(e);
                },
                Ok(b) => {
                    proof {
                        lemma_after_after(binding_models(out@), seq![b@], bindings_of(ends));
                        assert(binding_models(out@.push(b)) =~= binding_models(out@) + seq![b@]);
                    }
                    out.push(b);
                },
            }
        }
        at = next;
    }
    assert(s@.skip(at as int) =~= Seq::<char>::empty());
    assert(binding_models(out@) + Seq::<BindingModel>::empty() =~= binding_models(out@));
    Ok(out)
}

// --------------------------------------------------------------------- laws

/// No control character in `s`.
pub open spec fn plain(s: Seq<char>) -> bool {
    forall|i: int| 0 <= i < s.len() ==> !control(#[trigger] s[i])
}

proof fn lemma_decimal_plain(n: nat)
    ensures
        plain(decimal(n)),
{
    lemma_decimal(n);
    assert forall|i: int| 0 <= i < decimal(n).len() implies !control(#[trigger] decimal(n)[i]) by {
        assert(is_digit(decimal(n)[i]));
    }
}

proof fn lemma_dotted_plain(arcs: Seq<u32>)
    ensures
        plain(dotted(arcs)),
{
    if arcs.len() > 0 {
        lemma_dotted(arcs);
        assert forall|i: int| 0 <= i < dotted(arcs).len() implies !control(
            #[trigger] dotted(arcs)[i],
        ) by {
            assert('0' <= dotted(arcs)[i] <= '9' || dotted(arcs)[i] == '.');
        }
    }
}

proof fn lemma_hex_form_plain(bytes: Seq<u8>)
    ensures
        plain(hex_form(bytes)),
{
    reveal_strlit("0x");
    lemma_hex_text(bytes);
    let s = hex_form(bytes);
    assert forall|i: int| 0 <= i < s.len() implies !control(#[trigger] s[i]) by {
        if i >= 2 {
            assert(s[i] == hex_text(bytes)[i - 2]);
        }
    }
}

/// A line shows no control character, so it is one line whatever the value.
pub proof fn law_value_text_is_plain(v: ValueModel)
    ensures
        plain(value_text(v)),
{
    match v {
        ValueModel::Integer(n) => {
            lemma_decimal_plain(
                (if n < 0 {
                    -n
                } else {
                    n as int
                }) as nat,
            );
        },
        ValueModel::Unsigned(_, n) => {
            lemma_decimal_plain(n as nat);
        },
        ValueModel::Null => {},
        ValueModel::Oid(arcs) => {
            lemma_dotted_plain(arcs);
        },
        ValueModel::IpAddress(octets) => {
            lemma_dotted_plain(octets.map_values(|octet: u8| octet as u32));
        },
        ValueModel::Exception(_) => {
            reveal_strlit("noSuchObject");
            reveal_strlit("noSuchInstance");
            reveal_strlit("endOfMibView");
        },
        ValueModel::OctetString(bytes) => {
            lemma_hex_form_plain(bytes);
        },
        _ => {
            lemma_hex_form_plain(encoding(v));
        },
    }
}

/// Text that reads as itself: no number, no `0x` hex, no dotted numbers.
pub open spec fn only_text(t: Seq<char>) -> bool {
    &&& i64_of(t) is None
    &&& strip_prefix(t, "0x"@) matches Some(digits) ==> hex_bytes(digits) is None
    &&& t.contains('.') ==> oid_of(t) is None
}

/// `v` means the same when its line is read: numbers and NULL, identifiers
/// of two arcs or more, and octets that do not show as text which reads as
/// something else.
pub open spec fn keeps_meaning(v: ValueModel) -> bool {
    match v {
        ValueModel::Integer(_) => true,
        ValueModel::Null => true,
        ValueModel::Oid(arcs) => arcs.len() >= 2,
        ValueModel::OctetString(bytes) => shown_as_text(bytes) ==> only_text(decode_utf8(bytes)),
        _ => false,
    }
}

proof fn lemma_no_return(s: Seq<char>)
    requires
        plain(s),
    ensures
        trim_end_matches(s, '\r') == s,
{
    if s.len() > 0 {
        assert(!control(s[s.len() - 1]));
    }
}

proof fn lemma_signed_decimal_reads_back(n: i64)
    ensures
        i64_of(signed_decimal(n as int)) == Some(n),
        signed_decimal(n as int).len() > 0,
{
    let magnitude = (if n < 0 {
        -n
    } else {
        n as int
    }) as nat;
    lemma_decimal(magnitude);
    let digits = decimal(magnitude);
    assert(is_digit(digits[0]));
    if n < 0 {
        assert(signed_decimal(n as int).skip(1) =~= digits);
    }
}

proof fn lemma_not_a_number(s: Seq<char>, i: int)
    requires
        0 < i < s.len(),
        !is_digit(s[i]),
    ensures
        i64_of(s) is None,
{
    assert(!all_digits(s));
    assert(s.skip(1)[i - 1] == s[i]);
    assert(!all_digits(s.skip(1)));
}

proof fn lemma_hex_form_reads_back(bytes: Seq<u8>)
    ensures
        text_value(hex_form(bytes)) == ValueModel::OctetString(bytes),
{
    reveal_strlit("0x");
    let s = hex_form(bytes);
    lemma_hex_form_plain(bytes);
    lemma_no_return(s);
    assert(s[1] == 'x');
    lemma_not_a_number(s, 1);
    assert(s.take(2) =~= "0x"@);
    assert(s.skip(2) =~= hex_text(bytes));
    law_hex_round_trips(bytes);
}

proof fn lemma_dotted_means(arcs: Seq<u32>)
    requires
        arcs.len() >= 2,
    ensures
        text_value(dotted(arcs)) == ValueModel::Oid(arcs),
{
    reveal_strlit("0x");
    let s = dotted(arcs);
    let head = decimal(arcs[0] as nat);
    lemma_dotted(arcs);
    lemma_decimal(arcs[0] as nat);
    lemma_dotted_plain(arcs);
    lemma_no_return(s);
    assert(s[head.len() as int] == '.');
    lemma_not_a_number(s, head.len() as int);
    if s.len() >= 2 {
        assert('0' <= s[1] <= '9' || s[1] == '.');
        if s.take(2) == "0x"@ {
            assert(s.take(2)[1] == 'x');
        }
    }
    assert(s.contains('.'));
    law_dotted_reads_back(arcs);
}

/// What a line shows reads back as the value it shows.
pub proof fn law_value_reads_back_from_its_text(v: ValueModel)
    requires
        keeps_meaning(v),
    ensures
        text_value(value_text(v)) == v,
{
    match v {
        ValueModel::Integer(n) => {
            law_value_text_is_plain(v);
            lemma_no_return(value_text(v));
            lemma_signed_decimal_reads_back(n);
        },
        ValueModel::Oid(arcs) => {
            lemma_dotted_means(arcs);
        },
        ValueModel::OctetString(bytes) => {
            if shown_as_text(bytes) {
                lemma_no_return(decode_utf8(bytes));
                decode_utf8_encode_utf8(bytes);
                if decode_utf8(bytes).len() == 0 {
                    assert(decode_utf8(bytes) =~= Seq::<char>::empty());
                    assert(encode_utf8(decode_utf8(bytes)) =~= Seq::<u8>::empty());
                }
            } else {
                lemma_hex_form_reads_back(bytes);
            }
        },
        _ => {},
    }
}

/// What reads back as another value: a counter as the number it counts, an
/// address as the identifier it looks like, a SEQUENCE or a PDU as the
/// octets of it.
pub proof fn law_ambiguous_values_read_as(v: ValueModel)
    ensures
        v matches ValueModel::Unsigned(_, n) ==> n <= i64::MAX ==> text_value(value_text(v))
            == ValueModel::Integer(n as i64),
        v matches ValueModel::IpAddress(octets) ==> octets.len() == 4 ==> text_value(value_text(v))
            == ValueModel::Oid(octets.map_values(|octet: u8| octet as u32)),
        v is Sequence || v is Context ==> text_value(value_text(v)) == ValueModel::OctetString(
            encoding(v),
        ),
{
    match v {
        ValueModel::Unsigned(_, n) => {
            if n <= i64::MAX {
                law_value_text_is_plain(v);
                lemma_no_return(value_text(v));
                lemma_signed_decimal_reads_back(n as i64);
            }
        },
        ValueModel::IpAddress(octets) => {
            if octets.len() == 4 {
                lemma_dotted_means(octets.map_values(|octet: u8| octet as u32));
            }
        },
        ValueModel::Sequence(_) => {
            lemma_hex_form_reads_back(encoding(v));
        },
        ValueModel::Context(_, _) => {
            lemma_hex_form_reads_back(encoding(v));
        },
        _ => {},
    }
}

/// A binding whose name has arcs reads back from its line, with the value
/// that the text of its value means.
pub proof fn law_line_reads_back(b: BindingModel)
    requires
        b.oid.len() > 0,
    ensures
        binding_of(line_of(b)) == Ok::<BindingModel, Refusal>(
            BindingModel { oid: b.oid, value: text_value(value_text(b.value)) },
        ),
{
    let line = line_of(b);
    let name = dotted(b.oid);
    lemma_dotted(b.oid);
    assert forall|j: int| 0 <= j < name.len() implies #[trigger] line[j] != '=' by {
        assert(line[j] == name[j]);
        assert('0' <= name[j] <= '9' || name[j] == '.');
    }
    lemma_first_index(line, '=', name.len() as int);
    assert(line.take(name.len() as int) =~= name);
    assert(line.skip(name.len() as int + 1) =~= value_text(b.value));
    let last = name[name.len() - 1];
    assert('0' <= last <= '9' || last == '.');
    assert(trim(name) == name);
    law_dotted_reads_back(b.oid);
}

/// The bindings that the lines of `bindings` mean.
pub open spec fn meant(bindings: Seq<BindingModel>) -> Seq<BindingModel> {
    bindings.map_values(
        |b: BindingModel| BindingModel { oid: b.oid, value: text_value(value_text(b.value)) },
    )
}

/// No line is blank or breaks in two, whatever it shows.
pub proof fn law_line_is_one_line(b: BindingModel)
    ensures
        plain(line_of(b)),
        trim(line_of(b)).len() > 0,
{
    let line = line_of(b);
    let name = dotted(b.oid);
    law_value_text_is_plain(b.value);
    lemma_dotted_plain(b.oid);
    assert forall|j: int| 0 <= j < line.len() implies !control(#[trigger] line[j]) by {
        if j < name.len() {
            assert(line[j] == name[j]);
        } else if j > name.len() {
            assert(line[j] == value_text(b.value)[j - name.len() - 1]);
        }
    }
    assert(line[name.len() as int] == '=');
    lemma_not_blank(line, name.len() as int);
}

/// The lines of `bindings`, one each.
pub open spec fn line_texts(bindings: Seq<BindingModel>) -> Seq<Seq<char>> {
    bindings.map_values(|b: BindingModel| line_of(b))
}

/// The lines of a Stream are those of its bindings, one each and in their
/// order; it holds a newline for each, and no other control character.
pub proof fn law_stream_is_one_line_each(bindings: Seq<BindingModel>)
    ensures
        ({
            let text = stream_text(bindings);
            &&& lines(text) == line_texts(bindings)
            &&& occurrences(text, '\n') == bindings.len()
            &&& forall|i: int|
                0 <= i < text.len() && control(#[trigger] text[i]) ==> text[i] == '\n'
            &&& valid_utf8(encode_utf8(text))
            &&& occurrences(encode_utf8(text), 0x0au8) == bindings.len()
        }),
    decreases bindings.len(),
{
    let s = stream_text(bindings);
    encode_utf8_valid_utf8(s);
    lemma_newline_octets(s);
    if bindings.len() == 0 {
        assert(line_texts(bindings) =~= seq![]);
    } else {
        let line = line_of(bindings[0]);
        let rest = bindings.skip(1);
        let more = stream_text(rest);
        law_stream_is_one_line_each(rest);
        law_line_is_one_line(bindings[0]);
        assert forall|j: int| 0 <= j < line.len() implies #[trigger] line[j] != '\n' by {
            assert(!control(line[j]));
        }
        assert(s =~= line + seq!['\n'] + more);
        lemma_lines_open(line, more);
        lemma_no_return(line);
        assert(line_texts(bindings) =~= seq![line] + line_texts(rest));
        lemma_occurrences_none(line, '\n');
        lemma_occurrences_add(line, seq!['\n'] + more, '\n');
        assert((seq!['\n'] + more).skip(1) =~= more);
        assert(s =~= line + (seq!['\n'] + more));
        assert forall|i: int| 0 <= i < s.len() && control(#[trigger] s[i]) implies s[i] == '\n' by {
            if i < line.len() {
                assert(s[i] == line[i]);
            } else if i > line.len() {
                assert(s[i] == more[i - line.len() - 1]);
            }
        }
    }
}

/// What `line` and a newline open: that line, and the lines after it.
proof fn lemma_lines_open(line: Seq<char>, more: Seq<char>)
    requires
        forall|j: int| 0 <= j < line.len() ==> #[trigger] line[j] != '\n',
    ensures
        lines(line + seq!['\n'] + more) == seq![without_return(line)] + lines(more),
{
    let s = line + seq!['\n'] + more;
    assert forall|j: int| 0 <= j < line.len() implies #[trigger] s[j] != '\n' by {
        assert(s[j] == line[j]);
    }
    lemma_first_index(s, '\n', line.len() as int);
    assert(s.take(line.len() as int) =~= line);
    assert(s.skip(line.len() as int + 1) =~= more);
}

/// Two Streams one after the other are the Stream of all their bindings, and
/// the Stream of none is empty.
pub proof fn law_streams_join(a: Seq<BindingModel>, b: Seq<BindingModel>)
    ensures
        stream_text(a + b) == stream_text(a) + stream_text(b),
        encode_utf8(stream_text(a + b)) == encode_utf8(stream_text(a)) + encode_utf8(
            stream_text(b),
        ),
        encode_utf8(stream_text(seq![])) == Seq::<u8>::empty(),
    decreases a.len(),
{
    if a.len() == 0 {
        assert(a + b =~= b);
        assert(stream_text(a) + stream_text(b) =~= stream_text(b));
    } else {
        law_streams_join(a.skip(1), b);
        assert((a + b).skip(1) =~= a.skip(1) + b);
        assert(stream_text(a + b) =~= stream_text(a) + stream_text(b));
    }
    lemma_encode_add(stream_text(a), stream_text(b));
}

proof fn lemma_stream_reads_back(bindings: Seq<BindingModel>)
    requires
        forall|i: int| 0 <= i < bindings.len() ==> (#[trigger] bindings[i]).oid.len() > 0,
    ensures
        bindings_of(line_texts(bindings)) == Ok::<Seq<BindingModel>, Refusal>(meant(bindings)),
    decreases bindings.len(),
{
    let all = line_texts(bindings);
    if bindings.len() == 0 {
        assert(meant(bindings) =~= seq![]);
    } else {
        let rest = bindings.skip(1);
        assert forall|i: int| 0 <= i < rest.len() implies (#[trigger] rest[i]).oid.len() > 0 by {
            assert(rest[i] == bindings[i + 1]);
        }
        lemma_stream_reads_back(rest);
        law_line_reads_back(bindings[0]);
        law_line_is_one_line(bindings[0]);
        assert(all.skip(1) =~= line_texts(rest));
        assert(seq![meant(bindings)[0]] + meant(rest) =~= meant(bindings));
    }
}

/// A Stream reads back, a binding for each line, as its lines mean.
pub proof fn law_stream_reads_back(bindings: Seq<BindingModel>)
    requires
        forall|i: int| 0 <= i < bindings.len() ==> (#[trigger] bindings[i]).oid.len() > 0,
    ensures
        stream_bindings(encode_utf8(stream_text(bindings))) == Ok::<Seq<BindingModel>, Refusal>(
            meant(bindings),
        ),
{
    encode_utf8_valid_utf8(stream_text(bindings));
    encode_utf8_decode_utf8(stream_text(bindings));
    law_stream_is_one_line_each(bindings);
    lemma_stream_reads_back(bindings);
}

proof fn lemma_meant(bindings: Seq<BindingModel>)
    requires
        forall|i: int| 0 <= i < bindings.len() ==> keeps_meaning((#[trigger] bindings[i]).value),
    ensures
        meant(bindings) == bindings,
{
    assert forall|i: int| 0 <= i < bindings.len() implies meant(bindings)[i] == bindings[i] by {
        law_value_reads_back_from_its_text(bindings[i].value);
    }
    assert(meant(bindings) =~= bindings);
}

/// A Stream of values that keep their meaning reads back whole.
pub proof fn law_stream_round_trips(bindings: Seq<BindingModel>)
    requires
        forall|i: int|
            0 <= i < bindings.len() ==> (#[trigger] bindings[i]).oid.len() > 0 && keeps_meaning(
                bindings[i].value,
            ),
    ensures
        stream_bindings(encode_utf8(stream_text(bindings))) == Ok::<Seq<BindingModel>, Refusal>(
            bindings,
        ),
{
    law_stream_reads_back(bindings);
    lemma_meant(bindings);
}

/// `texts` one after the other, each ended by a newline, with a carriage
/// return (CR) before it where `crs` says so.
pub open spec fn laid_out(texts: Seq<Seq<char>>, crs: Seq<bool>) -> Seq<char>
    decreases texts.len(),
{
    if texts.len() == 0 {
        seq![]
    } else {
        texts[0] + (if crs.len() > 0 && crs[0] {
            seq!['\r', '\n']
        } else {
            seq!['\n']
        }) + laid_out(
            texts.skip(1),
            if crs.len() > 0 {
                crs.skip(1)
            } else {
                seq![]
            },
        )
    }
}

/// Those of `texts` that are not blank.
pub open spec fn not_blank(texts: Seq<Seq<char>>) -> Seq<Seq<char>>
    decreases texts.len(),
{
    if texts.len() == 0 {
        seq![]
    } else if trim(texts[0]).len() == 0 {
        not_blank(texts.skip(1))
    } else {
        seq![texts[0]] + not_blank(texts.skip(1))
    }
}

/// `text` is a line: no newline is in it, and where it is not blank it does
/// not end in a carriage return.
pub open spec fn is_line(text: Seq<char>) -> bool {
    &&& !text.contains('\n')
    &&& trim(text).len() > 0 ==> text.last() != '\r'
}

proof fn lemma_blank_stays(text: Seq<char>)
    requires
        trim(text).len() == 0,
    ensures
        trim(without_return(text)).len() == 0,
        trim(without_return(text.push('\r'))).len() == 0,
{
    assert forall|i: int| 0 <= i < text.len() implies white_space(#[trigger] text[i]) by {
        if !white_space(text[i]) {
            lemma_not_blank(text, i);
        }
    }
    lemma_blank(without_return(text));
    assert(text.push('\r').drop_last() =~= text);
}

/// Blank lines anywhere, and a carriage return before any newline, change
/// neither what the lines of a Stream are read as nor what they are refused
/// for.
pub proof fn law_layout_changes_nothing(texts: Seq<Seq<char>>, crs: Seq<bool>)
    requires
        forall|i: int| 0 <= i < texts.len() ==> is_line(#[trigger] texts[i]),
    ensures
        bindings_of(lines(laid_out(texts, crs))) == bindings_of(not_blank(texts)),
    decreases texts.len(),
{
    if texts.len() > 0 {
        let text = texts[0];
        let rest = texts.skip(1);
        let others = if crs.len() > 0 {
            crs.skip(1)
        } else {
            seq![]
        };
        let more = laid_out(rest, others);
        let returned = crs.len() > 0 && crs[0];
        let line = if returned {
            text.push('\r')
        } else {
            text
        };
        assert(is_line(text));
        assert forall|i: int| 0 <= i < rest.len() implies is_line(#[trigger] rest[i]) by {
            assert(is_line(texts[i + 1]));
        }
        law_layout_changes_nothing(rest, others);
        assert(laid_out(texts, crs) =~= line + seq!['\n'] + more);
        assert forall|j: int| 0 <= j < line.len() implies #[trigger] line[j] != '\n' by {
            if j < text.len() {
                assert(text.contains(text[j]));
            }
        }
        lemma_lines_open(line, more);
        let all = seq![without_return(line)] + lines(more);
        assert(all.skip(1) =~= lines(more));
        if trim(text).len() == 0 {
            lemma_blank_stays(text);
        } else {
            assert(without_return(line) =~= text);
            let kept = seq![text] + not_blank(rest);
            assert(kept.skip(1) =~= not_blank(rest));
        }
    }
}

/// Lines of a Stream read back as its bindings however they are laid out:
/// with blank lines between them, and carriage crs before their
/// newlines.
pub proof fn law_stream_reads_back_however_laid_out(
    bindings: Seq<BindingModel>,
    texts: Seq<Seq<char>>,
    crs: Seq<bool>,
)
    requires
        forall|i: int| 0 <= i < bindings.len() ==> (#[trigger] bindings[i]).oid.len() > 0,
        forall|i: int| 0 <= i < texts.len() ==> is_line(#[trigger] texts[i]),
        not_blank(texts) == line_texts(bindings),
    ensures
        stream_bindings(encode_utf8(laid_out(texts, crs))) == Ok::<
            Seq<BindingModel>,
            Refusal,
        >(meant(bindings)),
        stream_bindings(encode_utf8(laid_out(texts, crs))) == stream_bindings(
            encode_utf8(stream_text(bindings)),
        ),
        (forall|i: int| 0 <= i < bindings.len() ==> keeps_meaning((#[trigger] bindings[i]).value))
            ==> meant(bindings) == bindings,
{
    let text = laid_out(texts, crs);
    encode_utf8_valid_utf8(text);
    encode_utf8_decode_utf8(text);
    law_layout_changes_nothing(texts, crs);
    lemma_stream_reads_back(bindings);
    law_stream_reads_back(bindings);
    if forall|i: int| 0 <= i < bindings.len() ==> keeps_meaning((#[trigger] bindings[i]).value) {
        lemma_meant(bindings);
    }
}

} // verus!
