//! Text: what a value is as a line, what a line is as a value, and how lines
//! make a Stream.
use vstd::prelude::*;
use vstd::utf8::{decode_utf8, encode_utf8, valid_utf8};
use vstd::utf8::{encode_utf8_decode_utf8, encode_utf8_valid_utf8};

use crate::ber::{dotted, encodable, encoding, lemma_after_after, lemma_after_nothing};
use crate::ber::{oid_of, ValueModel};
use crate::error::{Fault, Refusal};
use crate::hex::{hex_bytes, hex_text};
use crate::lines::{bindings_of, renderable, shown_as_text, stream_bindings, stream_text};
use crate::lines::{text_value, value_text};
use crate::pdu::{binding_of, line_of, BindingModel};
use crate::text::{control, decimal, first_index, i64_of, lemma_blank, lemma_first_index};
use crate::text::{lemma_first_index_is, lemma_not_blank, lines, signed_decimal, split};
use crate::text::{trim, trim_end, trim_start, u32_of};
use crate::text::white_space;

verus! {

// --------------------------------------------------------------- characters

/// Which characters are white space.
pub proof fn law_white_space(c: char)
    ensures
        white_space(c) == seq![
            0x9int,
            0xa,
            0xb,
            0xc,
            0xd,
            0x20,
            0x85,
            0xa0,
            0x1680,
            0x2000,
            0x2001,
            0x2002,
            0x2003,
            0x2004,
            0x2005,
            0x2006,
            0x2007,
            0x2008,
            0x2009,
            0x200a,
            0x2028,
            0x2029,
            0x202f,
            0x205f,
            0x3000,
        ].contains(c as int),
{
    let all = seq![
        0x9int,
        0xa,
        0xb,
        0xc,
        0xd,
        0x20,
        0x85,
        0xa0,
        0x1680,
        0x2000,
        0x2001,
        0x2002,
        0x2003,
        0x2004,
        0x2005,
        0x2006,
        0x2007,
        0x2008,
        0x2009,
        0x200a,
        0x2028,
        0x2029,
        0x202f,
        0x205f,
        0x3000,
    ];
    let code = c as int;
    if 0x9 <= code <= 0xd {
        assert(all[code - 9] == code);
    } else if code == 0x20 {
        assert(all[5] == code);
    } else if code == 0x85 {
        assert(all[6] == code);
    } else if code == 0xa0 {
        assert(all[7] == code);
    } else if code == 0x1680 {
        assert(all[8] == code);
    } else if 0x2000 <= code <= 0x200a {
        assert(all[9 + code - 0x2000] == code);
    } else if code == 0x2028 {
        assert(all[20] == code);
    } else if code == 0x2029 {
        assert(all[21] == code);
    } else if code == 0x202f {
        assert(all[22] == code);
    } else if code == 0x205f {
        assert(all[23] == code);
    } else if code == 0x3000 {
        assert(all[24] == code);
    }
}

/// White space only.
pub open spec fn spaces(s: Seq<char>) -> bool {
    forall|i: int| 0 <= i < s.len() ==> white_space(#[trigger] s[i])
}

proof fn lemma_trim_start_spaces(a: Seq<char>, s: Seq<char>)
    requires
        spaces(a),
        s.len() > 0 ==> !white_space(s[0]),
    ensures
        trim_start(a + s) == s,
    decreases a.len(),
{
    if a.len() == 0 {
        assert(a + s =~= s);
    } else {
        let rest = a.skip(1);
        assert(white_space(a[0]));
        assert forall|i: int| 0 <= i < rest.len() implies white_space(#[trigger] rest[i]) by {
            assert(white_space(a[i + 1]));
        }
        lemma_trim_start_spaces(rest, s);
        assert((a + s).skip(1) =~= rest + s);
    }
}

proof fn lemma_trim_end_spaces(s: Seq<char>, b: Seq<char>)
    requires
        spaces(b),
        s.len() > 0 ==> !white_space(s.last()),
    ensures
        trim_end(s + b) == s,
    decreases b.len(),
{
    if b.len() == 0 {
        assert(s + b =~= s);
    } else {
        let rest = b.drop_last();
        assert(white_space(b[b.len() - 1]));
        assert forall|i: int| 0 <= i < rest.len() implies white_space(#[trigger] rest[i]) by {
            assert(white_space(b[i]));
        }
        lemma_trim_end_spaces(s, rest);
        assert((s + b).drop_last() =~= s + rest);
    }
}

/// Trimming takes away the white space around a text and nothing of the
/// text; of white space alone it leaves nothing.
pub proof fn law_trim(a: Seq<char>, s: Seq<char>, b: Seq<char>)
    requires
        spaces(a),
        spaces(b),
        s.len() > 0 ==> !white_space(s[0]) && !white_space(s.last()),
    ensures
        trim(a + s + b) == s,
{
    if s.len() == 0 {
        let all = a + s + b;
        assert forall|i: int| 0 <= i < all.len() implies white_space(#[trigger] all[i]) by {
            if i < a.len() {
                assert(all[i] == a[i]);
            } else {
                assert(all[i] == b[i - a.len()]);
            }
        }
        lemma_blank(all);
        assert(trim(all) =~= s);
    } else {
        lemma_trim_start_spaces(a, s + b);
        assert(a + s + b =~= a + (s + b));
        lemma_trim_end_spaces(s, b);
    }
}

// -------------------------------------------------------------- identifiers

/// One arc is dotted as its number, and each arc more is a dot and its
/// number more.
pub proof fn law_dotted_goes_on(arcs: Seq<u32>, arc: u32)
    ensures
        dotted(Seq::empty()) == Seq::<char>::empty(),
        dotted(seq![arc]) == decimal(arc as nat),
        arcs.len() > 0 ==> dotted(arcs.push(arc)) == dotted(arcs) + seq!['.'] + decimal(
            arc as nat,
        ),
    decreases arcs.len(),
{
    assert(seq![arc].skip(1) =~= Seq::<u32>::empty());
    assert(dotted(seq![arc]) =~= decimal(arc as nat));
    if arcs.len() > 0 {
        let all = arcs.push(arc);
        let rest = arcs.skip(1);
        law_dotted_goes_on(rest, arc);
        assert(all.skip(1) =~= rest.push(arc));
        if arcs.len() == 1 {
            assert(rest =~= Seq::<u32>::empty());
            assert(rest.push(arc) =~= seq![arc]);
            assert(arcs =~= seq![arcs[0]]);
            assert(dotted(arcs) =~= decimal(arcs[0] as nat)) by {
                assert(seq![arcs[0]].skip(1) =~= Seq::<u32>::empty());
            }
        }
        assert(dotted(all) =~= dotted(arcs) + seq!['.'] + decimal(arc as nat));
    }
}

proof fn lemma_split_push(s: Seq<char>, c: char, part: Seq<char>)
    requires
        !part.contains(c),
    ensures
        split(s + seq![c] + part, c) == split(s, c).push(part),
    decreases s.len(),
{
    let all = s + seq![c] + part;
    lemma_first_index_is(s, c);
    let i = first_index(s, c) as int;
    assert forall|j: int| 0 <= j < i implies #[trigger] all[j] != c by {
        assert(all[j] == s[j]);
    }
    assert(all[i] == c);
    lemma_first_index(all, c, i);
    if i < s.len() {
        let rest = s.skip(i + 1);
        lemma_split_push(rest, c, part);
        assert(all.take(i) =~= s.take(i));
        assert(all.skip(i + 1) =~= rest + seq![c] + part);
        assert(split(all, c) =~= split(s, c).push(part));
    } else {
        assert(all.take(i) =~= s);
        assert(all.skip(i + 1) =~= part);
        lemma_split_none(part, c);
        assert(split(all, c) =~= split(s, c).push(part));
    }
}

proof fn lemma_split_none(s: Seq<char>, c: char)
    requires
        !s.contains(c),
    ensures
        split(s, c) == seq![s],
{
    assert forall|j: int| 0 <= j < s.len() implies #[trigger] s[j] != c by {
        assert(s.contains(s[j]));
    }
    lemma_first_index(s, c, s.len() as int);
}

/// A text of no dot is an identifier of one arc where it is a number; a dot
/// and a text of no dot more is one arc more where it is a number; where
/// either is not, neither is the whole. A dot before the first arc says
/// nothing.
pub proof fn law_dotted_is_read(s: Seq<char>, part: Seq<char>)
    requires
        !part.contains('.'),
    ensures
        oid_of(part) == match u32_of(part) {
            Some(n) => Some(seq![n]),
            None => None,
        },
        s.len() > 0 ==> oid_of(s + seq!['.'] + part) == match (oid_of(s), u32_of(part)) {
            (Some(arcs), Some(n)) => Some(arcs.push(n)),
            _ => None,
        },
        s.len() > 0 && s[0] != '.' ==> oid_of(seq!['.'] + s) == oid_of(s),
{
    lemma_split_none(part, '.');
    assert(part.len() > 0 ==> part.contains(part[0]));
    let one = seq![part];
    assert(one[0] == part);
    if let Some(n) = u32_of(part) {
        assert(one.map_values(|p: Seq<char>| u32_of(p)->0) =~= seq![n]);
    }
    if s.len() > 0 {
        let all = s + seq!['.'] + part;
        let core = if s[0] == '.' {
            s.skip(1)
        } else {
            s
        };
        lemma_split_push(core, '.', part);
        assert(s[0] == '.' ==> all.skip(1) =~= core + seq!['.'] + part);
        let parts = split(core, '.');
        let more = parts.push(part);
        assert(more[parts.len() as int] == part);
        if oid_of(s) is Some && u32_of(part) is Some {
            assert forall|i: int| 0 <= i < more.len() implies u32_of(
                #[trigger] more[i],
            ) is Some by {
                if i < parts.len() {
                    assert(u32_of(parts[i]) is Some);
                }
            }
            assert(more.map_values(|p: Seq<char>| u32_of(p)->0) =~= oid_of(s)->0.push(
                u32_of(part)->0,
            ));
        } else if oid_of(s) is None {
            let i = choose|i: int| 0 <= i < parts.len() && !(u32_of(#[trigger] parts[i]) is Some);
            assert(more[i] == parts[i]);
        }
        if s[0] != '.' {
            assert((seq!['.'] + s).skip(1) =~= s);
        }
    }
}

// ------------------------------------------------------------------- values

/// `c` is a control character.
pub open spec fn is_control(c: char) -> bool {
    (c as int) < 0x20 || 0x7f <= c as int <= 0x9f
}

/// A text that is not empty and holds no control character is shown as it
/// is, however long.
pub proof fn law_text_is_shown_as_it_is(text: Seq<char>)
    requires
        text.len() > 0,
        forall|i: int| 0 <= i < text.len() ==> !is_control(#[trigger] text[i]),
    ensures
        value_text(ValueModel::OctetString(encode_utf8(text))) == text,
{
    let bytes = encode_utf8(text);
    encode_utf8_valid_utf8(text);
    encode_utf8_decode_utf8(text);
    if bytes.len() == 0 {
        assert(bytes =~= Seq::<u8>::empty());
        assert(decode_utf8(bytes) =~= Seq::<char>::empty());
    }
    assert(shown_as_text(bytes));
}

/// Octets that are none, no UTF-8, or text with a control character in it
/// are shown as `0x` and their digits.
pub proof fn law_other_octets_are_shown_as_hex(bytes: Seq<u8>)
    requires
        bytes.len() == 0 || !valid_utf8(bytes) || exists|i: int|
            0 <= i < decode_utf8(bytes).len() && is_control(#[trigger] decode_utf8(bytes)[i]),
    ensures
        value_text(ValueModel::OctetString(bytes)) == seq!['0', 'x'] + hex_text(bytes),
{
    reveal_strlit("0x");
    assert("0x"@ =~= seq!['0', 'x']);
    if bytes.len() > 0 && valid_utf8(bytes) {
        let i = choose|i: int|
            0 <= i < decode_utf8(bytes).len() && is_control(#[trigger] decode_utf8(bytes)[i]);
        assert(control(decode_utf8(bytes)[i]));
        assert(!shown_as_text(bytes));
    }
}

/// Numbers are shown in decimal whatever they count, NULL as nothing,
/// identifiers dotted, addresses as their four octets dotted, the exceptions
/// by name, and what is constructed as the digits of its octets.
pub proof fn law_other_values_are_shown(
    n: i64,
    tag: u8,
    count: u64,
    arcs: Seq<u32>,
    octets: Seq<u8>,
    items: Seq<ValueModel>,
)
    ensures
        value_text(ValueModel::Integer(n)) == signed_decimal(n as int),
        value_text(ValueModel::Unsigned(tag, count)) == signed_decimal(count as int),
        value_text(ValueModel::Null) == Seq::<char>::empty(),
        value_text(ValueModel::Oid(arcs)) == dotted(arcs),
        octets.len() == 4 ==> value_text(ValueModel::IpAddress(octets)) == decimal(
            octets[0] as nat,
        ) + seq!['.'] + decimal(octets[1] as nat) + seq!['.'] + decimal(octets[2] as nat)
            + seq!['.'] + decimal(octets[3] as nat),
        value_text(ValueModel::Exception(0x80)) == "noSuchObject"@,
        value_text(ValueModel::Exception(0x81)) == "noSuchInstance"@,
        tag != 0x80 && tag != 0x81 ==> value_text(ValueModel::Exception(tag)) == "endOfMibView"@,
        value_text(ValueModel::Sequence(items)) == seq!['0', 'x'] + hex_text(
            encoding(ValueModel::Sequence(items)),
        ),
        value_text(ValueModel::Context(tag, items)) == seq!['0', 'x'] + hex_text(
            encoding(ValueModel::Context(tag, items)),
        ),
{
    reveal_strlit("0x");
    assert("0x"@ =~= seq!['0', 'x']);
    if octets.len() == 4 {
        let four = octets.map_values(|octet: u8| octet as u32);
        let (a, b, c, d) = (four[0], four[1], four[2], four[3]);
        law_dotted_goes_on(Seq::empty(), a);
        law_dotted_goes_on(seq![a], b);
        law_dotted_goes_on(seq![a, b], c);
        law_dotted_goes_on(seq![a, b, c], d);
        assert(seq![a].push(b) =~= seq![a, b]);
        assert(seq![a, b].push(c) =~= seq![a, b, c]);
        assert(seq![a, b, c].push(d) =~= four);
    }
}

/// A line shows every value but what is constructed and cannot be written.
pub proof fn law_what_can_be_shown(v: ValueModel)
    ensures
        renderable(v) == (encodable(v) || !(v is Sequence || v is Context)),
{
}

/// The carriage returns a text ends with say nothing.
pub proof fn law_returns_say_nothing(text: Seq<char>)
    ensures
        text_value(text.push('\r')) == text_value(text),
{
    assert(text.push('\r').drop_last() =~= text);
}

/// A text is read as nothing where it is empty, as a number where it is one,
/// as octets where it is `0x` and pairs of digits, as an identifier where it
/// is dotted, and else as itself, however long.
pub proof fn law_text_is_read(text: Seq<char>)
    requires
        text.len() > 0 ==> text.last() != '\r',
    ensures
        text.len() == 0 ==> text_value(text) is Null,
        i64_of(text) matches Some(n) ==> text_value(text) == ValueModel::Integer(n),
        hex_bytes(text) matches Some(bytes) ==> text_value(seq!['0', 'x'] + text)
            == ValueModel::OctetString(bytes),
        i64_of(text) is None && text.contains('.') && !(text.len() >= 2 && text[0] == '0' && text[1]
            == 'x') ==> (oid_of(text) matches Some(arcs) ==> text_value(text) == ValueModel::Oid(
            arcs,
        )),
        text.len() > 0 && i64_of(text) is None && !(text.len() >= 2 && text[0] == '0' && text[1]
            == 'x' && hex_bytes(text.skip(2)) is Some) && !(text.contains('.') && oid_of(
            text,
        ) is Some) ==> text_value(text) == ValueModel::OctetString(encode_utf8(text)),
{
    reveal_strlit("0x");
    assert("0x"@ =~= seq!['0', 'x']);
    if text.len() >= 2 {
        assert(text[0] == '0' && text[1] == 'x' ==> text.take(2) =~= "0x"@);
        assert(text.take(2) == "0x"@ ==> text.take(2)[0] == '0' && text.take(2)[1] == 'x');
    }
    if hex_bytes(text) is Some {
        let whole = seq!['0', 'x'] + text;
        assert(whole.last() != '\r') by {
            if text.len() > 0 {
                assert(whole.last() == text.last());
            }
        }
        assert(whole.take(2) =~= "0x"@);
        assert(whole.skip(2) =~= text);
        assert(!crate::text::is_digit(whole[1]));
        assert(!crate::text::all_digits(whole));
    }
    if i64_of(text) is Some {
        assert(text.len() > 0);
    }
}

// ----------------------------------------------------------------- bindings

/// A binding is written as its name dotted, `=`, and its value.
pub proof fn law_line_is_name_and_value(b: BindingModel)
    ensures
        line_of(b) == dotted(b.oid) + seq!['='] + value_text(b.value),
        stream_text(seq![b]) == line_of(b) + seq!['\n'],
        stream_text(Seq::empty()) == Seq::<char>::empty(),
{
    assert(seq![b].skip(1) =~= Seq::<BindingModel>::empty());
    assert(stream_text(seq![b].skip(1)) =~= Seq::<char>::empty());
    assert(stream_text(seq![b]) =~= line_of(b) + seq!['\n']);
}

/// A line is read as the name before its first `=`, which white space may
/// surround, and the value after it, in which all is as it is; without an
/// `=`, or with a name that is no identifier, it is refused.
pub proof fn law_line_is_read(
    a: Seq<char>,
    name: Seq<char>,
    b: Seq<char>,
    value: Seq<char>,
)
    requires
        spaces(a),
        spaces(b),
        !name.contains('='),
        name.len() > 0 ==> !white_space(name[0]) && !white_space(name.last()),
    ensures
        binding_of(a + name + b + seq!['='] + value) == match oid_of(name) {
            Some(oid) => Ok::<BindingModel, Refusal>(
                BindingModel { oid, value: text_value(value) },
            ),
            None => Err(Fault::NameNotOid(a + name + b)),
        },
        binding_of(a + name + b) == Err::<BindingModel, Refusal>(
            Fault::BindingWithoutEquals(a + name + b),
        ),
{
    let padded = a + name + b;
    let line = padded + seq!['='] + value;
    assert(a + name + b + seq!['='] + value =~= line);
    assert forall|j: int| 0 <= j < padded.len() implies #[trigger] padded[j] != '=' by {
        if j < a.len() {
            assert(white_space(a[j]));
            assert(padded[j] == a[j]);
        } else if j < a.len() + name.len() {
            assert(padded[j] == name[j - a.len()]);
            assert(name.contains(name[j - a.len()]));
        } else {
            assert(white_space(b[j - a.len() - name.len()]));
            assert(padded[j] == b[j - a.len() - name.len()]);
        }
    }
    assert forall|j: int| 0 <= j < padded.len() implies #[trigger] line[j] != '=' by {
        assert(line[j] == padded[j]);
    }
    lemma_first_index(line, '=', padded.len() as int);
    assert(line.take(padded.len() as int) =~= padded);
    assert(line.skip(padded.len() as int + 1) =~= value);
    law_trim(a, name, b);
    lemma_first_index(padded, '=', padded.len() as int);
}

/// A line ends at a newline, with which goes a carriage return before it;
/// the last line needs none.
pub proof fn law_lines(line: Seq<char>, more: Seq<char>)
    requires
        !line.contains('\n'),
    ensures
        lines(Seq::empty()) == Seq::<Seq<char>>::empty(),
        line.len() > 0 ==> lines(line) == seq![line],
        line.len() == 0 || line.last() != '\r' ==> lines(line + seq!['\n'] + more) == seq![line]
            + lines(more),
        lines(line + seq!['\r', '\n'] + more) == seq![line] + lines(more),
{
    assert forall|j: int| 0 <= j < line.len() implies #[trigger] line[j] != '\n' by {
        assert(line.contains(line[j]));
    }
    lemma_first_index(line, '\n', line.len() as int);
    let s = line + seq!['\n'] + more;
    assert forall|j: int| 0 <= j < line.len() implies #[trigger] s[j] != '\n' by {
        assert(s[j] == line[j]);
    }
    lemma_first_index(s, '\n', line.len() as int);
    assert(s.take(line.len() as int) =~= line);
    assert(s.skip(line.len() as int + 1) =~= more);
    let t = line + seq!['\r', '\n'] + more;
    let n = line.len() as int;
    assert forall|j: int| 0 <= j < n + 1 implies #[trigger] t[j] != '\n' by {
        if j < n {
            assert(t[j] == line[j]);
        } else {
            assert(t[j] == '\r');
        }
    }
    assert(t[n + 1] == '\n');
    lemma_first_index(t, '\n', n + 1);
    assert(t.take(n + 1) =~= line.push('\r'));
    assert(line.push('\r').drop_last() =~= line);
    assert(t.skip(n + 2) =~= more);
}

/// Lines are read one by one and in their order: each that is not white
/// space alone is a binding, and the first that is none is what all are
/// refused for.
pub proof fn law_lines_are_read_in_order(a: Seq<Seq<char>>, line: Seq<char>, b: Seq<Seq<char>>)
    ensures
        bindings_of(Seq::empty()) == Ok::<Seq<BindingModel>, Refusal>(Seq::empty()),
        spaces(line) ==> bindings_of(seq![line] + b) == bindings_of(b),
        !spaces(line) ==> match (binding_of(line), bindings_of(b)) {
            (Ok(read), Ok(others)) => bindings_of(seq![line] + b) == Ok::<
                Seq<BindingModel>,
                Refusal,
            >(seq![read] + others),
            (Ok(read), Err(e)) => bindings_of(seq![line] + b) == Err::<
                Seq<BindingModel>,
                Refusal,
            >(e),
            (Err(e), _) => bindings_of(seq![line] + b) == Err::<Seq<BindingModel>, Refusal>(e),
        },
        match (bindings_of(a), bindings_of(b)) {
            (Ok(x), Ok(y)) => bindings_of(a + b) == Ok::<Seq<BindingModel>, Refusal>(x + y),
            (Ok(x), Err(e)) => bindings_of(a + b) == Err::<Seq<BindingModel>, Refusal>(e),
            (Err(e), _) => bindings_of(a + b) == Err::<Seq<BindingModel>, Refusal>(e),
        },
    decreases a.len(),
{
    assert((seq![line] + b).skip(1) =~= b);
    if spaces(line) {
        lemma_blank(line);
    } else {
        let i = choose|i: int| 0 <= i < line.len() && !white_space(#[trigger] line[i]);
        lemma_not_blank(line, i);
    }
    if a.len() == 0 {
        assert(a + b =~= b);
        lemma_after_nothing(bindings_of(b));
    } else {
        law_lines_are_read_in_order(a.skip(1), line, b);
        assert((a + b).skip(1) =~= a.skip(1) + b);
        if trim(a[0]).len() > 0 {
            if let Ok(first) = binding_of(a[0]) {
                if let Ok(x) = bindings_of(a.skip(1)) {
                    lemma_after_after(seq![first], x, bindings_of(b));
                }
            }
        }
    }
}

/// A Stream is what its text is read as, and bytes that are no UTF-8 are
/// refused.
pub proof fn law_stream_is_its_text(text: Seq<char>, bytes: Seq<u8>)
    ensures
        stream_bindings(encode_utf8(text)) == bindings_of(lines(text)),
        !valid_utf8(bytes) ==> stream_bindings(bytes) == Err::<Seq<BindingModel>, Refusal>(
            Fault::BindingsNotText,
        ),
{
    encode_utf8_valid_utf8(text);
    encode_utf8_decode_utf8(text);
}

} // verus!
