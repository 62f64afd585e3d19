//! Numbers, as octets and as text: what a run of digits is worth goes by
//! the places of the digits.
use vstd::arithmetic::power::{lemma_pow0, lemma_pow1, pow};
use vstd::prelude::*;

use crate::ber::{arc_octets, arcs_in, arcs_octets, folded, more_octets, oid_in, oid_octets};
use crate::ber::{after, lemma_after_after, unsigned_in};
use crate::error::{Fault, Refusal};
use crate::hex::{hex_bytes, hex_char, hex_digit, hex_text};
use crate::octets::{be_octets, be_value, int_octets, int_value, lemma_be_octets, lemma_int_octets};
use crate::octets::{lemma_be_value_bound, lemma_span_values, span};
use crate::text::{all_digits, decimal, digit_char, digits_value, i64_of, is_digit};
use crate::text::{lemma_decimal, signed_decimal, u32_of};
use crate::tlv::integer_in;

verus! {

/// What digits are worth in `base`, the most significant first: each times
/// the base to the power of how many come after it.
pub open spec fn worth(digits: Seq<int>, base: int) -> int
    decreases digits.len(),
{
    if digits.len() == 0 {
        0
    } else {
        digits[0] * pow(base, (digits.len() - 1) as nat) + worth(digits.skip(1), base)
    }
}

/// Octets as digits.
pub open spec fn octet_digits(octets: Seq<u8>) -> Seq<int> {
    Seq::new(octets.len(), |i: int| octets[i] as int)
}

/// The lower seven bits of octets as digits.
pub open spec fn seven_bit_digits(octets: Seq<u8>) -> Seq<int> {
    Seq::new(octets.len(), |i: int| octets[i] as int % 128)
}

/// Characters as digits, `'0'` being nought.
pub open spec fn char_digits(text: Seq<char>) -> Seq<int> {
    Seq::new(text.len(), |i: int| text[i] as int - 0x30)
}

/// One more digit at the end.
proof fn lemma_worth_push(digits: Seq<int>, digit: int, base: int)
    ensures
        worth(digits.push(digit), base) == worth(digits, base) * base + digit,
    decreases digits.len(),
{
    let all = digits.push(digit);
    if digits.len() == 0 {
        lemma_pow0(base);
        assert(all.skip(1) =~= Seq::<int>::empty());
        assert(worth(all.skip(1), base) == 0);
        assert(digit * pow(base, 0) == digit);
        assert(worth(digits, base) * base == 0);
    } else {
        let rest = digits.skip(1);
        lemma_worth_push(rest, digit, base);
        assert(all.skip(1) =~= rest.push(digit));
        let first = digits[0];
        let high = pow(base, (digits.len() - 1) as nat);
        assert(pow(base, digits.len()) == base * high) by {
            reveal(pow);
        }
        let low = worth(rest, base);
        assert(first * (base * high) + low * base == (first * high + low) * base)
            by (nonlinear_arith);
    }
}

/// Taking the last digit off.
proof fn lemma_worth_last(digits: Seq<int>, base: int)
    requires
        digits.len() > 0,
    ensures
        worth(digits, base) == worth(digits.drop_last(), base) * base + digits.last(),
{
    lemma_worth_push(digits.drop_last(), digits.last(), base);
    assert(digits.drop_last().push(digits.last()) =~= digits);
}

// ------------------------------------------------------------------- octets

pub proof fn lemma_be_worth(octets: Seq<u8>)
    ensures
        be_value(octets) == worth(octet_digits(octets), 256),
    decreases octets.len(),
{
    if octets.len() > 0 {
        lemma_be_worth(octets.drop_last());
        lemma_worth_last(octet_digits(octets), 256);
        assert(octet_digits(octets).drop_last() =~= octet_digits(octets.drop_last()));
    }
}

/// The octets of a length or of an unsigned number are its digits in base
/// 256, with no nought before them.
pub proof fn law_octets_are_base_256_digits(n: nat)
    ensures
        be_octets(n).len() > 0,
        worth(octet_digits(be_octets(n)), 256) == n,
        be_octets(n).len() > 1 ==> be_octets(n)[0] != 0,
{
    lemma_be_octets(n);
    lemma_be_worth(be_octets(n));
    if n == 0 {
        assert(be_octets(0) =~= seq![0u8]);
    }
}

proof fn lemma_int_worth(octets: Seq<u8>)
    requires
        octets.len() > 0,
    ensures
        int_value(octets) == worth(octet_digits(octets), 256) - if octets[0] >= 128 {
            pow(256, octets.len())
        } else {
            0
        },
    decreases octets.len(),
{
    lemma_worth_last(octet_digits(octets), 256);
    let fewer = octets.drop_last();
    assert(octet_digits(octets).drop_last() =~= octet_digits(fewer));
    if octets.len() == 1 {
        lemma_pow1(256);
        assert(octet_digits(fewer) =~= Seq::<int>::empty());
        assert(worth(octet_digits(fewer), 256) == 0);
    } else {
        lemma_int_worth(fewer);
        assert(pow(256, octets.len()) == 256 * pow(256, (octets.len() - 1) as nat)) by {
            reveal(pow);
        }
    }
}

proof fn lemma_int_octets_are_fewest(n: int)
    ensures
        ({
            let octets = int_octets(n);
            octets.len() > 1 ==> {
                &&& !(octets[0] == 0 && octets[1] < 128)
                &&& !(octets[0] == 255 && octets[1] >= 128)
            }
        }),
    decreases
            (if n < 0 {
                -n
            } else {
                n
            }),
{
    if !(-128 <= n < 128) {
        lemma_int_octets(n / 256);
        lemma_int_octets_are_fewest(n / 256);
        let fewer = int_octets(n / 256);
        assert(int_octets(n) =~= fewer.push((n % 256) as u8));
    }
}

/// The body of an INTEGER is the number in two's complement: its digits in
/// base 256, less 256 to the power of how many they are where the first has
/// the top bit set; and there are no more of them than it takes.
pub proof fn law_integer_is_twos_complement(n: int)
    ensures
        ({
            let octets = int_octets(n);
            &&& octets.len() > 0
            &&& n == worth(octet_digits(octets), 256) - if octets[0] >= 128 {
                pow(256, octets.len())
            } else {
                0
            }
            &&& octets.len() > 1 ==> {
                &&& !(octets[0] == 0 && octets[1] < 128)
                &&& !(octets[0] == 255 && octets[1] >= 128)
            }
        }),
{
    lemma_int_octets(n);
    lemma_int_worth(int_octets(n));
    lemma_int_octets_are_fewest(n);
}

/// An INTEGER is read as two's complement from any body of one to eight
/// octets, and from no other.
pub proof fn law_integer_body_is_read(body: Seq<u8>)
    ensures
        match integer_in(body) {
            Ok(n) => {
                &&& 1 <= body.len() <= 8
                &&& n == worth(octet_digits(body), 256) - if body[0] >= 128 {
                    pow(256, body.len())
                } else {
                    0
                }
            },
            Err(e) => {
                ||| body.len() == 0 && e == Refusal::EmptyInteger
                ||| body.len() > 8 && e == Refusal::LongInteger
            },
        },
{
    if 1 <= body.len() <= 8 {
        lemma_int_worth(body);
        lemma_int_value_fits(body);
    }
}

proof fn lemma_int_value_fits(octets: Seq<u8>)
    requires
        1 <= octets.len() <= 8,
    ensures
        i64::MIN <= int_value(octets) <= i64::MAX,
{
    lemma_int_value_span(octets);
    lemma_span_values();
    reveal_with_fuel(span, 9);
}

proof fn lemma_int_value_span(octets: Seq<u8>)
    requires
        octets.len() > 0,
    ensures
        -(span(octets.len()) as int) <= 2 * int_value(octets) < span(octets.len()),
    decreases octets.len(),
{
    if octets.len() == 1 {
        reveal_with_fuel(span, 2);
    } else {
        lemma_int_value_span(octets.drop_last());
    }
}

/// An unsigned number is read from any body as its digits in base 256 are
/// worth, where there are at most eight after one nought.
pub proof fn law_unsigned_body_is_read(body: Seq<u8>)
    ensures
        match unsigned_in(body) {
            Ok(n) => {
                &&& body.len() <= 8 || body.len() == 9 && body[0] == 0
                &&& n == worth(octet_digits(body), 256)
            },
            Err(e) => {
                &&& e == Refusal::LongUnsigned
                &&& body.len() > 8
                &&& body.len() == 9 ==> body[0] != 0
            },
        },
{
    let digits = if body.len() > 0 && body[0] == 0 {
        body.skip(1)
    } else {
        body
    };
    lemma_be_worth(digits);
    if body.len() > 0 && body[0] == 0 {
        let all = octet_digits(body);
        assert(all.skip(1) =~= octet_digits(digits));
        assert(0 * pow(256, (all.len() - 1) as nat) == 0);
    }
    if digits.len() <= 8 {
        lemma_be_value_bound(digits);
        lemma_span_values();
        crate::octets::lemma_span_grows(digits.len(), 8);
    }
}

// --------------------------------------------------------------- identifiers

proof fn lemma_more_worth(n: nat)
    ensures
        worth(seven_bit_digits(more_octets(n)), 128) == n,
        forall|i: int| 0 <= i < more_octets(n).len() ==> #[trigger] more_octets(n)[i] >= 128,
        more_octets(n).len() > 0 ==> more_octets(n)[0] != 128,
        more_octets(n).len() == 0 ==> n == 0,
    decreases n,
{
    if n > 0 {
        lemma_more_worth(n / 128);
        let fewer = more_octets(n / 128);
        let all = more_octets(n);
        lemma_worth_last(seven_bit_digits(all), 128);
        assert(seven_bit_digits(all).drop_last() =~= seven_bit_digits(fewer));
        assert(seven_bit_digits(all).last() == n % 128);
    }
}

/// The octets of an arc are its digits in base 128, the top bit set on all
/// but the last, with no nought before them.
pub proof fn law_arc_octets_are_base_128_digits(arc: nat)
    ensures
        ({
            let octets = arc_octets(arc);
            &&& octets.len() > 0
            &&& worth(seven_bit_digits(octets), 128) == arc
            &&& octets.last() < 128
            &&& forall|i: int| 0 <= i < octets.len() - 1 ==> #[trigger] octets[i] >= 128
            &&& octets.len() > 1 ==> octets[0] != 128
        }),
{
    lemma_more_worth(arc / 128);
    let octets = arc_octets(arc);
    lemma_worth_last(seven_bit_digits(octets), 128);
    assert(seven_bit_digits(octets).drop_last() =~= seven_bit_digits(more_octets(arc / 128)));
    assert forall|i: int| 0 <= i < octets.len() - 1 implies #[trigger] octets[i] >= 128 by {
        assert(octets[i] == more_octets(arc / 128)[i]);
    }
}

proof fn lemma_arcs_octets_push(arcs: Seq<u32>, arc: u32)
    ensures
        arcs_octets(arcs.push(arc)) == arcs_octets(arcs) + arc_octets(arc as nat),
    decreases arcs.len(),
{
    let all = arcs.push(arc);
    if arcs.len() == 0 {
        assert(all.skip(1) =~= Seq::<u32>::empty());
        assert(arcs_octets(all.skip(1)) =~= Seq::<u8>::empty());
        assert(arcs_octets(arcs) =~= Seq::<u8>::empty());
        assert(all[0] == arc);
        assert(arcs_octets(all) =~= arc_octets(arc as nat));
        assert(arcs_octets(arcs) + arc_octets(arc as nat) =~= arc_octets(arc as nat));
    } else {
        lemma_arcs_octets_push(arcs.skip(1), arc);
        assert(all.skip(1) =~= arcs.skip(1).push(arc));
        assert(arcs_octets(all) =~= arcs_octets(arcs) + arc_octets(arc as nat));
    }
}

/// The body of an identifier of two arcs is that of one number, the first
/// arc forty times over and the second, and an arc that is not there is
/// nought; each arc more adds its own octets after it.
pub proof fn law_identifier_body(first: u32, second: u32, arcs: Seq<u32>, arc: u32)
    ensures
        oid_octets(seq![first, second]) == arc_octets((first * 40 + second) as nat),
        oid_octets(seq![first]) == arc_octets((first * 40) as nat),
        oid_octets(Seq::empty()) == arc_octets(0),
        arcs.len() >= 2 ==> oid_octets(arcs.push(arc)) == oid_octets(arcs) + arc_octets(
            arc as nat,
        ),
{
    let two = seq![first, second];
    assert(folded(two) == first * 40 + second);
    assert(oid_octets(seq![first]) =~= arc_octets((first * 40) as nat));
    assert(oid_octets(Seq::empty()) =~= arc_octets(0));
    assert(oid_octets(two) =~= arc_octets((first * 40 + second) as nat));
    if arcs.len() >= 2 {
        let all = arcs.push(arc);
        let rest = if arcs.len() > 2 {
            arcs.skip(2)
        } else {
            seq![]
        };
        assert(all.skip(2) =~= rest.push(arc));
        lemma_arcs_octets_push(rest, arc);
        assert(oid_octets(all) =~= oid_octets(arcs) + arc_octets(arc as nat));
    }
}

/// `octets` are one number in base 128: the top bit set on all but the last.
pub open spec fn one_number(octets: Seq<u8>) -> bool {
    &&& octets.len() > 0
    &&& octets.last() < 128
    &&& forall|i: int| 0 <= i < octets.len() - 1 ==> #[trigger] octets[i] >= 128
}

proof fn lemma_worth_nonnegative(digits: Seq<int>, base: int)
    requires
        base > 0,
        forall|i: int| 0 <= i < digits.len() ==> #[trigger] digits[i] >= 0,
    ensures
        worth(digits, base) >= 0,
    decreases digits.len(),
{
    if digits.len() > 0 {
        let fewer = digits.drop_last();
        assert forall|i: int| 0 <= i < fewer.len() implies #[trigger] fewer[i] >= 0 by {
            assert(digits[i] >= 0);
        }
        lemma_worth_nonnegative(fewer, base);
        lemma_worth_last(digits, base);
        let high = worth(fewer, base);
        assert(high * base >= 0) by (nonlinear_arith)
            requires
                high >= 0,
                base > 0,
        ;
    }
}

/// A number goes on where it has begun.
proof fn lemma_number_goes_on(begun: Seq<u8>, octets: Seq<u8>, rest: Seq<u8>)
    requires
        one_number(octets),
        worth(seven_bit_digits(begun), 128) <= u32::MAX,
        worth(seven_bit_digits(begun + octets), 128) <= u32::MAX,
    ensures
        arcs_in(
            octets + rest,
            worth(seven_bit_digits(begun), 128) as u32,
            begun.len() > 0,
        ) == after(
            seq![worth(seven_bit_digits(begun + octets), 128) as u32],
            arcs_in(rest, 0, false),
        ),
    decreases octets.len(),
{
    let arc = worth(seven_bit_digits(begun), 128);
    lemma_worth_nonnegative(seven_bit_digits(begun), 128);
    let further = begun.push(octets[0]);
    let s = octets + rest;
    lemma_worth_push(seven_bit_digits(begun), octets[0] as int % 128, 128);
    assert(seven_bit_digits(further) =~= seven_bit_digits(begun).push(octets[0] as int % 128));
    let next = worth(seven_bit_digits(further), 128);
    assert(next == arc * 128 + octets[0] as int % 128);
    if octets.len() == 1 {
        assert(begun + octets =~= further);
        assert(s.skip(1) =~= rest);
    } else {
        let more = octets.skip(1);
        assert(further + more =~= begun + octets);
        assert(octets[0] >= 128);
        assert forall|i: int| 0 <= i < more.len() - 1 implies #[trigger] more[i] >= 128 by {
            assert(octets[i + 1] >= 128);
        }
        lemma_worth_grows(further, more);
        lemma_number_goes_on(further, more, rest);
        assert(s.skip(1) =~= more + rest);
    }
}

/// A longer number is worth no less.
proof fn lemma_worth_grows(begun: Seq<u8>, octets: Seq<u8>)
    ensures
        worth(seven_bit_digits(begun), 128) <= worth(seven_bit_digits(begun + octets), 128),
    decreases octets.len(),
{
    if octets.len() == 0 {
        assert(begun + octets =~= begun);
    } else {
        let fewer = begun + octets.drop_last();
        lemma_worth_grows(begun, octets.drop_last());
        lemma_worth_nonnegative(seven_bit_digits(fewer), 128);
        lemma_worth_push(seven_bit_digits(fewer), octets.last() as int % 128, 128);
        assert(seven_bit_digits(begun + octets) =~= seven_bit_digits(fewer).push(
            octets.last() as int % 128,
        ));
    }
}

proof fn lemma_number_is_read(octets: Seq<u8>, rest: Seq<u8>)
    requires
        one_number(octets),
        worth(seven_bit_digits(octets), 128) <= u32::MAX,
    ensures
        arcs_in(octets + rest, 0, false) == after(
            seq![worth(seven_bit_digits(octets), 128) as u32],
            arcs_in(rest, 0, false),
        ),
{
    let none = Seq::<u8>::empty();
    assert(seven_bit_digits(none) =~= Seq::<int>::empty());
    assert(worth(seven_bit_digits(none), 128) == 0);
    assert(none + octets =~= octets);
    lemma_number_goes_on(none, octets, rest);
}

/// The first number of an identifier, whatever octets write it, is the two
/// arcs it folds: forty times the first and the second, the first at most
/// two, the second under forty where the first is under two.
pub proof fn law_first_number_is_two_arcs(octets: Seq<u8>)
    requires
        one_number(octets),
        worth(seven_bit_digits(octets), 128) <= u32::MAX,
    ensures
        oid_in(octets) matches Ok(arcs) && {
            &&& arcs.len() == 2
            &&& arcs[0] * 40 + arcs[1] == worth(seven_bit_digits(octets), 128)
            &&& arcs[0] <= 2
            &&& arcs[0] < 2 ==> arcs[1] < 40
        },
{
    let none = Seq::<u8>::empty();
    lemma_number_is_read(octets, none);
    assert(octets + none =~= octets);
    lemma_worth_nonnegative(seven_bit_digits(octets), 128);
    let number = worth(seven_bit_digits(octets), 128) as u32;
    assert(seq![number] + Seq::<u32>::empty() =~= seq![number]);
    assert(seq![number].skip(1) =~= Seq::<u32>::empty());
}

proof fn lemma_arcs_in_add(body: Seq<u8>, arc: u32, begun: bool, rest: Seq<u8>)
    ensures
        arcs_in(body, arc, begun) matches Ok(numbers) ==> arcs_in(body + rest, arc, begun) == after(
            numbers,
            if body.len() == 0 {
                arcs_in(rest, arc, begun)
            } else {
                arcs_in(rest, 0, false)
            },
        ),
    decreases body.len(),
{
    if body.len() == 0 {
        assert(body + rest =~= rest);
        crate::ber::lemma_after_nothing(arcs_in(rest, arc, begun));
    } else if arc < 0x200_0000 {
        let next = (arc * 128 + body[0] % 128) as u32;
        let more = body.skip(1);
        assert((body + rest).skip(1) =~= more + rest);
        if body[0] >= 128 {
            lemma_arcs_in_add(more, next, true, rest);
        } else {
            lemma_arcs_in_add(more, 0, false, rest);
            if let Ok(numbers) = arcs_in(more, 0, false) {
                lemma_after_after(seq![next], numbers, arcs_in(rest, 0, false));
            }
        }
    }
}

/// Each number more, whatever octets write it, is one arc more: what its
/// digits in base 128 are worth.
pub proof fn law_further_number_is_one_arc(body: Seq<u8>, octets: Seq<u8>, arcs: Seq<u32>)
    requires
        oid_in(body) == Ok::<Seq<u32>, Refusal>(arcs),
        one_number(octets),
        worth(seven_bit_digits(octets), 128) <= u32::MAX,
    ensures
        oid_in(body + octets) == Ok::<Seq<u32>, Refusal>(
            arcs.push(worth(seven_bit_digits(octets), 128) as u32),
        ),
{
    let none = Seq::<u8>::empty();
    lemma_arcs_in_add(body, 0, false, octets);
    lemma_number_is_read(octets, none);
    assert(octets + none =~= octets);
    let number = worth(seven_bit_digits(octets), 128) as u32;
    assert(seq![number] + Seq::<u32>::empty() =~= seq![number]);
    let numbers = arcs_in(body, 0, false)->Ok_0;
    crate::ber::lemma_arcs_in_some(body, 0, false);
    assert((numbers + seq![number]).skip(1) =~= numbers.skip(1).push(number));
    assert(crate::ber::arcs_of(numbers + seq![number]) =~= arcs.push(number));
}

proof fn lemma_large_number(begun: Seq<u8>, octets: Seq<u8>, rest: Seq<u8>)
    requires
        one_number(octets),
        worth(seven_bit_digits(begun), 128) <= u32::MAX,
        worth(seven_bit_digits(begun + octets), 128) > u32::MAX,
    ensures
        arcs_in(
            octets + rest,
            worth(seven_bit_digits(begun), 128) as u32,
            begun.len() > 0,
        ) == Err::<Seq<u32>, Refusal>(Fault::LargeArc),
    decreases octets.len(),
{
    let arc = worth(seven_bit_digits(begun), 128);
    lemma_worth_nonnegative(seven_bit_digits(begun), 128);
    let further = begun.push(octets[0]);
    let s = octets + rest;
    lemma_worth_push(seven_bit_digits(begun), octets[0] as int % 128, 128);
    assert(seven_bit_digits(further) =~= seven_bit_digits(begun).push(octets[0] as int % 128));
    if arc < 0x200_0000 {
        let more = octets.skip(1);
        assert(further + more =~= begun + octets);
        assert(s.skip(1) =~= more + rest);
        if octets.len() == 1 {
            assert(begun + octets =~= further);
        } else {
            assert(octets[0] >= 128);
            assert forall|i: int| 0 <= i < more.len() - 1 implies #[trigger] more[i] >= 128 by {
                assert(octets[i + 1] >= 128);
            }
            lemma_large_number(further, more, rest);
        }
    }
}

/// A number that `u32` does not hold is refused, first or further on.
pub proof fn law_large_number_is_refused(body: Seq<u8>, octets: Seq<u8>, rest: Seq<u8>)
    requires
        body.len() == 0 || oid_in(body) is Ok,
        one_number(octets),
        worth(seven_bit_digits(octets), 128) > u32::MAX,
    ensures
        oid_in(body + octets + rest) == Err::<Seq<u32>, Refusal>(Fault::LargeArc),
{
    let none = Seq::<u8>::empty();
    assert(seven_bit_digits(none) =~= Seq::<int>::empty());
    assert(worth(seven_bit_digits(none), 128) == 0);
    assert(none + octets =~= octets);
    lemma_large_number(none, octets, rest);
    lemma_arcs_in_add(body, 0, false, octets + rest);
    assert(body + octets + rest =~= body + (octets + rest));
}

proof fn lemma_unended(body: Seq<u8>, arc: u32, begun: bool)
    requires
        body.len() > 0 ==> body.last() >= 128,
        body.len() == 0 ==> begun,
    ensures
        arcs_in(body, arc, begun) is Err,
    decreases body.len(),
{
    if body.len() > 0 && arc < 0x200_0000 {
        let next = (arc * 128 + body[0] % 128) as u32;
        lemma_unended(
            body.skip(1),
            if body[0] >= 128 {
                next
            } else {
                0
            },
            body[0] >= 128,
        );
    }
}

proof fn lemma_unended_number(begun: Seq<u8>, octets: Seq<u8>)
    requires
        forall|i: int| 0 <= i < octets.len() ==> #[trigger] octets[i] >= 128,
        worth(seven_bit_digits(begun), 128) <= u32::MAX,
        worth(seven_bit_digits(begun + octets), 128) <= u32::MAX,
        begun.len() + octets.len() > 0,
    ensures
        arcs_in(octets, worth(seven_bit_digits(begun), 128) as u32, begun.len() > 0) == Err::<
            Seq<u32>,
            Refusal,
        >(Fault::UnendedArc),
    decreases octets.len(),
{
    if octets.len() > 0 {
        let arc = worth(seven_bit_digits(begun), 128);
        lemma_worth_nonnegative(seven_bit_digits(begun), 128);
        let further = begun.push(octets[0]);
        let more = octets.skip(1);
        lemma_worth_push(seven_bit_digits(begun), octets[0] as int % 128, 128);
        assert(seven_bit_digits(further) =~= seven_bit_digits(begun).push(octets[0] as int % 128));
        assert(further + more =~= begun + octets);
        assert forall|i: int| 0 <= i < more.len() implies #[trigger] more[i] >= 128 by {
            assert(octets[i + 1] >= 128);
        }
        lemma_worth_grows(further, more);
        lemma_unended_number(further, more);
        assert(arc < 0x200_0000);
    }
}

/// A number that does not end is refused, first or further on, and so is a
/// body of none.
pub proof fn law_unended_number_is_refused(body: Seq<u8>, octets: Seq<u8>)
    requires
        body.len() == 0 || oid_in(body) is Ok,
        octets.len() > 0,
        forall|i: int| 0 <= i < octets.len() ==> #[trigger] octets[i] >= 128,
    ensures
        oid_in(body + octets) is Err,
        worth(seven_bit_digits(octets), 128) <= u32::MAX ==> oid_in(body + octets) == Err::<
            Seq<u32>,
            Refusal,
        >(Fault::UnendedArc),
        oid_in(Seq::empty()) == Err::<Seq<u32>, Refusal>(Fault::EmptyOid),
{
    let none = Seq::<u8>::empty();
    lemma_unended(body + octets, 0, false);
    lemma_arcs_in_add(body, 0, false, octets);
    assert(seven_bit_digits(none) =~= Seq::<int>::empty());
    assert(worth(seven_bit_digits(none), 128) == 0);
    assert(none + octets =~= octets);
    if worth(seven_bit_digits(octets), 128) <= u32::MAX {
        lemma_unended_number(none, octets);
    }
}

// ------------------------------------------------------------------ decimal

/// `text` is a run of digits.
pub open spec fn digits_only(text: Seq<char>) -> bool {
    text.len() > 0 && forall|i: int| 0 <= i < text.len() ==> '0' <= #[trigger] text[i] <= '9'
}

proof fn lemma_digits_worth(text: Seq<char>)
    requires
        forall|i: int| 0 <= i < text.len() ==> '0' <= #[trigger] text[i] <= '9',
    ensures
        digits_value(text) == worth(char_digits(text), 10),
    decreases text.len(),
{
    if text.len() > 0 {
        lemma_digits_worth(text.drop_last());
        lemma_worth_last(char_digits(text), 10);
        assert(char_digits(text).drop_last() =~= char_digits(text.drop_last()));
        assert('0' <= text[text.len() - 1] <= '9');
    }
}

/// A number is written as its digits in base ten, with no nought before
/// them, and a `-` first where it is negative.
pub proof fn law_number_is_written_in_decimal(n: int)
    ensures
        n >= 0 ==> {
            &&& digits_only(signed_decimal(n))
            &&& worth(char_digits(signed_decimal(n)), 10) == n
            &&& signed_decimal(n).len() > 1 ==> signed_decimal(n)[0] != '0'
            &&& signed_decimal(n) == decimal(n as nat)
        },
        n < 0 ==> signed_decimal(n) == seq!['-'] + signed_decimal(-n),
{
    if n >= 0 {
        let text = decimal(n as nat);
        lemma_decimal(n as nat);
        assert forall|i: int| 0 <= i < text.len() implies '0' <= #[trigger] text[i] <= '9' by {
            assert(is_digit(text[i]));
        }
        lemma_digits_worth(text);
        if n == 0 {
            assert(decimal(0) =~= seq![digit_char(0)]);
        }
    }
}

/// A run of digits, with or without a sign, reads as the number it is worth
/// where `i64` holds it, and as none where it does not.
pub proof fn law_decimal_is_read(digits: Seq<char>)
    requires
        digits_only(digits),
    ensures
        ({
            let n = worth(char_digits(digits), 10);
            &&& i64_of(digits) == if n <= i64::MAX {
                Some(n as i64)
            } else {
                None
            }
            &&& i64_of(seq!['+'] + digits) == i64_of(digits)
            &&& i64_of(seq!['-'] + digits) == if -n >= i64::MIN {
                Some((-n) as i64)
            } else {
                None
            }
            &&& u32_of(digits) == if n <= u32::MAX {
                Some(n as u32)
            } else {
                None
            }
            &&& u32_of(seq!['+'] + digits) == u32_of(digits)
            &&& u32_of(seq!['-'] + digits) is None
        }),
{
    lemma_digits_worth(digits);
    assert(all_digits(digits));
    assert('0' <= digits[0] <= '9');
    assert((seq!['+'] + digits).skip(1) =~= digits);
    assert((seq!['-'] + digits).skip(1) =~= digits);
}

/// Nothing else reads as a number.
pub proof fn law_what_is_no_number_is_not_read(text: Seq<char>)
    requires
        !digits_only(text),
        text.len() > 0 && (text[0] == '+' || text[0] == '-') ==> !digits_only(text.skip(1)),
    ensures
        i64_of(text) is None,
        u32_of(text) is None,
{
    if all_digits(text) {
        assert forall|i: int| 0 <= i < text.len() implies '0' <= #[trigger] text[i] <= '9' by {
            assert(is_digit(text[i]));
        }
    }
    if text.len() > 0 && all_digits(text.skip(1)) {
        let rest = text.skip(1);
        assert forall|i: int| 0 <= i < rest.len() implies '0' <= #[trigger] rest[i] <= '9' by {
            assert(is_digit(rest[i]));
        }
    }
}

// ---------------------------------------------------------------------- hex

/// Octets are written as two digits each, the higher first: where sixteen
/// digits are counted from nought, each digit stands at what it is worth.
pub proof fn law_hex_digits(bytes: Seq<u8>)
    ensures
        hex_text(bytes).len() == 2 * bytes.len(),
        forall|i: int|
            0 <= i < bytes.len() ==> {
                &&& #[trigger] hex_text(bytes)[2 * i] == "0123456789abcdef"@[bytes[i] as int / 16]
                &&& hex_text(bytes)[2 * i + 1] == "0123456789abcdef"@[bytes[i] as int % 16]
            },
    decreases bytes.len(),
{
    if bytes.len() > 0 {
        let rest = bytes.skip(1);
        law_hex_digits(rest);
        lemma_hex_char(bytes[0] as nat / 16);
        lemma_hex_char(bytes[0] as nat % 16);
        assert forall|i: int| 0 <= i < bytes.len() implies {
            &&& #[trigger] hex_text(bytes)[2 * i] == "0123456789abcdef"@[bytes[i] as int / 16]
            &&& hex_text(bytes)[2 * i + 1] == "0123456789abcdef"@[bytes[i] as int % 16]
        } by {
            if i > 0 {
                assert(rest[i - 1] == bytes[i]);
                assert(hex_text(bytes)[2 * i] == hex_text(rest)[2 * (i - 1)]);
                assert(hex_text(bytes)[2 * i + 1] == hex_text(rest)[2 * (i - 1) + 1]);
            }
        }
    }
}

pub proof fn lemma_hex_char(d: nat)
    requires
        d < 16,
    ensures
        hex_char(d) == "0123456789abcdef"@[d as int],
        hex_digit("0123456789abcdef"@[d as int]) == Some(d),
        hex_digit("0123456789ABCDEF"@[d as int]) == Some(d),
{
    reveal_strlit("0123456789abcdef");
    reveal_strlit("0123456789ABCDEF");
    if d == 0 {
    } else if d == 1 {
    } else if d == 2 {
    } else if d == 3 {
    } else if d == 4 {
    } else if d == 5 {
    } else if d == 6 {
    } else if d == 7 {
    } else if d == 8 {
    } else if d == 9 {
    } else if d == 10 {
    } else if d == 11 {
    } else if d == 12 {
    } else if d == 13 {
    } else if d == 14 {
    } else {
        assert(d == 15);
    }
}

/// Two digits of either case are read as the octet they are worth, whatever
/// is read after them.
pub proof fn law_hex_pair_is_read(high: nat, low: nat, rest: Seq<char>)
    requires
        high < 16,
        low < 16,
    ensures
        ({
            let octet = (high * 16 + low) as u8;
            let read = match hex_bytes(rest) {
                Some(bytes) => Some(seq![octet] + bytes),
                None => None,
            };
            let a = "0123456789abcdef"@;
            let b = "0123456789ABCDEF"@;
            &&& hex_bytes(seq![a[high as int], a[low as int]] + rest) == read
            &&& hex_bytes(seq![b[high as int], b[low as int]] + rest) == read
            &&& hex_bytes(seq![a[high as int], b[low as int]] + rest) == read
            &&& hex_bytes(seq![b[high as int], a[low as int]] + rest) == read
        }),
        hex_bytes(Seq::empty()) == Some(Seq::<u8>::empty()),
{
    lemma_hex_char(high);
    lemma_hex_char(low);
    let a = "0123456789abcdef"@;
    let b = "0123456789ABCDEF"@;
    assert((seq![a[high as int], a[low as int]] + rest).skip(2) =~= rest);
    assert((seq![b[high as int], b[low as int]] + rest).skip(2) =~= rest);
    assert((seq![a[high as int], b[low as int]] + rest).skip(2) =~= rest);
    assert((seq![b[high as int], a[low as int]] + rest).skip(2) =~= rest);
}

/// Where a character is no hexadecimal digit, or one is over, no octets are
/// read.
pub proof fn law_what_is_no_hex_is_not_read(text: Seq<char>, i: int)
    requires
        0 <= i < text.len(),
        !('0' <= text[i] <= '9' || 'a' <= text[i] <= 'f' || 'A' <= text[i] <= 'F') || text.len() % 2
            == 1,
    ensures
        hex_bytes(text) is None,
    decreases text.len(),
{
    if text.len() >= 2 {
        if text.len() % 2 == 1 {
            law_what_is_no_hex_is_not_read(text.skip(2), 0);
        } else if i >= 2 {
            assert(text.skip(2)[i - 2] == text[i]);
            law_what_is_no_hex_is_not_read(text.skip(2), i - 2);
        }
    }
}

} // verus!
