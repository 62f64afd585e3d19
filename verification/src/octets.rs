//! Whole numbers as octets, the most significant first.
use vstd::prelude::*;

verus! {

/// The number a run of octets writes, read without a sign.
pub open spec fn be_value(s: Seq<u8>) -> nat
    decreases s.len(),
{
    if s.len() == 0 {
        0
    } else {
        be_value(s.drop_last()) * 256 + s.last() as nat
    }
}

/// The fewest octets that write `n` without a sign.
pub open spec fn be_octets(n: nat) -> Seq<u8>
    decreases n,
{
    if n < 256 {
        seq![n as u8]
    } else {
        be_octets(n / 256).push((n % 256) as u8)
    }
}

/// The number a run of octets writes in two's complement.
pub open spec fn int_value(s: Seq<u8>) -> int
    decreases s.len(),
{
    if s.len() == 0 {
        0
    } else if s.len() == 1 {
        if s[0] < 128 {
            s[0] as int
        } else {
            s[0] - 256
        }
    } else {
        int_value(s.drop_last()) * 256 + s.last()
    }
}

/// The fewest octets that write `n` in two's complement.
pub open spec fn int_octets(n: int) -> Seq<u8>
    decreases
            (if n < 0 {
                -n
            } else {
                n
            }),
{
    if -128 <= n < 128 {
        seq![(n % 256) as u8]
    } else {
        int_octets(n / 256).push((n % 256) as u8)
    }
}

/// 256 to the power `k`.
pub open spec fn span(k: nat) -> nat
    decreases k,
{
    if k == 0 {
        1
    } else {
        span((k - 1) as nat) * 256
    }
}

pub proof fn lemma_span_values()
    ensures
        span(1) == 0x100,
        span(2) == 0x1_0000,
        span(3) == 0x100_0000,
        span(4) == 0x1_0000_0000,
        span(7) == 0x100_0000_0000_0000,
        span(8) == 0x1_0000_0000_0000_0000,
{
    reveal_with_fuel(span, 9);
}

pub proof fn lemma_be_value_bound(s: Seq<u8>)
    ensures
        be_value(s) < span(s.len()),
    decreases s.len(),
{
    if s.len() > 0 {
        lemma_be_value_bound(s.drop_last());
    }
}

/// Octets after the first ones only add to what the first ones write.
pub proof fn lemma_be_value_grows(s: Seq<u8>, i: int)
    requires
        0 <= i <= s.len(),
    ensures
        be_value(s.take(i)) <= be_value(s),
    decreases s.len(),
{
    if i == s.len() {
        assert(s.take(i) =~= s);
    } else {
        lemma_be_value_grows(s.drop_last(), i);
        assert(s.drop_last().take(i) =~= s.take(i));
    }
}

pub proof fn lemma_be_octets(n: nat)
    ensures
        be_octets(n).len() > 0,
        be_value(be_octets(n)) == n,
        be_octets(n)[0] == 0 ==> n == 0,
    decreases n,
{
    let s = be_octets(n);
    if n < 256 {
        assert(s.drop_last() =~= Seq::<u8>::empty());
        assert(be_value(s.drop_last()) == 0);
    } else {
        lemma_be_octets(n / 256);
        assert(s.drop_last() =~= be_octets(n / 256));
    }
}

pub proof fn lemma_be_octets_len(n: nat, k: nat)
    requires
        k > 0,
        n < span(k),
    ensures
        be_octets(n).len() <= k,
    decreases k,
{
    if n >= 256 {
        assert(k > 1) by {
            reveal_with_fuel(span, 2);
        }
        lemma_be_octets_len(n / 256, (k - 1) as nat);
    }
}

/// Octets of a number that takes more than `k` of them.
pub proof fn lemma_be_octets_len_min(n: nat, k: nat)
    requires
        n >= span(k),
    ensures
        be_octets(n).len() > k,
    decreases k,
{
    if k == 0 {
        lemma_be_octets(n);
    } else {
        assert(span(k) >= 256) by {
            lemma_span_positive((k - 1) as nat);
        }
        lemma_be_octets_len_min(n / 256, (k - 1) as nat);
    }
}

pub proof fn lemma_span_positive(k: nat)
    ensures
        span(k) > 0,
    decreases k,
{
    if k > 0 {
        lemma_span_positive((k - 1) as nat);
    }
}

pub proof fn lemma_int_octets(n: int)
    ensures
        int_octets(n).len() > 0,
        int_value(int_octets(n)) == n,
    decreases
            (if n < 0 {
                -n
            } else {
                n
            }),
{
    let s = int_octets(n);
    if !(-128 <= n < 128) {
        lemma_int_octets(n / 256);
        assert(s.drop_last() =~= int_octets(n / 256));
    }
}

pub proof fn lemma_int_octets_len(n: int, k: nat)
    requires
        k > 0,
        -(span(k) as int) <= 2 * n < span(k),
    ensures
        int_octets(n).len() <= k,
    decreases k,
{
    if !(-128 <= n < 128) {
        assert(k > 1) by {
            reveal_with_fuel(span, 2);
        }
        assert(span(k) == 2 * (128 * span((k - 1) as nat)));
        assert(span((k - 1) as nat) == span((k - 2) as nat) * 256);
        lemma_int_octets_len(n / 256, (k - 1) as nat);
    }
}

/// In two's complement a number that is not negative has the octets it has
/// without a sign, after a zero where the first would read as a sign.
pub proof fn lemma_int_octets_unsigned(n: nat)
    ensures
        int_octets(n as int) == if be_octets(n)[0] < 128 {
            be_octets(n)
        } else {
            seq![0u8] + be_octets(n)
        },
    decreases n,
{
    lemma_be_octets(n);
    if n < 128 {
    } else if n < 256 {
        assert(int_octets(0) =~= seq![0u8]);
        assert(int_octets(n as int) =~= seq![0u8] + be_octets(n));
    } else {
        lemma_be_octets(n / 256);
        lemma_int_octets_unsigned(n / 256);
        assert(int_octets(n as int) == int_octets((n / 256) as int).push((n % 256) as u8));
        if be_octets(n)[0] >= 128 {
            assert(int_octets(n as int) =~= seq![0u8] + be_octets(n));
        }
    }
}

/// The octets of `n`, or of `-1 - n` where `flip` says so, in two's
/// complement.
fn push_int(out: &mut Vec<u8>, n: u64, flip: bool)
    ensures
        final(out)@ == old(out)@ + int_octets(
            if flip {
                -1 - n
            } else {
                n as int
            },
        ),
    decreases n,
{
    let ghost whole: int = if flip {
        -1 - n
    } else {
        n as int
    };
    if n >= 128 {
        push_int(out, n / 256, flip);
    }
    let low: u8 = (n % 256) as u8;
    if flip {
        out.push(255 - low);
    } else {
        out.push(low);
    }
    assert(out@ =~= old(out)@ + int_octets(whole));
}

/// `n` in the fewest octets of two's complement.
pub(crate) fn signed_octets(n: i64) -> (out: Vec<u8>)
    ensures
        out@ == int_octets(n as int),
{
    let mut out: Vec<u8> = Vec::new();
    if n < 0 {
        push_int(&mut out, (-1 - n) as u64, true);
    } else {
        push_int(&mut out, n as u64, false);
    }
    assert(out@ =~= int_octets(n as int));
    out
}

/// `n` in the fewest octets, a leading zero where the top bit would read as
/// a sign.
pub(crate) fn unsigned_octets(n: u64) -> (out: Vec<u8>)
    ensures
        out@ == int_octets(n as int),
{
    let mut out: Vec<u8> = Vec::new();
    push_int(&mut out, n, false);
    assert(out@ =~= int_octets(n as int));
    out
}

/// Append the fewest octets that write `n` without a sign.
pub(crate) fn push_be(out: &mut Vec<u8>, n: u64)
    ensures
        final(out)@ == old(out)@ + be_octets(n as nat),
    decreases n,
{
    if n >= 256 {
        push_be(out, n / 256);
    }
    out.push((n % 256) as u8);
    assert(out@ =~= old(out)@ + be_octets(n as nat));
}

/// The number eight octets or fewer write without a sign.
pub(crate) fn read_be(s: &[u8]) -> (n: u64)
    requires
        s@.len() <= 8,
    ensures
        n == be_value(s@),
{
    let mut n: u64 = 0;
    for i in 0..s.len()
        invariant
            s@.len() <= 8,
            n == be_value(s@.take(i as int)),
    {
        assert(s@.take(i + 1).drop_last() =~= s@.take(i as int));
        proof {
            lemma_be_value_bound(s@.take(i as int));
            lemma_span_values();
            lemma_span_grows(i as nat, 7);
        }
        n = n * 256 + s[i] as u64;
    }
    assert(s@.take(s@.len() as int) =~= s@);
    n
}

pub proof fn lemma_span_grows(j: nat, k: nat)
    requires
        j <= k,
    ensures
        span(j) <= span(k),
    decreases k,
{
    if j < k {
        lemma_span_grows(j, (k - 1) as nat);
    }
}

proof fn lemma_int_value_bound(s: Seq<u8>)
    requires
        s.len() > 0,
    ensures
        -(span(s.len()) as int) <= 2 * int_value(s) < span(s.len()),
    decreases s.len(),
{
    if s.len() == 1 {
        lemma_span_values();
    } else {
        lemma_int_value_bound(s.drop_last());
    }
}

/// The number one to eight octets write in two's complement.
pub(crate) fn read_signed(s: &[u8]) -> (n: i64)
    requires
        0 < s@.len() <= 8,
    ensures
        n == int_value(s@),
{
    let mut n: i64 = if s[0] < 128 {
        s[0] as i64
    } else {
        s[0] as i64 - 256
    };
    for i in 1..s.len()
        invariant
            0 < s@.len() <= 8,
            n == int_value(s@.take(i as int)),
    {
        assert(s@.take(i + 1).drop_last() =~= s@.take(i as int));
        proof {
            lemma_int_value_bound(s@.take(i as int));
            lemma_span_values();
            lemma_span_grows(i as nat, 7);
        }
        n = n * 256 + s[i] as i64;
    }
    assert(s@.take(s@.len() as int) =~= s@);
    n
}

} // verus!
