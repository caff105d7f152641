//! Base-128 numbers with a continuation bit.
//!
//! A number is cut into groups of seven bits, most significant group first.
//! Every octet but the last has its high bit set. Large tag numbers and the
//! arcs of an object identifier are both written this way.

use vstd::prelude::*;

verus! {

/// The octets that stand before the last one: one per base-128 digit of `n`,
/// most significant first, each with the continuation bit set. Zero has none.
pub open spec fn leading_groups(n: nat) -> Seq<u8>
    decreases n,
{
    if n == 0 {
        Seq::empty()
    } else {
        leading_groups(n / 128).push((128 + n % 128) as u8)
    }
}

/// The encoding of `n` in the least number of octets. Zero is the single
/// octet `0x00`.
pub open spec fn encoding(n: nat) -> Seq<u8> {
    leading_groups(n / 128).push((n % 128) as u8)
}

/// How many base-128 digits `n` has when written without leading zeros.
/// Zero has none.
pub open spec fn group_count(n: nat) -> nat
    decreases n,
{
    if n == 0 {
        0
    } else {
        1 + group_count(n / 128)
    }
}

/// The accumulator of a decoder that held `acc` and then took in the leading
/// groups of `n`.
pub open spec fn shift_in(acc: nat, n: nat) -> nat
    decreases n,
{
    if n == 0 {
        acc
    } else {
        shift_in(acc, n / 128) * 128 + n % 128
    }
}

/// A decoder that starts from zero ends up holding the number itself.
pub proof fn lemma_shift_in_zero(n: nat)
    ensures
        shift_in(0, n) == n,
    decreases n,
{
    if n != 0 {
        lemma_shift_in_zero(n / 128);
    }
}

/// There is one leading group for each digit.
pub proof fn lemma_leading_groups_len(n: nat)
    ensures
        leading_groups(n).len() == group_count(n),
    decreases n,
{
    if n != 0 {
        lemma_leading_groups_len(n / 128);
    }
}

/// Every leading group carries the continuation bit.
pub proof fn lemma_leading_groups_continue(n: nat, i: int)
    requires
        0 <= i < leading_groups(n).len(),
    ensures
        leading_groups(n)[i] >= 128,
        leading_groups(n)[i] == 128 + leading_groups(n)[i] % 128,
    decreases n,
{
    if n != 0 {
        if i < leading_groups(n / 128).len() {
            lemma_leading_groups_continue(n / 128, i);
        }
    }
}

/// The leading groups start with a digit that is not zero: no octet is
/// spent on padding.
pub proof fn lemma_leading_groups_minimal(n: nat)
    requires
        n != 0,
    ensures
        leading_groups(n).len() >= 1,
        leading_groups(n)[0] > 128,
    decreases n,
{
    if n / 128 != 0 {
        lemma_leading_groups_minimal(n / 128);
    } else {
        assert(leading_groups(n / 128).len() == 0);
    }
}

/// The shape of an encoding: every octet but the last carries the
/// continuation bit, the last does not, and an encoding of more than one
/// octet starts with a digit that is not zero.
pub proof fn lemma_encoding_shape(n: nat)
    ensures
        encoding(n).len() >= 1,
        forall|i: int| 0 <= i < encoding(n).len() - 1 ==> #[trigger] encoding(n)[i] >= 128,
        encoding(n).last() < 128,
        encoding(n).len() > 1 ==> encoding(n)[0] > 128,
{
    let groups = leading_groups(n / 128);
    assert forall|i: int| 0 <= i < encoding(n).len() - 1 implies #[trigger] encoding(n)[i]
        >= 128 by {
        lemma_leading_groups_continue(n / 128, i);
    }
    if groups.len() > 0 {
        lemma_leading_groups_minimal(n / 128);
    }
}

/// The encoding has as many octets as the number has digits, and one octet
/// for zero.
pub proof fn lemma_encoding_len(n: nat)
    ensures
        encoding(n).len() == if n == 0 {
            1
        } else {
            group_count(n)
        },
        encoding(n).len() == group_count(n / 128) + 1,
{
    lemma_leading_groups_len(n / 128);
}

/// A 64-bit number has at most ten base-128 digits.
pub proof fn lemma_group_count_u64(n: nat)
    requires
        n <= u64::MAX,
    ensures
        group_count(n) <= 10,
{
    reveal_with_fuel(group_count, 11);
}

/// Appends the leading groups of `n` to `out`.
pub fn append_leading_groups(n: u64, out: &mut Vec<u8>)
    ensures
        final(out)@ == old(out)@ + leading_groups(n as nat),
    decreases n,
{
    if n != 0 {
        append_leading_groups(n / 128, out);
        out.push(128 + (n % 128) as u8);
    }
}

/// Appends the encoding of `n` to `out` and returns how many octets that
/// took.
pub fn append_encoding(n: u64, out: &mut Vec<u8>) -> (written: usize)
    ensures
        final(out)@ == old(out)@ + encoding(n as nat),
        written == encoding(n as nat).len(),
{
    let before = out.len();
    append_leading_groups(n / 128, out);
    out.push((n % 128) as u8);
    out.len() - before
}

} // verus!
