use vstd::prelude::*;
use vstd::string::*;

verus! {

/// The character of a decimal digit.
pub open spec fn digit_char(d: nat) -> char {
    seq!['0', '1', '2', '3', '4', '5', '6', '7', '8', '9'][d as int]
}

/// The numeric value of a decimal digit character.
pub open spec fn digit_value(c: char) -> nat {
    if c == '1' {
        1
    } else if c == '2' {
        2
    } else if c == '3' {
        3
    } else if c == '4' {
        4
    } else if c == '5' {
        5
    } else if c == '6' {
        6
    } else if c == '7' {
        7
    } else if c == '8' {
        8
    } else if c == '9' {
        9
    } else {
        0
    }
}

/// The decimal spelling of `n`: no sign, no leading zero.
pub open spec fn decimal(n: nat) -> Seq<char>
    decreases n,
{
    if n < 10 {
        seq![digit_char(n)]
    } else {
        decimal(n / 10).push(digit_char(n % 10))
    }
}

/// The number that a string of decimal digits spells.
pub open spec fn decimal_value(s: Seq<char>) -> nat
    decreases s.len(),
{
    if s.len() == 0 {
        0
    } else {
        decimal_value(s.drop_last()) * 10 + digit_value(s.last())
    }
}

/// The prefix of every synthetic block name.
pub open spec fn anon_prefix() -> Seq<char> {
    seq!['a', 'n', 'o', 'n', '_', 'b', 'l', 'o', 'c', 'k', '_']
}

/// The name minted for the `k`-th block that opens without a label.
pub open spec fn synthetic_name(k: nat) -> Seq<char> {
    anon_prefix() + decimal(k)
}

/// Whether `s` is the name that some unlabelled block could be given.
pub open spec fn is_synthetic_name(s: Seq<char>) -> bool {
    exists|k: nat| k >= 1 && s == #[trigger] synthetic_name(k)
}

proof fn lemma_digit_round_trip(d: nat)
    requires
        d < 10,
    ensures
        digit_value(digit_char(d)) == d,
{
    assert(d == 0 || d == 1 || d == 2 || d == 3 || d == 4 || d == 5 || d == 6 || d == 7 || d
        == 8 || d == 9);
}

/// Reading back the decimal spelling of `n` gives `n`.
pub proof fn lemma_decimal_value(n: nat)
    ensures
        decimal_value(decimal(n)) == n,
    decreases n,
{
    if n < 10 {
        lemma_digit_round_trip(n);
        assert(decimal(n).drop_last() =~= Seq::<char>::empty());
        assert(decimal_value(Seq::<char>::empty()) == 0);
        assert(decimal(n).last() == digit_char(n));
        assert(decimal_value(decimal(n)) == decimal_value(decimal(n).drop_last()) * 10
            + digit_value(digit_char(n)));
    } else {
        lemma_decimal_value(n / 10);
        lemma_digit_round_trip(n % 10);
        assert(decimal(n).drop_last() =~= decimal(n / 10));
        assert(decimal(n).last() == digit_char(n % 10));
        assert(decimal_value(decimal(n)) == decimal_value(decimal(n / 10)) * 10 + digit_value(
            digit_char(n % 10),
        ));
        assert(n == (n / 10) * 10 + n % 10);
    }
}

/// Different counters give different synthetic names.
pub proof fn lemma_synthetic_name_injective(a: nat, b: nat)
    requires
        synthetic_name(a) == synthetic_name(b),
    ensures
        a == b,
{
    let p = anon_prefix().len() as int;
    assert(decimal(a) =~= synthetic_name(a).subrange(p, synthetic_name(a).len() as int));
    assert(decimal(b) =~= synthetic_name(b).subrange(p, synthetic_name(b).len() as int));
    lemma_decimal_value(a);
    lemma_decimal_value(b);
}

/// Relies on `usize`'s `Display`, through `to_string`: the decimal digits, with no sign and
/// no leading zero.
#[verifier::external_body]
pub(crate) fn decimal_string(n: usize) -> (r: String)
    ensures
        r@ == decimal(n as nat),
{
    n.to_string()
}

/// Mints the name of the `k`-th unlabelled block.
pub fn make_synthetic_name(k: usize) -> (r: String)
    ensures
        r@ == synthetic_name(k as nat),
{
    let prefix = String::from_str("anon_block_");
    proof {
        reveal_strlit("anon_block_");
    }
    assert(prefix@ =~= anon_prefix());
    let digits = decimal_string(k);
    prefix.concat(digits.as_str())
}

} // verus!
