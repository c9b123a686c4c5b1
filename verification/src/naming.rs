//! Names of the bodies spawned while the scene runs.
use vstd::prelude::*;

verus! {

/// The character of the decimal digit `d` (for `d < 10`).
pub open spec fn digit_char(d: nat) -> char {
    (48 + d) as char
}

/// The decimal representation of `n`, most significant digit first, with
/// no leading zero.
pub open spec fn decimal(n: nat) -> Seq<char>
    decreases n,
{
    if n < 10 {
        seq![digit_char(n)]
    } else {
        decimal(n / 10).push(digit_char(n % 10))
    }
}

/// The name of a body spawned when `count` bodies are already in the scene:
/// `R` followed by `count` in decimal.
pub open spec fn spawned_name(count: nat) -> Seq<char> {
    seq!['R'] + decimal(count)
}

/// Whether `c` is one of the decimal digits `0` to `9`.
pub open spec fn is_digit(c: char) -> bool {
    48 <= (c as int) && (c as int) <= 57
}

/// The number that the digit string `s` denotes when read in base ten,
/// most significant digit first.
pub open spec fn digits_value(s: Seq<char>) -> int
    decreases s.len(),
{
    if s.len() == 0 {
        0
    } else {
        digits_value(s.drop_last()) * 10 + ((s.last() as int) - 48)
    }
}

/// `String::push`: appends the character `c`.
#[verifier::external_body]
fn string_push(s: &mut String, c: char)
    ensures
        final(s)@ == old(s)@.push(c),
{
    s.push(c);
}

/// Appends the decimal representation of `n` to `s`.
fn push_decimal(s: &mut String, n: usize)
    ensures
        final(s)@ == old(s)@ + decimal(n as nat),
    decreases n,
{
    let ghost start = s@;
    if n >= 10 {
        push_decimal(s, n / 10);
    }
    let d: u8 = (n % 10) as u8;
    let c: char = (48u8 + d) as char;
    assert(c == digit_char((n % 10) as nat));
    string_push(s, c);
    assert(s@ =~= start + decimal(n as nat));
}

/// The name given to a body spawned when `count` bodies are already in the
/// scene, such as `R6` for the seventh body.
pub fn spawned_body_name(count: usize) -> (name: String)
    ensures
        name@ == spawned_name(count as nat),
        name@.len() >= 2,
        name@[0] == 'R',
        forall|i: int| 1 <= i < name@.len() ==> is_digit(#[trigger] name@[i]),
        digits_value(name@.drop_first()) == count,
        count > 0 ==> name@[1] != '0',
{
    let mut name = String::new();
    string_push(&mut name, 'R');
    push_decimal(&mut name, count);
    assert(name@ =~= spawned_name(count as nat));
    proof {
        lemma_spawned_name_reads_back(count as nat);
    }
    name
}

/// The decimal representation of a number ends with the digit of its last
/// place, and is one digit longer for every further place.
proof fn lemma_decimal_shape(n: nat)
    ensures
        decimal(n).len() >= 1,
        decimal(n).last() == digit_char(n % 10),
        n < 10 <==> decimal(n).len() == 1,
    decreases n,
{
    if n >= 10 {
        lemma_decimal_shape(n / 10);
    }
}

/// The decimal representation of `n` is made of digits, has no leading zero
/// (but for `n == 0`) and, read back in base ten, gives `n`.
pub proof fn lemma_decimal_reads_back(n: nat)
    ensures
        decimal(n).len() >= 1,
        forall|i: int| 0 <= i < decimal(n).len() ==> is_digit(#[trigger] decimal(n)[i]),
        digits_value(decimal(n)) == n,
        n > 0 ==> decimal(n)[0] != '0',
    decreases n,
{
    let d = decimal(n);
    assert((digit_char(n % 10) as int) == 48 + n % 10);
    if n >= 10 {
        lemma_decimal_reads_back(n / 10);
        assert(d.drop_last() =~= decimal(n / 10));
        assert(d[0] == decimal(n / 10)[0]);
        assert(d.last() == digit_char(n % 10));
        assert((n / 10) * 10 + n % 10 == n);
        assert(digits_value(d) == digits_value(decimal(n / 10)) * 10 + (n % 10));
    } else {
        assert(d.drop_last() =~= Seq::<char>::empty());
        assert(d.last() == digit_char(n));
        assert(digits_value(d) == digits_value(d.drop_last()) * 10 + ((d.last() as int) - 48));
    }
}

/// The name of a body spawned when `count` bodies are in the scene is `R`
/// followed by digits that, read back in base ten, give `count`, with no
/// leading zero: the name shows the count.
pub proof fn lemma_spawned_name_reads_back(count: nat)
    ensures
        spawned_name(count).len() >= 2,
        spawned_name(count)[0] == 'R',
        forall|i: int| 1 <= i < spawned_name(count).len() ==> is_digit(#[trigger] spawned_name(count)[i]),
        digits_value(spawned_name(count).drop_first()) == count,
        count > 0 ==> spawned_name(count)[1] != '0',
{
    lemma_decimal_reads_back(count);
    let s = spawned_name(count);
    assert(s.drop_first() =~= decimal(count));
    assert forall|i: int| 1 <= i < s.len() implies is_digit(#[trigger] s[i]) by {
        assert(s[i] == decimal(count)[i - 1]);
    }
}

/// Different counts give different names: no two bodies spawned at run time
/// share a name.
pub proof fn lemma_spawned_names_distinct(a: nat, b: nat)
    requires
        a != b,
    ensures
        spawned_name(a) != spawned_name(b),
{
    if spawned_name(a) == spawned_name(b) {
        assert(decimal(a) =~= spawned_name(a).drop_first());
        assert(decimal(b) =~= spawned_name(b).drop_first());
        lemma_decimal_injective(a, b);
    }
}

/// Different numbers have different decimal representations.
proof fn lemma_decimal_injective(a: nat, b: nat)
    requires
        decimal(a) == decimal(b),
    ensures
        a == b,
    decreases a,
{
    lemma_decimal_shape(a);
    lemma_decimal_shape(b);
    if a >= 10 {
        assert(b >= 10);
        assert(decimal(a / 10) =~= decimal(a).drop_last());
        assert(decimal(b / 10) =~= decimal(b).drop_last());
        lemma_decimal_injective(a / 10, b / 10);
    }
}

} // verus!
