//! Decimal text: rendering numbers and reading digit strings back.
use vstd::prelude::*;

verus! {

/// The character of one decimal digit.
pub open spec fn digit_char(d: nat) -> char {
    (48 + d) as char
}

/// `n` in decimal, without leading zeros.
pub open spec fn decimal(n: nat) -> Seq<char>
    decreases n,
{
    if n < 10 {
        seq![digit_char(n)]
    } else {
        decimal(n / 10).push(digit_char(n % 10))
    }
}

/// The number that a string of decimal digits denotes.
pub open spec fn digits_value(s: Seq<char>) -> nat
    decreases s.len(),
{
    if s.len() == 0 {
        0
    } else {
        10 * digits_value(s.drop_last()) + (s.last() as nat - 48) as nat
    }
}

/// `s` filled up with zeros on the left to at least `width` characters.
pub open spec fn zero_padded(s: Seq<char>, width: nat) -> Seq<char> {
    if s.len() < width {
        Seq::new((width - s.len()) as nat, |i: int| '0') + s
    } else {
        s
    }
}

/// The power of ten with one zero for each digit of `n`.
pub open spec fn digit_scale(n: nat) -> nat
    decreases n,
{
    if n < 10 {
        10
    } else {
        10 * digit_scale(n / 10)
    }
}

/// Writing the digits of `n` behind those of a number shifts that number by
/// as many places and adds `n`.
pub proof fn lemma_value_of_appended(s: Seq<char>, n: nat)
    ensures
        digits_value(s + decimal(n)) == digits_value(s) * digit_scale(n) + n,
    decreases n,
{
    let joined = s + decimal(n);
    let v = digits_value(s);
    if n < 10 {
        assert(joined.drop_last() =~= s);
        assert(joined.last() as nat == 48 + n);
        assert(digits_value(joined) == 10 * v + n);
        assert(10 * v == v * digit_scale(n)) by (nonlinear_arith)
            requires
                digit_scale(n) == 10,
        ;
    } else {
        let k = digit_scale(n / 10);
        lemma_value_of_appended(s, n / 10);
        assert(joined.drop_last() =~= s + decimal(n / 10));
        assert(joined.last() as nat == 48 + n % 10);
        assert(digits_value(joined) == 10 * (v * k + n / 10) + n % 10);
        assert(10 * (v * k + n / 10) + n % 10 == v * (10 * k) + n) by (nonlinear_arith);
        assert(digit_scale(n) == 10 * k);
    }
}

/// Reading a rendered number gives the number back.
pub proof fn decimal_round_trip(n: nat)
    ensures
        digits_value(decimal(n)) == n,
{
    lemma_value_of_appended(Seq::<char>::empty(), n);
    assert(Seq::<char>::empty() + decimal(n) =~= decimal(n));
    let k = digit_scale(n);
    assert(0 * k == 0) by (nonlinear_arith);
}

/// Different numbers are rendered differently.
pub proof fn decimal_injective(a: nat, b: nat)
    requires
        decimal(a) == decimal(b),
    ensures
        a == b,
{
    decimal_round_trip(a);
    decimal_round_trip(b);
}

/// A number is rendered in decimal digits, of which the first is no zero unless
/// it is the only one.
pub proof fn decimal_is_digits(n: nat)
    ensures
        decimal(n).len() > 0,
        forall|i: int|
            0 <= i < decimal(n).len() ==> 48 <= (#[trigger] decimal(n)[i]) as int
                && decimal(n)[i] as int <= 57,
        n > 0 ==> decimal(n)[0] != '0',
        n < 10 ==> decimal(n).len() == 1,
    decreases n,
{
    if n >= 10 {
        decimal_is_digits(n / 10);
    }
}

/// Zeros on the left change nothing about the value, and there are just enough of
/// them.
pub proof fn padding_keeps_the_value(s: Seq<char>, width: nat)
    ensures
        digits_value(zero_padded(s, width)) == digits_value(s),
        s.len() >= width ==> zero_padded(s, width) == s,
        s.len() < width ==> zero_padded(s, width).len() == width && zero_padded(s, width).skip(
            width - s.len(),
        ) == s,
{
    if s.len() < width {
        let zeros = Seq::new((width - s.len()) as nat, |i: int| '0');
        lemma_zeros_in_front(zeros, s);
        assert((zeros + s).skip(width - s.len()) =~= s);
    }
}

proof fn lemma_zeros_in_front(zeros: Seq<char>, s: Seq<char>)
    requires
        forall|i: int| 0 <= i < zeros.len() ==> #[trigger] zeros[i] == '0',
    ensures
        digits_value(zeros + s) == digits_value(s),
    decreases zeros.len() + s.len(),
{
    let joined = zeros + s;
    if s.len() > 0 {
        assert(joined.drop_last() =~= zeros + s.drop_last());
        lemma_zeros_in_front(zeros, s.drop_last());
    } else if zeros.len() > 0 {
        assert(joined.drop_last() =~= zeros.drop_last() + s);
        assert(joined.last() == zeros[zeros.len() - 1]);
        lemma_zeros_in_front(zeros.drop_last(), s);
    }
}

fn digit_text(d: u64) -> (r: &'static str)
    requires
        d < 10,
    ensures
        r@ == seq![digit_char(d as nat)],
{
    proof {
        reveal_strlit("0");
        reveal_strlit("1");
        reveal_strlit("2");
        reveal_strlit("3");
        reveal_strlit("4");
        reveal_strlit("5");
        reveal_strlit("6");
        reveal_strlit("7");
        reveal_strlit("8");
        reveal_strlit("9");
    }
    let r = match d {
        0 => "0",
        1 => "1",
        2 => "2",
        3 => "3",
        4 => "4",
        5 => "5",
        6 => "6",
        7 => "7",
        8 => "8",
        _ => "9",
    };
    assert(r@ =~= seq![digit_char(d as nat)]);
    r
}

/// Renders `n` in decimal.
pub fn decimal_string(n: u64) -> (r: String)
    ensures
        r@ == decimal(n as nat),
    decreases n,
{
    if n < 10 {
        digit_text(n).to_owned()
    } else {
        let mut text = decimal_string(n / 10);
        text.append(digit_text(n % 10));
        assert(text@ =~= decimal(n as nat));
        text
    }
}

/// Renders `n` in decimal with at least `width` characters.
pub fn zero_padded_string(n: u64, width: usize) -> (r: String)
    ensures
        r@ == zero_padded(decimal(n as nat), width as nat),
{
    let digits = decimal_string(n);
    let len = digits.as_str().unicode_len();
    if len >= width {
        return digits;
    }
    let mut text = String::new();
    let mut i: usize = 0;
    while i < width - len
        invariant
            len < width,
            i <= width - len,
            text@ =~= Seq::new(i as nat, |k: int| '0'),
        decreases width - len - i,
    {
        proof {
            reveal_strlit("0");
        }
        text.append("0");
        i += 1;
    }
    text.append(digits.as_str());
    text
}

/// The power of ten that makes room for the digits of `n`.
pub fn digit_scale_of(n: u32) -> (r: u64)
    ensures
        r == digit_scale(n as nat),
        r <= 10 * n || r == 10,
    decreases n,
{
    if n < 10 {
        10
    } else {
        10 * digit_scale_of(n / 10)
    }
}

} // verus!
