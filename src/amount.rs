//! Atomic amounts: decimal parsing, scaling by a display exponent, and
//! rendering at a fixed precision of four fractional digits.
use vstd::prelude::*;
use vstd::string::StrSliceExecFns;
use vstd::string::StringExecFns;

verus! {

pub open spec fn pow10(e: nat) -> nat
    decreases e,
{
    if e == 0 {
        1
    } else {
        10 * pow10((e - 1) as nat)
    }
}

pub open spec fn is_digit(c: char) -> bool {
    '0' <= c && c <= '9'
}

pub open spec fn digit_value(c: char) -> nat {
    (c as u32 - '0' as u32) as nat
}

pub open spec fn digit_char(d: nat) -> char {
    seq!['0', '1', '2', '3', '4', '5', '6', '7', '8', '9'][d as int]
}

pub open spec fn all_digits(s: Seq<char>) -> bool {
    forall|i: int| 0 <= i < s.len() ==> is_digit(#[trigger] s[i])
}

/// The number that a string of decimal digits denotes.
pub open spec fn digits_value(s: Seq<char>) -> nat
    decreases s.len(),
{
    if s.len() == 0 {
        0
    } else {
        digits_value(s.drop_last()) * 10 + digit_value(s.last())
    }
}

/// A non-empty string of decimal digits whose value fits an amount.
pub open spec fn parse_amount_spec(s: Seq<char>) -> Option<u128> {
    if s.len() > 0 && all_digits(s) && digits_value(s) <= u128::MAX {
        Some(digits_value(s) as u128)
    } else {
        None
    }
}

/// A net position: a text that starts with a minus sign stands for zero.
pub open spec fn parse_clamped_spec(s: Seq<char>) -> Option<u128> {
    if s.len() > 0 && s[0] == '-' {
        Some(0)
    } else {
        parse_amount_spec(s)
    }
}

/// Decimal text of a natural number, without leading zeros.
pub open spec fn decimal_text(n: nat) -> Seq<char>
    decreases n,
{
    if n < 10 {
        seq![digit_char(n)]
    } else {
        decimal_text(n / 10).push(digit_char(n % 10))
    }
}

/// The four digits of a number below 10000, zero-padded.
pub open spec fn four_digits(n: nat) -> Seq<char> {
    seq![
        digit_char((n / 1000) % 10),
        digit_char((n / 100) % 10),
        digit_char((n / 10) % 10),
        digit_char(n % 10),
    ]
}

/// `a / 10^e` in units of `10^-4`, rounded half up.
pub open spec fn rounded_units(a: nat, e: nat) -> nat {
    (2 * a * pow10(4) + pow10(e)) / (2 * pow10(e))
}

/// `a / 10^e` rounded half up to four fractional digits, as text.
pub open spec fn scaled_text(a: nat, e: nat) -> Seq<char> {
    let u = rounded_units(a, e);
    decimal_text(u / 10000) + seq!['.'] + four_digits(u % 10000)
}


fn digit_str(d: u8) -> (r: &'static str)
    requires
        d < 10,
    ensures
        r@ == seq![digit_char(d as nat)],
{
    match d {
        0 => {
            proof {
                reveal_strlit("0");
            }
            "0"
        },
        1 => {
            proof {
                reveal_strlit("1");
            }
            "1"
        },
        2 => {
            proof {
                reveal_strlit("2");
            }
            "2"
        },
        3 => {
            proof {
                reveal_strlit("3");
            }
            "3"
        },
        4 => {
            proof {
                reveal_strlit("4");
            }
            "4"
        },
        5 => {
            proof {
                reveal_strlit("5");
            }
            "5"
        },
        6 => {
            proof {
                reveal_strlit("6");
            }
            "6"
        },
        7 => {
            proof {
                reveal_strlit("7");
            }
            "7"
        },
        8 => {
            proof {
                reveal_strlit("8");
            }
            "8"
        },
        _ => {
            proof {
                reveal_strlit("9");
            }
            "9"
        },
    }
}

fn push_decimal(n: u128, out: &mut String)
    ensures
        final(out)@ == old(out)@ + decimal_text(n as nat),
    decreases n,
{
    if n >= 10 {
        push_decimal(n / 10, out);
    }
    out.append(digit_str((n % 10) as u8));
    proof {
        assert(final(out)@ =~= old(out)@ + decimal_text(n as nat));
    }
}

fn push_four_digits(n: u128, out: &mut String)
    requires
        n < 10000,
    ensures
        final(out)@ == old(out)@ + four_digits(n as nat),
{
    out.append(digit_str(((n / 1000) % 10) as u8));
    out.append(digit_str(((n / 100) % 10) as u8));
    out.append(digit_str(((n / 10) % 10) as u8));
    out.append(digit_str((n % 10) as u8));
    proof {
        assert(final(out)@ =~= old(out)@ + four_digits(n as nat));
    }
}


pub proof fn lemma_pow10_positive(e: nat)
    ensures
        pow10(e) >= 1,
    decreases e,
{
    if e > 0 {
        lemma_pow10_positive((e - 1) as nat);
    }
}

proof fn lemma_pow10_monotone(i: nat, j: nat)
    requires
        i <= j,
    ensures
        pow10(i) <= pow10(j),
    decreases j,
{
    if i < j {
        lemma_pow10_monotone(i, (j - 1) as nat);
        lemma_pow10_positive((j - 1) as nat);
    }
}

proof fn lemma_pow10_add(i: nat, j: nat)
    ensures
        pow10(i + j) == pow10(i) * pow10(j),
    decreases i,
{
    if i > 0 {
        let k = (i - 1) as nat;
        lemma_pow10_add(k, j);
        assert(i + j == (k + j) + 1);
        assert(pow10(i + j) == 10 * pow10(k + j));
        assert(10 * (pow10(k) * pow10(j)) == (10 * pow10(k)) * pow10(j)) by (nonlinear_arith);
        assert(pow10(i) == 10 * pow10(k));
    } else {
        assert(pow10(i) == 1);
    }
}

proof fn lemma_pow10_bounds()
    ensures
        pow10(4) == 10000,
        pow10(38) <= u128::MAX,
        pow10(39) > 2 * (u128::MAX as nat),
{
    reveal_with_fuel(pow10, 40);
}

fn pow10_exec(e: u32) -> (r: u128)
    requires
        e <= 38,
    ensures
        r as nat == pow10(e as nat),
{
    let mut r: u128 = 1;
    let mut i: u32 = 0;
    while i < e
        invariant
            i <= e <= 38,
            r as nat == pow10(i as nat),
        decreases e - i,
    {
        proof {
            lemma_pow10_bounds();
            lemma_pow10_monotone((i + 1) as nat, 38);
        }
        r = r * 10;
        i = i + 1;
    }
    r
}

/// Integer part and four-digit fraction of `a / 10^e`, rounded half up.
fn scaled_parts(a: u128, e: u8) -> (r: (u128, u128))
    ensures
        r.0 as nat == rounded_units(a as nat, e as nat) / 10000,
        r.1 as nat == rounded_units(a as nat, e as nat) % 10000,
{
    proof {
        lemma_pow10_bounds();
    }
    let ghost an = a as int;
    let ghost ee = pow10(e as nat) as int;
    let ghost x = 2 * an * 10000 + ee;
    proof {
        lemma_pow10_positive(e as nat);
    }
    if e <= 4 {
        let big_e = pow10_exec(e as u32);
        let p = pow10_exec(4 - e as u32);
        proof {
            lemma_pow10_add((4 - e) as nat, e as nat);
            assert((4 - e) as nat + e as nat == 4);
            let pi = p as int;
            assert(10000 == pi * ee);
            assert(x == (2 * ee) * (an * pi) + ee) by (nonlinear_arith)
                requires
                    x == 2 * an * 10000 + ee,
                    10000 == pi * ee,
            ;
            vstd::arithmetic::div_mod::lemma_fundamental_div_mod_converse(x, 2 * ee, an * pi, ee);
            let q = an / ee;
            let m = an % ee;
            vstd::arithmetic::div_mod::lemma_fundamental_div_mod(an, ee);
            vstd::arithmetic::div_mod::lemma_mod_pos_bound(an, ee);
            lemma_pow10_positive((4 - e) as nat);
            assert(an * pi == q * 10000 + m * pi && m * pi < 10000) by (nonlinear_arith)
                requires
                    an == ee * q + m,
                    0 <= m < ee,
                    10000 == pi * ee,
                    pi >= 1,
            ;
            vstd::arithmetic::div_mod::lemma_fundamental_div_mod_converse(an * pi, 10000, q, m * pi);
        }
        (a / big_e, (a % big_e) * p)
    } else if e - 4 <= 38 {
        let d = pow10_exec((e - 4) as u32);
        proof {
            lemma_pow10_monotone(1, (e - 4) as nat);
            reveal_with_fuel(pow10, 2);
        }
        let q = a / d;
        let m = a % d;
        proof {
            vstd::arithmetic::div_mod::lemma_fundamental_div_mod(a as int, d as int);
            assert(q < u128::MAX) by (nonlinear_arith)
                requires
                    a as int == (d as int) * (q as int) + (m as int),
                    m >= 0,
                    d >= 10,
                    a <= u128::MAX,
            ;
        }
        let u = if m >= d - m { q + 1 } else { q };
        proof {
            lemma_pow10_add((e - 4) as nat, 4);
            assert((e - 4) as nat + 4 == e as nat);
            let di = d as int;
            assert(ee == di * 10000);
            vstd::arithmetic::div_mod::lemma_fundamental_div_mod(an, di);
            let rem: int = if m >= d - m { 2 * m - di } else { 2 * m + di };
            assert(x == (2 * ee) * (u as int) + rem * 10000 && 0 <= rem * 10000 < 2 * ee)
                by (nonlinear_arith)
                requires
                    x == 2 * an * 10000 + ee,
                    ee == di * 10000,
                    an == di * (q as int) + (m as int),
                    0 <= m < di,
                    rem == (if m >= di - m { 2 * m - di } else { 2 * m + di }),
                    u == (if m >= di - m { q + 1 } else { q as int }),
            ;
            vstd::arithmetic::div_mod::lemma_fundamental_div_mod_converse(x, 2 * ee, u as int, rem * 10000);
        }
        (u / 10000, u % 10000)
    } else {
        proof {
            lemma_pow10_monotone(43, e as nat);
            lemma_pow10_add(39, 4);
            assert(2 * an * 10000 < ee) by (nonlinear_arith)
                requires
                    ee >= pow10(39) * 10000,
                    pow10(39) > 2 * (u128::MAX as nat),
                    0 <= an <= u128::MAX,
            ;
            vstd::arithmetic::div_mod::lemma_fundamental_div_mod_converse(x, 2 * ee, 0, x);
        }
        (0, 0)
    }
}

/// Renders `amount / 10^exponent`, rounded half up, with exactly four
/// fractional digits and no separators.
pub fn format_scaled(amount: u128, exponent: u8) -> (r: String)
    ensures
        r@ == scaled_text(amount as nat, exponent as nat),
{
    let (whole, frac) = scaled_parts(amount, exponent);
    let mut out = String::new();
    push_decimal(whole, &mut out);
    proof {
        reveal_strlit(".");
    }
    out.append(".");
    push_four_digits(frac, &mut out);
    proof {
        assert(out@ =~= scaled_text(amount as nat, exponent as nat));
    }
    out
}


proof fn lemma_digits_value_prefix_monotone(s: Seq<char>, j: int, k: int)
    requires
        0 <= j <= k <= s.len(),
    ensures
        digits_value(s.subrange(0, j)) <= digits_value(s.subrange(0, k)),
    decreases k - j,
{
    if j < k {
        lemma_digits_value_prefix_monotone(s, j, k - 1);
        assert(s.subrange(0, k).drop_last() =~= s.subrange(0, k - 1));
    }
}

/// Parses a decimal amount: one or more ASCII digits whose value fits in
/// 128 bits.
pub fn parse_amount(s: &str) -> (r: Option<u128>)
    ensures
        r == parse_amount_spec(s@),
{
    let n = s.unicode_len();
    if n == 0 {
        return None;
    }
    let mut acc: u128 = 0;
    let mut i: usize = 0;
    let mut overflow = false;
    while i < n
        invariant
            n == s@.len(),
            0 <= i <= n,
            all_digits(s@.subrange(0, i as int)),
            !overflow ==> acc as nat == digits_value(s@.subrange(0, i as int)),
            overflow ==> digits_value(s@.subrange(0, i as int)) > u128::MAX,
        decreases n - i,
    {
        let c = s.get_char(i);
        if !('0' <= c && c <= '9') {
            return None;
        }
        let d = (c as u32 - '0' as u32) as u128;
        proof {
            assert(s@.subrange(0, i + 1).drop_last() =~= s@.subrange(0, i as int));
            lemma_digits_value_prefix_monotone(s@, i as int, i + 1);
        }
        if !overflow {
            if acc > (u128::MAX - d) / 10 {
                overflow = true;
            } else {
                acc = acc * 10 + d;
            }
        }
        i = i + 1;
    }
    proof {
        assert(s@.subrange(0, n as int) =~= s@);
    }
    if overflow {
        None
    } else {
        Some(acc)
    }
}

/// Parses a net position; any text that starts with a minus sign is zero.
pub fn parse_clamped(s: &str) -> (r: Option<u128>)
    ensures
        r == parse_clamped_spec(s@),
{
    if s.unicode_len() > 0 && s.get_char(0) == '-' {
        Some(0)
    } else {
        parse_amount(s)
    }
}


/// The decimal text of an atomic amount, unscaled.
pub fn decimal_string(n: u128) -> (r: String)
    ensures
        r@ == decimal_text(n as nat),
{
    let mut out = String::new();
    push_decimal(n, &mut out);
    proof {
        assert(out@ =~= decimal_text(n as nat));
    }
    out
}


/// Bounds of a rounded amount: `|2 * 10^e * u - 2 * x * 10^4| <= 10^e`.
pub proof fn lemma_rounding_bounds(x: nat, e: nat)
    ensures
        2 * (x as int) * 10000 - pow10(e) < 2 * pow10(e) * rounded_units(x, e),
        2 * pow10(e) * rounded_units(x, e) <= 2 * (x as int) * 10000 + pow10(e),
{
    lemma_pow10_bounds();
    lemma_pow10_positive(e);
    let d = 2 * pow10(e) as int;
    let n = 2 * (x as int) * 10000 + pow10(e);
    vstd::arithmetic::div_mod::lemma_fundamental_div_mod(n, d);
    vstd::arithmetic::div_mod::lemma_mod_pos_bound(n, d);
}



proof fn lemma_digit_char(d: nat)
    requires
        d < 10,
    ensures
        is_digit(digit_char(d)),
        digit_value(digit_char(d)) == d,
{
    let s = seq!['0', '1', '2', '3', '4', '5', '6', '7', '8', '9'];
    assert(s[0] == '0' && s[1] == '1' && s[2] == '2' && s[3] == '3' && s[4] == '4');
    assert(s[5] == '5' && s[6] == '6' && s[7] == '7' && s[8] == '8' && s[9] == '9');
}

/// The decimal text of `n` reads back as `n`.
pub proof fn lemma_decimal_text_value(n: nat)
    ensures
        decimal_text(n).len() > 0,
        all_digits(decimal_text(n)),
        digits_value(decimal_text(n)) == n,
    decreases n,
{
    lemma_digit_char(n % 10);
    if n < 10 {
        let s = decimal_text(n);
        assert(s.drop_last() =~= Seq::<char>::empty());
        assert(digits_value(Seq::<char>::empty()) == 0);
        assert(s.last() == digit_char(n));
    } else {
        lemma_decimal_text_value(n / 10);
        let s = decimal_text(n);
        assert(s.drop_last() =~= decimal_text(n / 10));
        assert(s.last() == digit_char(n % 10));
        assert(digits_value(s) == digits_value(decimal_text(n / 10)) * 10 + digit_value(s.last()));
        assert((n / 10) * 10 + n % 10 == n);
        assert forall|i: int| 0 <= i < s.len() implies is_digit(#[trigger] s[i]) by {
            if i < s.len() - 1 {
                assert(s[i] == decimal_text(n / 10)[i]);
            }
        }
    }
}

/// Four zero-padded digits read back as the number.
pub proof fn lemma_four_digits_value(n: nat)
    requires
        n < 10000,
    ensures
        four_digits(n).len() == 4,
        all_digits(four_digits(n)),
        digits_value(four_digits(n)) == n,
{
    let s = four_digits(n);
    lemma_digit_char((n / 1000) % 10);
    lemma_digit_char((n / 100) % 10);
    lemma_digit_char((n / 10) % 10);
    lemma_digit_char(n % 10);
    assert(s.drop_last().drop_last().drop_last().drop_last() =~= Seq::<char>::empty());
    assert(s.drop_last().drop_last().drop_last() =~= seq![digit_char((n / 1000) % 10)]);
    assert(s.drop_last().drop_last() =~= seq![digit_char((n / 1000) % 10), digit_char((n / 100) % 10)]);
    assert(s.drop_last() =~= seq![
        digit_char((n / 1000) % 10),
        digit_char((n / 100) % 10),
        digit_char((n / 10) % 10),
    ]);
    assert(((n / 1000) % 10) * 1000 + ((n / 100) % 10) * 100 + ((n / 10) % 10) * 10 + n % 10 == n)
        by (nonlinear_arith)
        requires
            n < 10000,
    ;
    reveal_with_fuel(digits_value, 5);
}

} // verus!
