//! Decimal formatting, zero padding, Unicode whitespace and unsigned parsing.

use vstd::prelude::*;

verus! {

/// The ASCII character of a decimal digit.
pub open spec fn digit_char(d: nat) -> char {
    ((d + 48) as u32) as char
}

/// Decimal text of a natural number, as `{}` prints it.
pub open spec fn decimal(n: nat) -> Seq<char>
    decreases n,
{
    if n < 10 {
        seq![digit_char(n)]
    } else {
        decimal(n / 10).push(digit_char(n % 10))
    }
}

/// `count` copies of `c`.
pub open spec fn repeat_char(c: char, count: nat) -> Seq<char> {
    Seq::new(count, |i: int| c)
}

/// `s` padded on the left with `'0'` to at least `width` characters, as `{:0width$}` does.
pub open spec fn zero_pad(s: Seq<char>, width: nat) -> Seq<char> {
    if s.len() < width {
        repeat_char('0', (width - s.len()) as nat) + s
    } else {
        s
    }
}

fn digit_text(d: u64) -> (t: &'static str)
    requires
        d < 10,
    ensures
        t@ == seq![digit_char(d as nat)],
{
    proof {
        reveal_strlit("0");
        reveal_strlit("1");
        reveal_strlit("2");
        reveal_strlit("3");
        reveal_strlit("4");
        reveal_strlit("5");
        reveal_strlit("6");
        reveal_strlit("7");
        reveal_strlit("8");
        reveal_strlit("9");
    }
    if d == 0 {
        "0"
    } else if d == 1 {
        "1"
    } else if d == 2 {
        "2"
    } else if d == 3 {
        "3"
    } else if d == 4 {
        "4"
    } else if d == 5 {
        "5"
    } else if d == 6 {
        "6"
    } else if d == 7 {
        "7"
    } else if d == 8 {
        "8"
    } else {
        "9"
    }
}

/// Appends the decimal text of `n` to `s`.
pub fn push_decimal(s: &mut String, n: u64)
    ensures
        final(s)@ == old(s)@ + decimal(n as nat),
    decreases n,
{
    if n < 10 {
        s.append(digit_text(n));
    } else {
        push_decimal(s, n / 10);
        s.append(digit_text(n % 10));
        proof {
            assert(decimal(n as nat) == decimal((n / 10) as nat).push(digit_char((n % 10) as nat)));
        }
    }
}


/// Number of decimal digits of `n`.
pub fn decimal_len(n: u64) -> (len: usize)
    ensures
        len as nat == decimal(n as nat).len(),
        1 <= len <= 20,
    decreases n,
{
    if n < 10 {
        1
    } else {
        let l = decimal_len(n / 10);
        proof {
            assert(decimal(n as nat) == decimal((n / 10) as nat).push(digit_char((n % 10) as nat)));
            assert(n / 10 < 10_000_000_000_000_000_000u64);
            if l == 20 {
                lemma_decimal_len_bound((n / 10) as nat);
            }
        }
        l + 1
    }
}

/// Powers of ten.
pub open spec fn pow10(k: nat) -> nat
    decreases k,
{
    if k == 0 {
        1
    } else {
        10 * pow10((k - 1) as nat)
    }
}

/// A number below `10^k` has at most `k` digits.
proof fn lemma_decimal_len_bound_pow(n: nat, k: nat)
    requires
        k >= 1,
        n < pow10(k),
    ensures
        decimal(n).len() <= k,
    decreases k,
{
    if n >= 10 {
        let p = pow10((k - 1) as nat);
        assert(n / 10 < p) by (nonlinear_arith)
            requires
                n < 10 * p,
        ;
        if k == 1 {
            assert(false);
        }
        lemma_decimal_len_bound_pow(n / 10, (k - 1) as nat);
    }
}

/// A number below `10^19` has at most 19 digits; used to bound digit counts of `u64`.
proof fn lemma_decimal_len_bound(n: nat)
    requires
        n < 10_000_000_000_000_000_000,
    ensures
        decimal(n).len() <= 19,
{
    reveal_with_fuel(pow10, 20);
    lemma_decimal_len_bound_pow(n, 19);
}

/// Appends `n` in decimal, padded on the left with zeros to `width` characters.
pub fn push_zero_padded(s: &mut String, n: u64, width: usize)
    ensures
        final(s)@ == old(s)@ + zero_pad(decimal(n as nat), width as nat),
{
    let len = decimal_len(n);
    let ghost start = s@;
    if len < width {
        let mut k: usize = 0;
        while k < width - len
            invariant
                len < width,
                k <= width - len,
                s@ == start + repeat_char('0', k as nat),
            decreases width - len - k,
        {
            proof {
                reveal_strlit("0");
            }
            s.append("0");
            k = k + 1;
            proof {
                assert(repeat_char('0', k as nat) =~= repeat_char('0', (k - 1) as nat).push('0'));
            }
        }
    }
    push_decimal(s, n);
    proof {
        assert(s@ =~= start + zero_pad(decimal(n as nat), width as nat));
    }
}


/// The Unicode `White_Space` property, which `char::is_whitespace` and `str::trim` use.
pub open spec fn is_white_space(c: char) -> bool {
    let u = c as u32;
    (9 <= u <= 13) || u == 32 || u == 0x85 || u == 0xa0 || u == 0x1680 || (0x2000 <= u <= 0x200a)
        || u == 0x2028 || u == 0x2029 || u == 0x202f || u == 0x205f || u == 0x3000
}

/// Whether a text is empty once trimmed: every character is white space.
pub open spec fn is_blank_text(s: Seq<char>) -> bool {
    forall|i: int| 0 <= i < s.len() ==> is_white_space(#[trigger] s[i])
}

/// Whether `c` has the Unicode `White_Space` property.
pub fn char_is_white_space(c: char) -> (b: bool)
    ensures
        b == is_white_space(c),
{
    let u = c as u32;
    (9 <= u && u <= 13) || u == 32 || u == 0x85 || u == 0xa0 || u == 0x1680 || (0x2000 <= u && u
        <= 0x200a) || u == 0x2028 || u == 0x2029 || u == 0x202f || u == 0x205f || u == 0x3000
}

/// Whether `s.trim()` is empty.
pub fn is_blank(s: &str) -> (b: bool)
    ensures
        b == is_blank_text(s@),
{
    let mut blank = true;
    for c in it: s.chars()
        invariant
            it.seq() == s@,
            blank == (forall|i: int| 0 <= i < it.index() ==> is_white_space(#[trigger] s@[i])),
    {
        if !char_is_white_space(c) {
            blank = false;
        }
    }
    blank
}


/// Whether `c` is one of `'0'..='9'`.
pub open spec fn is_digit_char(c: char) -> bool {
    48 <= (c as u32) <= 57
}

/// Whether every character of `s` is a decimal digit.
pub open spec fn all_digits(s: Seq<char>) -> bool {
    forall|i: int| 0 <= i < s.len() ==> is_digit_char(#[trigger] s[i])
}

/// The number that a string of decimal digits denotes.
pub open spec fn digits_value(s: Seq<char>) -> nat
    decreases s.len(),
{
    if s.len() == 0 {
        0
    } else {
        digits_value(s.drop_last()) * 10 + ((s.last() as u32) - 48) as nat
    }
}

/// The digits that `usize::from_str` reads: an optional leading `'+'` is dropped when more follows.
pub open spec fn unsigned_digits(s: Seq<char>) -> Seq<char> {
    if s.len() > 1 && s[0] == '+' {
        s.drop_first()
    } else {
        s
    }
}

/// What `s.parse::<usize>()` gives: `None` for an empty text, a non-digit or an overflow.
pub open spec fn parsed_usize(s: Seq<char>) -> Option<usize> {
    let d = unsigned_digits(s);
    if d.len() > 0 && all_digits(d) && digits_value(d) <= usize::MAX {
        Some(digits_value(d) as usize)
    } else {
        None
    }
}

proof fn lemma_digits_value_prefix(s: Seq<char>, k: int)
    requires
        0 <= k <= s.len(),
        all_digits(s),
    ensures
        digits_value(s.take(k)) <= digits_value(s),
    decreases s.len(),
{
    if k < s.len() {
        assert(s.drop_last().take(k) =~= s.take(k));
        lemma_digits_value_prefix(s.drop_last(), k);
    } else {
        assert(s.take(k) =~= s);
    }
}

/// Parses a decimal `usize` as `str::parse::<usize>` does.
pub fn parse_usize(s: &str) -> (r: Option<usize>)
    ensures
        r == parsed_usize(s@),
{
    let mut acc: usize = 0;
    let mut overflow = false;
    let mut valid = true;
    let mut count: usize = 0;
    let mut skip_plus = false;
    let mut seen: usize = 0;
    let total = s.unicode_len();
    if total > 1 {
        let c0 = s.get_char(0);
        if c0 == '+' {
            skip_plus = true;
        }
    }
    let ghost d = unsigned_digits(s@);
    let ghost off: int = if skip_plus { 1 } else { 0 };
    proof {
        if skip_plus {
            assert(d =~= s@.drop_first());
        } else {
            assert(d =~= s@);
        }
    }
    for c in it: s.chars()
        invariant
            it.seq() == s@,
            total == s@.len(),
            seen == it.index(),
            seen <= total,
            d.len() == s@.len() - off,
            forall|j: int| 0 <= j < d.len() ==> d[j] == s@[j + off],
            off == (if skip_plus { 1int } else { 0int }),
            skip_plus ==> s@.len() > 1,
            count == (if it.index() <= off { 0 } else { it.index() - off }),
            valid == all_digits(d.take(count as int)),
            valid && !overflow ==> acc == digits_value(d.take(count as int)),
            overflow ==> (valid ==> digits_value(d.take(count as int)) > usize::MAX),
    {
        if skip_plus && seen == 0 {
        } else {
            let ghost before = d.take(count as int);
            let u = c as u32;
            proof {
                assert(c == d[count as int]);
                assert(d.take(count + 1).drop_last() =~= before);
                assert(d.take(count + 1) =~= before.push(c));
                if all_digits(before) && is_digit_char(c) {
                    assert(all_digits(before.push(c)));
                }
                if !all_digits(before) {
                    let j = choose|j: int| 0 <= j < before.len() && !is_digit_char(#[trigger] before[j]);
                    assert(before.push(c)[j] == before[j]);
                }
                if !is_digit_char(c) {
                    assert(before.push(c)[count as int] == c);
                }
            }
            if u < 48 || u > 57 {
                valid = false;
            } else if !overflow {
                let digit = (u - 48) as usize;
                match acc.checked_mul(10) {
                    Some(m) => match m.checked_add(digit) {
                        Some(v) => {
                            acc = v;
                        },
                        None => {
                            overflow = true;
                        },
                    },
                    None => {
                        overflow = true;
                    },
                }
            } else {
                proof {
                    if valid {
                        assert(all_digits(d.take(count + 1)));
                        lemma_digits_value_prefix(d.take(count + 1), count as int);
                        assert(d.take(count + 1).take(count as int) =~= before);
                    }
                }
            }
            count = count + 1;
        }
        seen = seen + 1;
    }
    proof {
        assert(d.take(count as int) =~= d);
    }
    if valid && !overflow && count > 0 {
        Some(acc)
    } else {
        None
    }
}


proof fn lemma_digit_char(d: nat)
    requires
        d < 10,
    ensures
        digit_char(d) as u32 == d + 48,
        is_digit_char(digit_char(d)),
{
}

/// Reading back the decimal text of `n` gives `n`.
pub proof fn lemma_digits_value_decimal(n: nat)
    ensures
        digits_value(decimal(n)) == n,
        all_digits(decimal(n)),
    decreases n,
{
    if n < 10 {
        lemma_digit_char(n);
        assert(decimal(n).drop_last() =~= Seq::<char>::empty());
        assert(digits_value(decimal(n).drop_last()) == 0);
        assert(decimal(n).last() == digit_char(n));
    } else {
        lemma_digit_char(n % 10);
        lemma_digits_value_decimal(n / 10);
        let d = decimal(n);
        assert(d.drop_last() =~= decimal(n / 10));
        assert(d.last() == digit_char(n % 10));
        assert(n == (n / 10) * 10 + n % 10) by (nonlinear_arith);
        assert(((d.last() as u32) - 48) as nat == n % 10);
        assert(digits_value(d) == digits_value(d.drop_last()) * 10 + ((d.last() as u32) - 48) as nat);
        assert(digits_value(d.drop_last()) == n / 10);
        assert forall|i: int| 0 <= i < d.len() implies is_digit_char(#[trigger] d[i]) by {
            if i < d.len() - 1 {
                assert(d[i] == decimal(n / 10)[i]);
            }
        }
    }
}

/// Leading zeros do not change the value of a digit string.
pub proof fn lemma_digits_value_leading_zeros(k: nat, s: Seq<char>)
    ensures
        digits_value(repeat_char('0', k) + s) == digits_value(s),
    decreases s.len(), k,
{
    if s.len() == 0 {
        if k > 0 {
            let z = repeat_char('0', k);
            assert(z + s =~= z);
            assert(z.drop_last() =~= repeat_char('0', (k - 1) as nat));
            lemma_digits_value_leading_zeros((k - 1) as nat, s);
            assert(repeat_char('0', (k - 1) as nat) + s =~= repeat_char('0', (k - 1) as nat));
        } else {
            assert(repeat_char('0', k) + s =~= s);
        }
    } else {
        let z = repeat_char('0', k);
        assert((z + s).drop_last() =~= z + s.drop_last());
        lemma_digits_value_leading_zeros(k, s.drop_last());
    }
}

/// Zero padding keeps the value of a decimal text.
pub proof fn lemma_zero_pad_value(n: nat, width: nat)
    ensures
        digits_value(zero_pad(decimal(n), width)) == n,
{
    lemma_digits_value_decimal(n);
    if decimal(n).len() < width {
        lemma_digits_value_leading_zeros((width - decimal(n).len()) as nat, decimal(n));
    }
}

} // verus!
