//! Character-level ground work shared by every parser and renderer: digit and
//! letter classification, literal-token matching, maximal digit runs, and the
//! decimal notation of unsigned numbers.

use vstd::prelude::*;
use vstd::string::StrSliceExecFns;
use vstd::string::StringExecFns;

verus! {

/// True of the ASCII decimal digits `'0'..='9'`, the only digits the grammar admits.
pub open spec fn is_digit_char(c: char) -> bool {
    48 <= c as u32 <= 57
}

/// True of the ASCII letters `'a'..='z'` and `'A'..='Z'`; the negative
/// lookahead after a short ABI tag tests exactly this class.
pub open spec fn is_alpha_char(c: char) -> bool {
    (97 <= c as u32 <= 122) || (65 <= c as u32 <= 90)
}

/// Numeric value of a digit character.
pub open spec fn digit_val(c: char) -> nat
    recommends
        is_digit_char(c),
{
    (c as u32 - 48) as nat
}

/// The token `t` occurs in `s` starting at position `i`.
pub open spec fn match_at(s: Seq<char>, i: int, t: Seq<char>) -> bool {
    &&& 0 <= i
    &&& i + t.len() <= s.len()
    &&& forall|k: int| 0 <= k < t.len() ==> s[i + k] == t[k]
}

/// A matched token fixes the character of `s` at every offset into it.
pub proof fn lemma_match_at_index(s: Seq<char>, i: int, t: Seq<char>, k: int)
    requires
        match_at(s, i, t),
        0 <= k < t.len(),
    ensures
        s[i + k] == t[k],
{
}

/// A token that starts a matched token is itself matched.
pub proof fn lemma_match_at_prefix(s: Seq<char>, i: int, t: Seq<char>, p: Seq<char>)
    requires
        match_at(s, i, t),
        p.len() <= t.len(),
        forall|k: int| 0 <= k < p.len() ==> p[k] == t[k],
    ensures
        match_at(s, i, p),
{
    assert forall|k: int| 0 <= k < p.len() implies s[i + k] == p[k] by {
        lemma_match_at_index(s, i, t, k);
    }
}

/// A stretch inside a matched token is matched at its shifted position.
pub proof fn lemma_match_at_shift(s: Seq<char>, i: int, t: Seq<char>, off: int, u: Seq<char>)
    requires
        match_at(s, i, t),
        0 <= off,
        off + u.len() <= t.len(),
        forall|k: int| 0 <= k < u.len() ==> u[k] == t[off + k],
    ensures
        match_at(s, i + off, u),
{
    assert forall|k: int| 0 <= k < u.len() implies s[(i + off) + k] == u[k] by {
        lemma_match_at_index(s, i, t, off + k);
        assert(i + (off + k) == (i + off) + k);
    }
}

/// End of the maximal run of digit characters that starts at position `i`.
pub open spec fn digit_run_end(s: Seq<char>, i: int) -> int
    decreases s.len() - i when 0 <= i <= s.len()
{
    if i < s.len() && is_digit_char(s[i]) {
        digit_run_end(s, i + 1)
    } else {
        i
    }
}

/// Value of a sequence of digit characters read as a decimal numeral.
pub open spec fn digits_value(t: Seq<char>) -> nat
    decreases t.len(),
{
    if t.len() == 0 {
        0
    } else {
        digits_value(t.drop_last()) * 10 + digit_val(t.last())
    }
}

/// Decimal notation of `n`: no leading zero except for `n == 0` itself.
pub open spec fn dec_rep(n: nat) -> Seq<char>
    decreases n,
{
    if n < 10 {
        seq![digit_char_of(n)]
    } else {
        dec_rep(n / 10).push(digit_char_of(n % 10))
    }
}

/// The digit character whose value is `d`.
pub open spec fn digit_char_of(d: nat) -> char
    recommends
        d < 10,
{
    if d == 0 {
        '0'
    } else if d == 1 {
        '1'
    } else if d == 2 {
        '2'
    } else if d == 3 {
        '3'
    } else if d == 4 {
        '4'
    } else if d == 5 {
        '5'
    } else if d == 6 {
        '6'
    } else if d == 7 {
        '7'
    } else if d == 8 {
        '8'
    } else {
        '9'
    }
}

/// `n` written as exactly two digits, zero padded; the spelling of months
/// and days.
pub open spec fn padded2(n: nat) -> Seq<char>
    recommends
        n < 100,
{
    seq![digit_char_of(n / 10 % 10), digit_char_of(n % 10)]
}

/// `n` written as exactly four digits, zero padded; the spelling of years.
pub open spec fn padded4(n: nat) -> Seq<char>
    recommends
        n < 10000,
{
    seq![
        digit_char_of(n / 1000 % 10),
        digit_char_of(n / 100 % 10),
        digit_char_of(n / 10 % 10),
        digit_char_of(n % 10),
    ]
}

pub proof fn lemma_digit_run_end_bounds(s: Seq<char>, i: int)
    requires
        0 <= i <= s.len(),
    ensures
        i <= digit_run_end(s, i) <= s.len(),
        forall|k: int| i <= k < digit_run_end(s, i) ==> is_digit_char(s[k]),
        digit_run_end(s, i) < s.len() ==> !is_digit_char(s[digit_run_end(s, i)]),
    decreases s.len() - i,
{
    if i < s.len() && is_digit_char(s[i]) {
        lemma_digit_run_end_bounds(s, i + 1);
    }
}

/// A stretch of digits bounded on the right by a non-digit (or the end of the
/// text) is exactly the maximal digit run from its left end.
pub proof fn lemma_digit_run_end_of(s: Seq<char>, i: int, j: int)
    requires
        0 <= i <= j <= s.len(),
        forall|k: int| i <= k < j ==> is_digit_char(s[k]),
        j == s.len() || !is_digit_char(s[j]),
    ensures
        digit_run_end(s, i) == j,
    decreases j - i,
{
    if i < j {
        assert(is_digit_char(s[i]));
        lemma_digit_run_end_of(s, i + 1, j);
    }
}

/// Appending digits to a numeral never shrinks its value.
pub proof fn lemma_digits_value_prefix(t: Seq<char>, m: int)
    requires
        0 <= m <= t.len(),
    ensures
        digits_value(t.take(m)) <= digits_value(t),
    decreases t.len() - m,
{
    if m < t.len() {
        lemma_digits_value_prefix(t, m + 1);
        let u = t.take(m + 1);
        assert(u.drop_last() =~= t.take(m));
        assert(digits_value(t.take(m)) <= digits_value(u));
    } else {
        assert(t.take(m) =~= t);
    }
}

/// The decimal notation of `n` is made of digits, starts with a non-zero
/// digit unless `n` is zero, and reads back as `n`.
pub proof fn lemma_dec_rep(n: nat)
    ensures
        dec_rep(n).len() >= 1,
        forall|k: int| 0 <= k < dec_rep(n).len() ==> is_digit_char(#[trigger] dec_rep(n)[k]),
        digits_value(dec_rep(n)) == n,
        !is_digit_char('.'),
        !is_digit_char('-'),
    decreases n,
{
    if n < 10 {
        let t = dec_rep(n);
        assert(t.len() == 1 && t.last() == digit_char_of(n));
        assert(t.drop_last() =~= Seq::<char>::empty());
        assert(digits_value(Seq::<char>::empty()) == 0);
        assert(digits_value(t) == 0 * 10 + digit_val(digit_char_of(n)));
        lemma_digit_char_val(n);
    } else {
        lemma_dec_rep(n / 10);
        let t = dec_rep(n);
        assert(t.drop_last() =~= dec_rep(n / 10));
        assert(t.last() == digit_char_of(n % 10));
        assert(digit_val(digit_char_of(n % 10)) == n % 10) by {
            assert(n % 10 < 10);
            lemma_digit_char_val(n % 10);
        }
        assert(digits_value(t) == (n / 10) * 10 + n % 10);
        assert((n / 10) * 10 + n % 10 == n) by (nonlinear_arith);
        assert forall|k: int| 0 <= k < t.len() implies is_digit_char(#[trigger] t[k]) by {
            if k < t.len() - 1 {
                assert(t[k] == dec_rep(n / 10)[k]);
            } else {
                lemma_digit_char_val(n % 10);
            }
        }
    }
}

/// The character of a digit value is a digit character of that value.
pub proof fn lemma_digit_char_val(d: nat)
    requires
        d < 10,
    ensures
        is_digit_char(digit_char_of(d)),
        digit_val(digit_char_of(d)) == d,
{
    assert(is_digit_char(digit_char_of(d)) && digit_val(digit_char_of(d)) == d);
}

/// A two-digit numeral is all digits and reads back as `n` when `n < 100`.
pub proof fn lemma_padded2(n: nat)
    requires
        n < 100,
    ensures
        padded2(n).len() == 2,
        forall|k: int| 0 <= k < 2 ==> is_digit_char(#[trigger] padded2(n)[k]),
        digits_value(padded2(n)) == n,
{
    let t = padded2(n);
    lemma_digit_char_val(n / 10 % 10);
    lemma_digit_char_val(n % 10);
    assert(t.drop_last() =~= seq![digit_char_of(n / 10 % 10)]);
    assert(t.drop_last().drop_last() =~= Seq::<char>::empty());
    assert(digits_value(Seq::<char>::empty()) == 0);
    assert(digits_value(t.drop_last()) == n / 10 % 10);
    assert(digits_value(t) == (n / 10 % 10) * 10 + n % 10);
    assert(n / 10 % 10 == n / 10);
    vstd::arithmetic::div_mod::lemma_fundamental_div_mod(n as int, 10);
    assert((n / 10) * 10 + n % 10 == n);
}

/// A four-digit numeral is all digits and reads back as `n` when `n < 10000`.
pub proof fn lemma_padded4(n: nat)
    requires
        n < 10000,
    ensures
        padded4(n).len() == 4,
        forall|k: int| 0 <= k < 4 ==> is_digit_char(#[trigger] padded4(n)[k]),
        digits_value(padded4(n)) == n,
{
    let t = padded4(n);
    let c0 = digit_char_of(n / 1000 % 10);
    let c1 = digit_char_of(n / 100 % 10);
    let c2 = digit_char_of(n / 10 % 10);
    let c3 = digit_char_of(n % 10);
    lemma_digit_char_val(n / 1000 % 10);
    lemma_digit_char_val(n / 100 % 10);
    lemma_digit_char_val(n / 10 % 10);
    lemma_digit_char_val(n % 10);
    let t1 = seq![c0];
    let t2 = seq![c0, c1];
    let t3 = seq![c0, c1, c2];
    assert(t1.drop_last() =~= Seq::<char>::empty());
    assert(t2.drop_last() =~= t1);
    assert(t3.drop_last() =~= t2);
    assert(t.drop_last() =~= t3);
    assert(digits_value(Seq::<char>::empty()) == 0);
    assert(digits_value(t1) == n / 1000 % 10);
    assert(digits_value(t2) == (n / 1000 % 10) * 10 + n / 100 % 10);
    assert(digits_value(t3) == digits_value(t2) * 10 + n / 10 % 10);
    assert(digits_value(t) == digits_value(t3) * 10 + n % 10);
    lemma_padded4_value(n);
}

/// The arithmetic core of `lemma_padded4`: reading the four padded digits of
/// `n` back as a numeral yields `n`.
proof fn lemma_padded4_value(n: nat)
    requires
        n < 10000,
    ensures
        (((n / 1000 % 10) * 10 + n / 100 % 10) * 10 + n / 10 % 10) * 10 + n % 10 == n,
{
    vstd::arithmetic::div_mod::lemma_div_denominator(n as int, 10, 10);
    vstd::arithmetic::div_mod::lemma_div_denominator(n as int, 100, 10);
    assert(n / 10 / 10 == n / 100);
    assert(n / 100 / 10 == n / 1000);
    assert(n / 1000 % 10 == n / 1000);
    vstd::arithmetic::div_mod::lemma_fundamental_div_mod(n as int / 100, 10);
    vstd::arithmetic::div_mod::lemma_fundamental_div_mod(n as int / 10, 10);
    vstd::arithmetic::div_mod::lemma_fundamental_div_mod(n as int, 10);
}

/// A two-character numeral unfolded into its digits.
pub proof fn lemma_digits_value2(t: Seq<char>)
    requires
        t.len() == 2,
    ensures
        digits_value(t) == digit_val(t[0]) * 10 + digit_val(t[1]),
{
    assert(t.drop_last() =~= seq![t[0]]);
    assert(t.drop_last().drop_last() =~= Seq::<char>::empty());
    assert(digits_value(Seq::<char>::empty()) == 0);
    assert(digits_value(t.drop_last()) == digit_val(t[0]));
}

/// A four-character numeral unfolded into its digits.
pub proof fn lemma_digits_value4(t: Seq<char>)
    requires
        t.len() == 4,
    ensures
        digits_value(t) == ((digit_val(t[0]) * 10 + digit_val(t[1])) * 10 + digit_val(t[2]))
            * 10 + digit_val(t[3]),
{
    let t1 = seq![t[0]];
    let t2 = seq![t[0], t[1]];
    let t3 = seq![t[0], t[1], t[2]];
    assert(t1.drop_last() =~= Seq::<char>::empty());
    assert(t2.drop_last() =~= t1);
    assert(t3.drop_last() =~= t2);
    assert(t.drop_last() =~= t3);
    assert(digits_value(Seq::<char>::empty()) == 0);
    assert(digits_value(t1) == digit_val(t[0]));
    assert(digits_value(t2) == digit_val(t[0]) * 10 + digit_val(t[1]));
    assert(digits_value(t3) == digits_value(t2) * 10 + digit_val(t[2]));
}

/// A decimal numeral read from position `i`: the maximal digit run there,
/// rejected when it is empty or when its value does not fit in `usize`.
pub open spec fn spec_parse_number(s: Seq<char>, i: int) -> Option<(nat, int)>
    recommends
        0 <= i <= s.len(),
{
    let j = digit_run_end(s, i);
    if j == i {
        None
    } else if digits_value(s.subrange(i, j)) > usize::MAX as nat {
        None
    } else {
        Some((digits_value(s.subrange(i, j)), j))
    }
}

/// Whether the character at `i` is a decimal digit.
pub(crate) fn digit_at(s: &str, i: usize) -> (b: bool)
    requires
        i < s@.len(),
    ensures
        b == is_digit_char(s@[i as int]),
{
    let c = s.get_char(i);
    let u = c as u32;
    48 <= u && u <= 57
}

/// Whether the token `t` occurs in `s` at position `i`.
pub(crate) fn tag_matches(s: &str, i: usize, t: &str) -> (b: bool)
    ensures
        b == match_at(s@, i as int, t@),
{
    let n = s.unicode_len();
    let tn = t.unicode_len();
    if i > n || tn > n - i {
        return false;
    }
    let mut k: usize = 0;
    while k < tn
        invariant
            i + tn <= n,
            n == s@.len(),
            tn == t@.len(),
            k <= tn,
            forall|m: int| 0 <= m < k ==> s@[i + m] == t@[m],
        decreases tn - k,
    {
        if s.get_char(i + k) != t.get_char(k) {
            return false;
        }
        k = k + 1;
    }
    true
}

/// Reads the decimal numeral at position `i`, if any; `None` also reports a
/// numeral whose value overflows `usize`, as the grammar demands.
pub(crate) fn parse_number_at(s: &str, i: usize) -> (r: Option<(usize, usize)>)
    requires
        i <= s@.len(),
    ensures
        (match r {
            Some(p) => spec_parse_number(s@, i as int) == Some((p.0 as nat, p.1 as int)),
            None => spec_parse_number(s@, i as int) is None,
        }),
{
    let n = s.unicode_len();
    let mut j: usize = i;
    while j < n && digit_at(s, j)
        invariant
            i <= j <= n,
            n == s@.len(),
            digit_run_end(s@, i as int) == digit_run_end(s@, j as int),
        decreases n - j,
    {
        j = j + 1;
    }
    proof {
        lemma_digit_run_end_bounds(s@, i as int);
    }
    assert(digit_run_end(s@, i as int) == j);
    if j == i {
        return None;
    }
    let ghost run = s@.subrange(i as int, j as int);
    let mut val: usize = 0;
    let mut k: usize = i;
    while k < j
        invariant
            i <= k <= j <= n,
            n == s@.len(),
            digit_run_end(s@, i as int) == j,
            forall|m: int| i <= m < j ==> is_digit_char(s@[m]),
            run == s@.subrange(i as int, j as int),
            val as nat == digits_value(s@.subrange(i as int, k as int)),
        decreases j - k,
    {
        let c = s.get_char(k);
        let d = (c as u32 - 48) as usize;
        if val > (usize::MAX - d) / 10 {
            proof {
                let pre = s@.subrange(i as int, k as int);
                let pre1 = s@.subrange(i as int, k + 1);
                assert(pre1.drop_last() =~= pre);
                assert(pre1.last() == s@[k as int]);
                assert(digits_value(pre1) == val * 10 + d);
                assert(val * 10 + d > usize::MAX) by {
                    vstd::arithmetic::div_mod::lemma_fundamental_div_mod(
                        usize::MAX - d,
                        10,
                    );
                }
                assert(pre1 =~= run.take(k + 1 - i));
                lemma_digits_value_prefix(run, k + 1 - i);
                assert(digits_value(run) > usize::MAX as nat);
            }
            return None;
        }
        proof {
            assert(val * 10 + d <= usize::MAX) by {
                vstd::arithmetic::div_mod::lemma_fundamental_div_mod(usize::MAX - d, 10);
            }
            let pre1 = s@.subrange(i as int, k + 1);
            assert(pre1.drop_last() =~= s@.subrange(i as int, k as int));
            assert(pre1.last() == s@[k as int]);
        }
        val = val * 10 + d;
        k = k + 1;
    }
    assert(s@.subrange(i as int, k as int) == run);
    Some((val, j))
}

/// Appends one digit character.
pub(crate) fn push_digit(out: &mut String, d: u8)
    requires
        d < 10,
    ensures
        final(out)@ == old(out)@.push(digit_char_of(d as nat)),
{
    if d == 0 {
        out.append("0");
        proof {
            reveal_strlit("0");
            assert(out@ =~= old(out)@.push('0'));
        }
    } else if d == 1 {
        out.append("1");
        proof {
            reveal_strlit("1");
            assert(out@ =~= old(out)@.push('1'));
        }
    } else if d == 2 {
        out.append("2");
        proof {
            reveal_strlit("2");
            assert(out@ =~= old(out)@.push('2'));
        }
    } else if d == 3 {
        out.append("3");
        proof {
            reveal_strlit("3");
            assert(out@ =~= old(out)@.push('3'));
        }
    } else if d == 4 {
        out.append("4");
        proof {
            reveal_strlit("4");
            assert(out@ =~= old(out)@.push('4'));
        }
    } else if d == 5 {
        out.append("5");
        proof {
            reveal_strlit("5");
            assert(out@ =~= old(out)@.push('5'));
        }
    } else if d == 6 {
        out.append("6");
        proof {
            reveal_strlit("6");
            assert(out@ =~= old(out)@.push('6'));
        }
    } else if d == 7 {
        out.append("7");
        proof {
            reveal_strlit("7");
            assert(out@ =~= old(out)@.push('7'));
        }
    } else if d == 8 {
        out.append("8");
        proof {
            reveal_strlit("8");
            assert(out@ =~= old(out)@.push('8'));
        }
    } else {
        out.append("9");
        proof {
            reveal_strlit("9");
            assert(out@ =~= old(out)@.push('9'));
        }
    }
}

/// Appends `n` in decimal notation.
pub(crate) fn push_number(out: &mut String, n: usize)
    ensures
        final(out)@ == old(out)@ + dec_rep(n as nat),
    decreases n,
{
    if n < 10 {
        push_digit(out, n as u8);
        assert(out@ =~= old(out)@ + dec_rep(n as nat));
    } else {
        push_number(out, n / 10);
        push_digit(out, (n % 10) as u8);
        assert(out@ =~= old(out)@ + dec_rep(n as nat));
    }
}

/// Appends `n` as exactly two digits, zero padded.
pub(crate) fn push_padded2(out: &mut String, n: usize)
    requires
        n < 100,
    ensures
        final(out)@ == old(out)@ + padded2(n as nat),
{
    push_digit(out, (n / 10) as u8);
    push_digit(out, (n % 10) as u8);
    assert(out@ =~= old(out)@ + padded2(n as nat));
}

/// Appends `n` as exactly four digits, zero padded.
pub(crate) fn push_padded4(out: &mut String, n: usize)
    requires
        n < 10000,
    ensures
        final(out)@ == old(out)@ + padded4(n as nat),
{
    push_digit(out, (n / 1000) as u8);
    push_digit(out, (n / 100 % 10) as u8);
    push_digit(out, (n / 10 % 10) as u8);
    push_digit(out, (n % 10) as u8);
    assert(out@ =~= old(out)@ + padded4(n as nat));
}

} // verus!
