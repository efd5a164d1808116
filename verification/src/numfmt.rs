//! Decimal text: reading bounded unsigned integers, printing `u64` values,
//! and the grammar of the decimal literals that quote records carry.

use vstd::prelude::*;

verus! {

/// An ASCII decimal digit.
pub open spec fn is_digit(c: char) -> bool {
    '0' as u32 <= c as u32 && c as u32 <= '9' as u32
}

/// The numeric value of a digit character.
pub open spec fn digit_val(c: char) -> nat
    recommends
        is_digit(c),
{
    (c as u32 - '0' as u32) as nat
}

/// Every character of `s` is a digit.
pub open spec fn all_digits(s: Seq<char>) -> bool {
    forall|i: int| 0 <= i < s.len() ==> is_digit(s[i])
}

/// The value of a digit string, most significant digit first.
pub open spec fn dec_val(s: Seq<char>) -> nat
    decreases s.len(),
{
    if s.len() == 0 {
        0
    } else {
        dec_val(s.drop_last()) * 10 + digit_val(s.last())
    }
}

/// The digit character for a value below ten.
pub open spec fn digit_char(d: nat) -> char {
    if d == 0 {
        '0'
    } else if d == 1 {
        '1'
    } else if d == 2 {
        '2'
    } else if d == 3 {
        '3'
    } else if d == 4 {
        '4'
    } else if d == 5 {
        '5'
    } else if d == 6 {
        '6'
    } else if d == 7 {
        '7'
    } else if d == 8 {
        '8'
    } else {
        '9'
    }
}

/// The canonical decimal rendering of `n`: no sign, no leading zero except
/// for zero itself.
pub open spec fn dec_digits(n: nat) -> Seq<char>
    decreases n,
{
    if n < 10 {
        seq![digit_char(n)]
    } else {
        dec_digits(n / 10).push(digit_char(n % 10))
    }
}

/// A longer digit string never has a smaller value: `dec_val` of a prefix is
/// a lower bound for `dec_val` of the whole.
pub proof fn lemma_dec_val_prefix(s: Seq<char>, i: int)
    requires
        0 <= i <= s.len(),
    ensures
        dec_val(s.take(i)) <= dec_val(s),
    decreases s.len() - i,
{
    if i == s.len() {
        assert(s.take(i) =~= s);
    } else {
        lemma_dec_val_prefix(s, i + 1);
        assert(s.take(i + 1).drop_last() =~= s.take(i));
        assert(dec_val(s.take(i + 1)) == dec_val(s.take(i)) * 10 + digit_val(s.take(i + 1).last()));
    }
}

/// Rendering a value and reading the digits back gives the value again, and
/// the rendering is a non-empty digit string.
pub proof fn lemma_dec_digits_val(n: nat)
    ensures
        all_digits(dec_digits(n)),
        dec_digits(n).len() >= 1,
        dec_val(dec_digits(n)) == n,
    decreases n,
{
    if n < 10 {
        let s = dec_digits(n);
        assert(s == seq![digit_char(n)]);
        assert(s.drop_last() =~= Seq::<char>::empty());
        assert(s.last() == digit_char(n));
        assert(dec_val(s.drop_last()) == 0);
        assert(dec_val(s) == 0 * 10 + digit_val(s.last()));
        assert(digit_val(digit_char(n)) == n);
    } else {
        lemma_dec_digits_val(n / 10);
        let s = dec_digits(n);
        assert(s == dec_digits(n / 10).push(digit_char(n % 10)));
        assert(s.drop_last() =~= dec_digits(n / 10));
        assert(s.last() == digit_char(n % 10));
        assert(dec_val(s) == (n / 10) * 10 + digit_val(digit_char(n % 10)));
        assert(digit_val(digit_char(n % 10)) == n % 10);
        assert((n / 10) * 10 + n % 10 == n) by {
            vstd::arithmetic::div_mod::lemma_fundamental_div_mod(n as int, 10);
        }
    }
}

/// Exec test for [`is_digit`], returning the digit's value when there is one.
pub fn read_digit(c: char) -> (r: Option<u64>)
    ensures
        r is Some <==> is_digit(c),
        r is Some ==> r->0 == digit_val(c),
{
    let u = c as u32;
    if 48 <= u && u <= 57 {
        Some((u - 48) as u64)
    } else {
        None
    }
}

/// Reads a digit string as an unsigned integer no greater than `bound`.
/// Returns the value exactly when the whole string is one or more digits and
/// its value fits the bound; leading zeros are accepted.
pub fn parse_bounded(s: &str, bound: u64) -> (r: Option<u64>)
    ensures
        r == (if s@.len() >= 1 && all_digits(s@) && dec_val(s@) <= bound {
            Some(dec_val(s@) as u64)
        } else {
            None::<u64>
        }),
{
    let n = s.unicode_len();
    if n == 0 {
        return None;
    }
    let mut acc: u64 = 0;
    let mut i: usize = 0;
    proof {
        assert(s@.take(0) =~= Seq::<char>::empty());
    }
    while i < n
        invariant
            i <= n,
            n == s@.len(),
            all_digits(s@.take(i as int)),
            acc == dec_val(s@.take(i as int)),
            acc <= bound,
        decreases n - i,
    {
        let c = s.get_char(i);
        match read_digit(c) {
            None => {
                return None;
            },
            Some(d) => {
                if d > bound {
                    proof {
                        let pre = s@.take(i + 1);
                        assert(pre.drop_last() =~= s@.take(i as int));
                        assert(pre.last() == c);
                        assert(dec_val(pre) == acc * 10 + d > bound);
                        lemma_dec_val_prefix(s@, i + 1);
                        assert(dec_val(s@) > bound);
                    }
                    return None;
                }
                if acc > (bound - d) / 10 {
                    proof {
                        let pre = s@.take(i + 1);
                        assert(pre.drop_last() =~= s@.take(i as int));
                        assert(pre.last() == c);
                        assert(dec_val(pre) == acc * 10 + d);
                        assert(acc >= (bound - d) / 10 + 1);
                        assert(acc * 10 >= ((bound - d) / 10 + 1) * 10) by (nonlinear_arith)
                            requires
                                acc >= (bound - d) / 10 + 1,
                        ;
                        assert(((bound - d) / 10 + 1) * 10 == (bound - d) / 10 * 10 + 10);
                        assert((bound - d) / 10 * 10 + 10 > bound - d) by {
                            vstd::arithmetic::div_mod::lemma_fundamental_div_mod(
                                bound - d as int,
                                10,
                            );
                        }
                        assert(dec_val(pre) > bound);
                        lemma_dec_val_prefix(s@, i + 1);
                        assert(dec_val(s@) > bound);
                    }
                    return None;
                }
                proof {
                    let pre = s@.take(i + 1);
                    assert(pre.drop_last() =~= s@.take(i as int));
                    assert(pre.last() == c);
                    assert(acc <= (bound - d) / 10);
                    assert(acc * 10 <= (bound - d) / 10 * 10) by (nonlinear_arith)
                        requires
                            acc <= (bound - d) / 10,
                    ;
                    assert((bound - d) / 10 * 10 <= bound - d) by {
                        vstd::arithmetic::div_mod::lemma_fundamental_div_mod(bound - d as int, 10);
                    }
                    assert(dec_val(pre) == acc * 10 + d <= bound);
                }
                acc = acc * 10 + d;
                i = i + 1;
            },
        }
    }
    proof {
        assert(s@.take(n as int) =~= s@);
    }
    Some(acc)
}

/// Reads a digit string as a `u64`, exactly when it is all digits and fits.
pub fn parse_u64(s: &str) -> (r: Option<u64>)
    ensures
        r == (if s@.len() >= 1 && all_digits(s@) && dec_val(s@) <= u64::MAX {
            Some(dec_val(s@) as u64)
        } else {
            None::<u64>
        }),
{
    parse_bounded(s, u64::MAX)
}

/// The one-character string for a digit value.
fn digit_str(d: u64) -> (s: &'static str)
    requires
        d < 10,
    ensures
        s@ == seq![digit_char(d as nat)],
{
    proof {
        reveal_strlit("0");
        reveal_strlit("1");
        reveal_strlit("2");
        reveal_strlit("3");
        reveal_strlit("4");
        reveal_strlit("5");
        reveal_strlit("6");
        reveal_strlit("7");
        reveal_strlit("8");
        reveal_strlit("9");
    }
    let r = if d == 0 {
        "0"
    } else if d == 1 {
        "1"
    } else if d == 2 {
        "2"
    } else if d == 3 {
        "3"
    } else if d == 4 {
        "4"
    } else if d == 5 {
        "5"
    } else if d == 6 {
        "6"
    } else if d == 7 {
        "7"
    } else if d == 8 {
        "8"
    } else {
        "9"
    };
    proof {
        assert(r@ =~= seq![digit_char(d as nat)]);
    }
    r
}

/// Prints `n` in canonical decimal.
pub fn u64_to_dec(n: u64) -> (s: String)
    ensures
        s@ == dec_digits(n as nat),
    decreases n,
{
    if n < 10 {
        let mut s = String::new();
        s.append(digit_str(n));
        proof {
            assert(s@ =~= dec_digits(n as nat));
        }
        s
    } else {
        let mut s = u64_to_dec(n / 10);
        s.append(digit_str(n % 10));
        proof {
            assert(s@ =~= dec_digits((n / 10) as nat).push(digit_char((n % 10) as nat)));
        }
        s
    }
}

/// The unsigned body of a decimal literal: the text after an optional minus
/// sign.
pub open spec fn decimal_body(s: Seq<char>) -> Seq<char> {
    if s.len() > 0 && s[0] == '-' {
        s.drop_first()
    } else {
        s
    }
}

/// `t` is digits, a dot at position `k`, then more digits.
pub open spec fn dotted_at(t: Seq<char>, k: int) -> bool {
    1 <= k && k + 1 < t.len() && t[k] == '.' && all_digits(t.take(k)) && all_digits(t.skip(k + 1))
}

/// A decimal literal: an optional minus sign, then digits, then optionally a
/// dot followed by more digits. Both digit runs must be non-empty.
pub open spec fn is_decimal(s: Seq<char>) -> bool {
    let t = decimal_body(s);
    t.len() >= 1 && (all_digits(t) || exists|k: int| #[trigger] dotted_at(t, k))
}

/// Scans the digit run of `s` starting at `from`, returning the first index
/// at or after `from` whose character is not a digit (or the length).
fn scan_digits(s: &str, from: usize) -> (r: usize)
    requires
        from <= s@.len(),
    ensures
        from <= r <= s@.len(),
        forall|j: int| from <= j < r ==> is_digit(s@[j]),
        r < s@.len() ==> !is_digit(s@[r as int]),
{
    let n = s.unicode_len();
    let mut i = from;
    while i < n && read_digit(s.get_char(i)).is_some()
        invariant
            from <= i <= n,
            n == s@.len(),
            forall|j: int| from <= j < i ==> is_digit(s@[j]),
        decreases n - i,
    {
        i = i + 1;
    }
    i
}

/// Exec test for [`is_decimal`].
pub fn check_decimal(s: &str) -> (r: bool)
    ensures
        r == is_decimal(s@),
{
    let n = s.unicode_len();
    let start: usize = if n > 0 && s.get_char(0) == '-' {
        1
    } else {
        0
    };
    let ghost t = if s@.len() > 0 && s@[0] == '-' {
        s@.drop_first()
    } else {
        s@
    };
    proof {
        assert(t =~= s@.skip(start as int));
    }
    if n == start {
        return false;
    }
    let d1 = scan_digits(s, start);
    if d1 == n {
        proof {
            assert(forall|j: int| 0 <= j < t.len() ==> t[j] == s@[start + j]);
            assert(all_digits(t));
        }
        return true;
    }
    proof {
        assert(t[d1 - start] == s@[d1 as int]);
        assert(!is_digit(t[d1 - start]));
        assert(!all_digits(t));
    }
    if s.get_char(d1) != '.' {
        proof {
            assert forall|k: int| !#[trigger] dotted_at(t, k) by {
                let p = d1 - start;
                if 1 <= k && k + 1 < t.len() && t[k] == '.' {
                    assert(t[p] != '.');
                    if k < p {
                        assert(!is_digit(t.skip(k + 1)[p - k - 1]));
                    } else {
                        assert(!is_digit(t.take(k)[p]));
                    }
                }
            }
        }
        return false;
    }
    if d1 == start {
        proof {
            assert(t[0] == '.');
            assert forall|k: int| !#[trigger] dotted_at(t, k) by {
                if 1 <= k && k + 1 < t.len() {
                    assert(!is_digit(t.take(k)[0]));
                }
            }
        }
        return false;
    }
    let d2 = scan_digits(s, d1 + 1);
    if d1 + 1 < n && d2 == n {
        proof {
            let k = d1 - start;
            assert(t[k] == '.');
            assert(forall|j: int| 0 <= j < k ==> t.take(k)[j] == s@[start + j]);
            assert(all_digits(t.take(k)));
            assert(forall|j: int|
                0 <= j < t.len() - k - 1 ==> #[trigger] t.skip(k + 1)[j] == s@[d1 + 1 + j]);
            assert(all_digits(t.skip(k + 1)));
            assert(dotted_at(t, k));
            assert(t == decimal_body(s@));
            assert(is_decimal(s@));
        }
        true
    } else {
        proof {
            let p = d1 - start;
            assert forall|k: int| !#[trigger] dotted_at(t, k) by {
                if 1 <= k && k + 1 < t.len() && t[k] == '.' {
                    if k < p {
                        assert(!is_digit(t.skip(k + 1)[p - k - 1]));
                    } else if k > p {
                        assert(!is_digit(t.take(k)[p]));
                    } else {
                        if d1 + 1 == n {
                            assert(k + 1 < t.len());
                            assert(false);
                        } else {
                            assert(d2 < n);
                            assert(!is_digit(s@[d2 as int]));
                            assert(t.skip(k + 1)[d2 - d1 - 1] == s@[d2 as int]);
                        }
                    }
                }
            }
        }
        false
    }
}

/// A decimal literal never contains the field separator of a quote record,
/// nor any whitespace.
pub proof fn lemma_decimal_chars(s: Seq<char>)
    requires
        is_decimal(s),
    ensures
        forall|i: int|
            0 <= i < s.len() ==> (is_digit(s[i]) || s[i] == '.' || s[i] == '-'),
{
    let t = if s.len() > 0 && s[0] == '-' {
        s.drop_first()
    } else {
        s
    };
    assert forall|i: int| 0 <= i < s.len() implies (is_digit(s[i]) || s[i] == '.' || s[i] == '-')
        by {
        let off = if s.len() > 0 && s[0] == '-' {
            1int
        } else {
            0int
        };
        if i >= off {
            let j = i - off;
            assert(t[j] == s[i]);
            if !all_digits(t) {
                let k = choose|k: int| #[trigger] dotted_at(t, k);
                assert(dotted_at(t, k));
                if j < k {
                    assert(is_digit(t.take(k)[j]));
                } else if j > k {
                    assert(is_digit(t.skip(k + 1)[j - k - 1]));
                }
            }
        }
    }
}

} // verus!
