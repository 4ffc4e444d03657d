//! Decimal numerals: ids of accounts and transactions are strings of digits.
//!
//! The spec side gives every digit string a numeric value and every number a
//! canonical (no leading zero) digit string; the exec side parses and formats
//! against those definitions.

use vstd::prelude::*;

verus! {

/// `c` is a decimal digit.
pub open spec fn is_digit(c: char) -> bool {
    48 <= c as int && c as int <= 57
}

/// The value of one digit.
pub open spec fn digit_val(c: char) -> nat {
    (c as int - 48) as nat
}

/// A well-formed numeral: one or more decimal digits.
pub open spec fn numeral_wf(s: Seq<char>) -> bool {
    s.len() > 0 && forall|i: int| 0 <= i < s.len() ==> is_digit(#[trigger] s[i])
}

/// The number a digit string denotes.
pub open spec fn numeral_val(s: Seq<char>) -> nat
    decreases s.len(),
{
    if s.len() == 0 {
        0
    } else {
        numeral_val(s.drop_last()) * 10 + digit_val(s.last())
    }
}

/// The digit of a value below ten.
pub open spec fn digit_char(d: nat) -> char {
    if d == 0 {
        '0'
    } else if d == 1 {
        '1'
    } else if d == 2 {
        '2'
    } else if d == 3 {
        '3'
    } else if d == 4 {
        '4'
    } else if d == 5 {
        '5'
    } else if d == 6 {
        '6'
    } else if d == 7 {
        '7'
    } else if d == 8 {
        '8'
    } else {
        '9'
    }
}

/// Reading a digit back from its character gives the digit.
pub proof fn lemma_digit_val_of_char(n: nat)
    requires
        n < 10,
    ensures
        digit_val(digit_char(n)) == n,
{
}

/// Writing a digit character back from its value gives the character.
pub proof fn lemma_digit_char_of_val(c: char)
    requires
        is_digit(c),
    ensures
        digit_char(digit_val(c)) == c,
{
    assert(c as int - 48 >= 0);
}

/// The canonical numeral of `n`: no leading zero, and `"0"` for zero.
pub open spec fn canonical_numeral(n: nat) -> Seq<char>
    decreases n,
{
    if n < 10 {
        seq![digit_char(n)]
    } else {
        canonical_numeral(n / 10) + seq![digit_char(n % 10)]
    }
}

/// The canonical numeral is well formed and denotes the number it was made from.
pub proof fn lemma_canonical_numeral_val(n: nat)
    ensures
        numeral_wf(canonical_numeral(n)),
        numeral_val(canonical_numeral(n)) == n,
    decreases n,
{
    if n < 10 {
        assert(canonical_numeral(n) =~= seq![digit_char(n)]);
        assert(canonical_numeral(n).drop_last() =~= Seq::<char>::empty());
        assert(numeral_val(Seq::<char>::empty()) == 0);
        assert(digit_val(digit_char(n)) == n);
    } else {
        lemma_canonical_numeral_val(n / 10);
        let s = canonical_numeral(n);
        assert(s.drop_last() =~= canonical_numeral(n / 10));
        assert(s.last() == digit_char(n % 10));
        assert(numeral_val(s) == (n / 10) * 10 + digit_val(digit_char(n % 10)));
        assert(digit_val(digit_char(n % 10)) == n % 10);
        assert((n / 10) * 10 + n % 10 == n) by {
            vstd::arithmetic::div_mod::lemma_fundamental_div_mod(n as int, 10);
        };
    }
}

/// The digit character of a value below ten.
pub fn digit_to_char(d: u64) -> (c: char)
    requires
        d < 10,
    ensures
        c == digit_char(d as nat),
{
    if d == 0 {
        '0'
    } else if d == 1 {
        '1'
    } else if d == 2 {
        '2'
    } else if d == 3 {
        '3'
    } else if d == 4 {
        '4'
    } else if d == 5 {
        '5'
    } else if d == 6 {
        '6'
    } else if d == 7 {
        '7'
    } else if d == 8 {
        '8'
    } else {
        '9'
    }
}

/// Appends the canonical numeral of `n` to `out`.
pub fn push_numeral(n: u64, out: &mut Vec<char>)
    ensures
        final(out)@ == old(out)@ + canonical_numeral(n as nat),
    decreases n,
{
    if n < 10 {
        out.push(digit_to_char(n));
        assert(final(out)@ =~= old(out)@ + canonical_numeral(n as nat));
    } else {
        proof {
            vstd::arithmetic::div_mod::lemma_div_is_ordered_by_denominator(n as int, 1, 10);
            vstd::arithmetic::div_mod::lemma_div_by_multiple(n as int, 1);
        }
        assert(n / 10 < n) by {
            vstd::arithmetic::div_mod::lemma_div_decreases(n as int, 10);
        };
        push_numeral(n / 10, out);
        out.push(digit_to_char(n % 10));
        assert(final(out)@ =~= old(out)@ + canonical_numeral(n as nat));
    }
}

/// Relies on `core::iter::Iterator::collect`: a `String` collected from
/// characters holds exactly those characters.
#[verifier::external_body]
pub fn chars_to_string(v: &Vec<char>) -> (s: String)
    ensures
        s@ == v@,
{
    v.iter().collect()
}

/// Formats `n` as its canonical decimal numeral.
pub fn format_u64(n: u64) -> (s: String)
    ensures
        s@ == canonical_numeral(n as nat),
        numeral_wf(s@),
        numeral_val(s@) == n,
{
    let mut out: Vec<char> = Vec::new();
    push_numeral(n, &mut out);
    proof {
        lemma_canonical_numeral_val(n as nat);
        assert(out@ =~= canonical_numeral(n as nat));
    }
    chars_to_string(&out)
}

/// A digit string keeps denoting at least as much when digits are appended.
proof fn lemma_numeral_prefix_le(s: Seq<char>, i: int)
    requires
        0 <= i <= s.len(),
    ensures
        numeral_val(s.subrange(0, i)) <= numeral_val(s),
    decreases s.len() - i,
{
    if i == s.len() {
        assert(s.subrange(0, i) =~= s);
    } else {
        lemma_numeral_prefix_le(s, i + 1);
        let p = s.subrange(0, i + 1);
        assert(p.drop_last() =~= s.subrange(0, i));
        assert(numeral_val(p) == numeral_val(s.subrange(0, i)) * 10 + digit_val(s[i]));
        let v = numeral_val(s.subrange(0, i)) as int;
        assert(v * 10 >= v) by (nonlinear_arith)
            requires
                v >= 0,
        ;
    }
}

/// A numeral whose first digit is not zero denotes at least one.
proof fn lemma_numeral_positive(s: Seq<char>)
    requires
        numeral_wf(s),
        digit_val(s[0]) >= 1,
    ensures
        numeral_val(s) >= 1,
    decreases s.len(),
{
    if s.len() > 1 {
        let front = s.drop_last();
        lemma_numeral_positive(front);
        let v = numeral_val(front) as int;
        assert(v * 10 >= 10) by (nonlinear_arith)
            requires
                v >= 1,
        ;
    }
}

/// The canonical numeral of a number past nine does not start with zero.
proof fn lemma_canonical_no_leading_zero(n: nat)
    requires
        n >= 10,
    ensures
        canonical_numeral(n)[0] != '0',
        canonical_numeral(n).len() > 1,
    decreases n,
{
    lemma_canonical_numeral_val(n / 10);
    if n / 10 >= 10 {
        lemma_canonical_no_leading_zero(n / 10);
    } else {
        assert(n / 10 >= 1);
    }
}

/// A numeral without a leading zero is the canonical numeral of its value.
pub proof fn lemma_numeral_canonical(s: Seq<char>)
    requires
        numeral_wf(s),
        s.len() > 1 ==> s[0] != '0',
    ensures
        s == canonical_numeral(numeral_val(s)),
    decreases s.len(),
{
    if s.len() == 1 {
        assert(s.drop_last() =~= Seq::<char>::empty());
        assert(numeral_val(Seq::<char>::empty()) == 0);
        assert(numeral_val(s) == digit_val(s[0]));
        assert(digit_char(digit_val(s[0])) == s[0]);
        assert(s =~= canonical_numeral(numeral_val(s)));
    } else {
        let front = s.drop_last();
        let d = digit_val(s.last());
        assert(front[0] == s[0]);
        lemma_numeral_positive(front);
        lemma_numeral_canonical(front);
        let v = numeral_val(front) as int;
        assert(numeral_val(s) == v * 10 + d);
        assert(v * 10 >= 10) by (nonlinear_arith)
            requires
                v >= 1,
        ;
        assert((v * 10 + d) / 10 == v && (v * 10 + d) % 10 == d as int) by {
            vstd::arithmetic::div_mod::lemma_fundamental_div_mod_converse(
                v * 10 + d,
                10,
                v,
                d as int,
            );
        };
        assert(digit_char(digit_val(s.last())) == s.last());
        assert(s =~= canonical_numeral(numeral_val(s)));
    }
}

/// Parses a string of decimal digits into a number.
///
/// Returns the denoted value exactly when the string is a well-formed numeral
/// whose value fits in a `u64`; returns `None` otherwise.
pub fn parse_u64(s: &str) -> (r: Option<u64>)
    ensures
        r matches Some(n) ==> numeral_wf(s@) && numeral_val(s@) == n,
        numeral_wf(s@) && numeral_val(s@) <= u64::MAX ==> r == Some((numeral_val(s@) as u64)),
        r is None <==> !numeral_wf(s@) || numeral_val(s@) > u64::MAX,
{
    let len = s.unicode_len();
    if len == 0 {
        return None;
    }
    let mut acc: u64 = 0;
    let mut i: usize = 0;
    while i < len
        invariant
            0 < len == s@.len(),
            0 <= i <= len,
            acc == numeral_val(s@.subrange(0, i as int)),
            forall|j: int| 0 <= j < i ==> is_digit(#[trigger] s@[j]),
        decreases len - i,
    {
        let c = s.get_char(i);
        let d = c as u32;
        if d < 48 || d > 57 {
            return None;
        }
        let step = match acc.checked_mul(10) {
            Some(m) => m.checked_add((d - 48) as u64),
            None => None,
        };
        match step {
            Some(next) => {
                proof {
                    let p = s@.subrange(0, i + 1 as int);
                    assert(p.drop_last() =~= s@.subrange(0, i as int));
                    assert(p.last() == s@[i as int]);
                }
                acc = next;
            },
            None => {
                proof {
                    let p = s@.subrange(0, i + 1 as int);
                    assert(p.drop_last() =~= s@.subrange(0, i as int));
                    assert(p.last() == s@[i as int]);
                    assert(numeral_val(p) > u64::MAX);
                    lemma_numeral_prefix_le(s@, i + 1 as int);
                }
                return None;
            },
        }
        i = i + 1;
    }
    proof {
        assert(s@.subrange(0, len as int) =~= s@);
    }
    Some(acc)
}

/// Parses the canonical numeral of a number: digits only, no leading zero.
///
/// Returns `Some(n)` exactly when the string is `canonical_numeral(n)` for a
/// `u64` value `n`.
pub fn parse_canonical_u64(s: &str) -> (r: Option<u64>)
    ensures
        r matches Some(n) ==> s@ == canonical_numeral(n as nat),
        forall|n: u64| s@ == canonical_numeral(n as nat) ==> r == Some(n),
{
    let len = s.unicode_len();
    if len > 1 && s.get_char(0) == '0' {
        proof {
            assert forall|n: u64| s@ != canonical_numeral(n as nat) by {
                if s@ == canonical_numeral(n as nat) {
                    lemma_canonical_numeral_val(n as nat);
                    if n >= 10 {
                        lemma_canonical_no_leading_zero(n as nat);
                    }
                }
            }
        }
        return None;
    }
    match parse_u64(s) {
        Some(n) => {
            proof {
                lemma_numeral_canonical(s@);
                assert forall|m: u64| s@ == canonical_numeral(m as nat) implies m == n by {
                    lemma_canonical_numeral_val(m as nat);
                }
            }
            Some(n)
        },
        None => {
            proof {
                assert forall|n: u64| s@ != canonical_numeral(n as nat) by {
                    if s@ == canonical_numeral(n as nat) {
                        lemma_canonical_numeral_val(n as nat);
                    }
                }
            }
            None
        },
    }
}

} // verus!
