//! Non-negative decimal amounts, held exactly in hundredths.

use crate::numerals::{
    canonical_numeral, digit_char, digit_val, is_digit, lemma_canonical_numeral_val,
    parse_canonical_u64, push_numeral,
};
use vstd::prelude::*;

verus! {

/// A non-negative decimal amount with two fraction digits, held in hundredths.
#[derive(Debug, Clone, Copy, PartialEq, Eq, Structural)]
pub struct Amount {
    pub cents: u64,
}

/// The decimal text of an amount: units, a point, and two fraction digits.
pub open spec fn amount_chars(cents: nat) -> Seq<char> {
    canonical_numeral(cents / 100) + seq![
        '.',
        digit_char((cents / 10) % 10),
        digit_char(cents % 10),
    ]
}

/// Units and the two fraction digits reassemble into the amount.
proof fn lemma_cents_digits(c: nat)
    ensures
        (c / 100) * 100 + ((c / 10) % 10) * 10 + c % 10 == c,
        (c / 10) % 10 < 10,
        c % 10 < 10,
{
    let ci = c as int;
    assert((ci / 100) * 100 + ((ci / 10) % 10) * 10 + ci % 10 == ci && (ci / 10) % 10 < 10 && ci
        % 10 < 10) by (nonlinear_arith)
        requires
            ci >= 0,
    ;
}

impl Amount {
    /// The amount of a number of hundredths.
    pub fn from_cents(cents: u64) -> (a: Amount)
        ensures
            a.cents == cents,
    {
        Amount { cents }
    }

    /// Formats the amount as decimal text, e.g. hundredths 7000 as `70.00`.
    pub fn format(&self) -> (s: String)
        ensures
            s@ == amount_chars(self.cents as nat),
    {
        let mut out: Vec<char> = Vec::new();
        push_numeral(self.cents / 100, &mut out);
        out.push('.');
        out.push(crate::numerals::digit_to_char((self.cents / 10) % 10));
        out.push(crate::numerals::digit_to_char(self.cents % 10));
        proof {
            assert(out@ =~= amount_chars(self.cents as nat));
        }
        crate::numerals::chars_to_string(&out)
    }

    /// Parses decimal amount text.
    ///
    /// Returns `Some(a)` exactly when the string is `amount_chars(a.cents)`
    /// for hundredths that fit in a `u64`: canonical units, a point, and two
    /// fraction digits.
    pub fn parse(s: &str) -> (r: Option<Amount>)
        ensures
            r matches Some(a) ==> s@ == amount_chars(a.cents as nat),
            forall|c: u64| s@ == amount_chars(c as nat) ==> r == Some(Amount { cents: c }),
    {
        let len = s.unicode_len();
        if len < 4 {
            proof {
                assert forall|c: u64| s@ != amount_chars(c as nat) by {
                    reveal_with_fuel(canonical_numeral, 1);
                    assert(canonical_numeral(c as nat / 100).len() >= 1);
                }
            }
            return None;
        }
        let point = s.get_char(len - 3);
        let c1 = s.get_char(len - 2);
        let c2 = s.get_char(len - 1);
        let d1 = c1 as u32;
        let d2 = c2 as u32;
        if point != '.' || d1 < 48 || d1 > 57 || d2 < 48 || d2 > 57 {
            proof {
                assert forall|c: u64| s@ != amount_chars(c as nat) by {
                    if s@ == amount_chars(c as nat) {
                        let canon = canonical_numeral(c as nat / 100);
                        assert(s@[s@.len() - 3] == '.');
                        assert(s@[s@.len() - 2] == digit_char(((c as nat) / 10) % 10));
                        assert(s@[s@.len() - 1] == digit_char((c as nat) % 10));
                        lemma_cents_digits(c as nat);
                    }
                }
            }
            return None;
        }
        let units_str = s.substring_char(0, len - 3);
        proof {
            assert forall|c: u64|
                s@ == amount_chars(c as nat) implies units_str@ == canonical_numeral(
                c as nat / 100,
            ) by {
                let canon = canonical_numeral(c as nat / 100);
                assert(s@.subrange(0, s@.len() - 3) =~= canon);
            }
        }
        match parse_canonical_u64(units_str) {
            Some(units) => {
                let frac1 = (d1 - 48) as u64;
                let frac2 = (d2 - 48) as u64;
                let cents_opt = match units.checked_mul(100) {
                    Some(m) => m.checked_add(frac1 * 10 + frac2),
                    None => None,
                };
                match cents_opt {
                    Some(cents) => {
                        proof {
                            lemma_cents_digits(cents as nat);
                            assert((cents as nat) / 100 == units) by {
                                vstd::arithmetic::div_mod::lemma_fundamental_div_mod_converse(
                                    cents as int,
                                    100,
                                    units as int,
                                    (frac1 * 10 + frac2) as int,
                                );
                            };
                            assert(digit_char((cents as nat / 10) % 10) == c1
                                && digit_char(cents as nat % 10) == c2) by {
                                vstd::arithmetic::div_mod::lemma_fundamental_div_mod_converse(
                                    cents as int,
                                    10,
                                    (units * 10 + frac1) as int,
                                    frac2 as int,
                                );
                                vstd::arithmetic::div_mod::lemma_fundamental_div_mod_converse(
                                    (units * 10 + frac1) as int,
                                    10,
                                    units as int,
                                    frac1 as int,
                                );
                                assert(digit_char(digit_val(c1)) == c1);
                                assert(digit_char(digit_val(c2)) == c2);
                            };
                            assert(s@ =~= amount_chars(cents as nat));
                            assert forall|c: u64|
                                s@ == amount_chars(c as nat) implies c == cents by {
                                lemma_canonical_numeral_val(c as nat / 100);
                                lemma_canonical_numeral_val(units as nat);
                                lemma_cents_digits(c as nat);
                                assert(s@[s@.len() - 2] == digit_char(((c as nat) / 10) % 10));
                                assert(s@[s@.len() - 1] == digit_char((c as nat) % 10));
                            }
                        }
                        Some(Amount { cents })
                    },
                    None => {
                        proof {
                            assert forall|c: u64| s@ != amount_chars(c as nat) by {
                                if s@ == amount_chars(c as nat) {
                                    lemma_canonical_numeral_val(c as nat / 100);
                                    lemma_canonical_numeral_val(units as nat);
                                    lemma_cents_digits(c as nat);
                                    assert(s@[s@.len() - 2] == digit_char(((c as nat) / 10) % 10));
                                    assert(s@[s@.len() - 1] == digit_char((c as nat) % 10));
                                    assert(units == c as nat / 100);
                                    assert(units * 100 + (frac1 * 10 + frac2) == c);
                                }
                            }
                        }
                        None
                    },
                }
            },
            None => {
                proof {
                    assert forall|c: u64| s@ != amount_chars(c as nat) by {
                        if s@ == amount_chars(c as nat) {
                            assert(units_str@ == canonical_numeral(c as nat / 100));
                            assert(c as nat / 100 <= u64::MAX);
                        }
                    }
                }
                None
            },
        }
    }
}

} // verus!
