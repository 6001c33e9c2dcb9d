//! What holds of numbers as text.
use vstd::prelude::*;

use crate::text;

verus! {

/// The number that one of the ten digits stands for.
pub open spec fn digit_value(c: char) -> Option<nat> {
    if exists|d: int| 0 <= d < 10 && #[trigger] "0123456789"@[d] == c {
        Some((choose|d: int| 0 <= d < 10 && #[trigger] "0123456789"@[d] == c) as nat)
    } else {
        None
    }
}

proof fn lemma_digits()
    ensures
        "0123456789"@.len() == 10,
        forall|d: int| 0 <= d < 10 ==> #[trigger] "0123456789"@[d] == text::digit_char(d as nat),
{
    reveal_strlit("0123456789");
    let all = "0123456789"@;
    assert(all[0] == '0' && all[1] == '1' && all[2] == '2' && all[3] == '3' && all[4] == '4');
    assert(all[5] == '5' && all[6] == '6' && all[7] == '7' && all[8] == '8' && all[9] == '9');
}

proof fn lemma_digit_value(c: char)
    ensures
        text::is_digit(c) <==> digit_value(c) is Some,
        digit_value(c) matches Some(d) ==> d < 10 && d == c as nat - 48,
{
    lemma_digits();
    if text::is_digit(c) {
        let d = c as int - 48;
        assert(text::digit_char(d as nat) == c);
        assert("0123456789"@[d] == c);
    }
    if let Some(d) = digit_value(c) {
        assert("0123456789"@[d as int] == c);
        assert(text::digit_char(d) as nat == 48 + d);
    }
}

/// What is written for a number are its decimal digits, the last one for the rest
/// by ten and those before it for the tenth of it, none for a tenth of zero.
pub proof fn law_decimal_digits(n: nat)
    ensures
        text::decimal_digits(n).len() > 0,
        text::decimal_digits(n).last() == "0123456789"@[(n % 10) as int],
        text::decimal_digits(n).drop_last() == if n < 10 {
            Seq::<char>::empty()
        } else {
            text::decimal_digits(n / 10)
        },
{
    lemma_digits();
    if n < 10 {
        assert(text::decimal_digits(n).drop_last() =~= Seq::empty());
    } else {
        assert(text::decimal_digits(n).drop_last() =~= text::decimal_digits(n / 10));
    }
}

/// What text is read as a number, from its first character to its last: a digit
/// alone, or behind a plus sign, is read as its value; a digit behind a number is
/// read with ten times that number, as far as a `u32` holds it; nothing else is a
/// number, nor is anything that begins with what is none.
pub proof fn law_parsed_u32(front: Seq<char>, c: char)
    ensures
        text::parsed_u32(Seq::empty()) is None,
        text::parsed_u32(seq!['+']) is None,
        text::parsed_u32(front.push(c)) == match digit_value(c) {
            None => None::<u32>,
            Some(d) => if front.len() == 0 || front == seq!['+'] {
                Some(d as u32)
            } else {
                match text::parsed_u32(front) {
                    None => None::<u32>,
                    Some(tens) => if 10 * tens + d <= 0xFFFF_FFFF {
                        Some((10 * tens + d) as u32)
                    } else {
                        None::<u32>
                    },
                }
            },
        },
{
    lemma_digit_value(c);
    lemma_digit_value('+');
    assert(text::unsigned_part(seq!['+']) =~= Seq::empty());
    let whole = front.push(c);
    let digits = text::unsigned_part(whole);
    if front.len() == 0 {
        if c == '+' {
            assert(digits.len() == 0);
        } else {
            assert(digits =~= seq![c]);
            assert(digits.drop_last() =~= Seq::empty());
            assert(digits[0] == c);
            reveal_with_fuel(text::digits_value, 2);
        }
    } else {
        let before = text::unsigned_part(front);
        assert(digits =~= before.push(c));
        assert(digits.drop_last() =~= before);
        assert(digits.last() == c);
        if front == seq!['+'] {
            assert(before =~= Seq::empty());
            assert(digits[0] == c);
            reveal_with_fuel(text::digits_value, 2);
        } else {
            if before.len() == 0 {
                assert(front =~= seq!['+']);
            }
            if digit_value(c) is Some && (forall|i: int|
                0 <= i < before.len() ==> text::is_digit(#[trigger] before[i])) {
                assert forall|i: int| 0 <= i < digits.len() implies text::is_digit(
                    #[trigger] digits[i],
                ) by {
                    if i < before.len() {
                        assert(digits[i] == before[i]);
                    }
                }
            } else if digit_value(c) is Some {
                let i = choose|i: int|
                    0 <= i < before.len() && !text::is_digit(#[trigger] before[i]);
                assert(digits[i] == before[i]);
            } else {
                assert(digits[digits.len() - 1] == c);
            }
        }
    }
}

/// A number that is written is read back as the same number, with or without a
/// plus sign before it; one that a `u32` does not hold is not read.
pub proof fn law_written_number_is_read_back(n: nat)
    ensures
        text::parsed_u32(text::decimal_digits(n)) == if n <= 0xFFFF_FFFF {
            Some(n as u32)
        } else {
            None
        },
        text::parsed_u32(seq!['+'] + text::decimal_digits(n)) == if n <= 0xFFFF_FFFF {
            Some(n as u32)
        } else {
            None
        },
    decreases n,
{
    let digits = text::decimal_digits(n);
    let plus = seq!['+'];
    lemma_digits();
    law_decimal_digits(n);
    lemma_digit_value(digits.last());
    lemma_digit_value('+');
    assert(digits =~= digits.drop_last().push(digits.last()));
    assert(plus + digits =~= (plus + digits.drop_last()).push(digits.last()));
    law_parsed_u32(digits.drop_last(), digits.last());
    law_parsed_u32(plus + digits.drop_last(), digits.last());
    if n < 10 {
        assert(plus + digits.drop_last() =~= plus);
    } else {
        law_written_number_is_read_back(n / 10);
        law_decimal_digits(n / 10);
        let tens = text::decimal_digits(n / 10);
        assert((plus + tens).len() > 1);
        lemma_first_is_digit(n / 10);
        assert(tens != plus);
    }
}

proof fn lemma_first_is_digit(n: nat)
    ensures
        text::decimal_digits(n).len() > 0,
        text::is_digit(text::decimal_digits(n)[0]),
    decreases n,
{
    if n >= 10 {
        lemma_first_is_digit(n / 10);
    }
}

} // verus!
