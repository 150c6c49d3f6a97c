use vstd::prelude::*;

verus! {

/// The value of an ASCII digit or letter as a digit: `0` to `9` for the digits, ten and more for the
/// letters, whether small or capital.
pub open spec fn digit_value(byte: u8) -> Option<nat> {
    if 48 <= byte <= 57 {
        Some((byte - 48) as nat)
    } else if 97 <= byte <= 122 {
        Some((byte - 87) as nat)
    } else if 65 <= byte <= 90 {
        Some((byte - 55) as nat)
    } else {
        None
    }
}

/// The number that `digits` write in the radix `radix`, or `None` where one of them is no digit of that radix.
pub open spec fn digits_value(digits: Seq<u8>, radix: nat) -> Option<nat>
    decreases digits.len(),
{
    if digits.len() == 0 {
        Some(0)
    } else {
        match (digits_value(digits.drop_last(), radix), digit_value(digits.last())) {
            (Some(higher), Some(lowest)) => if lowest < radix {
                Some(higher * radix + lowest)
            } else {
                None
            },
            _ => None,
        }
    }
}

/// The number that `text` writes in the radix `radix`: one or more digits, after a plus sign or
/// not. `None` for any other text.
pub open spec fn number_in_radix(text: Seq<u8>, radix: nat) -> Option<nat> {
    let digits = if text.len() > 0 && text[0] == 43 {
        text.skip(1)
    } else {
        text
    };
    if digits.len() == 0 {
        None
    } else {
        digits_value(digits, radix)
    }
}

/// The number that `text` writes in the radix `radix`, where it fits in a `usize`.
pub open spec fn usize_in_radix(text: Seq<u8>, radix: nat) -> Option<usize> {
    match number_in_radix(text, radix) {
        Some(value) => if value <= usize::MAX {
            Some(value as usize)
        } else {
            None
        },
        None => None,
    }
}

/// Digits that write a number get no smaller a number written with more digits after them.
pub proof fn lemma_digits_value_grows(digits: Seq<u8>, count: int, radix: nat)
    requires
        2 <= radix,
        0 <= count <= digits.len(),
        digits_value(digits, radix) is Some,
    ensures
        digits_value(digits.take(count), radix) is Some,
        digits_value(digits.take(count), radix)->Some_0 <= digits_value(digits, radix)->Some_0,
    decreases digits.len() - count,
{
    if count == digits.len() {
        assert(digits.take(count) =~= digits);
    } else {
        assert(digits.drop_last().take(count) =~= digits.take(count));
        lemma_digits_value_grows(digits.drop_last(), count, radix);
        let higher = digits_value(digits.drop_last(), radix)->Some_0;
        assert(higher * radix >= higher) by (nonlinear_arith)
            requires
                radix >= 2,
                higher >= 0,
        ;
    }
}

/// The value of `byte` as a digit.
pub fn value_of_digit(byte: u8) -> (value: Option<u8>)
    ensures
        value is Some <==> digit_value(byte) is Some,
        value is Some ==> value->Some_0 == digit_value(byte)->Some_0,
{
    if 48 <= byte && byte <= 57 {
        Some(byte - 48)
    } else if 97 <= byte && byte <= 122 {
        Some(byte - 87)
    } else if 65 <= byte && byte <= 90 {
        Some(byte - 55)
    } else {
        None
    }
}

/// Parses `text` as a number in the radix `radix`: one or more digits, after a plus sign or not.
/// Returns `None` for any other text and for a number that does not fit in a `usize`.
pub fn parse_usize_in_radix(text: &[u8], radix: u32) -> (number: Option<usize>)
    requires
        2 <= radix <= 36,
    ensures
        number == usize_in_radix(text@, radix as nat),
{
    let mut index: usize = 0;
    if text.len() > 0 && text[0] == 43 {
        index = 1;
    }
    if index == text.len() {
        return None;
    }
    let ghost digits = if text@.len() > 0 && text@[0] == 43 {
        text@.skip(1)
    } else {
        text@
    };
    let ghost first = index as int;
    let mut value: usize = 0;
    proof {
        assert(digits.take(0) =~= Seq::<u8>::empty());
        assert(digits =~= text@.skip(first));
    }
    while index < text.len()
        invariant
            0 <= first <= index <= text@.len(),
            first == text@.len() - digits.len(),
            2 <= radix <= 36,
            digits.len() > 0,
            digits == text@.skip(first),
            number_in_radix(text@, radix as nat) == digits_value(digits, radix as nat),
            digits_value(digits.take(index - first), radix as nat) == Some(value as nat),
        decreases text@.len() - index,
    {
        let ghost seen = digits.take(index - first);
        let ghost more = digits.take(index - first + 1);
        proof {
            assert(more.drop_last() =~= seen);
            assert(more.last() == digits[index - first]);
            assert(text@.skip(first)[index - first] == text@[first + (index - first)]);
            assert(digits[index - first] == text@[index as int]);
        }
        let digit: u8 = match value_of_digit(text[index]) {
            Some(digit) => digit,
            None => {
                proof {
                    if digits_value(digits, radix as nat) is Some {
                        lemma_digits_value_grows(digits, index - first + 1, radix as nat);
                    }
                }
                return None;
            },
        };
        if digit as u32 >= radix {
            proof {
                if digits_value(digits, radix as nat) is Some {
                    lemma_digits_value_grows(digits, index - first + 1, radix as nat);
                }
            }
            return None;
        }
        let shifted: usize = match value.checked_mul(radix as usize) {
            Some(shifted) => shifted,
            None => {
                proof {
                    if digits_value(digits, radix as nat) is Some {
                        lemma_digits_value_grows(digits, index - first + 1, radix as nat);
                    }
                }
                return None;
            },
        };
        value = match shifted.checked_add(digit as usize) {
            Some(sum) => sum,
            None => {
                proof {
                    if digits_value(digits, radix as nat) is Some {
                        lemma_digits_value_grows(digits, index - first + 1, radix as nat);
                    }
                }
                return None;
            },
        };
        index += 1;
    }
    proof {
        assert(digits.take(index - first) =~= digits);
    }
    Some(value)
}

} // verus!
