//! Decimal numerals in ASCII.
use vstd::prelude::*;

verus! {

/// The decimal numeral of `n`, without leading zeros.
pub open spec fn numeral(n: nat) -> Seq<u8>
    decreases n,
{
    if n < 10 {
        seq![(48 + n) as u8]
    } else {
        numeral(n / 10).push((48 + n % 10) as u8)
    }
}

/// The decimal numeral of `n` as characters.
pub open spec fn numeral_chars(n: nat) -> Seq<char> {
    numeral(n).map_values(|b: u8| b as char)
}

pub open spec fn is_digit(b: u8) -> bool {
    48 <= b <= 57
}

pub open spec fn all_digits(text: Seq<u8>) -> bool {
    forall|i: int| 0 <= i < text.len() ==> is_digit(#[trigger] text[i])
}

/// The number that a string of digits stands for; leading zeros are harmless.
pub open spec fn digits_value(text: Seq<u8>) -> nat
    decreases text.len(),
{
    if text.len() == 0 {
        0
    } else {
        digits_value(text.drop_last()) * 10 + (text.last() - 48) as nat
    }
}

/// Why a numeral could not be read.
#[derive(Debug, Clone, Copy, PartialEq, Eq, Structural)]
pub enum IntErrorKind {
    /// There is no text at all.
    Empty,
    /// A character is no digit.
    InvalidDigit,
    /// The number does not fit the target type.
    PosOverflow,
}

/// The result of reading `text` as a `usize`. Only digits are read: a sign is no
/// part of a numeral.
pub open spec fn parsed_usize(text: Seq<u8>) -> Result<usize, IntErrorKind> {
    if text.len() == 0 {
        Err(IntErrorKind::Empty)
    } else if !all_digits(text) {
        Err(IntErrorKind::InvalidDigit)
    } else if digits_value(text) > usize::MAX {
        Err(IntErrorKind::PosOverflow)
    } else {
        Ok(digits_value(text) as usize)
    }
}

spec fn power_of_ten(n: nat) -> nat
    decreases n,
{
    if n == 0 {
        1
    } else {
        10 * power_of_ten((n - 1) as nat)
    }
}

proof fn lemma_digits_value_bound(text: Seq<u8>)
    requires
        all_digits(text),
    ensures
        digits_value(text) < power_of_ten(text.len()),
    decreases text.len(),
{
    if text.len() > 0 {
        assert(is_digit(text[text.len() - 1]));
        assert forall|i: int| 0 <= i < text.drop_last().len() implies is_digit(
            #[trigger] text.drop_last()[i],
        ) by {
            assert(is_digit(text[i]));
        }
        lemma_digits_value_bound(text.drop_last());
    }
}

/// The numeral of a number is made of digits and reads back as that number.
pub proof fn lemma_numeral_reads_back(n: nat)
    ensures
        all_digits(numeral(n)),
        numeral(n).len() > 0,
        digits_value(numeral(n)) == n,
        numeral(n)[0] == 48 <==> n == 0,
        n > 0 ==> 49 <= numeral(n)[0] <= 57,
    decreases n,
{
    if n < 10 {
        assert(numeral(n).drop_last() =~= Seq::<u8>::empty());
        assert(digits_value(Seq::<u8>::empty()) == 0);
    } else {
        lemma_numeral_reads_back(n / 10);
        let front = numeral(n / 10);
        assert(numeral(n).drop_last() =~= front);
        assert(numeral(n)[0] == front[0]);
        assert forall|i: int| 0 <= i < numeral(n).len() implies is_digit(#[trigger] numeral(n)[i]) by {
            if i < front.len() {
                assert(is_digit(front[i]));
            }
        }
    }
}

/// A number below a power of ten has at most that many digits.
proof fn lemma_numeral_len(n: nat, digits: nat)
    requires
        digits > 0,
        n < power_of_ten(digits),
    ensures
        numeral(n).len() <= digits,
    decreases n,
{
    if n >= 10 {
        reveal_with_fuel(power_of_ten, 2);
        lemma_numeral_len(n / 10, (digits - 1) as nat);
    }
}

/// No `u32` needs more than ten digits.
pub proof fn lemma_u32_numeral_len(n: nat)
    requires
        n <= 4294967295,
    ensures
        numeral(n).len() <= 10,
{
    reveal_with_fuel(power_of_ten, 11);
    lemma_numeral_len(n, 10);
}

/// Writes the decimal numeral of `n`.
pub fn to_decimal(n: usize) -> (text: Vec<u8>)
    ensures
        text@ == numeral(n as nat),
    decreases n,
{
    if n < 10 {
        let mut text: Vec<u8> = Vec::new();
        text.push(48 + n as u8);
        text
    } else {
        let mut text: Vec<u8> = to_decimal(n / 10);
        text.push(48 + (n % 10) as u8);
        text
    }
}

/// Reads a numeral of at most ten digits as a `usize`.
pub fn parse_short_usize(text: &[u8]) -> (r: Result<usize, IntErrorKind>)
    requires
        text@.len() <= 10,
    ensures
        r == parsed_usize(text@),
{
    let len: usize = text.len();
    if len == 0 {
        return Err(IntErrorKind::Empty);
    }
    let mut value: u64 = 0;
    let mut i: usize = 0;
    while i < len
        invariant
            i <= len,
            0 < len <= 10,
            len == text@.len(),
            all_digits(text@.take(i as int)),
            value == digits_value(text@.take(i as int)),
        decreases len - i,
    {
        let b: u8 = text[i];
        if b < 48 || b > 57 {
            assert(!is_digit(text@[i as int]));
            return Err(IntErrorKind::InvalidDigit);
        }
        proof {
            let before = text@.take(i as int);
            let after = text@.take(i + 1);
            assert(after.drop_last() =~= before);
            assert(after.last() == b);
            assert forall|j: int| 0 <= j < after.len() implies is_digit(#[trigger] after[j]) by {
                if j < before.len() {
                    assert(is_digit(before[j]));
                }
            }
            lemma_digits_value_bound(before);
            reveal_with_fuel(power_of_ten, 11);
        }
        value = value * 10 + (b - 48) as u64;
        i += 1;
    }
    assert(text@.take(i as int) =~= text@);
    if value > usize::MAX as u64 {
        Err(IntErrorKind::PosOverflow)
    } else {
        Ok(value as usize)
    }
}

/// Writes the decimal numeral of `n` as a string.
pub fn to_decimal_string(n: usize) -> (text: String)
    ensures
        text@ == numeral_chars(n as nat),
    decreases n,
{
    let digit: &str = digit_str((n % 10) as u8);
    let mut text: String = if n < 10 {
        String::new()
    } else {
        to_decimal_string(n / 10)
    };
    text.append(digit);
    assert(text@ =~= numeral_chars(n as nat));
    text
}

/// The decimal numeral of a number that may be negative.
pub open spec fn signed_numeral_chars(n: int) -> Seq<char> {
    if n < 0 {
        seq!['-'] + numeral_chars((-n) as nat)
    } else {
        numeral_chars(n as nat)
    }
}

/// Writes the decimal numeral of `n` as a string.
pub fn i32_to_decimal_string(n: i32) -> (text: String)
    ensures
        text@ == signed_numeral_chars(n as int),
{
    if n < 0 {
        proof {
            reveal_strlit("-");
        }
        let magnitude: usize = (-(n as i64)) as usize;
        let text = "-".to_owned().concat(to_decimal_string(magnitude).as_str());
        assert(text@ =~= signed_numeral_chars(n as int));
        text
    } else {
        to_decimal_string(n as usize)
    }
}

/// The character of a decimal digit, as a string.
fn digit_str(digit: u8) -> (text: &'static str)
    requires
        digit < 10,
    ensures
        text@ == seq![(48 + digit) as u8 as char],
{
    proof {
        reveal_strlit("0");
        reveal_strlit("1");
        reveal_strlit("2");
        reveal_strlit("3");
        reveal_strlit("4");
        reveal_strlit("5");
        reveal_strlit("6");
        reveal_strlit("7");
        reveal_strlit("8");
        reveal_strlit("9");
    }
    match digit {
        0 => "0",
        1 => "1",
        2 => "2",
        3 => "3",
        4 => "4",
        5 => "5",
        6 => "6",
        7 => "7",
        8 => "8",
        _ => "9",
    }
}

/// What digits stand for: nothing is zero, and one more digit counts itself and ten
/// times those in front of it.
pub proof fn lemma_digits_count_by_tens(text: Seq<u8>, digit: u8)
    requires
        48 <= digit <= 57,
    ensures
        digits_value(Seq::<u8>::empty()) == 0,
        digits_value(text.push(digit)) == 10 * digits_value(text) + (digit - 48),
{
    assert(text.push(digit).drop_last() =~= text);
}

/// There is one numeral of a number: digits, of that value, and no zero in front
/// unless it is the only one. As characters it is the same.
pub proof fn lemma_numeral_is_the_one(n: nat)
    ensures
        forall|i: int| 0 <= i < numeral(n).len() ==> 48 <= #[trigger] numeral(n)[i] <= 57,
        digits_value(numeral(n)) == n,
        numeral(n).len() >= 1,
        numeral(n).len() > 1 ==> numeral(n)[0] != 48,
        numeral_chars(n).len() == numeral(n).len(),
        forall|i: int|
            0 <= i < numeral(n).len() ==> #[trigger] numeral_chars(n)[i] == numeral(n)[i] as char,
        signed_numeral_chars(n as int) == numeral_chars(n),
        n > 0 ==> signed_numeral_chars(-n) == seq!['-'] + numeral_chars(n),
{
    lemma_numeral_reads_back(n);
    assert forall|i: int| 0 <= i < numeral(n).len() implies 48 <= #[trigger] numeral(n)[i]
        <= 57 by {
        assert(is_digit(numeral(n)[i]));
    }
    if n == 0 {
        assert(numeral(n).len() == 1);
    }
}

/// Which texts are read as a number, and why the others are not.
pub proof fn lemma_numbers_read(text: Seq<u8>)
    ensures
        ({
            let digits = forall|i: int| 0 <= i < text.len() ==> 48 <= #[trigger] text[i] <= 57;
            let r = parsed_usize(text);
            &&& text.len() == 0 ==> r == Err::<usize, _>(IntErrorKind::Empty)
            &&& text.len() > 0 && !digits ==> r == Err::<usize, _>(IntErrorKind::InvalidDigit)
            &&& text.len() > 0 && digits && digits_value(text) > usize::MAX ==> r == Err::<
                usize,
                _,
            >(IntErrorKind::PosOverflow)
            &&& text.len() > 0 && digits && digits_value(text) <= usize::MAX ==> r == Ok::<
                _,
                IntErrorKind,
            >(digits_value(text) as usize)
        }),
{
    if all_digits(text) {
        assert forall|i: int| 0 <= i < text.len() implies 48 <= #[trigger] text[i] <= 57 by {
            assert(is_digit(text[i]));
        }
    }
}

} // verus!
