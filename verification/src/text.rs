use vstd::prelude::*;
use vstd::string::{StrSliceExecFns, StringExecFns};

verus! {

/// The characters that `char::to_lowercase` maps a character to.
pub uninterp spec fn lowercase_of(c: char) -> Seq<char>;

/// `char::to_lowercase`: the lowercase mapping of the character, one or more characters.
#[verifier::external_body]
fn char_to_lowercase(c: char) -> (text: String)
    ensures
        text@ == lowercase_of(c),
        text@.len() > 0,
{
    c.to_lowercase().collect()
}

/// `text` with its first character in lowercase.
pub open spec fn uncapitalized(text: Seq<char>) -> Seq<char> {
    if text.len() == 0 {
        text
    } else {
        lowercase_of(text[0]) + text.skip(1)
    }
}

/// The string with its first character replaced by a text.
pub fn replace_first(string: &str, first: String) -> (text: String)
    requires
        string@.len() > 0,
    ensures
        text@ == first@ + string@.skip(1),
{
    let length: usize = string.unicode_len();
    let rest = string.substring_char(1, length);
    assert(rest@ =~= string@.skip(1));
    first.concat(rest)
}

/// Put the first character of the string in lowercase, and leave the others as they are.
pub fn uncapitalize(string: &str) -> (text: String)
    ensures
        text@ == uncapitalized(string@),
{
    if string.unicode_len() == 0 {
        let text = String::new();
        assert(text@ =~= string@);
        text
    } else {
        replace_first(string, char_to_lowercase(string.get_char(0)))
    }
}

/// The decimal digits of a number.
pub open spec fn decimal(number: nat) -> Seq<char>
    decreases number,
{
    let digit = ('0' as nat + number % 10) as char;
    if number < 10 {
        seq![digit]
    } else {
        decimal(number / 10).push(digit)
    }
}

/// Whether a character is a decimal digit.
pub open spec fn is_digit(c: char) -> bool {
    '0' <= c <= '9'
}

/// The number that decimal digits stand for.
pub open spec fn number_of(digits: Seq<char>) -> int
    decreases digits.len(),
{
    if digits.len() == 0 {
        0
    } else {
        10 * number_of(digits.drop_last()) + (digits.last() as int - '0' as int)
    }
}

/// The digits of a number stand for it, and do not start with a zero, but for zero itself.
pub proof fn law_digits_stand_for_the_number(number: nat)
    ensures
        number_of(decimal(number)) == number,
        decimal(number).len() > 0,
        forall|i: int| 0 <= i < decimal(number).len() ==> is_digit(#[trigger] decimal(number)[i]),
        decimal(number)[0] == '0' ==> number == 0,
        number == 0 ==> decimal(number) == seq!['0'],
    decreases number,
{
    let digit = ('0' as nat + number % 10) as char;
    let digits = decimal(number);
    assert(digit as int == '0' as int + number % 10);
    if number < 10 {
        assert(digits == seq![digit]);
        assert(digits.drop_last() =~= Seq::empty());
        assert(number_of(digits.drop_last()) == 0);
        assert(digits.last() == digit);
    } else {
        let before = decimal(number / 10);
        law_digits_stand_for_the_number(number / 10);
        assert(digits == before.push(digit));
        assert(digits.drop_last() =~= before);
        assert(digits.last() == digit);
        assert(digits[0] == before[0]);
        assert forall|i: int| 0 <= i < digits.len() implies is_digit(#[trigger] digits[i]) by {
            if i < before.len() {
                assert(digits[i] == before[i]);
            }
        }
    }
}

/// Only the first character of a text changes its case, and the empty text stays as it is.
pub proof fn law_only_the_first_character_is_uncapitalized(first: char, rest: Seq<char>)
    ensures
        uncapitalized(seq![first] + rest) == lowercase_of(first) + rest,
        uncapitalized(Seq::empty()) == Seq::<char>::empty(),
{
    assert((seq![first] + rest).skip(1) =~= rest);
    assert((seq![first] + rest)[0] == first);
}

/// The digit of a number below ten.
fn digit(number: usize) -> (text: &'static str)
    requires
        number < 10,
    ensures
        text@ == seq![('0' as nat + number) as char],
{
    proof {
        reveal_strlit("0");
        reveal_strlit("1");
        reveal_strlit("2");
        reveal_strlit("3");
        reveal_strlit("4");
        reveal_strlit("5");
        reveal_strlit("6");
        reveal_strlit("7");
        reveal_strlit("8");
        reveal_strlit("9");
    }
    let text = match number {
        0 => "0",
        1 => "1",
        2 => "2",
        3 => "3",
        4 => "4",
        5 => "5",
        6 => "6",
        7 => "7",
        8 => "8",
        _ => "9",
    };
    assert(text@ =~= seq![('0' as nat + number) as char]);
    text
}

/// The number in decimal digits.
pub fn usize_to_string(number: usize) -> (text: String)
    ensures
        text@ == decimal(number as nat),
    decreases number,
{
    if number < 10 {
        digit(number).to_owned()
    } else {
        let text = usize_to_string(number / 10).concat(digit(number % 10));
        assert(text@ =~= decimal(number as nat / 10).push(('0' as nat + number % 10) as char));
        text
    }
}

} // verus!
