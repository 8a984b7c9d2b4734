//! The ordered symbols the keyboard can type.
use vstd::prelude::*;

verus! {

/// Number of symbols in the alphabet.
pub const ALPHABET_LEN: usize = 36;

/// Number of letters, which come before the digits.
pub const LETTER_COUNT: usize = 26;

/// The alphabet in order: the capital letters, then the decimal digits.
pub open spec fn alphabet() -> Seq<char> {
    seq![
        'A', 'B', 'C', 'D', 'E', 'F', 'G', 'H', 'I', 'J', 'K', 'L', 'M',
        'N', 'O', 'P', 'Q', 'R', 'S', 'T', 'U', 'V', 'W', 'X', 'Y', 'Z',
        '0', '1', '2', '3', '4', '5', '6', '7', '8', '9',
    ]
}

/// The symbol at position `index` of the alphabet.
pub fn symbol_at(index: usize) -> (symbol: char)
    requires
        index < ALPHABET_LEN,
    ensures
        symbol == alphabet()[index as int],
{
    if index < LETTER_COUNT {
        let code: u8 = 65 + index as u8;
        code as char
    } else {
        let code: u8 = 48 + (index - LETTER_COUNT) as u8;
        code as char
    }
}

} // verus!
