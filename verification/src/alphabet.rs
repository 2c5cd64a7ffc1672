//! The fixed alphabet: the bijective table between source characters and
//! symbolic codes, stated over code numbers.
//!
//! The table holds the 26 uppercase Latin letters, the 10 digits, and 31 ASCII
//! punctuation characters. Each maps to a distinct code number (the glyph
//! string read as a binary numeral behind a leading 1, see `crate::glyphs`);
//! 0 stands for "not in the table".

use vstd::prelude::*;
use crate::chars::is_space_char;
use crate::chars::upper_char;

verus! {

/// The code number of a source character, or 0 when the character is not in
/// the alphabet.
pub open spec fn code_of(c: char) -> u32 {
    match c {
        'A' => 5,
        'B' => 24,
        'C' => 26,
        'D' => 12,
        'E' => 2,
        'F' => 18,
        'G' => 14,
        'H' => 16,
        'I' => 4,
        'J' => 23,
        'K' => 13,
        'L' => 20,
        'M' => 7,
        'N' => 6,
        'O' => 15,
        'P' => 22,
        'Q' => 29,
        'R' => 10,
        'S' => 8,
        'T' => 3,
        'U' => 9,
        'V' => 17,
        'W' => 11,
        'X' => 25,
        'Y' => 27,
        'Z' => 28,
        '0' => 63,
        '1' => 47,
        '2' => 39,
        '3' => 35,
        '4' => 33,
        '5' => 32,
        '6' => 48,
        '7' => 56,
        '8' => 60,
        '9' => 62,
        '.' => 85,
        ',' => 115,
        '!' => 107,
        '?' => 76,
        '\'' => 94,
        '"' => 82,
        '/' => 50,
        '(' => 54,
        ')' => 109,
        ':' => 120,
        ';' => 106,
        '=' => 49,
        '+' => 42,
        '-' => 97,
        '_' => 77,
        '@' => 90,
        '`' => 79,
        '~' => 71,
        '\\' => 51,
        '|' => 61,
        '#' => 69,
        '$' => 137,
        '%' => 101,
        '^' => 247,
        '*' => 43,
        '{' => 122,
        '}' => 121,
        '[' => 100,
        ']' => 102,
        '<' => 67,
        '>' => 112,
        _ => 0,
    }
}

/// Whether a character is in the fixed alphabet.
pub open spec fn in_alphabet(c: char) -> bool {
    code_of(c) != 0
}

/// The inverse direction of the table: the source character of a code number,
/// if the number is one of the table's codes.
pub open spec fn char_of_code(n: nat) -> Option<char> {
    if n == 5 {
        Some('A')
    } else if n == 24 {
        Some('B')
    } else if n == 26 {
        Some('C')
    } else if n == 12 {
        Some('D')
    } else if n == 2 {
        Some('E')
    } else if n == 18 {
        Some('F')
    } else if n == 14 {
        Some('G')
    } else if n == 16 {
        Some('H')
    } else if n == 4 {
        Some('I')
    } else if n == 23 {
        Some('J')
    } else if n == 13 {
        Some('K')
    } else if n == 20 {
        Some('L')
    } else if n == 7 {
        Some('M')
    } else if n == 6 {
        Some('N')
    } else if n == 15 {
        Some('O')
    } else if n == 22 {
        Some('P')
    } else if n == 29 {
        Some('Q')
    } else if n == 10 {
        Some('R')
    } else if n == 8 {
        Some('S')
    } else if n == 3 {
        Some('T')
    } else if n == 9 {
        Some('U')
    } else if n == 17 {
        Some('V')
    } else if n == 11 {
        Some('W')
    } else if n == 25 {
        Some('X')
    } else if n == 27 {
        Some('Y')
    } else if n == 28 {
        Some('Z')
    } else if n == 63 {
        Some('0')
    } else if n == 47 {
        Some('1')
    } else if n == 39 {
        Some('2')
    } else if n == 35 {
        Some('3')
    } else if n == 33 {
        Some('4')
    } else if n == 32 {
        Some('5')
    } else if n == 48 {
        Some('6')
    } else if n == 56 {
        Some('7')
    } else if n == 60 {
        Some('8')
    } else if n == 62 {
        Some('9')
    } else if n == 85 {
        Some('.')
    } else if n == 115 {
        Some(',')
    } else if n == 107 {
        Some('!')
    } else if n == 76 {
        Some('?')
    } else if n == 94 {
        Some('\'')
    } else if n == 82 {
        Some('"')
    } else if n == 50 {
        Some('/')
    } else if n == 54 {
        Some('(')
    } else if n == 109 {
        Some(')')
    } else if n == 120 {
        Some(':')
    } else if n == 106 {
        Some(';')
    } else if n == 49 {
        Some('=')
    } else if n == 42 {
        Some('+')
    } else if n == 97 {
        Some('-')
    } else if n == 77 {
        Some('_')
    } else if n == 90 {
        Some('@')
    } else if n == 79 {
        Some('`')
    } else if n == 71 {
        Some('~')
    } else if n == 51 {
        Some('\\')
    } else if n == 61 {
        Some('|')
    } else if n == 69 {
        Some('#')
    } else if n == 137 {
        Some('$')
    } else if n == 101 {
        Some('%')
    } else if n == 247 {
        Some('^')
    } else if n == 43 {
        Some('*')
    } else if n == 122 {
        Some('{')
    } else if n == 121 {
        Some('}')
    } else if n == 100 {
        Some('[')
    } else if n == 102 {
        Some(']')
    } else if n == 67 {
        Some('<')
    } else if n == 112 {
        Some('>')
    } else {
        None
    }
}

pub fn lookup_code(c: char) -> (r: u32)
    ensures
        r == code_of(c),
{
    match c {
        'A' => 5,
        'B' => 24,
        'C' => 26,
        'D' => 12,
        'E' => 2,
        'F' => 18,
        'G' => 14,
        'H' => 16,
        'I' => 4,
        'J' => 23,
        'K' => 13,
        'L' => 20,
        'M' => 7,
        'N' => 6,
        'O' => 15,
        'P' => 22,
        'Q' => 29,
        'R' => 10,
        'S' => 8,
        'T' => 3,
        'U' => 9,
        'V' => 17,
        'W' => 11,
        'X' => 25,
        'Y' => 27,
        'Z' => 28,
        '0' => 63,
        '1' => 47,
        '2' => 39,
        '3' => 35,
        '4' => 33,
        '5' => 32,
        '6' => 48,
        '7' => 56,
        '8' => 60,
        '9' => 62,
        '.' => 85,
        ',' => 115,
        '!' => 107,
        '?' => 76,
        '\'' => 94,
        '"' => 82,
        '/' => 50,
        '(' => 54,
        ')' => 109,
        ':' => 120,
        ';' => 106,
        '=' => 49,
        '+' => 42,
        '-' => 97,
        '_' => 77,
        '@' => 90,
        '`' => 79,
        '~' => 71,
        '\\' => 51,
        '|' => 61,
        '#' => 69,
        '$' => 137,
        '%' => 101,
        '^' => 247,
        '*' => 43,
        '{' => 122,
        '}' => 121,
        '[' => 100,
        ']' => 102,
        '<' => 67,
        '>' => 112,
        _ => 0,
    }
}

pub fn lookup_char(n: u32) -> (r: Option<char>)
    ensures
        r == char_of_code(n as nat),
{
    match n {
        5 => Some('A'),
        24 => Some('B'),
        26 => Some('C'),
        12 => Some('D'),
        2 => Some('E'),
        18 => Some('F'),
        14 => Some('G'),
        16 => Some('H'),
        4 => Some('I'),
        23 => Some('J'),
        13 => Some('K'),
        20 => Some('L'),
        7 => Some('M'),
        6 => Some('N'),
        15 => Some('O'),
        22 => Some('P'),
        29 => Some('Q'),
        10 => Some('R'),
        8 => Some('S'),
        3 => Some('T'),
        9 => Some('U'),
        17 => Some('V'),
        11 => Some('W'),
        25 => Some('X'),
        27 => Some('Y'),
        28 => Some('Z'),
        63 => Some('0'),
        47 => Some('1'),
        39 => Some('2'),
        35 => Some('3'),
        33 => Some('4'),
        32 => Some('5'),
        48 => Some('6'),
        56 => Some('7'),
        60 => Some('8'),
        62 => Some('9'),
        85 => Some('.'),
        115 => Some(','),
        107 => Some('!'),
        76 => Some('?'),
        94 => Some('\''),
        82 => Some('"'),
        50 => Some('/'),
        54 => Some('('),
        109 => Some(')'),
        120 => Some(':'),
        106 => Some(';'),
        49 => Some('='),
        42 => Some('+'),
        97 => Some('-'),
        77 => Some('_'),
        90 => Some('@'),
        79 => Some('`'),
        71 => Some('~'),
        51 => Some('\\'),
        61 => Some('|'),
        69 => Some('#'),
        137 => Some('$'),
        101 => Some('%'),
        247 => Some('^'),
        43 => Some('*'),
        122 => Some('{'),
        121 => Some('}'),
        100 => Some('['),
        102 => Some(']'),
        67 => Some('<'),
        112 => Some('>'),
        _ => None,
    }
}

/// The two directions of the table are exact inverses: looking up the code of
/// an alphabet character and mapping the code back yields that character; the
/// codes themselves lie between 2 and 247.
pub proof fn lemma_code_inverse(c: char)
    requires
        in_alphabet(c),
    ensures
        char_of_code(code_of(c) as nat) == Some(c),
        2 <= code_of(c) <= 247,
{
}

/// And back again: a code number that maps to a character is that character's
/// code, so no two characters share a code and every code belongs to exactly
/// one character.
pub proof fn lemma_char_of_code_inverse(n: nat, c: char)
    requires
        char_of_code(n) == Some(c),
    ensures
        code_of(c) == n,
        in_alphabet(c),
{
}

/// Code numbers above 247 map back to no character.
pub proof fn lemma_char_of_code_none_above(n: nat)
    requires
        n > 247,
    ensures
        char_of_code(n) is None,
{
}

/// No whitespace character has an alphabet character as its uppercase form.
pub proof fn lemma_space_not_encodable(c: char)
    requires
        is_space_char(c),
    ensures
        !in_alphabet(upper_char(c)),
{
}

} // verus!
