//! The MURCIELAGO letter-to-digit substitution cipher.
//!
//! Each letter of the word "MURCIELAGO" stands for one decimal digit. Two
//! numbering conventions exist: base 0 aligns 'M' with '0', base 1 aligns
//! 'M' with '1'; the remaining letters follow in the order of the word, the
//! digits wrapping around modulo 10. Input is normalized to ASCII uppercase
//! first; a normalized character outside the table passes through unchanged,
//! so spaces and punctuation survive a translation.

use vstd::prelude::*;

use crate::text::{chars_to_string, str_chars, to_upper, to_upper_seq, upper_char};

verus! {

/// Position of a cipher letter in the keyword "MURCIELAGO", or -1 for any
/// other character. Only uppercase letters are in the table's domain.
pub open spec fn letter_index(c: char) -> int {
    match c {
        'M' => 0,
        'U' => 1,
        'R' => 2,
        'C' => 3,
        'I' => 4,
        'E' => 5,
        'L' => 6,
        'A' => 7,
        'G' => 8,
        'O' => 9,
        _ => -1,
    }
}

/// The cipher letter at position `i` of the keyword "MURCIELAGO".
pub open spec fn letter_at(i: int) -> char
    recommends
        0 <= i < 10,
{
    if i == 0 {
        'M'
    } else if i == 1 {
        'U'
    } else if i == 2 {
        'R'
    } else if i == 3 {
        'C'
    } else if i == 4 {
        'I'
    } else if i == 5 {
        'E'
    } else if i == 6 {
        'L'
    } else if i == 7 {
        'A'
    } else if i == 8 {
        'G'
    } else if i == 9 {
        'O'
    } else {
        ' '
    }
}

/// Numeric value of a decimal digit character, or -1 for any other character.
pub open spec fn digit_value(c: char) -> int {
    match c {
        '0' => 0,
        '1' => 1,
        '2' => 2,
        '3' => 3,
        '4' => 4,
        '5' => 5,
        '6' => 6,
        '7' => 7,
        '8' => 8,
        '9' => 9,
        _ => -1,
    }
}

/// The decimal digit character with value `d`.
pub open spec fn digit_at(d: int) -> char
    recommends
        0 <= d < 10,
{
    if d == 0 {
        '0'
    } else if d == 1 {
        '1'
    } else if d == 2 {
        '2'
    } else if d == 3 {
        '3'
    } else if d == 4 {
        '4'
    } else if d == 5 {
        '5'
    } else if d == 6 {
        '6'
    } else if d == 7 {
        '7'
    } else if d == 8 {
        '8'
    } else if d == 9 {
        '9'
    } else {
        ' '
    }
}

/// The digit offset of a numbering convention: 0 for base 0, 1 for base 1.
pub open spec fn base_offset(base1: bool) -> int {
    if base1 {
        1
    } else {
        0
    }
}

/// Encoding of one character: normalize to uppercase, then replace a cipher
/// letter at keyword position `i` by the digit `(i + offset) mod 10`; any
/// other character passes through (in its normalized form).
pub open spec fn encode_char(base1: bool, c: char) -> char {
    let u = to_upper(c);
    let i = letter_index(u);
    if i >= 0 {
        digit_at((i + base_offset(base1)) % 10)
    } else {
        u
    }
}

/// Decoding of one character: normalize to uppercase, then replace a digit
/// of value `d` by the cipher letter at keyword position
/// `(d + 10 - offset) mod 10`; any other character passes through (in its
/// normalized form).
pub open spec fn decode_char(base1: bool, c: char) -> char {
    let u = to_upper(c);
    let d = digit_value(u);
    if d >= 0 {
        letter_at((d + 10 - base_offset(base1)) % 10)
    } else {
        u
    }
}

/// Encoding of a whole message, character by character.
pub open spec fn encode_seq(base1: bool, s: Seq<char>) -> Seq<char> {
    s.map_values(|c: char| encode_char(base1, c))
}

/// Decoding of a whole message, character by character.
pub open spec fn decode_seq(base1: bool, s: Seq<char>) -> Seq<char> {
    s.map_values(|c: char| decode_char(base1, c))
}

/// Encodes one character under the convention chosen by `base1`.
fn encode_char_exec(base1: bool, c: char) -> (r: char)
    ensures
        r == encode_char(base1, c),
{
    let u = upper_char(c);
    match u {
        'M' => if base1 { '1' } else { '0' },
        'U' => if base1 { '2' } else { '1' },
        'R' => if base1 { '3' } else { '2' },
        'C' => if base1 { '4' } else { '3' },
        'I' => if base1 { '5' } else { '4' },
        'E' => if base1 { '6' } else { '5' },
        'L' => if base1 { '7' } else { '6' },
        'A' => if base1 { '8' } else { '7' },
        'G' => if base1 { '9' } else { '8' },
        'O' => if base1 { '0' } else { '9' },
        _ => u,
    }
}

/// Decodes one character under the convention chosen by `base1`.
fn decode_char_exec(base1: bool, c: char) -> (r: char)
    ensures
        r == decode_char(base1, c),
{
    let u = upper_char(c);
    match u {
        '0' => if base1 { 'O' } else { 'M' },
        '1' => if base1 { 'M' } else { 'U' },
        '2' => if base1 { 'U' } else { 'R' },
        '3' => if base1 { 'R' } else { 'C' },
        '4' => if base1 { 'C' } else { 'I' },
        '5' => if base1 { 'I' } else { 'E' },
        '6' => if base1 { 'E' } else { 'L' },
        '7' => if base1 { 'L' } else { 'A' },
        '8' => if base1 { 'A' } else { 'G' },
        '9' => if base1 { 'G' } else { 'O' },
        _ => u,
    }
}

/// Translates a whole message one character at a time; `encode` picks the
/// direction, `base1` the numbering convention.
fn translate(message: &str, base1: bool, encode: bool) -> (r: String)
    ensures
        encode ==> r@ == encode_seq(base1, message@),
        !encode ==> r@ == decode_seq(base1, message@),
{
    let chars = str_chars(message);
    let mut out: Vec<char> = Vec::new();
    let mut i: usize = 0;
    while i < chars.len()
        invariant
            i <= chars.len(),
            chars@ == message@,
            encode ==> out@ == encode_seq(base1, message@.take(i as int)),
            !encode ==> out@ == decode_seq(base1, message@.take(i as int)),
        decreases chars.len() - i,
    {
        let c = if encode {
            encode_char_exec(base1, chars[i])
        } else {
            decode_char_exec(base1, chars[i])
        };
        out.push(c);
        i = i + 1;
        proof {
            if encode {
                assert(out@ =~= encode_seq(base1, message@.take(i as int)));
            } else {
                assert(out@ =~= decode_seq(base1, message@.take(i as int)));
            }
        }
    }
    proof {
        assert(message@.take(chars@.len() as int) =~= message@);
    }
    chars_to_string(&out)
}

/// Round trip: decoding the encoding of any character whose uppercase form
/// is in the cipher's domain gives that uppercase form back, under either
/// numbering convention.
pub proof fn lemma_round_trip(base1: bool, c: char)
    requires
        letter_index(to_upper(c)) >= 0,
    ensures
        decode_char(base1, encode_char(base1, c)) == to_upper(c),
{
}

/// Round trip over a whole message: when every character's uppercase form
/// is in the cipher's domain, decoding the encoding gives the
/// case-normalized message back.
pub proof fn lemma_round_trip_message(base1: bool, s: Seq<char>)
    requires
        forall|i: int| 0 <= i < s.len() ==> letter_index(to_upper(s[i])) >= 0,
    ensures
        decode_seq(base1, encode_seq(base1, s)) == to_upper_seq(s),
{
    let enc = encode_seq(base1, s);
    assert forall|i: int| 0 <= i < s.len() implies decode_seq(base1, enc)[i] == to_upper_seq(s)[i]
        by {
        lemma_round_trip(base1, s[i]);
    }
    assert(decode_seq(base1, enc) =~= to_upper_seq(s));
}

/// Bijection, plain to coded: within one numbering convention, two domain
/// letters that encode to the same digit are the same letter.
pub proof fn lemma_encode_injective(base1: bool, c1: char, c2: char)
    requires
        letter_index(c1) >= 0,
        letter_index(c2) >= 0,
        encode_char(base1, c1) == encode_char(base1, c2),
    ensures
        c1 == c2,
{
}

/// Bijection, coded to plain: within one numbering convention, two digits
/// that decode to the same letter are the same digit.
pub proof fn lemma_decode_injective(base1: bool, c1: char, c2: char)
    requires
        digit_value(c1) >= 0,
        digit_value(c2) >= 0,
        decode_char(base1, c1) == decode_char(base1, c2),
    ensures
        c1 == c2,
{
}

/// The two numbering conventions are one fixed rotation apart: on a domain
/// letter, the base-1 digit is the base-0 digit advanced by one, modulo 10.
pub proof fn lemma_base_rotation(c: char)
    requires
        letter_index(to_upper(c)) >= 0,
    ensures
        digit_value(encode_char(true, c)) == (digit_value(encode_char(false, c)) + 1) % 10,
{
}

/// Pass-through on encode: a character fixed by case normalization and
/// outside the letter domain is returned unchanged.
pub proof fn lemma_encode_pass_through(base1: bool, c: char)
    requires
        to_upper(c) == c,
        letter_index(c) < 0,
    ensures
        encode_char(base1, c) == c,
{
}

/// Pass-through on decode: a character fixed by case normalization and
/// outside the digit domain is returned unchanged.
pub proof fn lemma_decode_pass_through(base1: bool, c: char)
    requires
        to_upper(c) == c,
        digit_value(c) < 0,
    ensures
        decode_char(base1, c) == c,
{
}

/// A message to be translated with the MURCIELAGO cipher.
pub struct Murcielago {
    message: String,
}

impl View for Murcielago {
    type V = Seq<char>;

    closed spec fn view(&self) -> Seq<char> {
        self.message@
    }
}

impl Murcielago {
    /// Creates a new `Murcielago` instance holding the given message.
    pub fn new(message: &str) -> (r: Self)
        ensures
            r@ == message@,
    {
        Self { message: message.to_owned() }
    }

    /// Decodes the message under the base-0 convention ('0' becomes 'M').
    pub fn decode_base0(&self) -> (r: String)
        ensures
            r@ == decode_seq(false, self@),
    {
        translate(self.message.as_str(), false, false)
    }

    /// Decodes the message under the base-1 convention ('1' becomes 'M').
    pub fn decode_base1(&self) -> (r: String)
        ensures
            r@ == decode_seq(true, self@),
    {
        translate(self.message.as_str(), true, false)
    }

    /// Encodes the message under the base-0 convention ('M' becomes '0').
    pub fn encode_base0(&self) -> (r: String)
        ensures
            r@ == encode_seq(false, self@),
    {
        translate(self.message.as_str(), false, true)
    }

    /// Encodes the message under the base-1 convention ('M' becomes '1').
    pub fn encode_base1(&self) -> (r: String)
        ensures
            r@ == encode_seq(true, self@),
    {
        translate(self.message.as_str(), true, true)
    }
}

/// Decodes a message with the MURCIELAGO cipher under the base-0 convention.
pub fn decode_base0(message: &str) -> (r: String)
    ensures
        r@ == decode_seq(false, message@),
{
    Murcielago::new(message).decode_base0()
}

/// Decodes a message with the MURCIELAGO cipher under the base-1 convention.
pub fn decode_base1(message: &str) -> (r: String)
    ensures
        r@ == decode_seq(true, message@),
{
    Murcielago::new(message).decode_base1()
}

/// Encodes a message with the MURCIELAGO cipher under the base-0 convention.
pub fn encode_base0(message: &str) -> (r: String)
    ensures
        r@ == encode_seq(false, message@),
{
    Murcielago::new(message).encode_base0()
}

/// Encodes a message with the MURCIELAGO cipher under the base-1 convention.
pub fn encode_base1(message: &str) -> (r: String)
    ensures
        r@ == encode_seq(true, message@),
{
    Murcielago::new(message).encode_base1()
}

} // verus!
