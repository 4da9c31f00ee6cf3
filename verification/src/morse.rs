//! The Morse-code translator.
//!
//! A coded message is a sequence of words separated by the two-character
//! word separator `//`; within a word, letters are separated by a single
//! `/`. Each letter is a dot/dash token of length 1 to 5 drawn from a fixed
//! table covering the 26 letters 'A'..='Z' and the 10 digits '0'..='9'.
//! Decoding joins the letters of a word directly and the words with a single
//! space, trimming incidental spaces at the ends; encoding is the inverse,
//! splitting the plain message into words on single spaces. An unmapped
//! token (or, when encoding, an unmapped character) is a fatal error: the
//! whole translation fails with [`TranslateError::InvalidSymbol`].

use vstd::prelude::*;

use crate::text::{chars_to_string, str_chars, to_upper, to_upper_seq, upper_chars};
use vstd::slice::slice_to_vec;

verus! {

/// Why a translation failed.
#[derive(Debug, PartialEq, Eq)]
pub enum TranslateError {
    /// The input contained this symbol, which the cipher's table does not map.
    InvalidSymbol(String),
}

/// The plain character for a one-symbol dot/dash token, if any.
pub open spec fn plain_of_1(a: char) -> Option<char> {
    match a {
        '.' => Some('E'),
        '-' => Some('T'),
        _ => None,
    }
}

/// The plain character for a two-symbol dot/dash token, if any.
pub open spec fn plain_of_2(a: char, b: char) -> Option<char> {
    match (a, b) {
        ('.', '-') => Some('A'),
        ('.', '.') => Some('I'),
        ('-', '-') => Some('M'),
        ('-', '.') => Some('N'),
        _ => None,
    }
}

/// The plain character for a three-symbol dot/dash token, if any.
pub open spec fn plain_of_3(a: char, b: char, c: char) -> Option<char> {
    match (a, b, c) {
        ('-', '.', '.') => Some('D'),
        ('-', '-', '.') => Some('G'),
        ('-', '.', '-') => Some('K'),
        ('-', '-', '-') => Some('O'),
        ('.', '-', '.') => Some('R'),
        ('.', '.', '.') => Some('S'),
        ('.', '.', '-') => Some('U'),
        ('.', '-', '-') => Some('W'),
        _ => None,
    }
}

/// The plain character for a four-symbol dot/dash token, if any.
pub open spec fn plain_of_4(a: char, b: char, c: char, d: char) -> Option<char> {
    match (a, b, c, d) {
        ('-', '.', '.', '.') => Some('B'),
        ('-', '.', '-', '.') => Some('C'),
        ('.', '.', '-', '.') => Some('F'),
        ('.', '.', '.', '.') => Some('H'),
        ('.', '-', '-', '-') => Some('J'),
        ('.', '-', '.', '.') => Some('L'),
        ('.', '-', '-', '.') => Some('P'),
        ('-', '-', '.', '-') => Some('Q'),
        ('.', '.', '.', '-') => Some('V'),
        ('-', '.', '.', '-') => Some('X'),
        ('-', '.', '-', '-') => Some('Y'),
        ('-', '-', '.', '.') => Some('Z'),
        _ => None,
    }
}

/// The plain character for a five-symbol dot/dash token, if any.
pub open spec fn plain_of_5(a: char, b: char, c: char, d: char, e: char) -> Option<char> {
    match (a, b, c, d, e) {
        ('-', '-', '-', '-', '-') => Some('0'),
        ('.', '-', '-', '-', '-') => Some('1'),
        ('.', '.', '-', '-', '-') => Some('2'),
        ('.', '.', '.', '-', '-') => Some('3'),
        ('.', '.', '.', '.', '-') => Some('4'),
        ('.', '.', '.', '.', '.') => Some('5'),
        ('-', '.', '.', '.', '.') => Some('6'),
        ('-', '-', '.', '.', '.') => Some('7'),
        ('-', '-', '-', '.', '.') => Some('8'),
        ('-', '-', '-', '-', '.') => Some('9'),
        _ => None,
    }
}

/// The plain character a dot/dash token decodes to, if the token is in the
/// Morse table.
pub open spec fn morse_plain(t: Seq<char>) -> Option<char> {
    if t.len() == 1 {
        plain_of_1(t[0])
    } else if t.len() == 2 {
        plain_of_2(t[0], t[1])
    } else if t.len() == 3 {
        plain_of_3(t[0], t[1], t[2])
    } else if t.len() == 4 {
        plain_of_4(t[0], t[1], t[2], t[3])
    } else if t.len() == 5 {
        plain_of_5(t[0], t[1], t[2], t[3], t[4])
    } else {
        None
    }
}

/// The dot/dash token for a plain character, or the empty sequence for a
/// character outside the Morse table's domain.
pub open spec fn morse_code(c: char) -> Seq<char> {
    match c {
        'A' => seq!['.', '-'],
        'B' => seq!['-', '.', '.', '.'],
        'C' => seq!['-', '.', '-', '.'],
        'D' => seq!['-', '.', '.'],
        'E' => seq!['.'],
        'F' => seq!['.', '.', '-', '.'],
        'G' => seq!['-', '-', '.'],
        'H' => seq!['.', '.', '.', '.'],
        'I' => seq!['.', '.'],
        'J' => seq!['.', '-', '-', '-'],
        'K' => seq!['-', '.', '-'],
        'L' => seq!['.', '-', '.', '.'],
        'M' => seq!['-', '-'],
        'N' => seq!['-', '.'],
        'O' => seq!['-', '-', '-'],
        'P' => seq!['.', '-', '-', '.'],
        'Q' => seq!['-', '-', '.', '-'],
        'R' => seq!['.', '-', '.'],
        'S' => seq!['.', '.', '.'],
        'T' => seq!['-'],
        'U' => seq!['.', '.', '-'],
        'V' => seq!['.', '.', '.', '-'],
        'W' => seq!['.', '-', '-'],
        'X' => seq!['-', '.', '.', '-'],
        'Y' => seq!['-', '.', '-', '-'],
        'Z' => seq!['-', '-', '.', '.'],
        '0' => seq!['-', '-', '-', '-', '-'],
        '1' => seq!['.', '-', '-', '-', '-'],
        '2' => seq!['.', '.', '-', '-', '-'],
        '3' => seq!['.', '.', '.', '-', '-'],
        '4' => seq!['.', '.', '.', '.', '-'],
        '5' => seq!['.', '.', '.', '.', '.'],
        '6' => seq!['-', '.', '.', '.', '.'],
        '7' => seq!['-', '-', '.', '.', '.'],
        '8' => seq!['-', '-', '-', '.', '.'],
        '9' => seq!['-', '-', '-', '-', '.'],
        _ => Seq::<char>::empty(),
    }
}

/// Whether a plain character is in the Morse table's domain: the 26
/// uppercase letters and the 10 digits.
pub open spec fn in_morse_domain(c: char) -> bool {
    morse_code(c).len() != 0
}

/// Round trip: every domain character's token decodes back to that
/// character.
pub proof fn lemma_morse_round_trip(c: char)
    requires
        in_morse_domain(c),
    ensures
        morse_plain(morse_code(c)) == Some(c),
{
}

/// Bijection, plain to coded: two domain characters with the same dot/dash
/// token are the same character.
pub proof fn lemma_morse_code_injective(c1: char, c2: char)
    requires
        in_morse_domain(c1),
        in_morse_domain(c2),
        morse_code(c1) == morse_code(c2),
    ensures
        c1 == c2,
{
    lemma_morse_round_trip(c1);
    lemma_morse_round_trip(c2);
}

/// Bijection, coded to plain: a token the table decodes is exactly the
/// token of the character it decodes to, so two distinct tokens never
/// decode to the same character.
pub proof fn lemma_morse_plain_inverse(t: Seq<char>)
    requires
        morse_plain(t) is Some,
    ensures
        in_morse_domain(morse_plain(t)->Some_0),
        morse_code(morse_plain(t)->Some_0) == t,
{
    let c = morse_plain(t)->Some_0;
    assert(morse_code(c) =~= t);
}

/// Splitting on a one-character separator, with the piece read so far:
/// pieces are maximal runs between separator occurrences, and both a
/// leading and a trailing separator contribute an empty piece.
pub open spec fn split_on_from(s: Seq<char>, cur: Seq<char>, sep: char) -> Seq<Seq<char>>
    decreases s.len(),
{
    if s.len() == 0 {
        seq![cur]
    } else if s[0] == sep {
        seq![cur] + split_on_from(s.skip(1), Seq::<char>::empty(), sep)
    } else {
        split_on_from(s.skip(1), cur.push(s[0]), sep)
    }
}

/// Splits a sequence on every occurrence of a one-character separator.
pub open spec fn split_on(s: Seq<char>, sep: char) -> Seq<Seq<char>> {
    split_on_from(s, Seq::<char>::empty(), sep)
}

/// Splitting on the two-character word separator `//`, with the piece read
/// so far. Occurrences are taken leftmost first and do not overlap, as
/// `str::split` takes them.
pub open spec fn split_words_from(s: Seq<char>, cur: Seq<char>) -> Seq<Seq<char>>
    decreases s.len(),
{
    if s.len() >= 2 && s[0] == '/' && s[1] == '/' {
        seq![cur] + split_words_from(s.skip(2), Seq::<char>::empty())
    } else if s.len() == 0 {
        seq![cur]
    } else {
        split_words_from(s.skip(1), cur.push(s[0]))
    }
}

/// Splits a coded message into words on every occurrence of `//`.
pub open spec fn split_words(s: Seq<char>) -> Seq<Seq<char>> {
    split_words_from(s, Seq::<char>::empty())
}

/// Decodes a word's tokens in order. An empty token contributes no letters;
/// the first token outside the table is the error.
pub open spec fn decode_tokens(ts: Seq<Seq<char>>) -> Result<Seq<char>, Seq<char>>
    decreases ts.len(),
{
    if ts.len() == 0 {
        Ok(Seq::<char>::empty())
    } else if ts[0].len() == 0 {
        decode_tokens(ts.skip(1))
    } else {
        match morse_plain(ts[0]) {
            None => Err(ts[0]),
            Some(c) => match decode_tokens(ts.skip(1)) {
                Ok(rest) => Ok(seq![c] + rest),
                Err(e) => Err(e),
            },
        }
    }
}

/// Decodes one word: split it on `/` and decode the tokens.
pub open spec fn decode_word(w: Seq<char>) -> Result<Seq<char>, Seq<char>> {
    decode_tokens(split_on(w, '/'))
}

/// Decodes a message's words in order, a single space after each decoded
/// word; the first invalid token of the first failing word is the error.
pub open spec fn decode_words(ws: Seq<Seq<char>>) -> Result<Seq<char>, Seq<char>>
    decreases ws.len(),
{
    if ws.len() == 0 {
        Ok(Seq::<char>::empty())
    } else {
        match decode_word(ws[0]) {
            Err(e) => Err(e),
            Ok(d) => match decode_words(ws.skip(1)) {
                Ok(rest) => Ok(d + seq![' '] + rest),
                Err(e) => Err(e),
            },
        }
    }
}

/// Removes every leading space.
pub open spec fn trim_leading(s: Seq<char>) -> Seq<char>
    decreases s.len(),
{
    if s.len() > 0 && s[0] == ' ' {
        trim_leading(s.skip(1))
    } else {
        s
    }
}

/// Removes every trailing space.
pub open spec fn trim_trailing(s: Seq<char>) -> Seq<char>
    decreases s.len(),
{
    if s.len() > 0 && s.last() == ' ' {
        trim_trailing(s.drop_last())
    } else {
        s
    }
}

/// Removes leading and trailing spaces.
pub open spec fn trim_spaces(s: Seq<char>) -> Seq<char> {
    trim_trailing(trim_leading(s))
}

/// The whole decoding pipeline: split into words on `//`, decode each word
/// (its tokens split on `/`), join the decoded words with single spaces and
/// trim the ends. The error, if any, is the first unmapped token in scan
/// order.
pub open spec fn morse_decode(s: Seq<char>) -> Result<Seq<char>, Seq<char>> {
    match decode_words(split_words(s)) {
        Ok(out) => Ok(trim_spaces(out)),
        Err(e) => Err(e),
    }
}

/// Encodes a word's characters in order, a `/` before every code but the
/// first; the first character outside the table is the error.
pub open spec fn encode_word(w: Seq<char>) -> Result<Seq<char>, char>
    decreases w.len(),
{
    if w.len() == 0 {
        Ok(Seq::<char>::empty())
    } else if !in_morse_domain(w[0]) {
        Err(w[0])
    } else {
        match encode_word(w.skip(1)) {
            Err(e) => Err(e),
            Ok(rest) => if w.len() == 1 {
                Ok(morse_code(w[0]))
            } else {
                Ok(morse_code(w[0]) + seq!['/'] + rest)
            },
        }
    }
}

/// Encodes a message's words in order, a `//` between consecutive word
/// codes; the first unmapped character of the first failing word is the
/// error.
pub open spec fn encode_words(ws: Seq<Seq<char>>) -> Result<Seq<char>, char>
    decreases ws.len(),
{
    if ws.len() == 0 {
        Ok(Seq::<char>::empty())
    } else {
        match encode_word(ws[0]) {
            Err(e) => Err(e),
            Ok(d) => match encode_words(ws.skip(1)) {
                Err(e) => Err(e),
                Ok(rest) => if ws.len() == 1 {
                    Ok(d)
                } else {
                    Ok(d + seq!['/', '/'] + rest)
                },
            },
        }
    }
}

/// The whole encoding pipeline: normalize to ASCII uppercase, split the
/// plain message into words on single spaces, encode each word (codes
/// joined with `/`) and join the word codes with `//`. The error, if any,
/// is the first normalized character that is neither a space nor in the
/// table's domain.
pub open spec fn morse_encode(s: Seq<char>) -> Result<Seq<char>, char> {
    encode_words(split_on(to_upper_seq(s), ' '))
}

/// Looks one dot/dash token up in the Morse table.
fn decode_token(t: &[char]) -> (r: Option<char>)
    ensures
        r == morse_plain(t@),
{
    if t.len() == 1 {
        match t[0] {
            '.' => Some('E'),
            '-' => Some('T'),
            _ => None,
        }
    } else if t.len() == 2 {
        match (t[0], t[1]) {
            ('.', '-') => Some('A'),
            ('.', '.') => Some('I'),
            ('-', '-') => Some('M'),
            ('-', '.') => Some('N'),
            _ => None,
        }
    } else if t.len() == 3 {
        match (t[0], t[1], t[2]) {
            ('-', '.', '.') => Some('D'),
            ('-', '-', '.') => Some('G'),
            ('-', '.', '-') => Some('K'),
            ('-', '-', '-') => Some('O'),
            ('.', '-', '.') => Some('R'),
            ('.', '.', '.') => Some('S'),
            ('.', '.', '-') => Some('U'),
            ('.', '-', '-') => Some('W'),
            _ => None,
        }
    } else if t.len() == 4 {
        match (t[0], t[1], t[2], t[3]) {
            ('-', '.', '.', '.') => Some('B'),
            ('-', '.', '-', '.') => Some('C'),
            ('.', '.', '-', '.') => Some('F'),
            ('.', '.', '.', '.') => Some('H'),
            ('.', '-', '-', '-') => Some('J'),
            ('.', '-', '.', '.') => Some('L'),
            ('.', '-', '-', '.') => Some('P'),
            ('-', '-', '.', '-') => Some('Q'),
            ('.', '.', '.', '-') => Some('V'),
            ('-', '.', '.', '-') => Some('X'),
            ('-', '.', '-', '-') => Some('Y'),
            ('-', '-', '.', '.') => Some('Z'),
            _ => None,
        }
    } else if t.len() == 5 {
        match (t[0], t[1], t[2], t[3], t[4]) {
            ('-', '-', '-', '-', '-') => Some('0'),
            ('.', '-', '-', '-', '-') => Some('1'),
            ('.', '.', '-', '-', '-') => Some('2'),
            ('.', '.', '.', '-', '-') => Some('3'),
            ('.', '.', '.', '.', '-') => Some('4'),
            ('.', '.', '.', '.', '.') => Some('5'),
            ('-', '.', '.', '.', '.') => Some('6'),
            ('-', '-', '.', '.', '.') => Some('7'),
            ('-', '-', '-', '.', '.') => Some('8'),
            ('-', '-', '-', '-', '.') => Some('9'),
            _ => None,
        }
    } else {
        None
    }
}

/// Looks one plain character up in the Morse table.
fn code_of(c: char) -> (r: Option<Vec<char>>)
    ensures
        match r {
            Some(v) => in_morse_domain(c) && v@ == morse_code(c),
            None => !in_morse_domain(c),
        },
{
    match c {
        'A' => Some(vec!['.', '-']),
        'B' => Some(vec!['-', '.', '.', '.']),
        'C' => Some(vec!['-', '.', '-', '.']),
        'D' => Some(vec!['-', '.', '.']),
        'E' => Some(vec!['.']),
        'F' => Some(vec!['.', '.', '-', '.']),
        'G' => Some(vec!['-', '-', '.']),
        'H' => Some(vec!['.', '.', '.', '.']),
        'I' => Some(vec!['.', '.']),
        'J' => Some(vec!['.', '-', '-', '-']),
        'K' => Some(vec!['-', '.', '-']),
        'L' => Some(vec!['.', '-', '.', '.']),
        'M' => Some(vec!['-', '-']),
        'N' => Some(vec!['-', '.']),
        'O' => Some(vec!['-', '-', '-']),
        'P' => Some(vec!['.', '-', '-', '.']),
        'Q' => Some(vec!['-', '-', '.', '-']),
        'R' => Some(vec!['.', '-', '.']),
        'S' => Some(vec!['.', '.', '.']),
        'T' => Some(vec!['-']),
        'U' => Some(vec!['.', '.', '-']),
        'V' => Some(vec!['.', '.', '.', '-']),
        'W' => Some(vec!['.', '-', '-']),
        'X' => Some(vec!['-', '.', '.', '-']),
        'Y' => Some(vec!['-', '.', '-', '-']),
        'Z' => Some(vec!['-', '-', '.', '.']),
        '0' => Some(vec!['-', '-', '-', '-', '-']),
        '1' => Some(vec!['.', '-', '-', '-', '-']),
        '2' => Some(vec!['.', '.', '-', '-', '-']),
        '3' => Some(vec!['.', '.', '.', '-', '-']),
        '4' => Some(vec!['.', '.', '.', '.', '-']),
        '5' => Some(vec!['.', '.', '.', '.', '.']),
        '6' => Some(vec!['-', '.', '.', '.', '.']),
        '7' => Some(vec!['-', '-', '.', '.', '.']),
        '8' => Some(vec!['-', '-', '-', '.', '.']),
        '9' => Some(vec!['-', '-', '-', '-', '.']),
        _ => None,
    }
}

/// Every symbol of a domain character's token is a dot or a dash.
pub proof fn lemma_morse_code_symbols(c: char)
    ensures
        forall|j: int|
            0 <= j < morse_code(c).len() ==> (morse_code(c)[j] == '.' || morse_code(c)[j] == '-'),
{
}

/// Splitting on a separator that does not occur leaves one piece: the
/// accumulated prefix followed by the rest.
proof fn lemma_split_on_from_no_sep(s: Seq<char>, cur: Seq<char>, sep: char)
    requires
        forall|j: int| 0 <= j < s.len() ==> s[j] != sep,
    ensures
        split_on_from(s, cur, sep) == seq![cur + s],
    decreases s.len(),
{
    if s.len() == 0 {
        assert(cur + s =~= cur);
    } else {
        lemma_split_on_from_no_sep(s.skip(1), cur.push(s[0]), sep);
        assert(cur.push(s[0]) + s.skip(1) =~= cur + s);
    }
}

/// Splitting on the word separator when no `/` occurs leaves one piece: the
/// accumulated prefix followed by the rest.
proof fn lemma_split_words_from_no_sep(s: Seq<char>, cur: Seq<char>)
    requires
        forall|j: int| 0 <= j < s.len() ==> s[j] != '/',
    ensures
        split_words_from(s, cur) == seq![cur + s],
    decreases s.len(),
{
    if s.len() == 0 {
        assert(cur + s =~= cur);
    } else {
        lemma_split_words_from_no_sep(s.skip(1), cur.push(s[0]));
        assert(cur.push(s[0]) + s.skip(1) =~= cur + s);
    }
}

/// Round trip through the whole pipeline: a one-symbol message whose
/// normalized character is in the table's domain encodes successfully, and
/// decoding the code gives the normalized character back.
pub proof fn lemma_morse_symbol_round_trip(c: char)
    requires
        in_morse_domain(to_upper(c)),
    ensures
        morse_encode(seq![c]) matches Ok(code) && morse_decode(code) == Ok::<Seq<char>, Seq<char>>(
            seq![to_upper(c)],
        ),
{
    let u = to_upper(c);
    let code = morse_code(u);

    // The encoding side: one word of one character.
    assert(to_upper_seq(seq![c]) =~= seq![u]);
    assert(u != ' ');
    assert(seq![u][0] == u);
    assert(seq![u].skip(1) =~= Seq::<char>::empty());
    assert(Seq::<char>::empty().push(u) =~= seq![u]);
    assert(split_on_from(Seq::<char>::empty(), seq![u], ' ') == seq![seq![u]]);
    assert(split_on(seq![u], ' ') == seq![seq![u]]);
    assert(seq![seq![u]].skip(1) =~= Seq::<Seq<char>>::empty());
    assert(encode_word(Seq::<char>::empty()) == Ok::<Seq<char>, char>(Seq::<char>::empty()));
    assert(encode_word(seq![u]) == Ok::<Seq<char>, char>(code));
    assert(seq![seq![u]][0] == seq![u]);
    assert(encode_words(Seq::<Seq<char>>::empty()) == Ok::<Seq<char>, char>(Seq::<char>::empty()));
    assert(encode_words(seq![seq![u]]) == Ok::<Seq<char>, char>(code));
    assert(morse_encode(seq![c]) == Ok::<Seq<char>, char>(code));

    // The decoding side: the token holds only dots and dashes, so neither
    // splitter cuts it.
    lemma_morse_code_symbols(u);
    lemma_split_words_from_no_sep(code, Seq::<char>::empty());
    assert(Seq::<char>::empty() + code =~= code);
    assert(split_words(code) == seq![code]);
    lemma_split_on_from_no_sep(code, Seq::<char>::empty(), '/');
    assert(split_on(code, '/') == seq![code]);
    lemma_morse_round_trip(u);
    assert(seq![code].skip(1) =~= Seq::<Seq<char>>::empty());
    assert(seq![code][0] == code);
    assert(decode_tokens(Seq::<Seq<char>>::empty()) == Ok::<Seq<char>, Seq<char>>(
        Seq::<char>::empty(),
    ));
    assert(decode_tokens(seq![code]) == Ok::<Seq<char>, Seq<char>>(seq![u] + Seq::<char>::empty()));
    assert(seq![u] + Seq::<char>::empty() =~= seq![u]);
    assert(decode_word(code) == Ok::<Seq<char>, Seq<char>>(seq![u]));
    assert(seq![u] + seq![' '] + Seq::<char>::empty() =~= seq![u, ' ']);
    assert(decode_words(Seq::<Seq<char>>::empty()) == Ok::<Seq<char>, Seq<char>>(
        Seq::<char>::empty(),
    ));
    assert(decode_words(seq![code]) == Ok::<Seq<char>, Seq<char>>(seq![u, ' ']));

    // Trimming drops the joining space after the single word.
    assert(seq![u, ' '].last() == ' ');
    assert(seq![u, ' '].drop_last() =~= seq![u]);
    assert(trim_leading(seq![u, ' ']) == seq![u, ' ']);
    assert(trim_trailing(seq![u, ' ']) == trim_trailing(seq![u]));
    assert(trim_trailing(seq![u]) == seq![u]);
    assert(trim_spaces(seq![u, ' ']) == seq![u]);
}

/// The views of a sequence of character vectors.
pub open spec fn views_of(v: Seq<Vec<char>>) -> Seq<Seq<char>> {
    v.map_values(|x: Vec<char>| x@)
}

/// Splits on a one-character separator.
fn split_on_exec(s: &[char], sep: char) -> (r: Vec<Vec<char>>)
    ensures
        views_of(r@) == split_on(s@, sep),
{
    let mut pieces: Vec<Vec<char>> = Vec::new();
    let mut cur: Vec<char> = Vec::new();
    let mut i: usize = 0;
    proof {
        assert(s@.skip(0) =~= s@);
        assert(views_of(pieces@) =~= Seq::<Seq<char>>::empty());
        assert(views_of(pieces@) + split_on(s@, sep) =~= split_on(s@, sep));
    }
    while i < s.len()
        invariant
            i <= s@.len(),
            split_on(s@, sep) == views_of(pieces@) + split_on_from(s@.skip(i as int), cur@, sep),
        decreases s@.len() - i,
    {
        let ghost rest = s@.skip(i as int);
        let ghost pre_pieces = pieces@;
        let ghost pre_cur = cur@;
        proof {
            assert(rest[0] == s@[i as int]);
            assert(rest.skip(1) =~= s@.skip(i as int + 1));
        }
        if s[i] == sep {
            pieces.push(cur);
            cur = Vec::new();
            proof {
                assert(views_of(pieces@) =~= views_of(pre_pieces).push(pre_cur));
                assert(views_of(pre_pieces) + (seq![pre_cur] + split_on_from(
                    rest.skip(1),
                    Seq::<char>::empty(),
                    sep,
                )) =~= views_of(pieces@) + split_on_from(rest.skip(1), Seq::<char>::empty(), sep));
            }
        } else {
            cur.push(s[i]);
        }
        i = i + 1;
    }
    proof {
        assert(s@.skip(i as int) =~= Seq::<char>::empty());
    }
    let ghost pre_pieces = pieces@;
    let ghost pre_cur = cur@;
    pieces.push(cur);
    proof {
        assert(views_of(pieces@) =~= views_of(pre_pieces) + seq![pre_cur]);
    }
    pieces
}

/// Splits a coded message into words on the two-character separator `//`.
fn split_words_exec(s: &[char]) -> (r: Vec<Vec<char>>)
    ensures
        views_of(r@) == split_words(s@),
{
    let mut pieces: Vec<Vec<char>> = Vec::new();
    let mut cur: Vec<char> = Vec::new();
    let mut i: usize = 0;
    proof {
        assert(s@.skip(0) =~= s@);
        assert(views_of(pieces@) =~= Seq::<Seq<char>>::empty());
        assert(views_of(pieces@) + split_words(s@) =~= split_words(s@));
    }
    while i < s.len()
        invariant
            i <= s@.len(),
            split_words(s@) == views_of(pieces@) + split_words_from(s@.skip(i as int), cur@),
        decreases s@.len() - i,
    {
        let ghost rest = s@.skip(i as int);
        let ghost pre_pieces = pieces@;
        let ghost pre_cur = cur@;
        proof {
            assert(rest[0] == s@[i as int]);
            if rest.len() >= 2 {
                assert(rest[1] == s@[i as int + 1]);
                assert(rest.skip(2) =~= s@.skip(i as int + 2));
            }
            assert(rest.skip(1) =~= s@.skip(i as int + 1));
        }
        if s[i] == '/' && i + 1 < s.len() && s[i + 1] == '/' {
            pieces.push(cur);
            cur = Vec::new();
            i = i + 2;
            proof {
                assert(views_of(pieces@) =~= views_of(pre_pieces).push(pre_cur));
                assert(views_of(pre_pieces) + (seq![pre_cur] + split_words_from(
                    rest.skip(2),
                    Seq::<char>::empty(),
                )) =~= views_of(pieces@) + split_words_from(rest.skip(2), Seq::<char>::empty()));
            }
        } else {
            proof {
                assert(!(rest.len() >= 2 && rest[0] == '/' && rest[1] == '/'));
            }
            cur.push(s[i]);
            i = i + 1;
        }
    }
    proof {
        assert(s@.skip(i as int) =~= Seq::<char>::empty());
    }
    let ghost pre_pieces = pieces@;
    let ghost pre_cur = cur@;
    pieces.push(cur);
    proof {
        assert(views_of(pieces@) =~= views_of(pre_pieces) + seq![pre_cur]);
    }
    pieces
}

/// Decodes the tokens of a word from position `i` on.
fn decode_tokens_from(tokens: &Vec<Vec<char>>, i: usize) -> (r: Result<Vec<char>, Vec<char>>)
    requires
        i <= tokens@.len(),
    ensures
        match r {
            Ok(v) => decode_tokens(views_of(tokens@).skip(i as int)) == Ok::<Seq<char>, Seq<char>>(
                v@,
            ),
            Err(e) => decode_tokens(views_of(tokens@).skip(i as int)) == Err::<
                Seq<char>,
                Seq<char>,
            >(e@),
        },
    decreases tokens@.len() - i,
{
    let ghost rest = views_of(tokens@).skip(i as int);
    if i == tokens.len() {
        proof {
            assert(rest =~= Seq::<Seq<char>>::empty());
        }
        Ok(Vec::new())
    } else {
        let t = &tokens[i];
        proof {
            assert(rest[0] == t@);
            assert(rest.skip(1) =~= views_of(tokens@).skip(i as int + 1));
        }
        if t.len() == 0 {
            decode_tokens_from(tokens, i + 1)
        } else {
            match decode_token(t.as_slice()) {
                None => Err(slice_to_vec(t.as_slice())),
                Some(c) => match decode_tokens_from(tokens, i + 1) {
                    Err(e) => Err(e),
                    Ok(mut tail) => {
                        let ghost tail_view = tail@;
                        let mut out: Vec<char> = Vec::new();
                        out.push(c);
                        out.append(&mut tail);
                        proof {
                            assert(out@ =~= seq![c] + tail_view);
                        }
                        Ok(out)
                    },
                },
            }
        }
    }
}

/// Decodes the words of a message from position `i` on, a single space
/// after each decoded word.
fn decode_words_from(words: &Vec<Vec<char>>, i: usize) -> (r: Result<Vec<char>, Vec<char>>)
    requires
        i <= words@.len(),
    ensures
        match r {
            Ok(v) => decode_words(views_of(words@).skip(i as int)) == Ok::<Seq<char>, Seq<char>>(
                v@,
            ),
            Err(e) => decode_words(views_of(words@).skip(i as int)) == Err::<Seq<char>, Seq<char>>(
                e@,
            ),
        },
    decreases words@.len() - i,
{
    let ghost rest = views_of(words@).skip(i as int);
    if i == words.len() {
        proof {
            assert(rest =~= Seq::<Seq<char>>::empty());
        }
        Ok(Vec::new())
    } else {
        let w = &words[i];
        proof {
            assert(rest[0] == w@);
            assert(rest.skip(1) =~= views_of(words@).skip(i as int + 1));
        }
        let tokens = split_on_exec(w.as_slice(), '/');
        proof {
            assert(views_of(tokens@).skip(0) =~= views_of(tokens@));
        }
        match decode_tokens_from(&tokens, 0) {
            Err(e) => Err(e),
            Ok(mut d) => match decode_words_from(words, i + 1) {
                Err(e) => Err(e),
                Ok(mut tail) => {
                    let ghost d_view = d@;
                    let ghost tail_view = tail@;
                    d.push(' ');
                    d.append(&mut tail);
                    proof {
                        assert(d@ =~= d_view + seq![' '] + tail_view);
                    }
                    Ok(d)
                },
            },
        }
    }
}

/// Removes leading and trailing spaces.
fn trim_spaces_exec(v: &Vec<char>) -> (r: Vec<char>)
    ensures
        r@ == trim_spaces(v@),
{
    let mut start: usize = 0;
    proof {
        assert(v@.skip(0) =~= v@);
    }
    while start < v.len() && v[start] == ' '
        invariant
            start <= v@.len(),
            trim_leading(v@) == trim_leading(v@.skip(start as int)),
        decreases v@.len() - start,
    {
        proof {
            assert(v@.skip(start as int)[0] == v@[start as int]);
            assert(v@.skip(start as int).skip(1) =~= v@.skip(start as int + 1));
        }
        start = start + 1;
    }
    proof {
        if start < v@.len() {
            assert(v@.skip(start as int)[0] == v@[start as int]);
        } else {
            assert(v@.skip(start as int) =~= Seq::<char>::empty());
        }
        assert(trim_leading(v@) == v@.skip(start as int));
    }
    let mut end: usize = v.len();
    while end > start && v[end - 1] == ' '
        invariant
            start <= end <= v@.len(),
            trim_leading(v@) == v@.skip(start as int),
            trim_trailing(v@.skip(start as int)) == trim_trailing(
                v@.subrange(start as int, end as int),
            ),
        decreases end,
    {
        proof {
            let piece = v@.subrange(start as int, end as int);
            assert(piece.last() == v@[end - 1]);
            assert(piece.drop_last() =~= v@.subrange(start as int, end as int - 1));
        }
        end = end - 1;
    }
    proof {
        let piece = v@.subrange(start as int, end as int);
        if end > start {
            assert(piece.last() == v@[end - 1]);
        }
        assert(trim_trailing(piece) == piece);
        assert(v@.skip(start as int) =~= v@.subrange(start as int, v@.len() as int));
    }
    let mut out: Vec<char> = Vec::new();
    let mut i: usize = start;
    while i < end
        invariant
            start <= i <= end <= v@.len(),
            out@ == v@.subrange(start as int, i as int),
        decreases end - i,
    {
        out.push(v[i]);
        i = i + 1;
        proof {
            assert(out@ =~= v@.subrange(start as int, i as int));
        }
    }
    out
}

/// Encodes the characters of a word from position `i` on, a `/` between
/// consecutive codes.
fn encode_word_from(w: &Vec<char>, i: usize) -> (r: Result<Vec<char>, char>)
    requires
        i <= w@.len(),
    ensures
        match r {
            Ok(v) => encode_word(w@.skip(i as int)) == Ok::<Seq<char>, char>(v@),
            Err(e) => encode_word(w@.skip(i as int)) == Err::<Seq<char>, char>(e),
        },
    decreases w@.len() - i,
{
    let ghost rest = w@.skip(i as int);
    if i == w.len() {
        proof {
            assert(rest =~= Seq::<char>::empty());
        }
        Ok(Vec::new())
    } else {
        proof {
            assert(rest[0] == w@[i as int]);
            assert(rest.skip(1) =~= w@.skip(i as int + 1));
        }
        match code_of(w[i]) {
            None => Err(w[i]),
            Some(mut code) => match encode_word_from(w, i + 1) {
                Err(e) => Err(e),
                Ok(mut tail) => {
                    let ghost code_view = code@;
                    let ghost tail_view = tail@;
                    if i + 1 < w.len() {
                        code.push('/');
                        code.append(&mut tail);
                        proof {
                            assert(code@ =~= code_view + seq!['/'] + tail_view);
                        }
                    } else {
                        code.append(&mut tail);
                        proof {
                            assert(code@ =~= code_view);
                        }
                    }
                    Ok(code)
                },
            },
        }
    }
}

/// Encodes the words of a plain message from position `i` on, a `//`
/// between consecutive word codes.
fn encode_words_from(words: &Vec<Vec<char>>, i: usize) -> (r: Result<Vec<char>, char>)
    requires
        i <= words@.len(),
    ensures
        match r {
            Ok(v) => encode_words(views_of(words@).skip(i as int)) == Ok::<Seq<char>, char>(v@),
            Err(e) => encode_words(views_of(words@).skip(i as int)) == Err::<Seq<char>, char>(e),
        },
    decreases words@.len() - i,
{
    let ghost rest = views_of(words@).skip(i as int);
    if i == words.len() {
        proof {
            assert(rest =~= Seq::<Seq<char>>::empty());
        }
        Ok(Vec::new())
    } else {
        let w = &words[i];
        proof {
            assert(rest[0] == w@);
            assert(rest.skip(1) =~= views_of(words@).skip(i as int + 1));
            assert(w@.skip(0) =~= w@);
        }
        match encode_word_from(w, 0) {
            Err(e) => Err(e),
            Ok(mut d) => match encode_words_from(words, i + 1) {
                Err(e) => Err(e),
                Ok(mut tail) => {
                    let ghost d_view = d@;
                    let ghost tail_view = tail@;
                    if i + 1 < words.len() {
                        d.push('/');
                        d.push('/');
                        d.append(&mut tail);
                        proof {
                            assert(d@ =~= d_view + seq!['/', '/'] + tail_view);
                        }
                    } else {
                        d.append(&mut tail);
                        proof {
                            assert(d@ =~= d_view);
                        }
                    }
                    Ok(d)
                },
            },
        }
    }
}

/// A message to be translated with the Morse cipher.
pub struct Morse {
    message: String,
}

impl View for Morse {
    type V = Seq<char>;

    closed spec fn view(&self) -> Seq<char> {
        self.message@
    }
}

impl Morse {
    /// Creates a new `Morse` instance holding the given message.
    pub fn new(message: &str) -> (r: Self)
        ensures
            r@ == message@,
    {
        Self { message: message.to_owned() }
    }

    /// Decodes the message from Morse code. Fails on the first token the
    /// table does not map, returning that token.
    pub fn decode(&self) -> (r: Result<String, TranslateError>)
        ensures
            match morse_decode(self@) {
                Ok(out) => r matches Ok(v) && v@ == out,
                Err(tok) => r matches Err(TranslateError::InvalidSymbol(sym)) && sym@ == tok,
            },
    {
        let chars = str_chars(self.message.as_str());
        let words = split_words_exec(chars.as_slice());
        proof {
            assert(views_of(words@).skip(0) =~= views_of(words@));
        }
        match decode_words_from(&words, 0) {
            Ok(out) => {
                let trimmed = trim_spaces_exec(&out);
                Ok(chars_to_string(&trimmed))
            },
            Err(tok) => Err(TranslateError::InvalidSymbol(chars_to_string(&tok))),
        }
    }

    /// Encodes the message into Morse code. Fails on the first normalized
    /// character that is neither a space nor in the table's domain,
    /// returning that character as a one-character symbol.
    pub fn encode(&self) -> (r: Result<String, TranslateError>)
        ensures
            match morse_encode(self@) {
                Ok(out) => r matches Ok(v) && v@ == out,
                Err(c) => r matches Err(TranslateError::InvalidSymbol(sym)) && sym@ == seq![c],
            },
    {
        let chars = str_chars(self.message.as_str());
        let upper = upper_chars(&chars);
        let words = split_on_exec(upper.as_slice(), ' ');
        proof {
            assert(views_of(words@).skip(0) =~= views_of(words@));
        }
        match encode_words_from(&words, 0) {
            Ok(out) => Ok(chars_to_string(&out)),
            Err(c) => {
                let mut sym: Vec<char> = Vec::new();
                sym.push(c);
                proof {
                    assert(sym@ =~= seq![c]);
                }
                Err(TranslateError::InvalidSymbol(chars_to_string(&sym)))
            },
        }
    }
}

/// Decodes a message from Morse code.
pub fn decode(message: &str) -> (r: Result<String, TranslateError>)
    ensures
        match morse_decode(message@) {
            Ok(out) => r matches Ok(v) && v@ == out,
            Err(tok) => r matches Err(TranslateError::InvalidSymbol(sym)) && sym@ == tok,
        },
{
    Morse::new(message).decode()
}

/// Encodes a message into Morse code.
pub fn encode(message: &str) -> (r: Result<String, TranslateError>)
    ensures
        match morse_encode(message@) {
            Ok(out) => r matches Ok(v) && v@ == out,
            Err(c) => r matches Err(TranslateError::InvalidSymbol(sym)) && sym@ == seq![c],
        },
{
    Morse::new(message).encode()
}

} // verus!
