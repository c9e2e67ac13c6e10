//! The radar decoder: from the encoded radar string to the decoded line, and
//! from the decoded line to the three grids of wall and cell codes.

use vstd::prelude::*;
use crate::text::{chars_of, string_of};

verus! {

/// Why a radar payload could not be decoded.
#[derive(Debug, Clone, Copy, PartialEq, Eq, Structural)]
pub enum RadarError {
    /// The encoded string holds this character, which is outside the
    /// alphabet.
    InvalidSymbol(char),
    /// The decoded line has fewer than nine tokens, or its cell tokens hold
    /// fewer than nine characters.
    MalformedRadarPayload,
}

/// The six-bit value of a symbol of the alphabet `a`-`z`, `A`-`Z`, `0`-`9`,
/// `+`, `/`, in that order; none for any other character.
pub open spec fn symbol_value(c: char) -> Option<u8> {
    if 'a' <= c <= 'z' {
        Some((c as int - 'a' as int) as u8)
    } else if 'A' <= c <= 'Z' {
        Some((c as int - 'A' as int + 26) as u8)
    } else if '0' <= c <= '9' {
        Some((c as int - '0' as int + 52) as u8)
    } else if c == '+' {
        Some(62u8)
    } else if c == '/' {
        Some(63u8)
    } else {
        None
    }
}

/// The symbol of the alphabet with the six-bit value `v`.
pub open spec fn symbol_of(v: u8) -> char {
    if v < 26 {
        ('a' as int + v) as char
    } else if v < 52 {
        ('A' as int + v - 26) as char
    } else if v < 62 {
        ('0' as int + v - 52) as char
    } else if v == 62 {
        '+'
    } else {
        '/'
    }
}

/// What the binary digit at `place` is worth: 1, 2, 4, ... 128 for the places
/// 0 to 7.
pub open spec fn place_value(place: int) -> int {
    if place <= 0 {
        1
    } else if place == 1 {
        2
    } else if place == 2 {
        4
    } else if place == 3 {
        8
    } else if place == 4 {
        16
    } else if place == 5 {
        32
    } else if place == 6 {
        64
    } else {
        128
    }
}

/// The binary digit of `value` at `place`, place 0 being the lowest.
pub open spec fn bit(value: u8, place: int) -> bool {
    (value as int / place_value(place)) % 2 == 1
}

/// The bit stream of a sequence of six-bit values: six bits each, highest
/// first.
pub open spec fn sextet_stream(values: Seq<u8>) -> Seq<bool> {
    Seq::new(6 * values.len(), |i: int| bit(values[i / 6], 5 - i % 6))
}

/// The bit stream of a sequence of bytes: eight bits each, highest first.
pub open spec fn octet_stream(bytes: Seq<u8>) -> Seq<bool> {
    Seq::new(8 * bytes.len(), |i: int| bit(bytes[i / 8], 7 - i % 8))
}

/// One for a set bit, zero for a clear one.
pub open spec fn digit(b: bool) -> int {
    if b {
        1
    } else {
        0
    }
}

/// The byte made of the eight bits of `bits` from index `at` on, highest
/// first.
pub open spec fn octet(bits: Seq<bool>, at: int) -> u8 {
    (128 * digit(bits[at]) + 64 * digit(bits[at + 1]) + 32 * digit(bits[at + 2]) + 16 * digit(
        bits[at + 3],
    ) + 8 * digit(bits[at + 4]) + 4 * digit(bits[at + 5]) + 2 * digit(bits[at + 6]) + digit(
        bits[at + 7],
    )) as u8
}

/// The six-bit value made of the six bits of `bits` from index `at` on,
/// highest first.
pub open spec fn sextet(bits: Seq<bool>, at: int) -> u8 {
    (32 * digit(bits[at]) + 16 * digit(bits[at + 1]) + 8 * digit(bits[at + 2]) + 4 * digit(
        bits[at + 3],
    ) + 2 * digit(bits[at + 4]) + digit(bits[at + 5])) as u8
}

/// The bytes of a bit stream: each full group of eight bits is one byte; a
/// trailing group of fewer than eight bits is dropped.
pub open spec fn octets(bits: Seq<bool>) -> Seq<u8> {
    Seq::new(bits.len() / 8, |k: int| octet(bits, 8 * k))
}

/// The six-bit values of a bit stream: each full group of six bits is one
/// value; a trailing group of fewer than six bits is dropped.
pub open spec fn sextets(bits: Seq<bool>) -> Seq<u8> {
    Seq::new(bits.len() / 6, |k: int| sextet(bits, 6 * k))
}

/// Whether every character of `symbols` belongs to the alphabet.
pub open spec fn valid_symbols(symbols: Seq<char>) -> bool {
    forall|i: int| 0 <= i < symbols.len() ==> (#[trigger] symbol_value(symbols[i])) is Some
}

/// Whether `i` is the index of the first character of `symbols` outside the
/// alphabet.
pub open spec fn first_invalid(symbols: Seq<char>, i: int) -> bool {
    &&& 0 <= i < symbols.len()
    &&& symbol_value(symbols[i]) is None
    &&& valid_symbols(symbols.take(i))
}

/// The six-bit values of a string of symbols.
pub open spec fn symbol_values(symbols: Seq<char>) -> Seq<u8> {
    Seq::new(symbols.len(), |i: int| symbol_value(symbols[i]).unwrap())
}

/// The symbols of a sequence of six-bit values.
pub open spec fn symbols_of(values: Seq<u8>) -> Seq<char> {
    Seq::new(values.len(), |i: int| symbol_of(values[i]))
}

/// The bytes that a string of symbols decodes to.
pub open spec fn decoded_bytes(symbols: Seq<char>) -> Seq<u8> {
    octets(sextet_stream(symbol_values(symbols)))
}

/// The symbols that a sequence of bytes encodes to; trailing bits that do not
/// fill a symbol are dropped.
pub open spec fn encoded_symbols(bytes: Seq<u8>) -> Seq<char> {
    symbols_of(sextets(octet_stream(bytes)))
}

/// Every symbol of the alphabet is the symbol of its own value, and every
/// six-bit value is the value of its own symbol.
pub proof fn lemma_symbol_round_trip(c: char, v: u8)
    ensures
        symbol_value(c) matches Some(n) ==> n < 64 && symbol_of(n) == c,
        v < 64 ==> symbol_value(symbol_of(v)) == Some(v),
{
}

/// A byte is made of its own eight binary digits.
pub proof fn lemma_octet_of_bits(bits: Seq<bool>, at: int, j: int)
    requires
        0 <= j < 8,
    ensures
        bit(octet(bits, at), 7 - j) == bits[at + j],
{
}

/// A six-bit value is made of its own six binary digits.
pub proof fn lemma_sextet_of_bits(values: Seq<u8>, k: int)
    requires
        0 <= k < values.len(),
        values[k] < 64,
    ensures
        sextet(sextet_stream(values), 6 * k) == values[k],
{
    let stream = sextet_stream(values);
    let v = values[k];
    assert(stream[6 * k + 0] == bit(v, 5));
    assert(stream[6 * k + 1] == bit(v, 4));
    assert(stream[6 * k + 2] == bit(v, 3));
    assert(stream[6 * k + 3] == bit(v, 2));
    assert(stream[6 * k + 4] == bit(v, 1));
    assert(stream[6 * k + 5] == bit(v, 0));
}

/// Regrouping a bit stream into bytes keeps every bit of every full group of
/// eight: the bit stream of the bytes is the stream without its trailing
/// partial group.
pub proof fn lemma_octets_keep_bits(bits: Seq<bool>)
    ensures
        octet_stream(octets(bits)) == bits.take(8 * (bits.len() / 8) as int),
{
    let kept = bits.take(8 * (bits.len() / 8) as int);
    let back = octet_stream(octets(bits));
    assert(back.len() == kept.len());
    assert forall|i: int| 0 <= i < back.len() implies back[i] == kept[i] by {
        lemma_octet_of_bits(bits, 8 * (i / 8), i % 8);
    }
    assert(back =~= kept);
}

/// Decoding loses nothing but the trailing bits that do not fill a byte: the
/// bits of the decoded bytes are the bits of the symbols, cut after the last
/// full group of eight.
pub proof fn lemma_decode_keeps_bits(symbols: Seq<char>)
    ensures
        octet_stream(decoded_bytes(symbols)) == sextet_stream(symbol_values(symbols)).take(
            8 * ((6 * symbols.len()) / 8) as int,
        ),
{
    lemma_octets_keep_bits(sextet_stream(symbol_values(symbols)));
}

/// Regrouping the first `m` bits of the stream of six-bit values gives the
/// values whose bits all lie among them.
pub proof fn lemma_sextets_of_prefix(values: Seq<u8>, m: int)
    requires
        0 <= m <= 6 * values.len(),
        forall|k: int| 0 <= k < values.len() ==> #[trigger] values[k] < 64,
    ensures
        sextets(sextet_stream(values).take(m)) == values.take(m / 6),
{
    let stream = sextet_stream(values);
    let kept = stream.take(m);
    let back = sextets(kept);
    assert(back.len() == m / 6);
    assert forall|k: int| 0 <= k < m / 6 implies back[k] == values[k] by {
        lemma_sextet_of_bits(values, k);
        assert(kept[6 * k] == stream[6 * k]);
        assert(kept[6 * k + 1] == stream[6 * k + 1]);
        assert(kept[6 * k + 2] == stream[6 * k + 2]);
        assert(kept[6 * k + 3] == stream[6 * k + 3]);
        assert(kept[6 * k + 4] == stream[6 * k + 4]);
        assert(kept[6 * k + 5] == stream[6 * k + 5]);
    }
    assert(back =~= values.take(m / 6));
}

/// Encoding what was decoded gives the symbols back, up to the symbols whose
/// bits were cut with the trailing partial byte. Where the symbols hold a
/// whole number of bytes, that is all of them.
pub proof fn lemma_decode_then_encode(symbols: Seq<char>)
    requires
        valid_symbols(symbols),
    ensures
        encoded_symbols(decoded_bytes(symbols)) == symbols.take(
            ((8 * ((6 * symbols.len()) / 8)) / 6) as int,
        ),
        (6 * symbols.len()) % 8 == 0 ==> encoded_symbols(decoded_bytes(symbols)) == symbols,
{
    let values = symbol_values(symbols);
    let m = 8 * ((6 * symbols.len()) / 8) as int;
    let count = m / 6;
    assert forall|k: int| 0 <= k < values.len() implies #[trigger] values[k] < 64 by {
        assert(symbol_value(symbols[k]) is Some);
        lemma_symbol_round_trip(symbols[k], 0);
    }
    lemma_decode_keeps_bits(symbols);
    lemma_sextets_of_prefix(values, m);
    let back = encoded_symbols(decoded_bytes(symbols));
    assert(back == symbols_of(values.take(count)));
    assert forall|k: int| 0 <= k < count implies back[k] == symbols[k] by {
        assert(symbol_value(symbols[k]) is Some);
        lemma_symbol_round_trip(symbols[k], 0);
    }
    assert(back =~= symbols.take(count));
    if (6 * symbols.len()) % 8 == 0 {
        assert(symbols.take(count) =~= symbols);
    }
}

/// The six-bit value of `c`, if `c` belongs to the alphabet.
pub fn value_of_symbol(c: char) -> (v: Option<u8>)
    ensures
        v == symbol_value(c),
        v matches Some(n) ==> n < 64,
{
    if 'a' <= c && c <= 'z' {
        Some((c as u32 - 'a' as u32) as u8)
    } else if 'A' <= c && c <= 'Z' {
        Some((c as u32 - 'A' as u32 + 26) as u8)
    } else if '0' <= c && c <= '9' {
        Some((c as u32 - '0' as u32 + 52) as u8)
    } else if c == '+' {
        Some(62)
    } else if c == '/' {
        Some(63)
    } else {
        None
    }
}

fn push_sextet(bits: &mut Vec<bool>, v: u8)
    ensures
        final(bits)@ == old(bits)@ + Seq::new(6, |j: int| bit(v, 5 - j)),
{
    bits.push(v / 32 % 2 == 1);
    bits.push(v / 16 % 2 == 1);
    bits.push(v / 8 % 2 == 1);
    bits.push(v / 4 % 2 == 1);
    bits.push(v / 2 % 2 == 1);
    bits.push(v % 2 == 1);
    assert(bits@ =~= old(bits)@ + Seq::new(6, |j: int| bit(v, 5 - j)));
}

fn weigh(b: bool, weight: u8) -> (n: u8)
    ensures
        n == weight * digit(b),
{
    if b {
        weight
    } else {
        0
    }
}

fn octet_at(bits: &Vec<bool>, at: usize) -> (byte: u8)
    requires
        at + 8 <= bits.len(),
    ensures
        byte == octet(bits@, at as int),
{
    weigh(bits[at], 128) + weigh(bits[at + 1], 64) + weigh(bits[at + 2], 32) + weigh(
        bits[at + 3],
        16,
    ) + weigh(bits[at + 4], 8) + weigh(bits[at + 5], 4) + weigh(bits[at + 6], 2) + weigh(
        bits[at + 7],
        1,
    )
}

/// Decodes a string over the 64-symbol alphabet to bytes: the six bits of
/// each symbol are concatenated and regrouped by eight, and a trailing group
/// of fewer than eight bits is dropped. Fails on the first character outside
/// the alphabet.
pub fn decode_bytes(encoded: &str) -> (result: Result<Vec<u8>, RadarError>)
    ensures
        match result {
            Ok(bytes) => valid_symbols(encoded@) && bytes@ == decoded_bytes(encoded@),
            Err(e) => exists|i: int|
                first_invalid(encoded@, i) && e == RadarError::InvalidSymbol(#[trigger] encoded@[i]),
        },
{
    let symbols = chars_of(encoded);
    let mut bits: Vec<bool> = Vec::new();
    let mut i: usize = 0;
    while i < symbols.len()
        invariant
            i <= symbols.len(),
            symbols@ == encoded@,
            valid_symbols(symbols@.take(i as int)),
            bits@ == sextet_stream(symbol_values(symbols@.take(i as int))),
        decreases symbols.len() - i,
    {
        match value_of_symbol(symbols[i]) {
            None => {
                assert(first_invalid(encoded@, i as int));
                return Err(RadarError::InvalidSymbol(symbols[i]));
            },
            Some(v) => {
                push_sextet(&mut bits, v);
                proof {
                    let before = symbols@.take(i as int);
                    let after = symbols@.take(i + 1);
                    assert forall|j: int| 0 <= j < after.len() implies (#[trigger] symbol_value(
                        after[j],
                    )) is Some by {
                        if j < i {
                            assert(after[j] == before[j]);
                        }
                    }
                    assert(bits@ =~= sextet_stream(symbol_values(after))) by {
                        assert forall|t: int| 0 <= t < 6 * (i + 1) implies bits@[t] == bit(
                            symbol_values(after)[t / 6],
                            5 - t % 6,
                        ) by {
                            if t < 6 * i {
                                assert(symbol_values(after)[t / 6] == symbol_values(before)[t / 6]);
                            } else {
                                assert(t / 6 == i);
                            }
                        }
                    }
                }
                i = i + 1;
            },
        }
    }
    assert(symbols@.take(i as int) =~= encoded@);
    let mut bytes: Vec<u8> = Vec::new();
    let count: usize = bits.len() / 8;
    let mut k: usize = 0;
    while k < count
        invariant
            k <= count,
            count == bits.len() / 8,
            bytes@ == octets(bits@).take(k as int),
        decreases count - k,
    {
        let byte = octet_at(&bits, 8 * k);
        bytes.push(byte);
        assert(bytes@ =~= octets(bits@).take(k + 1));
        k = k + 1;
    }
    assert(bytes@ =~= octets(bits@));
    Ok(bytes)
}


/// The parts joined by `separator`, which stands between each two neighbours.
pub open spec fn joined(parts: Seq<Seq<char>>, separator: char) -> Seq<char>
    decreases parts.len(),
{
    if parts.len() == 0 {
        Seq::empty()
    } else if parts.len() == 1 {
        parts[0]
    } else {
        joined(parts.drop_last(), separator).push(separator) + parts.last()
    }
}

/// The eight binary digits of a byte, highest first.
pub open spec fn binary_digits(byte: u8) -> Seq<char> {
    Seq::new(
        8,
        |i: int|
            if bit(byte, 7 - i) {
                '1'
            } else {
                '0'
            },
    )
}

/// The upper-case hexadecimal digit of a value below sixteen.
pub open spec fn hex_digit(n: int) -> char {
    if n < 10 {
        ('0' as int + n) as char
    } else {
        ('A' as int + n - 10) as char
    }
}

/// The two upper-case hexadecimal digits of a byte, highest first.
pub open spec fn hex_digits(byte: u8) -> Seq<char> {
    seq![hex_digit(byte as int / 16), hex_digit(byte as int % 16)]
}

/// The token that stands for the byte at index `k` of the decoded bytes: the
/// first six bytes are wall bytes and are written in binary, the others are
/// cell bytes and are written in hexadecimal.
pub open spec fn token(k: int, byte: u8) -> Seq<char> {
    if k < 6 {
        binary_digits(byte)
    } else {
        hex_digits(byte)
    }
}

/// The tokens of a sequence of decoded bytes.
pub open spec fn tokens_of(bytes: Seq<u8>) -> Seq<Seq<char>> {
    Seq::new(bytes.len(), |k: int| token(k, bytes[k]))
}

/// The decoded line of a sequence of bytes: its tokens, joined by single
/// spaces.
pub open spec fn decoded_line(bytes: Seq<u8>) -> Seq<char> {
    joined(tokens_of(bytes), ' ')
}

fn binary_char(b: bool) -> (c: char)
    ensures
        c == if b {
            '1'
        } else {
            '0'
        },
{
    if b {
        '1'
    } else {
        '0'
    }
}

fn push_binary(line: &mut Vec<char>, byte: u8)
    ensures
        final(line)@ == old(line)@ + binary_digits(byte),
{
    line.push(binary_char(byte / 128 % 2 == 1));
    line.push(binary_char(byte / 64 % 2 == 1));
    line.push(binary_char(byte / 32 % 2 == 1));
    line.push(binary_char(byte / 16 % 2 == 1));
    line.push(binary_char(byte / 8 % 2 == 1));
    line.push(binary_char(byte / 4 % 2 == 1));
    line.push(binary_char(byte / 2 % 2 == 1));
    line.push(binary_char(byte % 2 == 1));
    assert(line@ =~= old(line)@ + binary_digits(byte));
}

fn hex_char(n: u8) -> (c: char)
    requires
        n < 16,
    ensures
        c == hex_digit(n as int),
{
    if n < 10 {
        ('0' as u8 + n) as char
    } else {
        ('A' as u8 + (n - 10)) as char
    }
}

fn push_hex(line: &mut Vec<char>, byte: u8)
    ensures
        final(line)@ == old(line)@ + hex_digits(byte),
{
    line.push(hex_char(byte / 16));
    line.push(hex_char(byte % 16));
    assert(line@ =~= old(line)@ + hex_digits(byte));
}

/// Writes decoded bytes as the decoded line: the first six bytes as eight
/// binary digits each, every later byte as two upper-case hexadecimal digits,
/// with a single space between neighbours.
pub fn render_line(bytes: &Vec<u8>) -> (line: String)
    ensures
        line@ == decoded_line(bytes@),
{
    let mut out: Vec<char> = Vec::new();
    let mut k: usize = 0;
    while k < bytes.len()
        invariant
            k <= bytes.len(),
            out@ == decoded_line(bytes@.take(k as int)),
        decreases bytes.len() - k,
    {
        proof {
            let before = tokens_of(bytes@.take(k as int));
            let after = tokens_of(bytes@.take(k + 1));
            assert(after.drop_last() =~= before);
            assert(after.last() == token(k as int, bytes@[k as int]));
        }
        if k > 0 {
            out.push(' ');
        }
        if k < 6 {
            push_binary(&mut out, bytes[k]);
        } else {
            push_hex(&mut out, bytes[k]);
        }
        assert(out@ =~= decoded_line(bytes@.take(k + 1)));
        k = k + 1;
    }
    assert(bytes@.take(k as int) =~= bytes@);
    string_of(&out)
}

/// Decodes a radar string to its decoded line.
///
/// The string is read over the alphabet `a`-`z`, `A`-`Z`, `0`-`9`, `+`, `/`
/// with six bits per symbol and no padding; the bits are regrouped into bytes
/// and a trailing partial byte is dropped; the bytes are written as
/// [`decoded_line`] says. The empty string decodes to the empty line. Fails
/// with `InvalidSymbol` on the first character outside the alphabet.
pub fn decode_b64(encoded: &str) -> (result: Result<String, RadarError>)
    ensures
        match result {
            Ok(line) => valid_symbols(encoded@) && line@ == decoded_line(decoded_bytes(encoded@)),
            Err(e) => exists|i: int|
                first_invalid(encoded@, i) && e == RadarError::InvalidSymbol(#[trigger] encoded@[i]),
        },
{
    match decode_bytes(encoded) {
        Ok(bytes) => Ok(render_line(&bytes)),
        Err(e) => Err(e),
    }
}


/// Whether a character is white space: the characters U+0009 to U+000D,
/// U+0020, U+0085, U+00A0, U+1680, U+2000 to U+200A, U+2028, U+2029, U+202F,
/// U+205F and U+3000.
pub open spec fn white_space(c: char) -> bool {
    let n = c as int;
    ||| 0x09 <= n <= 0x0D
    ||| n == 0x20
    ||| n == 0x85
    ||| n == 0xA0
    ||| n == 0x1680
    ||| 0x2000 <= n <= 0x200A
    ||| n == 0x2028
    ||| n == 0x2029
    ||| n == 0x202F
    ||| n == 0x205F
    ||| n == 0x3000
}

/// Executable form of [`white_space`].
pub fn is_white_space(c: char) -> (r: bool)
    ensures
        r == white_space(c),
{
    let n: u32 = c as u32;
    (0x09 <= n && n <= 0x0D) || n == 0x20 || n == 0x85 || n == 0xA0 || n == 0x1680 || (0x2000 <= n
        && n <= 0x200A) || n == 0x2028 || n == 0x2029 || n == 0x202F || n == 0x205F || n == 0x3000
}

/// The pieces of `line` between the occurrences of `separator`. There is one
/// piece more than there are separators, and a piece may be empty.
pub open spec fn split(line: Seq<char>, separator: char) -> Seq<Seq<char>>
    decreases line.len(),
{
    if line.len() == 0 {
        seq![Seq::empty()]
    } else {
        let before = split(line.drop_last(), separator);
        if line.last() == separator {
            before.push(Seq::empty())
        } else {
            before.update(before.len() - 1, before.last().push(line.last()))
        }
    }
}

/// The words of `text`: its longest runs of characters that are not white
/// space.
pub open spec fn words(text: Seq<char>) -> Seq<Seq<char>>
    decreases text.len(),
{
    if text.len() == 0 {
        Seq::empty()
    } else {
        let before = words(text.drop_last());
        if white_space(text.last()) {
            before
        } else if text.len() >= 2 && !white_space(text[text.len() - 2]) {
            before.update(before.len() - 1, before.last().push(text.last()))
        } else {
            before.push(seq![text.last()])
        }
    }
}

/// `items` cut into groups of `size`; the last group holds what is left and
/// may be shorter.
pub open spec fn chunks<A>(items: Seq<A>, size: int) -> Seq<Seq<A>> {
    Seq::new(
        ((items.len() + size - 1) / size) as nat,
        |k: int|
            items.subrange(
                k * size,
                if (k + 1) * size <= items.len() {
                    (k + 1) * size
                } else {
                    items.len() as int
                },
            ),
    )
}

/// The parts, one after the other.
pub open spec fn concat<A>(parts: Seq<Seq<A>>) -> Seq<A>
    decreases parts.len(),
{
    if parts.len() == 0 {
        Seq::empty()
    } else {
        concat(parts.drop_last()) + parts.last()
    }
}

/// The wall codes of a list of words: each word cut into codes of two
/// characters.
pub open spec fn codes_of_words(words: Seq<Seq<char>>) -> Seq<Seq<char>>
    decreases words.len(),
{
    if words.len() == 0 {
        Seq::empty()
    } else {
        codes_of_words(words.drop_last()) + chunks(words.last(), 2)
    }
}

/// The wall codes of a wall token.
pub open spec fn wall_codes(token: Seq<char>) -> Seq<Seq<char>> {
    codes_of_words(words(token))
}

/// The wall codes of the three wall tokens that start at index `first`, far
/// token first as they stand in the line, read near token first.
pub open spec fn wall_stream(tokens: Seq<Seq<char>>, first: int) -> Seq<Seq<char>> {
    wall_codes(tokens[first + 2]) + wall_codes(tokens[first + 1]) + wall_codes(tokens[first])
}

/// Wall codes laid out in rows of `width` codes, the codes of a row joined by
/// single spaces.
pub open spec fn wall_rows(codes: Seq<Seq<char>>, width: int) -> Seq<Seq<char>> {
    chunks(codes, width).map_values(|row: Seq<Seq<char>>| joined(row, ' '))
}

/// The characters of the cell tokens of a line: those of every token from the
/// seventh on.
pub open spec fn cell_text(tokens: Seq<Seq<char>>) -> Seq<char> {
    concat(tokens.skip(6))
}

/// Whether a decoded line has the structure of a radar payload: at least nine
/// tokens, and at least nine characters in its cell tokens.
pub open spec fn well_formed(line: Seq<char>) -> bool {
    let tokens = split(line, ' ');
    tokens.len() >= 9 && cell_text(tokens).len() >= 9
}

/// The rows of horizontal-wall codes of a decoded line: the codes of its
/// first three tokens, three to a row.
pub open spec fn horizontal_rows(line: Seq<char>) -> Seq<Seq<char>> {
    wall_rows(wall_stream(split(line, ' '), 0), 3)
}

/// The rows of vertical-wall codes of a decoded line: the codes of its fourth
/// to sixth token, four to a row.
pub open spec fn vertical_rows(line: Seq<char>) -> Seq<Seq<char>> {
    wall_rows(wall_stream(split(line, ' '), 3), 4)
}

/// The three rows of cell codes of a decoded line: the first nine characters
/// of its cell tokens, three to a row.
pub open spec fn cell_rows(line: Seq<char>) -> Seq<Seq<char>> {
    let text = cell_text(split(line, ' '));
    seq![text.subrange(0, 3), text.subrange(3, 6), text.subrange(6, 9)]
}

/// What each string of a list holds.
pub open spec fn lines(rows: Seq<String>) -> Seq<Seq<char>> {
    rows.map_values(|row: String| row@)
}

/// What each buffer of a list holds.
pub open spec fn texts(parts: Seq<Vec<char>>) -> Seq<Seq<char>> {
    parts.map_values(|part: Vec<char>| part@)
}

fn split_line(line: &Vec<char>, separator: char) -> (pieces: Vec<Vec<char>>)
    ensures
        texts(pieces@) == split(line@, separator),
{
    let mut done: Vec<Vec<char>> = Vec::new();
    let mut piece: Vec<char> = Vec::new();
    let mut i: usize = 0;
    while i < line.len()
        invariant
            i <= line.len(),
            texts(done@).push(piece@) == split(line@.take(i as int), separator),
        decreases line.len() - i,
    {
        let c = line[i];
        proof {
            assert(line@.take(i + 1).drop_last() =~= line@.take(i as int));
        }
        let ghost before = texts(done@).push(piece@);
        if c == separator {
            done.push(piece);
            piece = Vec::new();
            assert(texts(done@) =~= before);
            assert(texts(done@).push(piece@) =~= before.push(Seq::empty()));
        } else {
            piece.push(c);
            assert(texts(done@).push(piece@) =~= before.update(
                before.len() - 1,
                before.last().push(c),
            ));
        }
        i = i + 1;
    }
    assert(line@.take(i as int) =~= line@);
    let ghost before = texts(done@).push(piece@);
    done.push(piece);
    assert(texts(done@) =~= before);
    done
}

/// The words of `text`: its longest runs of characters that are not white
/// space.
pub fn words_of(text: &Vec<char>) -> (found: Vec<Vec<char>>)
    ensures
        texts(found@) == words(text@),
{
    let mut done: Vec<Vec<char>> = Vec::new();
    let mut word: Vec<char> = Vec::new();
    let mut i: usize = 0;
    while i < text.len()
        invariant
            i <= text.len(),
            word@.len() > 0 <==> (i > 0 && !white_space(text@[i - 1])),
            words(text@.take(i as int)) == if word@.len() > 0 {
                texts(done@).push(word@)
            } else {
                texts(done@)
            },
        decreases text.len() - i,
    {
        let c = text[i];
        proof {
            assert(text@.take(i + 1).drop_last() =~= text@.take(i as int));
        }
        let ghost before = texts(done@);
        let ghost open_word = word@;
        if is_white_space(c) {
            if word.len() > 0 {
                done.push(word);
                word = Vec::new();
                assert(texts(done@) =~= before.push(open_word));
            }
        } else {
            word.push(c);
            proof {
                if open_word.len() > 0 {
                    assert(before.push(word@) =~= before.push(open_word).update(
                        before.len() as int,
                        open_word.push(c),
                    ));
                } else {
                    assert(word@ =~= seq![c]);
                }
            }
        }
        i = i + 1;
    }
    assert(text@.take(i as int) =~= text@);
    if word.len() > 0 {
        let ghost before = texts(done@).push(word@);
        done.push(word);
        assert(texts(done@) =~= before);
    }
    done
}

fn pairs_of(word: &Vec<char>) -> (codes: Vec<Vec<char>>)
    ensures
        texts(codes@) == chunks(word@, 2),
{
    let mut codes: Vec<Vec<char>> = Vec::new();
    let mut at: usize = 0;
    while at < word.len()
        invariant
            at <= word.len(),
            at % 2 == 0,
            texts(codes@) == chunks(word@, 2).take(at as int / 2),
        decreases word.len() - at,
    {
        let mut code: Vec<char> = Vec::new();
        code.push(word[at]);
        let ghost before = texts(codes@);
        if at + 1 < word.len() {
            code.push(word[at + 1]);
            assert(code@ =~= word@.subrange(at as int, at + 2));
            codes.push(code);
            assert(texts(codes@) =~= before.push(code@));
            assert(texts(codes@) =~= chunks(word@, 2).take(at as int / 2 + 1));
            at = at + 2;
        } else {
            assert(code@ =~= word@.subrange(at as int, word@.len() as int));
            codes.push(code);
            assert(texts(codes@) =~= before.push(code@));
            assert(texts(codes@) =~= chunks(word@, 2));
            return codes;
        }
    }
    assert(texts(codes@) =~= chunks(word@, 2));
    codes
}

fn wall_codes_of(token: &Vec<char>) -> (codes: Vec<Vec<char>>)
    ensures
        texts(codes@) == wall_codes(token@),
{
    let found = words_of(token);
    let mut codes: Vec<Vec<char>> = Vec::new();
    let mut k: usize = 0;
    while k < found.len()
        invariant
            k <= found.len(),
            texts(found@) == words(token@),
            texts(codes@) == codes_of_words(texts(found@).take(k as int)),
        decreases found.len() - k,
    {
        let mut more = pairs_of(&found[k]);
        let ghost before = texts(codes@);
        proof {
            assert(texts(found@).take(k + 1).drop_last() =~= texts(found@).take(k as int));
        }
        codes.append(&mut more);
        assert(texts(codes@) =~= before + chunks(found@[k as int]@, 2));
        k = k + 1;
    }
    assert(texts(found@).take(k as int) =~= texts(found@));
    codes
}


fn append_chars(out: &mut Vec<char>, part: &Vec<char>)
    ensures
        final(out)@ == old(out)@ + part@,
{
    let mut i: usize = 0;
    while i < part.len()
        invariant
            i <= part.len(),
            out@ == old(out)@ + part@.take(i as int),
        decreases part.len() - i,
    {
        out.push(part[i]);
        assert(out@ =~= old(out)@ + part@.take(i + 1));
        i = i + 1;
    }
    assert(part@.take(i as int) =~= part@);
}

fn string_of_range(text: &Vec<char>, from: usize, to: usize) -> (row: String)
    requires
        from <= to <= text.len(),
    ensures
        row@ == text@.subrange(from as int, to as int),
{
    let mut row = String::new();
    let mut i: usize = from;
    while i < to
        invariant
            from <= i <= to,
            to <= text.len(),
            row@ == text@.subrange(from as int, i as int),
        decreases to - i,
    {
        row.push(text[i]);
        assert(row@ =~= text@.subrange(from as int, i + 1));
        i = i + 1;
    }
    row
}

fn join_codes(codes: &Vec<Vec<char>>, from: usize, to: usize) -> (row: String)
    requires
        from <= to <= codes.len(),
    ensures
        row@ == joined(texts(codes@).subrange(from as int, to as int), ' '),
{
    let mut out: Vec<char> = Vec::new();
    let mut j: usize = from;
    while j < to
        invariant
            from <= j <= to,
            to <= codes.len(),
            out@ == joined(texts(codes@).subrange(from as int, j as int), ' '),
        decreases to - j,
    {
        proof {
            let after = texts(codes@).subrange(from as int, j + 1);
            assert(after.drop_last() =~= texts(codes@).subrange(from as int, j as int));
            assert(after.last() == codes@[j as int]@);
        }
        if j > from {
            out.push(' ');
        }
        append_chars(&mut out, &codes[j]);
        assert(out@ =~= joined(texts(codes@).subrange(from as int, j + 1), ' '));
        j = j + 1;
    }
    string_of(&out)
}

proof fn lemma_chunk_bounds(len: int, size: int, k: int)
    requires
        size > 0,
        0 <= k,
        k * size < len,
    ensures
        (k + 1) * size == k * size + size,
        k < (len + size - 1) / size,
        len <= (k + 1) * size ==> (len + size - 1) / size == k + 1,
{
    assert((k + 1) * size == k * size + size) by (nonlinear_arith);
    let n = (len + size - 1) / size;
    assert(n * size <= len + size - 1 < n * size + size) by (nonlinear_arith)
        requires
            size > 0,
            n == (len + size - 1) / size,
    ;
    assert(k < n) by (nonlinear_arith)
        requires
            size > 0,
            0 <= k,
            k * size < len,
            len + size - 1 < n * size + size,
    ;
    if len <= (k + 1) * size {
        assert(n <= k + 1) by (nonlinear_arith)
            requires
                size > 0,
                n * size <= len + size - 1,
                len <= (k + 1) * size,
        ;
    }
}

fn rows_of(codes: &Vec<Vec<char>>, width: usize) -> (rows: Vec<String>)
    requires
        width > 0,
    ensures
        lines(rows@) == wall_rows(texts(codes@), width as int),
{
    let mut rows: Vec<String> = Vec::new();
    let mut start: usize = 0;
    let ghost mut k: int = 0;
    let ghost all = wall_rows(texts(codes@), width as int);
    proof {
        let w = width as int;
        assert((w - 1) / w == 0) by (nonlinear_arith)
            requires
                w > 0,
        ;
    }
    while start < codes.len()
        invariant
            width > 0,
            0 <= k,
            start <= codes.len(),
            start < codes.len() ==> start == k * width,
            start == codes.len() ==> k == all.len(),
            k <= all.len(),
            all == wall_rows(texts(codes@), width as int),
            lines(rows@) == all.take(k),
        decreases codes.len() - start,
    {
        proof {
            lemma_chunk_bounds(codes.len() as int, width as int, k);
        }
        let end: usize = if width <= codes.len() - start {
            start + width
        } else {
            codes.len()
        };
        let row = join_codes(codes, start, end);
        let ghost before = lines(rows@);
        rows.push(row);
        proof {
            assert(lines(rows@) =~= before.push(row@));
            assert(all[k] == joined(chunks(texts(codes@), width as int)[k], ' '));
            assert(lines(rows@) =~= all.take(k + 1));
            if end < codes.len() {
                assert(end == (k + 1) * width);
            }
            k = k + 1;
        }
        start = end;
    }
    assert(all.take(k) =~= all);
    rows
}

/// Splits a decoded line into its three grids: the rows of horizontal-wall
/// codes, the rows of vertical-wall codes, and the rows of cell codes.
///
/// The line is cut at single spaces. Its first three tokens are the
/// horizontal-wall bytes and its next three the vertical-wall bytes; each
/// triple is read last token first and cut into codes of two characters,
/// which are laid out three to a row for the horizontal walls and four to a
/// row for the vertical ones. The characters of the remaining tokens are the
/// cell codes; the first nine of them make three rows of three.
///
/// Fails with `MalformedRadarPayload` if the line has fewer than nine tokens
/// or its cell tokens hold fewer than nine characters.
pub fn process_blocks(decoded: &str) -> (result: Result<
    (Vec<String>, Vec<String>, Vec<String>),
    RadarError,
>)
    ensures
        match result {
            Ok((horizontal, vertical, cells)) => {
                &&& well_formed(decoded@)
                &&& lines(horizontal@) == horizontal_rows(decoded@)
                &&& lines(vertical@) == vertical_rows(decoded@)
                &&& lines(cells@) == cell_rows(decoded@)
            },
            Err(e) => e == RadarError::MalformedRadarPayload && !well_formed(decoded@),
        },
{
    let line = chars_of(decoded);
    let tokens = split_line(&line, ' ');
    if tokens.len() < 9 {
        return Err(RadarError::MalformedRadarPayload);
    }
    let mut text: Vec<char> = Vec::new();
    let mut t: usize = 6;
    while t < tokens.len()
        invariant
            6 <= t <= tokens.len(),
            text@ == concat(texts(tokens@).subrange(6, t as int)),
        decreases tokens.len() - t,
    {
        proof {
            let after = texts(tokens@).subrange(6, t + 1);
            assert(after.drop_last() =~= texts(tokens@).subrange(6, t as int));
            assert(after.last() == tokens@[t as int]@);
        }
        append_chars(&mut text, &tokens[t]);
        t = t + 1;
    }
    assert(texts(tokens@).subrange(6, t as int) =~= texts(tokens@).skip(6));
    if text.len() < 9 {
        return Err(RadarError::MalformedRadarPayload);
    }
    let mut horizontal_codes = wall_codes_of(&tokens[2]);
    let mut middle = wall_codes_of(&tokens[1]);
    let mut near = wall_codes_of(&tokens[0]);
    horizontal_codes.append(&mut middle);
    horizontal_codes.append(&mut near);
    assert(texts(horizontal_codes@) =~= wall_stream(texts(tokens@), 0));
    let mut vertical_codes = wall_codes_of(&tokens[5]);
    let mut middle = wall_codes_of(&tokens[4]);
    let mut near = wall_codes_of(&tokens[3]);
    vertical_codes.append(&mut middle);
    vertical_codes.append(&mut near);
    assert(texts(vertical_codes@) =~= wall_stream(texts(tokens@), 3));
    let horizontal = rows_of(&horizontal_codes, 3);
    let vertical = rows_of(&vertical_codes, 4);
    let mut cells: Vec<String> = Vec::new();
    cells.push(string_of_range(&text, 0, 3));
    cells.push(string_of_range(&text, 3, 6));
    cells.push(string_of_range(&text, 6, 9));
    assert(lines(cells@) =~= cell_rows(decoded@));
    Ok((horizontal, vertical, cells))
}

} // verus!
