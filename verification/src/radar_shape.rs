//! What the decoded line of a radar string looks like: its tokens are the
//! tokens of the decoded bytes and tell them apart, it has the structure of a
//! radar payload exactly when it holds eleven bytes or more, and its grids
//! then have four rows of three horizontal-wall codes, three rows of four
//! vertical-wall codes and three rows of three cell codes.

use vstd::prelude::*;
use crate::radar::{
    binary_digits, bit, cell_rows, cell_text, chunks, codes_of_words, concat, decoded_bytes,
    decoded_line, digit, hex_digit, hex_digits, horizontal_rows, joined, split, token, tokens_of,
    valid_symbols, vertical_rows, wall_codes, wall_stream, well_formed, white_space, words,
};

verus! {

/// Whether `c` is a character that a token of the decoded line can hold: a
/// decimal digit or one of the letters `A` to `F`.
pub open spec fn token_char(c: char) -> bool {
    ('0' <= c <= '9') || ('A' <= c <= 'F')
}

/// Whether every character of `text` is a character of a token.
pub open spec fn token_text(text: Seq<char>) -> bool {
    forall|i: int| 0 <= i < text.len() ==> token_char(#[trigger] text[i])
}

/// A token of the decoded line is made of digits and the letters `A` to `F`:
/// eight characters for a wall byte, two for a cell byte.
pub proof fn lemma_token_text(k: int, byte: u8)
    ensures
        token_text(token(k, byte)),
        token(k, byte).len() == if k < 6 {
            8nat
        } else {
            2nat
        },
{
    assert(token_text(binary_digits(byte)));
    assert(token_text(hex_digits(byte)));
}

/// A byte is the sum of what its binary digits are worth.
proof fn lemma_byte_of_digits(a: u8)
    ensures
        a == 128 * digit(bit(a, 7)) + 64 * digit(bit(a, 6)) + 32 * digit(bit(a, 5)) + 16 * digit(
            bit(a, 4),
        ) + 8 * digit(bit(a, 3)) + 4 * digit(bit(a, 2)) + 2 * digit(bit(a, 1)) + digit(bit(a, 0)),
{
    assert(a == 128 * (a / 128 % 2) + 64 * (a / 64 % 2) + 32 * (a / 32 % 2) + 16 * (a / 16 % 2) + 8
        * (a / 8 % 2) + 4 * (a / 4 % 2) + 2 * (a / 2 % 2) + a % 2) by (bit_vector);
    assert(digit(bit(a, 7)) == a / 128 % 2);
    assert(digit(bit(a, 6)) == a / 64 % 2);
    assert(digit(bit(a, 5)) == a / 32 % 2);
    assert(digit(bit(a, 4)) == a / 16 % 2);
    assert(digit(bit(a, 3)) == a / 8 % 2);
    assert(digit(bit(a, 2)) == a / 4 % 2);
    assert(digit(bit(a, 1)) == a / 2 % 2);
    assert(digit(bit(a, 0)) == a % 2);
}

/// Two values below sixteen with the same hexadecimal digit are the same.
proof fn lemma_hex_digit_tells_value(m: int, n: int)
    requires
        0 <= m < 16,
        0 <= n < 16,
        hex_digit(m) == hex_digit(n),
    ensures
        m == n,
{
}

/// A token tells its byte: two bytes with the same token at the same place of
/// the line are the same byte.
pub proof fn lemma_token_tells_byte(k: int, a: u8, b: u8)
    requires
        token(k, a) == token(k, b),
    ensures
        a == b,
{
    if k < 6 {
        let x = binary_digits(a);
        let y = binary_digits(b);
        assert(bit(a, 7) == bit(b, 7)) by {
            assert(x[0] == y[0]);
        }
        assert(bit(a, 6) == bit(b, 6)) by {
            assert(x[1] == y[1]);
        }
        assert(bit(a, 5) == bit(b, 5)) by {
            assert(x[2] == y[2]);
        }
        assert(bit(a, 4) == bit(b, 4)) by {
            assert(x[3] == y[3]);
        }
        assert(bit(a, 3) == bit(b, 3)) by {
            assert(x[4] == y[4]);
        }
        assert(bit(a, 2) == bit(b, 2)) by {
            assert(x[5] == y[5]);
        }
        assert(bit(a, 1) == bit(b, 1)) by {
            assert(x[6] == y[6]);
        }
        assert(bit(a, 0) == bit(b, 0)) by {
            assert(x[7] == y[7]);
        }
        lemma_byte_of_digits(a);
        lemma_byte_of_digits(b);
    } else {
        let x = hex_digits(a);
        let y = hex_digits(b);
        assert(x[0] == y[0]);
        assert(x[1] == y[1]);
        lemma_hex_digit_tells_value(a as int / 16, b as int / 16);
        lemma_hex_digit_tells_value(a as int % 16, b as int % 16);
    }
}

/// Appending text without a separator to a line extends the last piece of
/// the line.
pub proof fn lemma_split_append(line: Seq<char>, more: Seq<char>, separator: char)
    requires
        forall|i: int| 0 <= i < more.len() ==> #[trigger] more[i] != separator,
    ensures
        split(line, separator).len() > 0,
        split(line + more, separator) == split(line, separator).update(
            split(line, separator).len() - 1,
            split(line, separator).last() + more,
        ),
    decreases more.len(),
{
    lemma_split_not_empty(line, separator);
    let pieces = split(line, separator);
    if more.len() == 0 {
        assert(line + more =~= line);
        assert(pieces.last() + more =~= pieces.last());
        assert(pieces.update(pieces.len() - 1, pieces.last()) =~= pieces);
    } else {
        let shorter = more.drop_last();
        lemma_split_append(line, shorter, separator);
        assert((line + more).drop_last() =~= line + shorter);
        assert((line + more).last() == more.last());
        let before = split(line + shorter, separator);
        assert(before.last() == pieces.last() + shorter);
        assert((pieces.last() + shorter).push(more.last()) =~= pieces.last() + more);
        assert(before.update(before.len() - 1, before.last().push(more.last())) =~= pieces.update(
            pieces.len() - 1,
            pieces.last() + more,
        ));
    }
}

/// A line has at least one piece.
pub proof fn lemma_split_not_empty(line: Seq<char>, separator: char)
    ensures
        split(line, separator).len() > 0,
    decreases line.len(),
{
    if line.len() > 0 {
        lemma_split_not_empty(line.drop_last(), separator);
    }
}

/// Cutting a joined line at its separator gives the parts back, as long as
/// there is a part and no part holds the separator.
pub proof fn lemma_split_joined(parts: Seq<Seq<char>>, separator: char)
    requires
        parts.len() > 0,
        forall|k: int, i: int|
            0 <= k < parts.len() && 0 <= i < parts[k].len() ==> #[trigger] parts[k][i] != separator,
    ensures
        split(joined(parts, separator), separator) == parts,
    decreases parts.len(),
{
    let last = parts.last();
    assert forall|i: int| 0 <= i < last.len() implies #[trigger] last[i] != separator by {
        assert(parts[parts.len() - 1][i] != separator);
    }
    if parts.len() == 1 {
        let nothing = Seq::<char>::empty();
        lemma_split_append(nothing, last, separator);
        assert(nothing + last =~= last);
        assert(split(nothing, separator) =~= seq![nothing]);
        assert(split(last, separator) =~= parts);
    } else {
        let rest = parts.drop_last();
        assert forall|k: int, i: int|
            0 <= k < rest.len() && 0 <= i < rest[k].len() implies #[trigger] rest[k][i]
            != separator by {
            assert(parts[k][i] != separator);
        }
        lemma_split_joined(rest, separator);
        let head = joined(rest, separator).push(separator);
        assert(head.drop_last() =~= joined(rest, separator));
        assert(split(head, separator) == rest.push(Seq::empty()));
        lemma_split_append(head, last, separator);
        assert(Seq::<char>::empty() + last =~= last);
        assert(split(head + last, separator) =~= parts);
    }
}

/// The tokens of the decoded line of at least one byte are the tokens of the
/// bytes.
pub proof fn lemma_line_tokens(bytes: Seq<u8>)
    requires
        bytes.len() > 0,
    ensures
        split(decoded_line(bytes), ' ') == tokens_of(bytes),
{
    let parts = tokens_of(bytes);
    assert forall|k: int, i: int|
        0 <= k < parts.len() && 0 <= i < parts[k].len() implies #[trigger] parts[k][i] != ' ' by {
        lemma_token_text(k, bytes[k]);
        assert(token_char(parts[k][i]));
    }
    lemma_split_joined(parts, ' ');
}

/// The decoded line tells its bytes: two sequences of bytes with the same
/// decoded line are the same sequence. So nothing is lost between the bytes
/// and the line, whichever of the two writings a byte is given in.
pub proof fn lemma_line_tells_bytes(a: Seq<u8>, b: Seq<u8>)
    requires
        decoded_line(a) == decoded_line(b),
    ensures
        a == b,
{
    let nothing = Seq::<char>::empty();
    if a.len() == 0 || b.len() == 0 {
        let some = if a.len() == 0 {
            b
        } else {
            a
        };
        let none = if a.len() == 0 {
            a
        } else {
            b
        };
        assert(tokens_of(none) =~= Seq::<Seq<char>>::empty());
        assert(decoded_line(none) =~= nothing);
        if some.len() > 0 {
            lemma_line_tokens(some);
            assert(split(nothing, ' ') =~= seq![nothing]);
            lemma_token_text(0, some[0]);
            assert(tokens_of(some)[0] == token(0, some[0]));
        }
        assert(a =~= b);
    } else {
        lemma_line_tokens(a);
        lemma_line_tokens(b);
        assert(tokens_of(a).len() == tokens_of(b).len());
        assert forall|k: int| 0 <= k < a.len() implies a[k] == b[k] by {
            assert(tokens_of(a)[k] == tokens_of(b)[k]);
            lemma_token_tells_byte(k, a[k], b[k]);
        }
        assert(a =~= b);
    }
}

/// The parts of a text, one after the other, have the lengths of the parts
/// together; here: parts of two characters each.
pub proof fn lemma_concat_of_pairs(parts: Seq<Seq<char>>)
    requires
        forall|k: int| 0 <= k < parts.len() ==> (#[trigger] parts[k]).len() == 2,
    ensures
        concat(parts).len() == 2 * parts.len(),
    decreases parts.len(),
{
    if parts.len() > 0 {
        let rest = parts.drop_last();
        assert forall|k: int| 0 <= k < rest.len() implies (#[trigger] rest[k]).len() == 2 by {
            assert(rest[k] == parts[k]);
        }
        lemma_concat_of_pairs(rest);
    }
}

/// The decoded line of a sequence of bytes has the structure of a radar
/// payload exactly when there are eleven bytes or more: six wall bytes and
/// five cell bytes, whose ten characters hold the nine cell codes.
pub proof fn lemma_well_formed_line(bytes: Seq<u8>)
    ensures
        well_formed(decoded_line(bytes)) <==> bytes.len() >= 11,
{
    if bytes.len() == 0 {
        assert(tokens_of(bytes) =~= Seq::<Seq<char>>::empty());
        assert(decoded_line(bytes) =~= Seq::<char>::empty());
        assert(split(Seq::<char>::empty(), ' ') =~= seq![Seq::<char>::empty()]);
    } else {
        lemma_line_tokens(bytes);
        let parts = tokens_of(bytes);
        if parts.len() >= 9 {
            let cells = parts.skip(6);
            assert forall|k: int| 0 <= k < cells.len() implies (#[trigger] cells[k]).len() == 2 by {
                lemma_token_text(k + 6, bytes[k + 6]);
                assert(cells[k] == token(k + 6, bytes[k + 6]));
            }
            lemma_concat_of_pairs(cells);
            assert(cell_text(parts).len() == 2 * (bytes.len() - 6));
        }
    }
}

/// A radar string over the alphabet decodes to a line with the structure of
/// a radar payload exactly when it has fifteen symbols or more.
pub proof fn lemma_well_formed_radar(encoded: Seq<char>)
    requires
        valid_symbols(encoded),
    ensures
        well_formed(decoded_line(decoded_bytes(encoded))) <==> encoded.len() >= 15,
{
    lemma_well_formed_line(decoded_bytes(encoded));
    assert(decoded_bytes(encoded).len() == (6 * encoded.len()) / 8);
}

/// A text without white space is one word, unless it is empty.
pub proof fn lemma_one_word(text: Seq<char>)
    requires
        text.len() > 0,
        forall|i: int| 0 <= i < text.len() ==> !white_space(#[trigger] text[i]),
    ensures
        words(text) == seq![text],
    decreases text.len(),
{
    let c = text.last();
    assert(!white_space(text[text.len() - 1]));
    if text.len() == 1 {
        assert(words(text.drop_last()) =~= Seq::<Seq<char>>::empty());
        assert(seq![c] =~= text);
        assert(words(text) =~= seq![text]);
    } else {
        let rest = text.drop_last();
        assert forall|i: int| 0 <= i < rest.len() implies !white_space(#[trigger] rest[i]) by {
            assert(rest[i] == text[i]);
        }
        lemma_one_word(rest);
        assert(!white_space(text[text.len() - 2]));
        assert(rest.push(c) =~= text);
        assert(words(text) =~= seq![text]);
    }
}

/// The wall codes of a wall byte are the four pairs of its binary digits,
/// highest pair first.
pub proof fn lemma_wall_codes_of_byte(byte: u8)
    ensures
        wall_codes(binary_digits(byte)) == chunks(binary_digits(byte), 2),
        chunks(binary_digits(byte), 2).len() == 4,
        forall|j: int|
            0 <= j < 4 ==> (#[trigger] chunks(binary_digits(byte), 2)[j]) == seq![
                binary_digits(byte)[2 * j],
                binary_digits(byte)[2 * j + 1],
            ],
{
    let digits = binary_digits(byte);
    assert forall|i: int| 0 <= i < digits.len() implies !white_space(#[trigger] digits[i]) by {}
    lemma_one_word(digits);
    assert(seq![digits].drop_last() =~= Seq::<Seq<char>>::empty());
    assert(codes_of_words(Seq::<Seq<char>>::empty()) =~= Seq::<Seq<char>>::empty());
    assert(codes_of_words(seq![digits]) =~= chunks(digits, 2));
    assert forall|j: int| 0 <= j < 4 implies (#[trigger] chunks(digits, 2)[j]) == seq![
        digits[2 * j],
        digits[2 * j + 1],
    ] by {
        assert(chunks(digits, 2)[j] =~= seq![digits[2 * j], digits[2 * j + 1]]);
    }
}

/// The pair of binary digits that is wall code `j` of a wall byte, the
/// highest pair being code 0.
pub open spec fn wall_code_of(byte: u8, j: int) -> Seq<char> {
    seq![binary_digits(byte)[2 * j], binary_digits(byte)[2 * j + 1]]
}

/// The wall codes of the decoded line of six bytes or more, for the three
/// wall bytes that start at `first`: twelve codes, four for each byte, the
/// codes of the last of the three bytes first.
pub proof fn lemma_wall_stream_of_line(bytes: Seq<u8>, first: int)
    requires
        bytes.len() >= 6,
        first == 0 || first == 3,
    ensures
        wall_stream(split(decoded_line(bytes), ' '), first).len() == 12,
        forall|j: int|
            0 <= j < 12 ==> (#[trigger] wall_stream(split(decoded_line(bytes), ' '), first)[j])
                == wall_code_of(bytes[first + 2 - j / 4], j % 4),
{
    lemma_line_tokens(bytes);
    let parts = tokens_of(bytes);
    let stream = wall_stream(parts, first);
    lemma_wall_codes_of_byte(bytes[first]);
    lemma_wall_codes_of_byte(bytes[first + 1]);
    lemma_wall_codes_of_byte(bytes[first + 2]);
    assert(parts[first] == binary_digits(bytes[first]));
    assert(parts[first + 1] == binary_digits(bytes[first + 1]));
    assert(parts[first + 2] == binary_digits(bytes[first + 2]));
    assert forall|j: int| 0 <= j < 12 implies (#[trigger] stream[j]) == wall_code_of(
        bytes[first + 2 - j / 4],
        j % 4,
    ) by {
        let near = chunks(binary_digits(bytes[first + 2]), 2);
        let middle = chunks(binary_digits(bytes[first + 1]), 2);
        let far = chunks(binary_digits(bytes[first]), 2);
        if j < 4 {
            assert(stream[j] == near[j]);
        } else if j < 8 {
            assert(stream[j] == middle[j - 4]);
        } else {
            assert(stream[j] == far[j - 8]);
        }
    }
}

/// The decoded line of six bytes or more gives four rows of three
/// horizontal-wall codes and three rows of four vertical-wall codes.
pub proof fn lemma_wall_rows_of_line(bytes: Seq<u8>)
    requires
        bytes.len() >= 6,
    ensures
        horizontal_rows(decoded_line(bytes)).len() == 4,
        vertical_rows(decoded_line(bytes)).len() == 3,
        forall|r: int|
            0 <= r < 4 ==> (#[trigger] horizontal_rows(decoded_line(bytes))[r]) == joined(
                wall_stream(split(decoded_line(bytes), ' '), 0).subrange(3 * r, 3 * r + 3),
                ' ',
            ),
        forall|r: int|
            0 <= r < 3 ==> (#[trigger] vertical_rows(decoded_line(bytes))[r]) == joined(
                wall_stream(split(decoded_line(bytes), ' '), 3).subrange(4 * r, 4 * r + 4),
                ' ',
            ),
{
    lemma_wall_stream_of_line(bytes, 0);
    lemma_wall_stream_of_line(bytes, 3);
}

/// The cell rows of the decoded line of eleven bytes or more are the first
/// nine hexadecimal digits of its cell bytes, three to a row.
pub proof fn lemma_cell_rows_of_line(bytes: Seq<u8>)
    requires
        bytes.len() >= 11,
    ensures
        cell_rows(decoded_line(bytes)).len() == 3,
        forall|r: int, c: int|
            0 <= r < 3 && 0 <= c < 3 ==> (#[trigger] cell_rows(decoded_line(bytes))[r][c])
                == hex_digits(bytes[6 + (3 * r + c) / 2])[(3 * r + c) % 2],
        forall|r: int| 0 <= r < 3 ==> (#[trigger] cell_rows(decoded_line(bytes))[r]).len() == 3,
{
    lemma_line_tokens(bytes);
    let parts = tokens_of(bytes);
    let cells = parts.skip(6);
    let five = cells.take(5);
    lemma_concat_prefix(cells, 5);
    let text = concat(cells);
    let head = concat(five);
    assert(five.drop_last().drop_last().drop_last().drop_last().drop_last() =~= Seq::<
        Seq<char>,
    >::empty());
    reveal_with_fuel(concat, 6);
    assert(head =~= five[0] + five[1] + five[2] + five[3] + five[4]);
    assert forall|k: int| 0 <= k < 5 implies (#[trigger] five[k]) == hex_digits(bytes[6 + k]) by {
        assert(five[k] == parts[6 + k]);
    }
    assert forall|i: int| 0 <= i < 10 implies #[trigger] text[i] == hex_digits(bytes[6 + i / 2])[i
        % 2] by {
        assert(text[i] == head[i]);
    }
    let rows = cell_rows(decoded_line(bytes));
    assert forall|r: int, c: int| 0 <= r < 3 && 0 <= c < 3 implies (#[trigger] rows[r][c])
        == hex_digits(bytes[6 + (3 * r + c) / 2])[(3 * r + c) % 2] by {
        assert(rows[r][c] == text[3 * r + c]);
    }
}

/// The first parts of a list, one after the other, are the start of all
/// parts, one after the other.
pub proof fn lemma_concat_prefix<A>(parts: Seq<Seq<A>>, n: int)
    requires
        0 <= n <= parts.len(),
    ensures
        concat(parts.take(n)).len() <= concat(parts).len(),
        forall|i: int| 0 <= i < concat(parts.take(n)).len() ==> #[trigger] concat(parts)[i] == concat(
            parts.take(n),
        )[i],
    decreases parts.len(),
{
    if n == parts.len() {
        assert(parts.take(n) =~= parts);
    } else {
        let rest = parts.drop_last();
        lemma_concat_prefix(rest, n);
        assert(rest.take(n) =~= parts.take(n));
    }
}

} // verus!
