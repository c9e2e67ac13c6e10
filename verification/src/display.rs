//! The picture of a radar view for human eyes: walls, passages and cell
//! contents drawn with one or two characters each.

use vstd::prelude::*;
use vstd::string::StringExecFns;
use crate::radar::{lines, texts, words, words_of};
use crate::text::chars_of;

verus! {

/// The wall code of an undefined passage.
pub open spec fn undefined_code() -> Seq<char> {
    seq!['0', '0']
}

/// The wall code of an open passage.
pub open spec fn open_code() -> Seq<char> {
    seq!['0', '1']
}

/// The wall code of a wall.
pub open spec fn wall_code() -> Seq<char> {
    seq!['1', '0']
}

/// The two characters drawn for one horizontal-wall code. An undefined
/// passage is drawn with a corner if the code before it in the row is an open
/// passage or a wall. A code that is none of the three is drawn blank, or as
/// undefined in the closing line.
pub open spec fn horizontal_glyphs(code: Seq<char>, previous: Option<Seq<char>>, closing: bool) -> Seq<
    char,
> {
    if code == undefined_code() {
        if previous == Some(open_code()) || previous == Some(wall_code()) {
            seq!['\u{2022}', '#']
        } else {
            seq!['#', '#']
        }
    } else if code == open_code() {
        seq!['\u{2022}', ' ']
    } else if code == wall_code() {
        seq!['\u{2022}', '\u{2501}']
    } else if closing {
        seq!['#', '#']
    } else {
        seq![' ', ' ']
    }
}

/// What is drawn for a row of horizontal-wall codes, before the `#` that ends
/// the line.
pub open spec fn horizontal_glyph_row(codes: Seq<Seq<char>>, closing: bool) -> Seq<char>
    decreases codes.len(),
{
    if codes.len() == 0 {
        Seq::empty()
    } else {
        horizontal_glyph_row(codes.drop_last(), closing) + horizontal_glyphs(
            codes.last(),
            if codes.len() >= 2 {
                Some(codes[codes.len() - 2])
            } else {
                None
            },
            closing,
        )
    }
}

/// The line drawn for a row of horizontal-wall codes.
pub open spec fn horizontal_line(row: Seq<char>, closing: bool) -> Seq<char> {
    horizontal_glyph_row(words(row), closing) + seq!['#', '\n']
}

/// The character drawn for one vertical-wall code: a blank for an open
/// passage, a bar for a wall, `#` for anything else.
pub open spec fn vertical_glyph(code: Seq<char>) -> char {
    if code == open_code() {
        ' '
    } else if code == wall_code() {
        '\u{2503}'
    } else {
        '#'
    }
}

/// The character drawn for the content code of a cell.
pub open spec fn cell_glyph(code: char) -> char {
    if code == '0' {
        ' '
    } else if code == '1' {
        'P'
    } else if code == '2' {
        'O'
    } else if code == '3' {
        'M'
    } else if code == '4' {
        'H'
    } else if code == '8' {
        'G'
    } else if code == 'B' {
        '*'
    } else {
        '#'
    }
}

/// What is drawn for the first `count` cells of a row, each behind the wall
/// to its left.
pub open spec fn cell_glyph_row(codes: Seq<Seq<char>>, cells: Seq<char>, count: nat) -> Seq<char>
    decreases count,
{
    if count == 0 {
        Seq::empty()
    } else {
        cell_glyph_row(codes, cells, (count - 1) as nat).push(vertical_glyph(codes[count - 1])).push(
            cell_glyph(cells[count - 1]),
        )
    }
}

/// The smaller of two lengths.
pub open spec fn shorter(a: nat, b: nat) -> nat {
    if a <= b {
        a
    } else {
        b
    }
}

/// The line drawn for a row of cells between its vertical walls: as many
/// cells as have a wall code to their left, then the last wall of the row.
pub open spec fn cell_line(walls: Seq<char>, cells: Seq<char>) -> Seq<char> {
    let codes = words(walls);
    cell_glyph_row(codes, cells, shorter(codes.len(), cells.len())).push(
        if codes.len() > 0 {
            vertical_glyph(codes.last())
        } else {
            '#'
        },
    ).push('\n')
}

/// The lines drawn for row `i` of the view: its horizontal walls, if the view
/// has that row of them, and its cells, if the view has that row of both
/// vertical walls and cells.
pub open spec fn band(
    horizontal: Seq<Seq<char>>,
    vertical: Seq<Seq<char>>,
    cells: Seq<Seq<char>>,
    i: int,
) -> Seq<char> {
    (if i < horizontal.len() {
        horizontal_line(horizontal[i], false)
    } else {
        Seq::empty()
    }) + (if i < vertical.len() && i < cells.len() {
        cell_line(vertical[i], cells[i])
    } else {
        Seq::empty()
    })
}

/// The picture of a radar view: a heading, the first three rows, and the
/// last row of horizontal walls once more as the closing line.
pub open spec fn picture(
    horizontal: Seq<Seq<char>>,
    vertical: Seq<Seq<char>>,
    cells: Seq<Seq<char>>,
) -> Seq<char> {
    "\nVisualisation de la radar view :\n\n"@ + band(horizontal, vertical, cells, 0) + band(
        horizontal,
        vertical,
        cells,
        1,
    ) + band(horizontal, vertical, cells, 2) + (if horizontal.len() > 0 {
        horizontal_line(horizontal.last(), true)
    } else {
        Seq::empty()
    })
}

fn code_is(code: &Vec<char>, first: char, second: char) -> (same: bool)
    ensures
        same == (code@ == seq![first, second]),
{
    if code.len() == 2 && code[0] == first && code[1] == second {
        assert(code@ =~= seq![first, second]);
        true
    } else {
        assert(seq![first, second].len() == 2);
        assert(seq![first, second][0] == first);
        assert(seq![first, second][1] == second);
        false
    }
}

fn draw_horizontal(out: &mut String, row: &str, closing: bool)
    ensures
        final(out)@ == old(out)@ + horizontal_line(row@, closing),
{
    let codes = words_of(&chars_of(row));
    let mut k: usize = 0;
    while k < codes.len()
        invariant
            k <= codes.len(),
            texts(codes@) == words(row@),
            out@ == old(out)@ + horizontal_glyph_row(texts(codes@).take(k as int), closing),
        decreases codes.len() - k,
    {
        proof {
            let after = texts(codes@).take(k + 1);
            assert(after.drop_last() =~= texts(codes@).take(k as int));
            assert(after.last() == codes@[k as int]@);
            if k >= 1 {
                assert(after[after.len() - 2] == codes@[k - 1]@);
            }
        }
        let ghost before = out@;
        let code = &codes[k];
        if code_is(code, '0', '0') {
            if k > 0 && (code_is(&codes[k - 1], '0', '1') || code_is(&codes[k - 1], '1', '0')) {
                out.push('\u{2022}');
                out.push('#');
            } else {
                out.push('#');
                out.push('#');
            }
        } else if code_is(code, '0', '1') {
            out.push('\u{2022}');
            out.push(' ');
        } else if code_is(code, '1', '0') {
            out.push('\u{2022}');
            out.push('\u{2501}');
        } else if closing {
            out.push('#');
            out.push('#');
        } else {
            out.push(' ');
            out.push(' ');
        }
        assert(out@ =~= before + horizontal_glyphs(
            codes@[k as int]@,
            if k >= 1 {
                Some(codes@[k - 1]@)
            } else {
                None
            },
            closing,
        ));
        assert(out@ =~= old(out)@ + horizontal_glyph_row(texts(codes@).take(k + 1), closing));
        k = k + 1;
    }
    assert(texts(codes@).take(k as int) =~= texts(codes@));
    out.push('#');
    out.push('\n');
    assert(out@ =~= old(out)@ + horizontal_line(row@, closing));
}

fn vertical_char(code: &Vec<char>) -> (glyph: char)
    ensures
        glyph == vertical_glyph(code@),
{
    if code_is(code, '0', '1') {
        ' '
    } else if code_is(code, '1', '0') {
        '\u{2503}'
    } else {
        '#'
    }
}

fn cell_char(code: char) -> (glyph: char)
    ensures
        glyph == cell_glyph(code),
{
    if code == '0' {
        ' '
    } else if code == '1' {
        'P'
    } else if code == '2' {
        'O'
    } else if code == '3' {
        'M'
    } else if code == '4' {
        'H'
    } else if code == '8' {
        'G'
    } else if code == 'B' {
        '*'
    } else {
        '#'
    }
}

fn draw_cells(out: &mut String, walls: &str, cells: &str)
    ensures
        final(out)@ == old(out)@ + cell_line(walls@, cells@),
{
    let codes = words_of(&chars_of(walls));
    let contents = chars_of(cells);
    let count: usize = if codes.len() <= contents.len() {
        codes.len()
    } else {
        contents.len()
    };
    let mut k: usize = 0;
    while k < count
        invariant
            k <= count,
            count <= codes.len(),
            count <= contents.len(),
            out@ == old(out)@ + cell_glyph_row(texts(codes@), contents@, k as nat),
        decreases count - k,
    {
        out.push(vertical_char(&codes[k]));
        out.push(cell_char(contents[k]));
        assert(out@ =~= old(out)@ + cell_glyph_row(texts(codes@), contents@, (k + 1) as nat));
        k = k + 1;
    }
    if codes.len() > 0 {
        out.push(vertical_char(&codes[codes.len() - 1]));
    } else {
        out.push('#');
    }
    out.push('\n');
    assert(out@ =~= old(out)@ + cell_line(walls@, cells@));
}

fn draw_band(out: &mut String, horizontal: &[String], vertical: &[String], cells: &[String], i: usize)
    ensures
        final(out)@ == old(out)@ + band(lines(horizontal@), lines(vertical@), lines(cells@), i as int),
{
    if i < horizontal.len() {
        draw_horizontal(out, horizontal[i].as_str(), false);
    }
    let ghost middle = out@;
    if i < vertical.len() && i < cells.len() {
        draw_cells(out, vertical[i].as_str(), cells[i].as_str());
    }
    assert(out@ =~= old(out)@ + band(lines(horizontal@), lines(vertical@), lines(cells@), i as int));
}

/// Draws the picture of a radar view from its rows of horizontal-wall codes,
/// of vertical-wall codes and of cell codes.
pub fn render_radar_view(horizontal: &[String], vertical: &[String], cells: &[String]) -> (drawn:
    String)
    ensures
        drawn@ == picture(lines(horizontal@), lines(vertical@), lines(cells@)),
{
    let mut out = String::from_str("\nVisualisation de la radar view :\n\n");
    draw_band(&mut out, horizontal, vertical, cells, 0);
    draw_band(&mut out, horizontal, vertical, cells, 1);
    draw_band(&mut out, horizontal, vertical, cells, 2);
    if horizontal.len() > 0 {
        draw_horizontal(&mut out, horizontal[horizontal.len() - 1].as_str(), true);
    }
    assert(out@ =~= picture(lines(horizontal@), lines(vertical@), lines(cells@)));
    out
}

} // verus!
