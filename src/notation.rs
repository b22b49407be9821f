use vstd::prelude::*;

use crate::check::{checkmated_side, is_tie, player_checkmate};
use crate::game::{MainGame, Promotion};
use crate::pieces::side_of;
use crate::player::Player;
use crate::rules::{cell, in_check, insufficient_material, on_board, player_of};
use crate::text::{char_string, decimal, number_string};

verus! {

/// An invisible space, written where a part of the notation is empty.
pub open spec fn blank() -> Seq<char> {
    "\u{200b}"@
}

/// The letter of file (column) `c`.
pub open spec fn file_letter(c: int) -> char {
    "abcdefgh"@[c]
}

/// The digit of rank `r`, counted from White's side.
pub open spec fn rank_digit(r: int) -> char {
    "87654321"@[r]
}

/// The letter a piece is written with: upper-case for every piece but the
/// pawn, which is written with nothing.
pub open spec fn piece_letter(piece: char) -> Seq<char> {
    if piece == 'p' || piece == 'P' {
        blank()
    } else if piece == 'b' || piece == 'B' {
        "B"@
    } else if piece == 'n' || piece == 'N' {
        "N"@
    } else if piece == 'r' || piece == 'R' {
        "R"@
    } else if piece == 'q' || piece == 'Q' {
        "Q"@
    } else if piece == 'k' || piece == 'K' {
        "K"@
    } else {
        " "@
    }
}

/// `x` for a capture (a pawn adds the file it came from), else nothing.
pub open spec fn capture_mark(before: MainGame, piece: char, from: (usize, usize), to: (usize, usize)) -> Seq<char> {
    if cell(before.board@, to.0 as int, to.1 as int) != ' ' {
        if piece == 'p' || piece == 'P' {
            seq![file_letter(from.1 as int)] + "x"@
        } else {
            "x"@
        }
    } else {
        blank()
    }
}

/// `=` and the new piece for a promotion, else nothing.
pub open spec fn promotion_mark(piece: char, to: (usize, usize), promotion: Promotion) -> Seq<char> {
    if (piece == 'P' && to.0 == 0) || (piece == 'p' && to.0 == 7) {
        "="@ + seq![promotion.symbol(true)]
    } else {
        blank()
    }
}

/// What the move led to: `=` for a draw, `#` for mate, `+` for check, else
/// nothing.
pub open spec fn status_mark(after: MainGame) -> Seq<char> {
    if insufficient_material(after.board@) || after.stalemated() {
        "="@
    } else if checkmated_side(after) != None::<Player> {
        "#"@
    } else if in_check(after.board@, Player::White, after.en_passant) || in_check(
        after.board@,
        Player::Black,
        after.en_passant,
    ) {
        "+"@
    } else {
        blank()
    }
}

/// The move in algebraic notation as a move list prints it: a White move
/// opens a line with the move number, a Black move closes it. `before` is
/// the game before the move and `after` the game after it.
pub open spec fn notation(
    before: MainGame,
    after: MainGame,
    piece: char,
    from: (usize, usize),
    to: (usize, usize),
    promotion: Promotion,
) -> Seq<char> {
    let number = decimal(before.turn_count as nat);
    let status = status_mark(after);
    if piece == 'K' && before.castling.0 && to == (7usize, 6usize) {
        number + ". O-O"@ + status
    } else if piece == 'k' && before.castling.2 && to == (0usize, 6usize) {
        " O-O"@ + status + "\n"@
    } else if piece == 'K' && before.castling.1 && to == (7usize, 2usize) {
        number + ". O-O-O"@ + status
    } else if piece == 'k' && before.castling.3 && to == (0usize, 2usize) {
        " O-O-O"@ + status + "\n"@
    } else {
        let body = piece_letter(piece) + capture_mark(before, piece, from, to) + seq![
            file_letter(to.1 as int),
        ] + seq![rank_digit(to.0 as int)] + promotion_mark(piece, to, promotion) + status;
        if player_of(piece) == Player::White {
            number + ". "@ + body
        } else {
            " "@ + body + "\n"@
        }
    }
}

fn letter_of(piece: char) -> (r: &'static str)
    ensures
        r@ == piece_letter(piece),
{
    match piece {
        'p' | 'P' => "\u{200b}",
        'b' | 'B' => "B",
        'n' | 'N' => "N",
        'r' | 'R' => "R",
        'q' | 'Q' => "Q",
        'k' | 'K' => "K",
        _ => " ",
    }
}

fn file_of(c: usize) -> (r: char)
    requires
        c < 8,
    ensures
        r == file_letter(c as int),
{
    proof {
        reveal_strlit("abcdefgh");
    }
    match c {
        0 => 'a',
        1 => 'b',
        2 => 'c',
        3 => 'd',
        4 => 'e',
        5 => 'f',
        6 => 'g',
        _ => 'h',
    }
}

fn rank_of(r: usize) -> (d: char)
    requires
        r < 8,
    ensures
        d == rank_digit(r as int),
{
    proof {
        reveal_strlit("87654321");
    }
    match r {
        0 => '8',
        1 => '7',
        2 => '6',
        3 => '5',
        4 => '4',
        5 => '3',
        6 => '2',
        _ => '1',
    }
}

fn status_of(after: &MainGame) -> (r: String)
    requires
        after.wf(),
    ensures
        r@ == status_mark(*after),
{
    if is_tie(after) {
        "=".to_owned()
    } else if player_checkmate(after).is_some() {
        "#".to_owned()
    } else if crate::check::check(after.board, Player::White, after.en_passant, after.castling)
        || crate::check::check(after.board, Player::Black, after.en_passant, after.castling) {
        "+".to_owned()
    } else {
        "\u{200b}".to_owned()
    }
}

/// The move of `piece` from `from` to `to` in algebraic notation (see
/// `notation`), from the game before the move and the game after it.
pub fn move_notation(
    before: &MainGame,
    after: &MainGame,
    piece: char,
    from: (usize, usize),
    to: (usize, usize),
    promotion: Promotion,
) -> (r: String)
    requires
        after.wf(),
        on_board(from.0 as int, from.1 as int),
        on_board(to.0 as int, to.1 as int),
    ensures
        r@ == notation(*before, *after, piece, from, to, promotion),
{
    let status = status_of(after);
    if piece == 'K' && before.castling.0 && to.0 == 7 && to.1 == 6 {
        let mut s = number_string(before.turn_count);
        s.append(". O-O");
        s.append(status.as_str());
        return s;
    } else if piece == 'k' && before.castling.2 && to.0 == 0 && to.1 == 6 {
        let mut s = " O-O".to_owned();
        s.append(status.as_str());
        s.append("\n");
        return s;
    } else if piece == 'K' && before.castling.1 && to.0 == 7 && to.1 == 2 {
        let mut s = number_string(before.turn_count);
        s.append(". O-O-O");
        s.append(status.as_str());
        return s;
    } else if piece == 'k' && before.castling.3 && to.0 == 0 && to.1 == 2 {
        let mut s = " O-O-O".to_owned();
        s.append(status.as_str());
        s.append("\n");
        return s;
    }
    let mut body = letter_of(piece).to_owned();
    if before.board.get(to.0, to.1) != ' ' {
        if piece == 'p' || piece == 'P' {
            body.append(char_string(file_of(from.1)).as_str());
        }
        body.append("x");
    } else {
        body.append("\u{200b}");
    }
    body.append(char_string(file_of(to.1)).as_str());
    body.append(char_string(rank_of(to.0)).as_str());
    if (piece == 'P' && to.0 == 0) || (piece == 'p' && to.0 == 7) {
        body.append("=");
        body.append(char_string(letter_of_promotion(promotion)).as_str());
    } else {
        body.append("\u{200b}");
    }
    body.append(status.as_str());
    if side_of(piece) == Player::White {
        let mut s = number_string(before.turn_count);
        s.append(". ");
        s.append(body.as_str());
        s
    } else {
        let mut s = " ".to_owned();
        s.append(body.as_str());
        s.append("\n");
        s
    }
}

fn letter_of_promotion(promotion: Promotion) -> (r: char)
    ensures
        r == promotion.symbol(true),
{
    match promotion {
        Promotion::Queen => 'Q',
        Promotion::Rook => 'R',
        Promotion::Bishop => 'B',
        Promotion::Knight => 'N',
    }
}

} // verus!
