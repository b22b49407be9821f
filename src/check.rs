use vstd::prelude::*;

use crate::board::Chessboard;
use crate::game::MainGame;
use crate::pieces::{contains_square, get_attack_moves, side_of, Piece};
use crate::player::Player;
use crate::rules::{
    attacker_at, en_passant_ok, in_check, insufficient_material, king_and_minor, king_square,
    last_square_of,
    Castling,
};

verus! {

/// Whether the king of `player` is attacked by a piece of the other side.
///
/// The king is the last one of its colour in row-major order, or `(0, 0)`
/// when there is none. Castling moves are left out of the attacks: a
/// castling king always lands on an empty square, so it never takes a king,
/// and the castling rights make no difference here.
pub fn check(board: Chessboard, player: Player, en_passant: Option<usize>, _castling: Castling) -> (r:
    bool)
    requires
        board.valid(),
        en_passant_ok(en_passant),
    ensures
        r == in_check(board@, player, en_passant),
{
    let ghost g = board@;
    let mut white_king_pos: (usize, usize) = (0, 0);
    let mut black_king_pos: (usize, usize) = (0, 0);
    let mut i: usize = 0;
    while i < 64
        invariant
            i <= 64,
            g == board@,
            (white_king_pos.0 as int, white_king_pos.1 as int) == last_square_of(g, 'K', i as int),
            (black_king_pos.0 as int, black_king_pos.1 as int) == last_square_of(g, 'k', i as int),
        decreases 64 - i,
    {
        let p = board.get(i / 8, i % 8);
        if p == 'k' {
            black_king_pos = (i / 8, i % 8);
        } else if p == 'K' {
            white_king_pos = (i / 8, i % 8);
        }
        i += 1;
    }
    if player == Player::Nobody {
        return false;
    }
    let king_pos = if player == Player::White { white_king_pos } else { black_king_pos };
    let opponent = if player == Player::White { Player::Black } else { Player::White };
    assert((king_pos.0 as int, king_pos.1 as int) == king_square(g, player));
    let mut i: usize = 0;
    while i < 64
        invariant
            i <= 64,
            g == board@,
            en_passant_ok(en_passant),
            player != Player::Nobody,
            opponent == player.opponent(),
            (king_pos.0 as int, king_pos.1 as int) == king_square(g, player),
            forall|j: int| 0 <= j < i ==> !#[trigger] attacker_at(g, player, en_passant, j),
        decreases 64 - i,
    {
        let p = board.get(i / 8, i % 8);
        if side_of(p) == opponent {
            let moves = get_attack_moves(p, (i / 8, i % 8), board, en_passant);
            if contains_square(&moves, king_pos) {
                assert(attacker_at(g, player, en_passant, i as int));
                return true;
            }
        }
        i += 1;
    }
    false
}

/// The side that is checkmated: White is looked at first, and Black only
/// when White is not in check.
pub open spec fn checkmated_side(game: MainGame) -> Option<Player> {
    if in_check(game.board@, Player::White, game.en_passant) {
        if game.can_move(Player::White) {
            None
        } else {
            Some(Player::White)
        }
    } else if in_check(game.board@, Player::Black, game.en_passant) {
        if game.can_move(Player::Black) {
            None
        } else {
            Some(Player::Black)
        }
    } else {
        None
    }
}

/// The side that is checkmated, if any (see `checkmated_side`).
pub fn player_checkmate(game: &MainGame) -> (r: Option<Player>)
    requires
        game.wf(),
    ensures
        r == checkmated_side(*game),
{
    if check(game.board, Player::White, game.en_passant, game.castling) {
        if game.has_legal_move(Player::White) {
            None
        } else {
            Some(Player::White)
        }
    } else if check(game.board, Player::Black, game.en_passant, game.castling) {
        if game.has_legal_move(Player::Black) {
            None
        } else {
            Some(Player::Black)
        }
    } else {
        None
    }
}

/// Whether two pieces of one side are its king and one bishop or knight.
fn has_king_and_minor(first: char, second: char, white: bool) -> (r: bool)
    ensures
        r == king_and_minor(first, second, white),
{
    let (king, bishop, knight) = if white { ('K', 'B', 'N') } else { ('k', 'b', 'n') };
    (first == king && (second == bishop || second == knight)) || (second == king && (first == bishop
        || first == knight))
}

/// Whether the game is drawn: by insufficient material, or because the
/// side to move is stalemated.
pub fn is_tie(game: &MainGame) -> (r: bool)
    requires
        game.wf(),
    ensures
        r == (insufficient_material(game.board@) || game.stalemated()),
{
    let black_pieces = Piece::get_all_player_pieces(Player::Black, game.board);
    let white_pieces = Piece::get_all_player_pieces(Player::White, game.board);
    if black_pieces.len() == 1 && white_pieces.len() == 1 {
        return true;
    }
    // A king with only a bishop or a knight cannot mate a bare king.
    if black_pieces.len() == 2 && white_pieces.len() == 1 && white_pieces[0].0 == 'K' {
        if has_king_and_minor(black_pieces[0].0, black_pieces[1].0, false) {
            return true;
        }
    }
    if black_pieces.len() == 1 && white_pieces.len() == 2 && black_pieces[0].0 == 'k' {
        if has_king_and_minor(white_pieces[0].0, white_pieces[1].0, true) {
            return true;
        }
    }
    // Stalemate.
    if game.turn != Player::Nobody && !check(game.board, game.turn, game.en_passant, game.castling) {
        return !game.has_legal_move(game.turn);
    }
    false
}

} // verus!
