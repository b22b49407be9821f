use vstd::prelude::*;

use crate::board::Chessboard;
use crate::check::{check, checkmated_side, is_tie, player_checkmate};
use crate::pieces::{
    add_square, contains_square, is_piece_symbol, lemma_contains_push, opposite_sides, side_of, Piece,
};
use crate::player::Player;
use crate::rules::{
    cell, en_passant_ok, in_check, insufficient_material, is_symbol, lemma_possible_on_board, on_board, opposite_players, player_of,
    possible_move, put, Castling,
};

verus! {

/// The piece a pawn becomes on the far rank.
#[derive(Debug, PartialEq, Eq, Structural, Clone, Copy)]
pub enum Promotion {
    Queen,
    Rook,
    Bishop,
    Knight,
}

impl Promotion {
    /// The piece chosen by the keys held down: queen, rook, knight and
    /// bishop are looked at in that order, and the queen is the default.
    pub fn from_keys(queen: bool, rook: bool, knight: bool, bishop: bool) -> (r: Promotion)
        ensures
            r == if queen {
                Promotion::Queen
            } else if rook {
                Promotion::Rook
            } else if knight {
                Promotion::Knight
            } else if bishop {
                Promotion::Bishop
            } else {
                Promotion::Queen
            },
    {
        if queen {
            Promotion::Queen
        } else if rook {
            Promotion::Rook
        } else if knight {
            Promotion::Knight
        } else if bishop {
            Promotion::Bishop
        } else {
            Promotion::Queen
        }
    }

    /// The symbol of the promoted piece for the given side.
    pub open spec fn symbol(self, white: bool) -> char {
        match self {
            Promotion::Queen => if white { 'Q' } else { 'q' },
            Promotion::Rook => if white { 'R' } else { 'r' },
            Promotion::Bishop => if white { 'B' } else { 'b' },
            Promotion::Knight => if white { 'N' } else { 'n' },
        }
    }

    fn piece_symbol(self, white: bool) -> (r: char)
        ensures
            r == self.symbol(white),
    {
        match self {
            Promotion::Queen => if white { 'Q' } else { 'q' },
            Promotion::Rook => if white { 'R' } else { 'r' },
            Promotion::Bishop => if white { 'B' } else { 'b' },
            Promotion::Knight => if white { 'N' } else { 'n' },
        }
    }
}

/// How a square of the board is shown.
#[derive(Debug, PartialEq, Eq, Structural, Clone, Copy)]
pub enum SquareColor {
    Light,
    Dark,
    LastMoveStart,
    LastMoveEnd,
    Selected,
    PossibleMove,
    PossibleCapture,
    Check,
    Checkmate,
    Tie,
}

/// The grid after the rook's half of a castling move, when `piece` moving to
/// `(tr, tc)` is one.
pub open spec fn castle_rook_shift(g: Seq<Seq<char>>, piece: char, castling: Castling, tr: int, tc: int) -> Seq<Seq<char>> {
    if piece == 'K' && castling.0 && cell(g, 7, 6) == ' ' && cell(g, 7, 5) == ' ' && cell(g, 7, 7)
        == 'R' && tr == 7 && tc == 6 {
        put(put(put(g, 7, 7, ' '), 7, 4, ' '), 7, 5, 'R')
    } else if piece == 'K' && castling.1 && cell(g, 7, 1) == ' ' && cell(g, 7, 2) == ' ' && cell(
        g,
        7,
        3,
    ) == ' ' && cell(g, 7, 0) == 'R' && tr == 7 && tc == 2 {
        put(put(put(g, 7, 0, ' '), 7, 4, ' '), 7, 3, 'R')
    } else if piece == 'k' && castling.2 && cell(g, 0, 6) == ' ' && cell(g, 0, 5) == ' ' && cell(
        g,
        0,
        7,
    ) == 'r' && tr == 0 && tc == 6 {
        put(put(put(g, 0, 7, ' '), 0, 4, ' '), 0, 5, 'r')
    } else if piece == 'k' && castling.3 && cell(g, 0, 1) == ' ' && cell(g, 0, 2) == ' ' && cell(
        g,
        0,
        3,
    ) == ' ' && cell(g, 0, 0) == 'r' && tr == 0 && tc == 2 {
        put(put(put(g, 0, 0, ' '), 0, 4, ' '), 0, 3, 'r')
    } else {
        g
    }
}

/// What lands on `(tr, tc)`: the promoted piece for a pawn reaching the far
/// rank, else the piece itself.
pub open spec fn landing_piece(piece: char, tr: int, promotion: Promotion) -> char {
    if piece == 'P' && tr == 0 {
        promotion.symbol(true)
    } else if piece == 'p' && tr == 7 {
        promotion.symbol(false)
    } else {
        piece
    }
}

/// The grid after `piece` moves from `(fr, fc)` to `(tr, tc)`: the rook of a
/// castling move is shifted, the piece is lifted and put down (promoted if
/// due), and a pawn taken en passant is removed.
pub open spec fn moved_grid(
    g: Seq<Seq<char>>,
    piece: char,
    fr: int,
    fc: int,
    tr: int,
    tc: int,
    en_passant: Option<usize>,
    castling: Castling,
    promotion: Promotion,
) -> Seq<Seq<char>> {
    let g1 = castle_rook_shift(g, piece, castling, tr, tc);
    let g2 = put(put(g1, fr, fc, ' '), tr, tc, landing_piece(piece, tr, promotion));
    if piece == 'P' && fr == 3 && tr == 2 && en_passant == Some(tc as usize) {
        put(g2, 3, tc, ' ')
    } else if piece == 'p' && fr == 4 && tr == 5 && en_passant == Some(tc as usize) {
        put(g2, 4, tc, ' ')
    } else {
        g2
    }
}

/// The en passant file after a move: the file of a pawn that has just
/// advanced two squares, else none.
pub open spec fn next_en_passant(piece: char, fr: int, fc: int, tr: int) -> Option<usize> {
    if piece == 'p' && fr == 1 && tr == 3 {
        Some(fc as usize)
    } else if piece == 'P' && fr == 6 && tr == 4 {
        Some(fc as usize)
    } else {
        None
    }
}

/// The castling rights after a move: a king move clears both rights of its
/// side; a rook leaving its home square, or any piece landing there, clears
/// that rook's right.
pub open spec fn next_castling(castling: Castling, piece: char, fr: int, fc: int, tr: int, tc: int) -> Castling {
    (
        castling.0 && piece != 'K' && !(piece == 'R' && fr == 7 && fc == 7) && !(tr == 7 && tc
            == 7),
        castling.1 && piece != 'K' && !(piece == 'R' && fr == 7 && fc == 0) && !(tr == 7 && tc
            == 0),
        castling.2 && piece != 'k' && !(piece == 'r' && fr == 0 && fc == 7) && !(tr == 0 && tc
            == 7),
        castling.3 && piece != 'k' && !(piece == 'r' && fr == 0 && fc == 0) && !(tr == 0 && tc
            == 0),
    )
}

/// One more full move after Black has moved; the count stops at its
/// largest value.
pub open spec fn next_turn_count(turn: Player, turn_count: usize) -> usize {
    if turn == Player::Black && turn_count < usize::MAX {
        (turn_count + 1) as usize
    } else {
        turn_count
    }
}

/// The game: the board and everything the rules carry from one move to the
/// next, plus the piece picked up by the user.
#[derive(Clone, Copy)]
pub struct MainGame {
    pub board: Chessboard,
    /// The piece picked up, or `' '`.
    pub selected_piece: char,
    pub selected_piece_pos: (usize, usize),
    pub castling: Castling,
    /// The file a pawn has just passed through with a double step.
    pub en_passant: Option<usize>,
    pub turn: Player,
    /// Full moves: starts at 1 and grows after each move of Black.
    pub turn_count: usize,
    pub last_move: Option<((usize, usize), (usize, usize))>,
}

impl MainGame {
    /// The board holds only piece letters and `' '`, and the en passant
    /// file, when set, is a column of the board.
    pub open spec fn wf(self) -> bool {
        self.board.valid() && en_passant_ok(self.en_passant)
    }

    /// Moving `piece` from `from` to `to` leaves the mover's own king
    /// attacked. A pawn reaching the far rank is taken to become a queen;
    /// what it becomes makes no difference here (see
    /// `lemma_legal_move_keeps_king_safe`).
    pub open spec fn leaves_in_check(self, piece: char, from: (int, int), to: (int, int)) -> bool {
        in_check(
            moved_grid(
                self.board@,
                piece,
                from.0,
                from.1,
                to.0,
                to.1,
                self.en_passant,
                self.castling,
                Promotion::Queen,
            ),
            player_of(piece),
            next_en_passant(piece, from.0, from.1, to.0),
        )
    }

    /// A legal move of `piece` from `from` to `to`: pseudo-legal, and it does
    /// not leave the mover's own king attacked.
    pub open spec fn legal_move(self, piece: char, from: (int, int), to: (int, int)) -> bool {
        &&& possible_move(
            piece,
            self.board@,
            from.0,
            from.1,
            self.en_passant,
            self.castling,
            to.0,
            to.1,
        )
        &&& !self.leaves_in_check(piece, from, to)
    }

    /// Some piece of `player` has a legal move.
    pub open spec fn can_move(self, player: Player) -> bool {
        exists|i: int, m: (usize, usize)|
            0 <= i < 64 && player_of(cell(self.board@, i / 8, i % 8)) == player && #[trigger] self.legal_move(
                cell(self.board@, i / 8, i % 8),
                (i / 8, i % 8),
                (m.0 as int, m.1 as int),
            )
    }

    /// `player` is in check and has no legal move.
    pub open spec fn checkmated(self, player: Player) -> bool {
        in_check(self.board@, player, self.en_passant) && !self.can_move(player)
    }

    /// The side to move is not in check and has no legal move.
    pub open spec fn stalemated(self) -> bool {
        &&& self.turn != Player::Nobody
        &&& !in_check(self.board@, self.turn, self.en_passant)
        &&& !self.can_move(self.turn)
    }

    /// Whether some piece of `player` has a legal move.
    pub fn has_legal_move(&self, player: Player) -> (r: bool)
        requires
            self.wf(),
        ensures
            r == self.can_move(player),
    {
        let mut i: usize = 0;
        while i < 64
            invariant
                i <= 64,
                self.wf(),
                forall|j: int, m: (usize, usize)|
                    0 <= j < i && player_of(cell(self.board@, j / 8, j % 8)) == player ==> !#[trigger] self.legal_move(
                        cell(self.board@, j / 8, j % 8),
                        (j / 8, j % 8),
                        (m.0 as int, m.1 as int),
                    ),
            decreases 64 - i,
        {
            let p = self.board.get(i / 8, i % 8);
            if side_of(p) == player {
                let moves = self.get_legal_moves(p, (i / 8, i % 8));
                if moves.len() > 0 {
                    assert(moves@.contains(moves@[0]));
                    assert(self.legal_move(p, ((i / 8) as int, (i % 8) as int), (moves@[0].0 as int, moves@[0].1 as int)));
                    return true;
                }
                assert forall|m: (usize, usize)| !#[trigger] self.legal_move(p, ((i / 8) as int, (i % 8) as int), (m.0 as int, m.1 as int)) by {
                    if self.legal_move(p, ((i / 8) as int, (i % 8) as int), (m.0 as int, m.1 as int)) {
                        assert(moves@.contains(m));
                    }
                }
            }
            i += 1;
        }
        false
    }

    /// How square `(r, c)` is shown; the first rule that applies decides: a
    /// drawn game marks every piece, a mate every piece of the mated side, a
    /// check the king of the side to move; then come the squares the
    /// picked-up piece can go to (captures apart), the picked-up piece, the
    /// last move, and the light and dark squares.
    pub open spec fn color_of(
        self,
        r: int,
        c: int,
        selected_moves: Seq<(usize, usize)>,
        checkmate: Option<Player>,
        tie: bool,
        king_in_check: bool,
    ) -> SquareColor {
        let p = cell(self.board@, r, c);
        let sq = (r as usize, c as usize);
        let (from_here, to_here) = match self.last_move {
            Some((from, to)) => (from == sq, to == sq),
            None => (false, false),
        };
        if tie && player_of(p) != Player::Nobody {
            SquareColor::Tie
        } else if checkmate == Some(player_of(p)) {
            SquareColor::Checkmate
        } else if king_in_check && ((self.turn == Player::White && p == 'K') || (self.turn
            == Player::Black && p == 'k')) {
            SquareColor::Check
        } else if self.selected_piece != ' ' && selected_moves.contains(sq) {
            if opposite_players(self.selected_piece, p) {
                SquareColor::PossibleCapture
            } else {
                SquareColor::PossibleMove
            }
        } else if self.selected_piece != ' ' && self.selected_piece_pos == sq {
            SquareColor::Selected
        } else if from_here {
            SquareColor::LastMoveStart
        } else if to_here {
            SquareColor::LastMoveEnd
        } else if (r + c) % 2 == 1 {
            SquareColor::Dark
        } else {
            SquareColor::Light
        }
    }

    /// How square `(y_sq, x_sq)` is shown (see `color_of`), given the moves
    /// of the picked-up piece, the mated side, whether the game is drawn and
    /// whether the side to move is in check.
    pub fn square_color(
        &self,
        y_sq: usize,
        x_sq: usize,
        selected_moves: &Vec<(usize, usize)>,
        checkmate: Option<Player>,
        tie: bool,
        king_in_check: bool,
    ) -> (r: SquareColor)
        requires
            y_sq < 8,
            x_sq < 8,
        ensures
            r == self.color_of(
                y_sq as int,
                x_sq as int,
                selected_moves@,
                checkmate,
                tie,
                king_in_check,
            ),
    {
        let p = self.board.get(y_sq, x_sq);
        let owner = side_of(p);
        if tie && owner != Player::Nobody {
            return SquareColor::Tie;
        }
        if let Some(mated) = checkmate {
            if mated == owner {
                return SquareColor::Checkmate;
            }
        }
        if king_in_check && ((self.turn == Player::White && p == 'K') || (self.turn == Player::Black
            && p == 'k')) {
            return SquareColor::Check;
        }
        if self.selected_piece != ' ' {
            if contains_square(selected_moves, (y_sq, x_sq)) {
                if opposite_sides(self.selected_piece, p) {
                    return SquareColor::PossibleCapture;
                }
                return SquareColor::PossibleMove;
            }
            if self.selected_piece_pos.0 == y_sq && self.selected_piece_pos.1 == x_sq {
                return SquareColor::Selected;
            }
        }
        if let Some((start, end)) = self.last_move {
            if start.0 == y_sq && start.1 == x_sq {
                return SquareColor::LastMoveStart;
            }
            if end.0 == y_sq && end.1 == x_sq {
                return SquareColor::LastMoveEnd;
            }
        }
        if (y_sq + x_sq) % 2 == 1 {
            SquareColor::Dark
        } else {
            SquareColor::Light
        }
    }

    /// A new game: the starting position, all castling rights, White to move.
    pub fn new() -> (g: MainGame)
        ensures
            g.board@ == Chessboard::initial(),
            g.selected_piece == ' ',
            g.castling == (true, true, true, true),
            g.en_passant == None::<usize>,
            g.turn == Player::White,
            g.turn_count == 1,
            g.last_move == None::<((usize, usize), (usize, usize))>,
            g.wf(),
    {
        MainGame {
            board: Chessboard::new(),
            selected_piece: ' ',
            selected_piece_pos: (9, 9),
            castling: (true, true, true, true),
            en_passant: None,
            turn: Player::White,
            turn_count: 1,
            last_move: None,
        }
    }

    /// Plays `piece` from `from` to `to` without asking whether it may:
    /// castling moves the rook too, a pawn on the far rank is promoted, an
    /// en passant capture removes the pawn taken, and the en passant file,
    /// castling rights, side to move, move count and last move are updated.
    fn apply_move(&mut self, piece: char, from: (usize, usize), to: (usize, usize), promotion: Promotion)
        requires
            old(self).wf(),
            is_symbol(piece),
            from.0 < 8,
            from.1 < 8,
            to.0 < 8,
            to.1 < 8,
        ensures
            final(self).board@ == moved_grid(
                old(self).board@,
                piece,
                from.0 as int,
                from.1 as int,
                to.0 as int,
                to.1 as int,
                old(self).en_passant,
                old(self).castling,
                promotion,
            ),
            final(self).en_passant == next_en_passant(piece, from.0 as int, from.1 as int, to.0 as int),
            final(self).castling == next_castling(
                old(self).castling,
                piece,
                from.0 as int,
                from.1 as int,
                to.0 as int,
                to.1 as int,
            ),
            final(self).turn == if old(self).turn == Player::White {
                Player::Black
            } else {
                Player::White
            },
            final(self).turn_count == next_turn_count(old(self).turn, old(self).turn_count),
            final(self).last_move == Some((from, to)),
            final(self).selected_piece == old(self).selected_piece,
            final(self).selected_piece_pos == old(self).selected_piece_pos,
            final(self).wf(),
    {
        let (y_sq, x_sq) = to;
        // The rook's half of a castling move.
        if piece == 'K' {
            if self.castling.0 && self.board.get(7, 6) == ' ' && self.board.get(7, 5) == ' '
                && self.board.get(7, 7) == 'R' && y_sq == 7 && x_sq == 6 {
                self.board.set(7, 7, ' ');
                self.board.set(7, 4, ' ');
                self.board.set(7, 5, 'R');
            } else if self.castling.1 && self.board.get(7, 1) == ' ' && self.board.get(7, 2) == ' '
                && self.board.get(7, 3) == ' ' && self.board.get(7, 0) == 'R' && y_sq == 7 && x_sq
                == 2 {
                self.board.set(7, 0, ' ');
                self.board.set(7, 4, ' ');
                self.board.set(7, 3, 'R');
            }
        } else if piece == 'k' {
            if self.castling.2 && self.board.get(0, 6) == ' ' && self.board.get(0, 5) == ' '
                && self.board.get(0, 7) == 'r' && y_sq == 0 && x_sq == 6 {
                self.board.set(0, 7, ' ');
                self.board.set(0, 4, ' ');
                self.board.set(0, 5, 'r');
            } else if self.castling.3 && self.board.get(0, 1) == ' ' && self.board.get(0, 2) == ' '
                && self.board.get(0, 3) == ' ' && self.board.get(0, 0) == 'r' && y_sq == 0 && x_sq
                == 2 {
                self.board.set(0, 0, ' ');
                self.board.set(0, 4, ' ');
                self.board.set(0, 3, 'r');
            }
        }
        // The move itself, with promotion on the far rank.

        self.board.set(from.0, from.1, ' ');
        if piece == 'P' && y_sq == 0 {
            self.board.set(y_sq, x_sq, promotion.piece_symbol(true));
        } else if piece == 'p' && y_sq == 7 {
            self.board.set(y_sq, x_sq, promotion.piece_symbol(false));
        } else {
            self.board.set(y_sq, x_sq, piece);
        }
        // An en passant capture takes the pawn behind the destination.
        if piece == 'P' && from.0 == 3 && y_sq == 2 && self.en_passant == Some(x_sq) {
            self.board.set(3, x_sq, ' ');
        } else if piece == 'p' && from.0 == 4 && y_sq == 5 && self.en_passant == Some(x_sq) {
            self.board.set(4, x_sq, ' ');
        }
        // Only a double pawn step opens en passant, for one move.
        self.en_passant = None;
        if piece == 'p' && from.0 == 1 && y_sq == 3 {
            self.en_passant = Some(from.1);
        } else if piece == 'P' && from.0 == 6 && y_sq == 4 {
            self.en_passant = Some(from.1);
        }
        // Castling rights are lost for good.
        if piece == 'K' {
            self.castling.0 = false;
            self.castling.1 = false;
        } else if piece == 'k' {
            self.castling.2 = false;
            self.castling.3 = false;
        }
        if piece == 'R' {
            if from.0 == 7 && from.1 == 0 {
                self.castling.1 = false;
            } else if from.0 == 7 && from.1 == 7 {
                self.castling.0 = false;
            }
        } else if piece == 'r' {
            if from.0 == 0 && from.1 == 0 {
                self.castling.3 = false;
            } else if from.0 == 0 && from.1 == 7 {
                self.castling.2 = false;
            }
        }
        // Taking a rook on its home square.
        if y_sq == 7 && x_sq == 7 {
            self.castling.0 = false;
        } else if y_sq == 7 && x_sq == 0 {
            self.castling.1 = false;
        } else if y_sq == 0 && x_sq == 7 {
            self.castling.2 = false;
        } else if y_sq == 0 && x_sq == 0 {
            self.castling.3 = false;
        }
        if self.turn == Player::Black && self.turn_count < usize::MAX {
            self.turn_count = self.turn_count + 1;
        }
        self.turn = if self.turn == Player::White { Player::Black } else { Player::White };
        self.last_move = Some((from, to));
    }

    /// Plays `piece` from `piece_pos` to `(y_sq, x_sq)` when that square is
    /// among `possible_moves`, is on the board, and `piece` belongs to the
    /// side to move (see `apply_move` for what playing does); otherwise the
    /// game is left as it was. Either way the selection is dropped.
    pub fn make_move(
        &mut self,
        piece: char,
        piece_pos: (usize, usize),
        possible_moves: &Vec<(usize, usize)>,
        y_sq: usize,
        x_sq: usize,
        promotion: Promotion,
    ) -> (moved: bool)
        requires
            old(self).wf(),
        ensures
            moved == (possible_moves@.contains((y_sq, x_sq)) && on_board(y_sq as int, x_sq as int)
                && on_board(piece_pos.0 as int, piece_pos.1 as int) && is_symbol(piece) && player_of(
                piece,
            ) == old(self).turn),
            moved ==> final(self).board@ == moved_grid(
                old(self).board@,
                piece,
                piece_pos.0 as int,
                piece_pos.1 as int,
                y_sq as int,
                x_sq as int,
                old(self).en_passant,
                old(self).castling,
                promotion,
            ),
            moved ==> final(self).en_passant == next_en_passant(
                piece,
                piece_pos.0 as int,
                piece_pos.1 as int,
                y_sq as int,
            ),
            moved ==> final(self).castling == next_castling(
                old(self).castling,
                piece,
                piece_pos.0 as int,
                piece_pos.1 as int,
                y_sq as int,
                x_sq as int,
            ),
            moved ==> final(self).turn == if old(self).turn == Player::White {
                Player::Black
            } else {
                Player::White
            },
            moved ==> final(self).turn_count == next_turn_count(old(self).turn, old(self).turn_count),
            moved ==> final(self).last_move == Some((piece_pos, (y_sq, x_sq))),
            !moved ==> final(self).board == old(self).board && final(self).en_passant == old(
                self,
            ).en_passant && final(self).castling == old(self).castling && final(self).turn == old(
                self,
            ).turn && final(self).turn_count == old(self).turn_count && final(self).last_move
                == old(self).last_move,
            final(self).selected_piece == ' ',
            final(self).selected_piece_pos == old(self).selected_piece_pos,
            final(self).wf(),
    {
        let moved = y_sq < 8 && x_sq < 8 && piece_pos.0 < 8 && piece_pos.1 < 8 && contains_square(
            possible_moves,
            (y_sq, x_sq),
        ) && is_piece_symbol(piece) && side_of(piece) == self.turn;
        if moved {
            self.apply_move(piece, piece_pos, (y_sq, x_sq), promotion);
        }
        self.selected_piece = ' ';
        moved
    }

    /// Whether playing `piece` from `position` to `to` would leave the
    /// mover's own king attacked, found by playing it on a copy.
    fn exposes_king(&self, piece: char, position: (usize, usize), to: (usize, usize)) -> (r: bool)
        requires
            self.wf(),
            is_symbol(piece),
            position.0 < 8,
            position.1 < 8,
            to.0 < 8,
            to.1 < 8,
        ensures
            r == self.leaves_in_check(
                piece,
                (position.0 as int, position.1 as int),
                (to.0 as int, to.1 as int),
            ),
    {
        let mut temp_game = *self;
        temp_game.apply_move(piece, position, to, Promotion::Queen);
        check(temp_game.board, side_of(piece), temp_game.en_passant, temp_game.castling)
    }

    /// The squares of `moves` that are on the board and that `piece` can go
    /// to from `position` without leaving its own king attacked, in order.
    fn retain_safe(&self, piece: char, position: (usize, usize), moves: Vec<(usize, usize)>) -> (r:
        Vec<(usize, usize)>)
        requires
            self.wf(),
            is_symbol(piece),
            position.0 < 8,
            position.1 < 8,
        ensures
            forall|m: (usize, usize)| #[trigger]
                r@.contains(m) <==> (moves@.contains(m) && on_board(m.0 as int, m.1 as int)
                    && !self.leaves_in_check(
                    piece,
                    (position.0 as int, position.1 as int),
                    (m.0 as int, m.1 as int),
                )),
    {
        let mut kept: Vec<(usize, usize)> = Vec::new();
        let mut i: usize = 0;
        while i < moves.len()
            invariant
                i <= moves@.len(),
                self.wf(),
                is_symbol(piece),
                position.0 < 8,
                position.1 < 8,
                forall|m: (usize, usize)| #[trigger]
                    kept@.contains(m) <==> (moves@.subrange(0, i as int).contains(m) && on_board(
                        m.0 as int,
                        m.1 as int,
                    ) && !self.leaves_in_check(
                        piece,
                        (position.0 as int, position.1 as int),
                        (m.0 as int, m.1 as int),
                    )),
            decreases moves@.len() - i,
        {
            let m = moves[i];
            if m.0 < 8 && m.1 < 8 && !self.exposes_king(piece, position, m) {
                add_square(&mut kept, m);
            }
            proof {
                assert(moves@.subrange(0, i + 1) =~= moves@.subrange(0, i as int).push(m));
                lemma_contains_push(moves@.subrange(0, i as int), m);
            }
            i += 1;
        }
        assert(moves@.subrange(0, moves@.len() as int) =~= moves@);
        kept
    }

    /// The squares of `possible_moves` that `piece` can go to from
    /// `position` without leaving its own king attacked: each is tried on a
    /// copy of the game. Squares off the board are dropped, and so is
    /// everything when `position` is off the board or `piece` is not a piece
    /// letter.
    pub fn prevent_selfcheck_moves(
        &self,
        piece: char,
        position: (usize, usize),
        possible_moves: Vec<(usize, usize)>,
    ) -> (r: Vec<(usize, usize)>)
        requires
            self.wf(),
        ensures
            forall|m: (usize, usize)| #[trigger]
                r@.contains(m) <==> (possible_moves@.contains(m) && on_board(m.0 as int, m.1 as int)
                    && on_board(position.0 as int, position.1 as int) && is_symbol(piece)
                    && !self.leaves_in_check(
                    piece,
                    (position.0 as int, position.1 as int),
                    (m.0 as int, m.1 as int),
                )),
    {
        if position.0 >= 8 || position.1 >= 8 || !is_piece_symbol(piece) {
            return Vec::new();
        }
        self.retain_safe(piece, position, possible_moves)
    }

    /// When the side of `piece` is in check, keeps only the squares of
    /// `possible_moves` that get its king out of check, tried the same way as
    /// in `prevent_selfcheck_moves`; otherwise returns `possible_moves` as it
    /// is.
    pub fn only_check_preventing_moves(
        &self,
        piece: char,
        position: (usize, usize),
        possible_moves: Vec<(usize, usize)>,
    ) -> (r: Vec<(usize, usize)>)
        requires
            self.wf(),
        ensures
            !in_check(self.board@, player_of(piece), self.en_passant) ==> r@ == possible_moves@,
            in_check(self.board@, player_of(piece), self.en_passant) ==> forall|m: (usize, usize)|
                #[trigger]
                r@.contains(m) <==> (possible_moves@.contains(m) && on_board(m.0 as int, m.1 as int)
                    && on_board(position.0 as int, position.1 as int) && is_symbol(piece)
                    && !self.leaves_in_check(
                    piece,
                    (position.0 as int, position.1 as int),
                    (m.0 as int, m.1 as int),
                )),
    {
        if check(self.board, side_of(piece), self.en_passant, self.castling) {
            self.prevent_selfcheck_moves(piece, position, possible_moves)
        } else {
            possible_moves
        }
    }

    /// The legal moves of `piece` standing on `position`: its pseudo-legal
    /// moves that do not leave its own king attacked. None when `position`
    /// is off the board.
    pub fn get_legal_moves(&self, piece: char, position: (usize, usize)) -> (r: Vec<(usize, usize)>)
        requires
            self.wf(),
        ensures
            forall|m: (usize, usize)| #[trigger]
                r@.contains(m) <==> (on_board(position.0 as int, position.1 as int)
                    && self.legal_move(
                    piece,
                    (position.0 as int, position.1 as int),
                    (m.0 as int, m.1 as int),
                )),
    {
        if position.0 >= 8 || position.1 >= 8 {
            return Vec::new();
        }
        let possible_moves = Piece::get_possible_moves(
            piece,
            position,
            self.board,
            self.en_passant,
            self.castling,
        );
        let possible_moves = self.prevent_selfcheck_moves(piece, position, possible_moves);
        let r = self.only_check_preventing_moves(piece, position, possible_moves);
        proof {
            assert forall|m: (usize, usize)| #[trigger]
                r@.contains(m) <==> (on_board(position.0 as int, position.1 as int)
                    && self.legal_move(
                    piece,
                    (position.0 as int, position.1 as int),
                    (m.0 as int, m.1 as int),
                )) by {
                if self.legal_move(piece, (position.0 as int, position.1 as int), (m.0 as int, m.1 as int)) {
                    lemma_possible_on_board(piece, self.board@, position.0 as int, position.1 as int, self.en_passant, self.castling, m.0 as int, m.1 as int);
                }
            }
        }
        r
    }

    /// Picks up the piece on `(y_sq, x_sq)` when nothing is picked up yet and
    /// it belongs to the side to move; otherwise changes nothing.
    pub fn select_square(&mut self, y_sq: usize, x_sq: usize) -> (selected: bool)
        ensures
            selected == (old(self).selected_piece == ' ' && on_board(y_sq as int, x_sq as int)
                && player_of(cell(old(self).board@, y_sq as int, x_sq as int)) == old(self).turn),
            selected ==> *final(self) == (MainGame {
                selected_piece: cell(old(self).board@, y_sq as int, x_sq as int),
                selected_piece_pos: (y_sq, x_sq),
                ..*old(self)
            }),
            !selected ==> *final(self) == *old(self),
    {
        if self.selected_piece == ' ' && y_sq < 8 && x_sq < 8 {
            let p = self.board.get(y_sq, x_sq);
            if side_of(p) == self.turn {
                self.selected_piece = p;
                self.selected_piece_pos = (y_sq, x_sq);
                return true;
            }
        }
        false
    }

    /// Puts the picked-up piece down on `(y_sq, x_sq)`: the move is played
    /// when it is legal, and the selection is dropped either way. With
    /// nothing picked up, picks up the piece there instead (see
    /// `select_square`). Returns whether a move was played.
    pub fn drop_selected(&mut self, y_sq: usize, x_sq: usize, promotion: Promotion) -> (moved: bool)
        requires
            old(self).wf(),
        ensures
            final(self).wf(),
            old(self).selected_piece == ' ' ==> !moved && *final(self) == if on_board(
                y_sq as int,
                x_sq as int,
            ) && player_of(cell(old(self).board@, y_sq as int, x_sq as int)) == old(self).turn {
                MainGame {
                    selected_piece: cell(old(self).board@, y_sq as int, x_sq as int),
                    selected_piece_pos: (y_sq, x_sq),
                    ..*old(self)
                }
            } else {
                *old(self)
            },
            old(self).selected_piece != ' ' ==> final(self).selected_piece == ' ',
            old(self).selected_piece != ' ' ==> moved == (on_board(y_sq as int, x_sq as int)
                && on_board(
                old(self).selected_piece_pos.0 as int,
                old(self).selected_piece_pos.1 as int,
            ) && player_of(old(self).selected_piece) == old(self).turn && old(self).legal_move(
                old(self).selected_piece,
                (old(self).selected_piece_pos.0 as int, old(self).selected_piece_pos.1 as int),
                (y_sq as int, x_sq as int),
            )),
            moved ==> final(self).board@ == moved_grid(
                old(self).board@,
                old(self).selected_piece,
                old(self).selected_piece_pos.0 as int,
                old(self).selected_piece_pos.1 as int,
                y_sq as int,
                x_sq as int,
                old(self).en_passant,
                old(self).castling,
                promotion,
            ),
            moved ==> final(self).en_passant == next_en_passant(
                old(self).selected_piece,
                old(self).selected_piece_pos.0 as int,
                old(self).selected_piece_pos.1 as int,
                y_sq as int,
            ),
            moved ==> final(self).castling == next_castling(
                old(self).castling,
                old(self).selected_piece,
                old(self).selected_piece_pos.0 as int,
                old(self).selected_piece_pos.1 as int,
                y_sq as int,
                x_sq as int,
            ),
            moved ==> final(self).turn == old(self).turn.opponent(),
            moved ==> final(self).turn_count == next_turn_count(old(self).turn, old(self).turn_count),
            moved ==> final(self).last_move == Some((old(self).selected_piece_pos, (y_sq, x_sq))),
            !moved ==> final(self).board == old(self).board && final(self).en_passant == old(
                self,
            ).en_passant && final(self).castling == old(self).castling && final(self).turn == old(
                self,
            ).turn && final(self).turn_count == old(self).turn_count && final(self).last_move
                == old(self).last_move,
    {
        if self.selected_piece == ' ' {
            self.select_square(y_sq, x_sq);
            return false;
        }
        let piece = self.selected_piece;
        let position = self.selected_piece_pos;
        let legal_moves = self.get_legal_moves(piece, position);
        proof {
            if on_board(y_sq as int, x_sq as int) {
                assert(legal_moves@.contains((y_sq, x_sq)) == (on_board(
                    position.0 as int,
                    position.1 as int,
                ) && self.legal_move(
                    piece,
                    (position.0 as int, position.1 as int),
                    (y_sq as int, x_sq as int),
                )));
            }
        }
        self.make_move(piece, position, &legal_moves, y_sq, x_sq, promotion)
    }

    /// Whether the game is over (a side is mated, or it is drawn). A game
    /// that is over starts afresh when `key_pressed`; otherwise nothing
    /// changes.
    pub fn restart_if_over(&mut self, key_pressed: bool) -> (over: bool)
        requires
            old(self).wf(),
        ensures
            over == (checkmated_side(*old(self)) != None::<Player> || insufficient_material(
                old(self).board@,
            ) || old(self).stalemated()),
            over && key_pressed ==> final(self).board@ == Chessboard::initial(),
            over && key_pressed ==> final(self).selected_piece == ' ',
            over && key_pressed ==> final(self).castling == (true, true, true, true),
            over && key_pressed ==> final(self).en_passant == None::<usize>,
            over && key_pressed ==> final(self).turn == Player::White,
            over && key_pressed ==> final(self).turn_count == 1,
            over && key_pressed ==> final(self).last_move == None::<((usize, usize), (usize, usize))>,
            !(over && key_pressed) ==> *final(self) == *old(self),
            final(self).wf(),
    {
        let over = player_checkmate(self).is_some() || is_tie(self);
        if over && key_pressed {
            *self = MainGame::new();
        }
        over
    }
}

} // verus!
