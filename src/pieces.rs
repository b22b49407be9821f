use vstd::prelude::*;

use crate::board::Chessboard;
use crate::check::check;
use crate::player::Player;
use crate::rules::{
    attack_move, bishop_move, castle_move, copies, count_of, en_passant_ok, is_symbol, king_step,
    knight_move, missing_pieces, on_board, opposite_players, pawn_move, piece_value, player_of,
    player_pieces, possible_move, ray_index, ray_move, ray_passable, rook_move, same_player, shade,
    shortfall, side, starts_on_own, step, total_value, Castling,
};
use crate::text::char_string;

verus! {

/// An element is in `s.push(x)` exactly when it is in `s` or is `x`.
pub(crate) proof fn lemma_contains_push<T>(s: Seq<T>, x: T)
    ensures
        forall|m: T| #[trigger] s.push(x).contains(m) <==> (s.contains(m) || m == x),
{
    assert forall|m: T| #[trigger] s.push(x).contains(m) implies (s.contains(m) || m == x) by {
        let i = choose|i: int| 0 <= i < s.push(x).len() && s.push(x)[i] == m;
        if i < s.len() {
            assert(s[i] == m);
        }
    }
    assert forall|m: T| (s.contains(m) || m == x) implies #[trigger] s.push(x).contains(m) by {
        if m == x {
            assert(s.push(x)[s.len() as int] == m);
        } else {
            let i = choose|i: int| 0 <= i < s.len() && s[i] == m;
            assert(s.push(x)[i] == m);
        }
    }
}

/// The side that owns a symbol (see `player_of`).
/// Whether `p` is a piece letter or `' '`.
pub(crate) fn is_piece_symbol(p: char) -> (r: bool)
    ensures
        r == is_symbol(p),
{
    match p {
        ' ' | 'p' | 'n' | 'b' | 'r' | 'q' | 'k' | 'P' | 'N' | 'B' | 'R' | 'Q' | 'K' => true,
        _ => false,
    }
}

/// The side that owns a symbol (see `player_of`).
pub(crate) fn side_of(p: char) -> (r: Player)
    ensures
        r == player_of(p),
{
    if p == ' ' {
        Player::Nobody
    } else if 'a' <= p && p <= 'z' {
        Player::Black
    } else {
        Player::White
    }
}

fn same_side(a: char, b: char) -> (r: bool)
    ensures
        r == same_player(a, b),
{
    side_of(a) == side_of(b)
}

pub(crate) fn opposite_sides(a: char, b: char) -> (r: bool)
    ensures
        r == opposite_players(a, b),
{
    a != ' ' && b != ' ' && side_of(a) != side_of(b)
}

/// Appends `s` to `moves`.
pub(crate) fn add_square(moves: &mut Vec<(usize, usize)>, s: (usize, usize))
    ensures
        final(moves)@ == old(moves)@.push(s),
        forall|m: (usize, usize)| #[trigger]
            final(moves)@.contains(m) <==> (old(moves)@.contains(m) || m == s),
        old(moves)@.no_duplicates() && !old(moves)@.contains(s) ==> final(moves)@.no_duplicates(),
{
    proof {
        lemma_contains_push(moves@, s);
    }
    moves.push(s);
    proof {
        if old(moves)@.no_duplicates() && !old(moves)@.contains(s) {
            assert forall|i: int, j: int|
                0 <= i < moves@.len() && 0 <= j < moves@.len() && i != j implies moves@[i]
                != moves@[j] by {
                if i == moves@.len() - 1 {
                    assert(old(moves)@[j] == moves@[j]);
                } else if j == moves@.len() - 1 {
                    assert(old(moves)@[i] == moves@[i]);
                }
            }
        }
    }
}

/// Pseudo-legal pawn moves: single and double steps onto empty squares,
/// diagonal captures, and en passant onto the file `en_passant`.
fn get_pawn_moves(
    piece: char,
    position: (usize, usize),
    board: Chessboard,
    en_passant: Option<usize>,
) -> (possible_moves: Vec<(usize, usize)>)
    requires
        position.0 < 8,
        position.1 < 8,
        en_passant_ok(en_passant),
    ensures
        forall|m: (usize, usize)| #[trigger]
            possible_moves@.contains(m) <==> pawn_move(
                piece,
                shade(board@),
                position.0 as int,
                position.1 as int,
                en_passant,
                m.0 as int,
                m.1 as int,
            ),
{
    let mut possible_moves: Vec<(usize, usize)> = Vec::new();
    let (r, c) = position;
    // White pawns move up the board, Black pawns down.
    if piece == 'P' {
        if r > 0 {
            if board.get(r - 1, c) == ' ' {
                add_square(&mut possible_moves, (r - 1, c));
                // The first move of a pawn may go two squares.
                if r == 6 && board.get(r - 2, c) == ' ' {
                    add_square(&mut possible_moves, (r - 2, c));
                }
            }
            if c > 0 && side_of(board.get(r - 1, c - 1)) == Player::Black {
                add_square(&mut possible_moves, (r - 1, c - 1));
            }
            if c < 7 && side_of(board.get(r - 1, c + 1)) == Player::Black {
                add_square(&mut possible_moves, (r - 1, c + 1));
            }
            if r == 3 {
                if let Some(e) = en_passant {
                    if c == e + 1 || e == c + 1 {
                        add_square(&mut possible_moves, (r - 1, e));
                    }
                }
            }
        }
    } else {
        if r < 7 {
            if board.get(r + 1, c) == ' ' {
                add_square(&mut possible_moves, (r + 1, c));
                if r == 1 && board.get(r + 2, c) == ' ' {
                    add_square(&mut possible_moves, (r + 2, c));
                }
            }
            if c < 7 && side_of(board.get(r + 1, c + 1)) == Player::White {
                add_square(&mut possible_moves, (r + 1, c + 1));
            }
            if c > 0 && side_of(board.get(r + 1, c - 1)) == Player::White {
                add_square(&mut possible_moves, (r + 1, c - 1));
            }
        }
        if r == 4 {
            if let Some(e) = en_passant {
                if c == e + 1 || e == c + 1 {
                    add_square(&mut possible_moves, (r + 1, e));
                }
            }
        }
    }
    possible_moves
}

/// Adds the square `(dx, dy)` away from `position` when it is on the board
/// and does not hold a piece of the mover's side.
fn add_jump(
    piece: char,
    position: (usize, usize),
    board: Chessboard,
    dx: i8,
    dy: i8,
    moves: &mut Vec<(usize, usize)>,
)
    requires
        position.0 < 8,
        position.1 < 8,
        -2 <= dx <= 2,
        -2 <= dy <= 2,
    ensures
        forall|m: (usize, usize)| #[trigger]
            final(moves)@.contains(m) <==> (old(moves)@.contains(m) || (m.0 as int
                == position.0 as int + dx && m.1 as int == position.1 as int + dy && on_board(
                m.0 as int,
                m.1 as int,
            ) && side(shade(board@), m.0 as int, m.1 as int) != player_of(piece))),
        old(moves)@.no_duplicates() && (forall|m: (usize, usize)|
            #[trigger] old(moves)@.contains(m) ==> m.0 as int != position.0 as int + dx || m.1 as int
                != position.1 as int + dy) ==> final(moves)@.no_duplicates(),
{
    let end_x: i8 = position.0 as i8 + dx;
    let end_y: i8 = position.1 as i8 + dy;
    if 0 <= end_x && end_x <= 7 && 0 <= end_y && end_y <= 7 {
        if !same_side(piece, board.get(end_x as usize, end_y as usize)) {
            add_square(moves, (end_x as usize, end_y as usize));
        }
    }
}

/// Pseudo-legal knight moves: the eight jumps that stay on the board and do
/// not land on a piece of the knight's side.
fn get_knight_moves(piece: char, position: (usize, usize), board: Chessboard) -> (possible_moves:
    Vec<(usize, usize)>)
    requires
        position.0 < 8,
        position.1 < 8,
    ensures
        forall|m: (usize, usize)| #[trigger]
            possible_moves@.contains(m) <==> knight_move(
                piece,
                shade(board@),
                position.0 as int,
                position.1 as int,
                m.0 as int,
                m.1 as int,
            ),
        possible_moves@.no_duplicates(),
{
    let mut possible_moves: Vec<(usize, usize)> = Vec::new();
    add_jump(piece, position, board, 2, 1, &mut possible_moves);
    add_jump(piece, position, board, 1, 2, &mut possible_moves);
    add_jump(piece, position, board, 2, -1, &mut possible_moves);
    add_jump(piece, position, board, 1, -2, &mut possible_moves);
    add_jump(piece, position, board, -2, 1, &mut possible_moves);
    add_jump(piece, position, board, -1, 2, &mut possible_moves);
    add_jump(piece, position, board, -2, -1, &mut possible_moves);
    add_jump(piece, position, board, -1, -2, &mut possible_moves);
    possible_moves
}

/// Walks from `position` in direction `(dr, dc)` and adds every square the
/// ray reaches: empty squares, then the first occupied one if it holds an
/// enemy piece. The starting square is passed over when it holds a piece of
/// the mover's side.
fn push_ray(
    piece: char,
    position: (usize, usize),
    board: Chessboard,
    dr: i8,
    dc: i8,
    moves: &mut Vec<(usize, usize)>,
)
    requires
        position.0 < 8,
        position.1 < 8,
        -1 <= dr <= 1,
        -1 <= dc <= 1,
        dr != 0 || dc != 0,
    ensures
        forall|m: (usize, usize)| #[trigger]
            final(moves)@.contains(m) <==> (old(moves)@.contains(m) || ray_move(
                piece,
                shade(board@),
                position.0 as int,
                position.1 as int,
                dr as int,
                dc as int,
                m.0 as int,
                m.1 as int,
            )),
        old(moves)@.no_duplicates() && (forall|m: (usize, usize)| #[trigger]
            old(moves)@.contains(m) ==> !ray_move(
                piece,
                shade(board@),
                position.0 as int,
                position.1 as int,
                dr as int,
                dc as int,
                m.0 as int,
                m.1 as int,
            )) ==> final(moves)@.no_duplicates(),
{
    let ghost g = shade(board@);
    let ghost r = position.0 as int;
    let ghost c = position.1 as int;
    let ghost start = moves@;
    let ghost apart = start.no_duplicates() && (forall|m: (usize, usize)| #[trigger]
        start.contains(m) ==> !ray_move(piece, g, r, c, dr as int, dc as int, m.0 as int, m.1 as int));
    let mut x: usize = position.0;
    let mut y: usize = position.1;
    let ghost mut k: int = 0;
    loop
        invariant_except_break
            0 <= k < 8,
            x as int == step(r, dr as int, k),
            y as int == step(c, dc as int, k),
            x < 8,
            y < 8,
            forall|j: int| 0 <= j < k ==> #[trigger] ray_passable(piece, g, r, c, dr as int, dc as int, j),
            forall|m: (usize, usize)| #[trigger]
                moves@.contains(m) <==> (start.contains(m) || (ray_move(
                    piece,
                    g,
                    r,
                    c,
                    dr as int,
                    dc as int,
                    m.0 as int,
                    m.1 as int,
                ) && ray_index(r, c, dr as int, dc as int, m.0 as int, m.1 as int) < k)),
        invariant
            position.0 < 8,
            position.1 < 8,
            apart == (start.no_duplicates() && (forall|m: (usize, usize)| #[trigger]
                start.contains(m) ==> !ray_move(piece, g, r, c, dr as int, dc as int, m.0 as int, m.1 as int))),
            apart ==> moves@.no_duplicates(),
            g == shade(board@),
            r == position.0,
            c == position.1,
            -1 <= dr <= 1,
            -1 <= dc <= 1,
            dr != 0 || dc != 0,
            start == old(moves)@,
        ensures
            forall|m: (usize, usize)| #[trigger]
                moves@.contains(m) <==> (start.contains(m) || ray_move(
                    piece,
                    g,
                    r,
                    c,
                    dr as int,
                    dc as int,
                    m.0 as int,
                    m.1 as int,
                )),
        decreases 8 - k,
    {
        let t = board.get(x, y);
        proof {
            assert(ray_index(r, c, dr as int, dc as int, x as int, y as int) == k);
        }
        if t == ' ' {
            add_square(moves, (x, y));
        } else if same_side(piece, t) {
            if x != position.0 || y != position.1 {
                assert(!ray_passable(piece, g, r, c, dr as int, dc as int, k));
                break;
            }
        } else {
            add_square(moves, (x, y));
            assert(!ray_passable(piece, g, r, c, dr as int, dc as int, k));
            break;
        }
        let can_step = (dr <= 0 || x < 7) && (dr >= 0 || x > 0) && (dc <= 0 || y < 7) && (dc >= 0
            || y > 0);
        if !can_step {
            break;
        }
        if dr > 0 {
            x = x + 1;
        } else if dr < 0 {
            x = x - 1;
        }
        if dc > 0 {
            y = y + 1;
        } else if dc < 0 {
            y = y - 1;
        }
        proof {
            k = k + 1;
            assert(x as int == step(r, dr as int, k));
            assert(y as int == step(c, dc as int, k));
        }
    }
}

/// Two different rays from a square holding a piece of the mover's side
/// never reach the same square.
proof fn lemma_rays_apart(
    piece: char,
    s: Seq<Seq<Player>>,
    r: int,
    c: int,
    dr1: int,
    dc1: int,
    dr2: int,
    dc2: int,
    mr: int,
    mc: int,
)
    requires
        on_board(r, c),
        starts_on_own(piece, s, r, c),
        -1 <= dr1 <= 1,
        -1 <= dc1 <= 1,
        -1 <= dr2 <= 1,
        -1 <= dc2 <= 1,
        dr1 != 0 || dc1 != 0,
        dr2 != 0 || dc2 != 0,
        dr1 != dr2 || dc1 != dc2,
    ensures
        !(ray_move(piece, s, r, c, dr1, dc1, mr, mc) && ray_move(piece, s, r, c, dr2, dc2, mr, mc)),
{
}

/// Adds the moves along the four diagonals.
fn push_bishop_rays(piece: char, position: (usize, usize), board: Chessboard, moves: &mut Vec<(usize, usize)>)
    requires
        position.0 < 8,
        position.1 < 8,
    ensures
        forall|m: (usize, usize)| #[trigger]
            final(moves)@.contains(m) <==> (old(moves)@.contains(m) || bishop_move(
                piece,
                shade(board@),
                position.0 as int,
                position.1 as int,
                m.0 as int,
                m.1 as int,
            )),
        old(moves)@.no_duplicates() && starts_on_own(
            piece,
            shade(board@),
            position.0 as int,
            position.1 as int,
        ) && (forall|m: (usize, usize)| #[trigger]
            old(moves)@.contains(m) ==> !bishop_move(
                piece,
                shade(board@),
                position.0 as int,
                position.1 as int,
                m.0 as int,
                m.1 as int,
            )) ==> final(moves)@.no_duplicates(),
{
    let ghost g = shade(board@);
    let ghost r = position.0 as int;
    let ghost c = position.1 as int;
    let ghost apart = old(moves)@.no_duplicates() && starts_on_own(piece, g, r, c) && (forall|
        m: (usize, usize),
    | #[trigger] old(moves)@.contains(m) ==> !bishop_move(piece, g, r, c, m.0 as int, m.1 as int));
    push_ray(piece, position, board, -1, -1, moves);
    proof {
        if apart {
            assert forall|m: (usize, usize)| #[trigger] moves@.contains(m) implies !ray_move(
                piece,
                g,
                r,
                c,
                1,
                1,
                m.0 as int,
                m.1 as int,
            ) by {
                if !old(moves)@.contains(m) {
                    if ray_move(piece, g, r, c, -1, -1, m.0 as int, m.1 as int) {
                        lemma_rays_apart(piece, g, r, c, -1, -1, 1, 1, m.0 as int, m.1 as int);
                    }
                }
            }
        }
    }
    push_ray(piece, position, board, 1, 1, moves);
    proof {
        if apart {
            assert forall|m: (usize, usize)| #[trigger] moves@.contains(m) implies !ray_move(
                piece,
                g,
                r,
                c,
                1,
                -1,
                m.0 as int,
                m.1 as int,
            ) by {
                if !old(moves)@.contains(m) {
                    if ray_move(piece, g, r, c, -1, -1, m.0 as int, m.1 as int) {
                        lemma_rays_apart(piece, g, r, c, -1, -1, 1, -1, m.0 as int, m.1 as int);
                    }
                    if ray_move(piece, g, r, c, 1, 1, m.0 as int, m.1 as int) {
                        lemma_rays_apart(piece, g, r, c, 1, 1, 1, -1, m.0 as int, m.1 as int);
                    }
                }
            }
        }
    }
    push_ray(piece, position, board, 1, -1, moves);
    proof {
        if apart {
            assert forall|m: (usize, usize)| #[trigger] moves@.contains(m) implies !ray_move(
                piece,
                g,
                r,
                c,
                -1,
                1,
                m.0 as int,
                m.1 as int,
            ) by {
                if !old(moves)@.contains(m) {
                    if ray_move(piece, g, r, c, -1, -1, m.0 as int, m.1 as int) {
                        lemma_rays_apart(piece, g, r, c, -1, -1, -1, 1, m.0 as int, m.1 as int);
                    }
                    if ray_move(piece, g, r, c, 1, 1, m.0 as int, m.1 as int) {
                        lemma_rays_apart(piece, g, r, c, 1, 1, -1, 1, m.0 as int, m.1 as int);
                    }
                    if ray_move(piece, g, r, c, 1, -1, m.0 as int, m.1 as int) {
                        lemma_rays_apart(piece, g, r, c, 1, -1, -1, 1, m.0 as int, m.1 as int);
                    }
                }
            }
        }
    }
    push_ray(piece, position, board, -1, 1, moves);
}

/// Adds the moves along the four lines.
fn push_rook_rays(piece: char, position: (usize, usize), board: Chessboard, moves: &mut Vec<(usize, usize)>)
    requires
        position.0 < 8,
        position.1 < 8,
    ensures
        forall|m: (usize, usize)| #[trigger]
            final(moves)@.contains(m) <==> (old(moves)@.contains(m) || rook_move(
                piece,
                shade(board@),
                position.0 as int,
                position.1 as int,
                m.0 as int,
                m.1 as int,
            )),
        old(moves)@.no_duplicates() && starts_on_own(
            piece,
            shade(board@),
            position.0 as int,
            position.1 as int,
        ) && (forall|m: (usize, usize)| #[trigger]
            old(moves)@.contains(m) ==> !rook_move(
                piece,
                shade(board@),
                position.0 as int,
                position.1 as int,
                m.0 as int,
                m.1 as int,
            )) ==> final(moves)@.no_duplicates(),
{
    let ghost g = shade(board@);
    let ghost r = position.0 as int;
    let ghost c = position.1 as int;
    let ghost apart = old(moves)@.no_duplicates() && starts_on_own(piece, g, r, c) && (forall|
        m: (usize, usize),
    | #[trigger] old(moves)@.contains(m) ==> !rook_move(piece, g, r, c, m.0 as int, m.1 as int));
    push_ray(piece, position, board, -1, 0, moves);
    proof {
        if apart {
            assert forall|m: (usize, usize)| #[trigger] moves@.contains(m) implies !ray_move(
                piece,
                g,
                r,
                c,
                1,
                0,
                m.0 as int,
                m.1 as int,
            ) by {
                if !old(moves)@.contains(m) {
                    if ray_move(piece, g, r, c, -1, 0, m.0 as int, m.1 as int) {
                        lemma_rays_apart(piece, g, r, c, -1, 0, 1, 0, m.0 as int, m.1 as int);
                    }
                }
            }
        }
    }
    push_ray(piece, position, board, 1, 0, moves);
    proof {
        if apart {
            assert forall|m: (usize, usize)| #[trigger] moves@.contains(m) implies !ray_move(
                piece,
                g,
                r,
                c,
                0,
                -1,
                m.0 as int,
                m.1 as int,
            ) by {
                if !old(moves)@.contains(m) {
                    if ray_move(piece, g, r, c, -1, 0, m.0 as int, m.1 as int) {
                        lemma_rays_apart(piece, g, r, c, -1, 0, 0, -1, m.0 as int, m.1 as int);
                    }
                    if ray_move(piece, g, r, c, 1, 0, m.0 as int, m.1 as int) {
                        lemma_rays_apart(piece, g, r, c, 1, 0, 0, -1, m.0 as int, m.1 as int);
                    }
                }
            }
        }
    }
    push_ray(piece, position, board, 0, -1, moves);
    proof {
        if apart {
            assert forall|m: (usize, usize)| #[trigger] moves@.contains(m) implies !ray_move(
                piece,
                g,
                r,
                c,
                0,
                1,
                m.0 as int,
                m.1 as int,
            ) by {
                if !old(moves)@.contains(m) {
                    if ray_move(piece, g, r, c, -1, 0, m.0 as int, m.1 as int) {
                        lemma_rays_apart(piece, g, r, c, -1, 0, 0, 1, m.0 as int, m.1 as int);
                    }
                    if ray_move(piece, g, r, c, 1, 0, m.0 as int, m.1 as int) {
                        lemma_rays_apart(piece, g, r, c, 1, 0, 0, 1, m.0 as int, m.1 as int);
                    }
                    if ray_move(piece, g, r, c, 0, -1, m.0 as int, m.1 as int) {
                        lemma_rays_apart(piece, g, r, c, 0, -1, 0, 1, m.0 as int, m.1 as int);
                    }
                }
            }
        }
    }
    push_ray(piece, position, board, 0, 1, moves);
}

/// Pseudo-legal bishop moves.
fn get_bishop_moves(piece: char, position: (usize, usize), board: Chessboard) -> (possible_moves:
    Vec<(usize, usize)>)
    requires
        position.0 < 8,
        position.1 < 8,
    ensures
        forall|m: (usize, usize)| #[trigger]
            possible_moves@.contains(m) <==> bishop_move(
                piece,
                shade(board@),
                position.0 as int,
                position.1 as int,
                m.0 as int,
                m.1 as int,
            ),
        starts_on_own(piece, shade(board@), position.0 as int, position.1 as int)
            ==> possible_moves@.no_duplicates(),
{
    let mut possible_moves: Vec<(usize, usize)> = Vec::new();
    push_bishop_rays(piece, position, board, &mut possible_moves);
    possible_moves
}

/// Pseudo-legal rook moves.
fn get_rook_moves(piece: char, position: (usize, usize), board: Chessboard) -> (possible_moves:
    Vec<(usize, usize)>)
    requires
        position.0 < 8,
        position.1 < 8,
    ensures
        forall|m: (usize, usize)| #[trigger]
            possible_moves@.contains(m) <==> rook_move(
                piece,
                shade(board@),
                position.0 as int,
                position.1 as int,
                m.0 as int,
                m.1 as int,
            ),
        starts_on_own(piece, shade(board@), position.0 as int, position.1 as int)
            ==> possible_moves@.no_duplicates(),
{
    let mut possible_moves: Vec<(usize, usize)> = Vec::new();
    push_rook_rays(piece, position, board, &mut possible_moves);
    possible_moves
}

/// Pseudo-legal queen moves: those of a bishop and a rook together.
fn get_queen_moves(piece: char, position: (usize, usize), board: Chessboard) -> (possible_moves:
    Vec<(usize, usize)>)
    requires
        position.0 < 8,
        position.1 < 8,
    ensures
        forall|m: (usize, usize)| #[trigger]
            possible_moves@.contains(m) <==> (bishop_move(
                piece,
                shade(board@),
                position.0 as int,
                position.1 as int,
                m.0 as int,
                m.1 as int,
            ) || rook_move(
                piece,
                shade(board@),
                position.0 as int,
                position.1 as int,
                m.0 as int,
                m.1 as int,
            )),
        starts_on_own(piece, shade(board@), position.0 as int, position.1 as int)
            ==> possible_moves@.no_duplicates(),
{
    let mut possible_moves: Vec<(usize, usize)> = Vec::new();
    push_bishop_rays(piece, position, board, &mut possible_moves);
    proof {
        let g = shade(board@);
        let r = position.0 as int;
        let c = position.1 as int;
        if starts_on_own(piece, g, r, c) {
            assert forall|m: (usize, usize)| #[trigger] possible_moves@.contains(m) implies !rook_move(
                piece,
                g,
                r,
                c,
                m.0 as int,
                m.1 as int,
            ) by {
                if ray_move(piece, g, r, c, -1, -1, m.0 as int, m.1 as int) {
                    lemma_rays_apart(piece, g, r, c, -1, -1, -1, 0, m.0 as int, m.1 as int);
                    lemma_rays_apart(piece, g, r, c, -1, -1, 1, 0, m.0 as int, m.1 as int);
                    lemma_rays_apart(piece, g, r, c, -1, -1, 0, -1, m.0 as int, m.1 as int);
                    lemma_rays_apart(piece, g, r, c, -1, -1, 0, 1, m.0 as int, m.1 as int);
                }
                if ray_move(piece, g, r, c, 1, 1, m.0 as int, m.1 as int) {
                    lemma_rays_apart(piece, g, r, c, 1, 1, -1, 0, m.0 as int, m.1 as int);
                    lemma_rays_apart(piece, g, r, c, 1, 1, 1, 0, m.0 as int, m.1 as int);
                    lemma_rays_apart(piece, g, r, c, 1, 1, 0, -1, m.0 as int, m.1 as int);
                    lemma_rays_apart(piece, g, r, c, 1, 1, 0, 1, m.0 as int, m.1 as int);
                }
                if ray_move(piece, g, r, c, 1, -1, m.0 as int, m.1 as int) {
                    lemma_rays_apart(piece, g, r, c, 1, -1, -1, 0, m.0 as int, m.1 as int);
                    lemma_rays_apart(piece, g, r, c, 1, -1, 1, 0, m.0 as int, m.1 as int);
                    lemma_rays_apart(piece, g, r, c, 1, -1, 0, -1, m.0 as int, m.1 as int);
                    lemma_rays_apart(piece, g, r, c, 1, -1, 0, 1, m.0 as int, m.1 as int);
                }
                if ray_move(piece, g, r, c, -1, 1, m.0 as int, m.1 as int) {
                    lemma_rays_apart(piece, g, r, c, -1, 1, -1, 0, m.0 as int, m.1 as int);
                    lemma_rays_apart(piece, g, r, c, -1, 1, 1, 0, m.0 as int, m.1 as int);
                    lemma_rays_apart(piece, g, r, c, -1, 1, 0, -1, m.0 as int, m.1 as int);
                    lemma_rays_apart(piece, g, r, c, -1, 1, 0, 1, m.0 as int, m.1 as int);
                }
            }
        }
    }
    push_rook_rays(piece, position, board, &mut possible_moves);
    possible_moves
}

/// King steps onto the squares around it that are empty or hold an enemy
/// piece.
fn get_king_steps(piece: char, position: (usize, usize), board: Chessboard) -> (possible_moves:
    Vec<(usize, usize)>)
    requires
        position.0 < 8,
        position.1 < 8,
    ensures
        forall|m: (usize, usize)| #[trigger]
            possible_moves@.contains(m) <==> king_step(
                piece,
                shade(board@),
                position.0 as int,
                position.1 as int,
                m.0 as int,
                m.1 as int,
            ),
{
    let mut possible_moves: Vec<(usize, usize)> = Vec::new();
    let ghost r = position.0 as int;
    let ghost c = position.1 as int;
    let lo_i: usize = if position.0 > 0 { position.0 - 1 } else { 0 };
    let hi_i: usize = if position.0 < 7 { position.0 + 1 } else { 7 };
    let lo_j: usize = if position.1 > 0 { position.1 - 1 } else { 0 };
    let hi_j: usize = if position.1 < 7 { position.1 + 1 } else { 7 };
    let mut i: usize = lo_i;
    while i <= hi_i
        invariant
            lo_i <= i <= hi_i + 1,
            lo_i as int == if r > 0 { r - 1 } else { 0 },
            hi_i as int == if r < 7 { r + 1 } else { 7 },
            lo_j as int == if c > 0 { c - 1 } else { 0 },
            hi_j as int == if c < 7 { c + 1 } else { 7 },
            r == position.0,
            c == position.1,
            r < 8,
            c < 8,
            forall|m: (usize, usize)| #[trigger]
                possible_moves@.contains(m) <==> (king_step(piece, shade(board@), r, c, m.0 as int, m.1 as int)
                    && m.0 < i),
        decreases hi_i + 1 - i,
    {
        let mut j: usize = lo_j;
        while j <= hi_j
            invariant
                lo_i <= i <= hi_i,
                lo_j <= j <= hi_j + 1,
                lo_i as int == if r > 0 { r - 1 } else { 0 },
                hi_i as int == if r < 7 { r + 1 } else { 7 },
                lo_j as int == if c > 0 { c - 1 } else { 0 },
                hi_j as int == if c < 7 { c + 1 } else { 7 },
                r == position.0,
                c == position.1,
                r < 8,
                c < 8,
                forall|m: (usize, usize)| #[trigger]
                    possible_moves@.contains(m) <==> (king_step(
                        piece,
                        shade(board@),
                        r,
                        c,
                        m.0 as int,
                        m.1 as int,
                    ) && (m.0 < i || (m.0 == i && m.1 < j))),
            decreases hi_j + 1 - j,
        {
            let t = board.get(i, j);
            if t == ' ' || opposite_sides(piece, t) {
                add_square(&mut possible_moves, (i, j));
            }
            j += 1;
        }
        i += 1;
    }
    possible_moves
}

/// The pseudo-legal moves of `piece` other than castling.
pub(crate) fn get_attack_moves(
    piece: char,
    position: (usize, usize),
    board: Chessboard,
    en_passant: Option<usize>,
) -> (possible_moves: Vec<(usize, usize)>)
    requires
        position.0 < 8,
        position.1 < 8,
        en_passant_ok(en_passant),
    ensures
        forall|m: (usize, usize)| #[trigger]
            possible_moves@.contains(m) <==> attack_move(
                piece,
                shade(board@),
                position.0 as int,
                position.1 as int,
                en_passant,
                m.0 as int,
                m.1 as int,
            ),
{
    match piece {
        'p' | 'P' => get_pawn_moves(piece, position, board, en_passant),
        'n' | 'N' => get_knight_moves(piece, position, board),
        'b' | 'B' => get_bishop_moves(piece, position, board),
        'r' | 'R' => get_rook_moves(piece, position, board),
        'q' | 'Q' => get_queen_moves(piece, position, board),
        'k' | 'K' => get_king_steps(piece, position, board),
        _ => Vec::new(),
    }
}

/// Pseudo-legal king moves: the steps around it, and castling where the
/// right is kept, the squares between king and rook are empty, the rook is
/// home, and neither the king's square nor the square next to it towards
/// the rook is attacked.
fn get_king_moves(
    piece: char,
    position: (usize, usize),
    board: Chessboard,
    castling: Castling,
    en_passant: Option<usize>,
) -> (possible_moves: Vec<(usize, usize)>)
    requires
        position.0 < 8,
        position.1 < 8,
        en_passant_ok(en_passant),
        board.valid(),
    ensures
        forall|m: (usize, usize)| #[trigger]
            possible_moves@.contains(m) <==> (king_step(
                piece,
                shade(board@),
                position.0 as int,
                position.1 as int,
                m.0 as int,
                m.1 as int,
            ) || castle_move(piece, board@, en_passant, castling, m.0 as int, m.1 as int)),
{
    let mut possible_moves = get_king_steps(piece, position, board);
    if piece == 'k' {
        if castling.2 && board.get(0, 6) == ' ' && board.get(0, 5) == ' ' && board.get(0, 7) == 'r'
            && !check(board, Player::Black, en_passant, castling) {
            let mut temp_board = board;
            temp_board.set(0, 5, 'k');
            temp_board.set(0, 4, ' ');
            if !check(temp_board, Player::Black, en_passant, castling) {
                add_square(&mut possible_moves, (0, 6));
            }
        }
        if castling.3 && board.get(0, 1) == ' ' && board.get(0, 2) == ' ' && board.get(0, 3) == ' '
            && board.get(0, 0) == 'r' && !check(board, Player::Black, en_passant, castling) {
            let mut temp_board = board;
            temp_board.set(0, 3, 'k');
            temp_board.set(0, 4, ' ');
            if !check(temp_board, Player::Black, en_passant, castling) {
                add_square(&mut possible_moves, (0, 2));
            }
        }
    } else if piece == 'K' {
        if castling.0 && board.get(7, 6) == ' ' && board.get(7, 5) == ' ' && board.get(7, 7) == 'R'
            && !check(board, Player::White, en_passant, castling) {
            let mut temp_board = board;
            temp_board.set(7, 5, 'K');
            temp_board.set(7, 4, ' ');
            if !check(temp_board, Player::White, en_passant, castling) {
                add_square(&mut possible_moves, (7, 6));
            }
        }
        if castling.1 && board.get(7, 1) == ' ' && board.get(7, 2) == ' ' && board.get(7, 3) == ' '
            && board.get(7, 0) == 'R' && !check(board, Player::White, en_passant, castling) {
            let mut temp_board = board;
            temp_board.set(7, 3, 'K');
            temp_board.set(7, 4, ' ');
            if !check(temp_board, Player::White, en_passant, castling) {
                add_square(&mut possible_moves, (7, 2));
            }
        }
    }
    possible_moves
}

/// Whether `s` is among `moves`.
pub(crate) fn contains_square(moves: &Vec<(usize, usize)>, s: (usize, usize)) -> (r: bool)
    ensures
        r == moves@.contains(s),
{
    let mut i: usize = 0;
    while i < moves.len()
        invariant
            i <= moves@.len(),
            forall|j: int| 0 <= j < i ==> moves@[j] != s,
        decreases moves@.len() - i,
    {
        let m = moves[i];
        if m.0 == s.0 && m.1 == s.1 {
            return true;
        }
        i += 1;
    }
    false
}

/// How many squares of the board hold `p`.
fn count_piece(board: Chessboard, p: char) -> (n: usize)
    ensures
        n == count_of(board@, p, 64),
{
    let mut n: usize = 0;
    let mut i: usize = 0;
    while i < 64
        invariant
            i <= 64,
            n == count_of(board@, p, i as int),
            n <= i,
        decreases 64 - i,
    {
        if board.get(i / 8, i % 8) == p {
            n += 1;
        }
        i += 1;
    }
    n
}

/// Appends one `p` for each of the `full` pieces `p` that are not on the
/// board.
fn push_missing(pieces: &mut Vec<char>, p: char, full: usize, board: Chessboard)
    ensures
        final(pieces)@ == old(pieces)@ + copies(p, shortfall(full as nat, count_of(board@, p, 64))),
{
    let present = count_piece(board, p);
    let mut k: usize = present;
    let ghost start = pieces@;
    while k < full
        invariant
            present == count_of(board@, p, 64),
            present <= k,
            k < full ==> pieces@ == start + copies(p, (k - present) as nat),
            k >= full ==> pieces@ == start + copies(p, shortfall(full as nat, present as nat)),
        decreases full - k,
    {
        pieces.push(p);
        k += 1;
        assert(pieces@ =~= start + copies(p, (k - present) as nat));
    }
    assert(pieces@ =~= start + copies(p, shortfall(full as nat, present as nat)));
}

/// `p` with an ASCII upper-case letter turned lower-case.
pub open spec fn ascii_lower(p: char) -> char {
    if 'A' <= p && p <= 'Z' {
        ((p as u32) as u8 + 32) as char
    } else {
        p
    }
}

/// The image file of a piece symbol: `b` or `w` for the side, then the
/// lower-case letter; `ep` for an empty square.
pub open spec fn image_path(piece: char) -> Seq<char> {
    if piece == ' ' {
        "/images/ep.png"@
    } else if player_of(piece) == Player::Black {
        "/images/b"@ + seq![piece] + ".png"@
    } else {
        "/images/w"@ + seq![ascii_lower(piece)] + ".png"@
    }
}

/// Namespace for the questions asked of single piece symbols.
pub struct Piece {}

impl Piece {
    /// The pseudo-legal destinations of `piece` standing on `position`: moves
    /// that follow the piece's pattern and the occupancy rules, whether or
    /// not they leave the mover's own king attacked. A symbol that is not a
    /// piece has none, and neither has a square off the board.
    pub fn get_possible_moves(
        piece: char,
        position: (usize, usize),
        board: Chessboard,
        en_passant: Option<usize>,
        castling: Castling,
    ) -> (possible_moves: Vec<(usize, usize)>)
        requires
            board.valid(),
            en_passant_ok(en_passant),
        ensures
            forall|m: (usize, usize)| #[trigger]
                possible_moves@.contains(m) <==> (on_board(position.0 as int, position.1 as int)
                    && possible_move(
                    piece,
                    board@,
                    position.0 as int,
                    position.1 as int,
                    en_passant,
                    castling,
                    m.0 as int,
                    m.1 as int,
                )),
            !on_board(position.0 as int, position.1 as int) ==> possible_moves@.len() == 0,
    {
        if position.0 >= 8 || position.1 >= 8 {
            return Vec::new();
        }
        if piece == 'k' || piece == 'K' {
            get_king_moves(piece, position, board, castling, en_passant)
        } else {
            get_attack_moves(piece, position, board, en_passant)
        }
    }

    /// The image file of a piece symbol. The side comes first in the file
    /// name, so that file systems that ignore case tell the images apart.
    pub fn get_image(piece: char) -> (r: String)
        requires
            is_symbol(piece),
        ensures
            r@ == image_path(piece),
    {
        if piece == ' ' {
            return "/images/ep.png".to_owned();
        }
        let mut path = if side_of(piece) == Player::Black {
            let mut p = "/images/b".to_owned();
            p.append(char_string(piece).as_str());
            p
        } else {
            let lower = if 'A' <= piece && piece <= 'Z' {
                ((piece as u32) as u8 + 32) as char
            } else {
                piece
            };
            let mut p = "/images/w".to_owned();
            p.append(char_string(lower).as_str());
            p
        };
        path.append(".png");
        path
    }

    /// The side that owns a symbol: nobody owns `' '`, Black the
    /// lower-case letters, White the upper-case ones.
    pub fn get_player(piece: char) -> (r: Player)
        requires
            is_symbol(piece),
        ensures
            r == player_of(piece),
    {
        side_of(piece)
    }

    /// Whether two symbols belong to the same side (two empty squares do).
    pub fn is_same_player(piece1: char, piece2: char) -> (r: bool)
        requires
            is_symbol(piece1),
            is_symbol(piece2),
        ensures
            r == same_player(piece1, piece2),
    {
        same_side(piece1, piece2)
    }

    /// The pieces of `player`, each with its square, in row-major order.
    /// `Nobody` has none.
    pub fn get_all_player_pieces(player: Player, board: Chessboard) -> (all_pieces: Vec<(char, (usize, usize))>)
        requires
            board.valid(),
        ensures
            all_pieces@ == player_pieces(board@, player, 64),
    {
        let mut all_pieces: Vec<(char, (usize, usize))> = Vec::new();
        let mut i: usize = 0;
        while i < 64
            invariant
                i <= 64,
                all_pieces@ == player_pieces(board@, player, i as int),
            decreases 64 - i,
        {
            let p = board.get(i / 8, i % 8);
            if player != Player::Nobody && side_of(p) == player {
                all_pieces.push((p, (i / 8, i % 8)));
            }
            i += 1;
        }
        all_pieces
    }

    /// The usual value of a piece: pawn 1, knight and bishop 3, rook 5,
    /// queen 9; the king and anything else 0.
    pub fn get_value(piece: char) -> (r: u8)
        ensures
            r == piece_value(piece),
    {
        match piece {
            'p' | 'P' => 1,
            'n' | 'N' => 3,
            'b' | 'B' => 3,
            'r' | 'R' => 5,
            'q' | 'Q' => 9,
            _ => 0,
        }
    }

    /// The pieces of a full set that `player` no longer has on the board.
    pub fn get_missing_pieces(player: Player, board: Chessboard) -> (all_pieces: Vec<char>)
        ensures
            all_pieces@ == missing_pieces(board@, player),
            all_pieces@.len() <= 15,
    {
        let mut all_pieces: Vec<char> = Vec::new();
        if player == Player::Nobody {
            return all_pieces;
        }
        let white = player == Player::White;
        push_missing(&mut all_pieces, if white { 'P' } else { 'p' }, 8, board);
        push_missing(&mut all_pieces, if white { 'R' } else { 'r' }, 2, board);
        push_missing(&mut all_pieces, if white { 'B' } else { 'b' }, 2, board);
        push_missing(&mut all_pieces, if white { 'N' } else { 'n' }, 2, board);
        push_missing(&mut all_pieces, if white { 'Q' } else { 'q' }, 1, board);
        all_pieces
    }

    /// The total value of the given pieces.
    pub fn total_value_of(pieces: &Vec<char>) -> (r: u32)
        requires
            pieces@.len() <= 1000,
        ensures
            r == total_value(pieces@),
            r <= 9 * pieces@.len(),
    {
        let mut sum: u32 = 0;
        let mut i: usize = 0;
        while i < pieces.len()
            invariant
                i <= pieces@.len() <= 1000,
                sum == total_value(pieces@.subrange(0, i as int)),
                sum <= 9 * i,
            decreases pieces@.len() - i,
        {
            assert(pieces@.subrange(0, i + 1).drop_last() =~= pieces@.subrange(0, i as int));
            sum = sum + Self::get_value(pieces[i]) as u32;
            i += 1;
        }
        assert(pieces@.subrange(0, pieces@.len() as int) =~= pieces@);
        sum
    }

    /// The value White is ahead by: what Black has lost minus what White
    /// has lost.
    pub fn material_difference(board: Chessboard) -> (r: i32)
        ensures
            r == total_value(missing_pieces(board@, Player::Black)) - total_value(
                missing_pieces(board@, Player::White),
            ),
    {
        let black_missing = Self::get_missing_pieces(Player::Black, board);
        let white_missing = Self::get_missing_pieces(Player::White, board);
        let black_lost = Self::total_value_of(&black_missing);
        let white_lost = Self::total_value_of(&white_missing);
        black_lost as i32 - white_lost as i32
    }

    /// Whether two symbols are pieces of opposite sides.
    pub fn is_opposite_player(piece1: char, piece2: char) -> (r: bool)
        requires
            is_symbol(piece1),
            is_symbol(piece2),
        ensures
            r == opposite_players(piece1, piece2),
    {
        opposite_sides(piece1, piece2)
    }
}

} // verus!
