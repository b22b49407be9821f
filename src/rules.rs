use vstd::prelude::*;

use crate::player::Player;

verus! {

/// Castling rights: White kingside, White queenside, Black kingside,
/// Black queenside.
pub type Castling = (bool, bool, bool, bool);

/// The symbol on square `(r, c)` of a grid of rows.
pub open spec fn cell(g: Seq<Seq<char>>, r: int, c: int) -> char {
    g[r][c]
}

pub open spec fn on_board(r: int, c: int) -> bool {
    0 <= r < 8 && 0 <= c < 8
}

/// A grid with `p` put on square `(r, c)`.
pub open spec fn put(g: Seq<Seq<char>>, r: int, c: int, p: char) -> Seq<Seq<char>> {
    g.update(r, g[r].update(c, p))
}

/// An en passant file is a column of the board, when there is one.
pub open spec fn en_passant_ok(en_passant: Option<usize>) -> bool {
    match en_passant {
        Some(e) => e < 8,
        None => true,
    }
}

/// One of the thirteen symbols a board holds: a piece letter or `' '`.
pub open spec fn is_symbol(p: char) -> bool {
    ||| p == ' '
    ||| p == 'p' || p == 'n' || p == 'b' || p == 'r' || p == 'q' || p == 'k'
    ||| p == 'P' || p == 'N' || p == 'B' || p == 'R' || p == 'Q' || p == 'K'
}

/// Every square of the grid holds a piece letter or `' '`.
pub open spec fn board_valid(g: Seq<Seq<char>>) -> bool {
    forall|r: int, c: int| on_board(r, c) ==> is_symbol(#[trigger] cell(g, r, c))
}

/// The side a symbol belongs to: `' '` is nobody's, an ASCII lower-case
/// letter is Black's, anything else is White's. On the symbols a board
/// holds (see `is_symbol`) this is the letter's case.
pub open spec fn player_of(p: char) -> Player {
    if p == ' ' {
        Player::Nobody
    } else if 'a' <= p && p <= 'z' {
        Player::Black
    } else {
        Player::White
    }
}

pub open spec fn same_player(a: char, b: char) -> bool {
    player_of(a) == player_of(b)
}

pub open spec fn opposite_players(a: char, b: char) -> bool {
    a != ' ' && b != ' ' && !same_player(a, b)
}

/// The side owning each square of a grid. Every move rule but castling
/// looks at the board only through this.
pub open spec fn shade(g: Seq<Seq<char>>) -> Seq<Seq<Player>> {
    Seq::new(8, |r: int| Seq::new(8, |c: int| player_of(g[r][c])))
}

/// The side owning square `(r, c)`.
pub open spec fn side(s: Seq<Seq<Player>>, r: int, c: int) -> Player {
    s[r][c]
}

/// The symbol of the king of `player`.
pub open spec fn king_of(player: Player) -> char {
    if player == Player::White {
        'K'
    } else {
        'k'
    }
}

// ---------------------------------------------------------------------
// Pawns and knights

pub open spec fn abs_diff_is_one(a: int, b: int) -> bool {
    a - b == 1 || b - a == 1
}

/// A pseudo-legal pawn move from `(r, c)` to `(mr, mc)`. `'P'` moves up the
/// board (towards row 0), any other pawn symbol down.
pub open spec fn pawn_move(
    piece: char,
    s: Seq<Seq<Player>>,
    r: int,
    c: int,
    en_passant: Option<usize>,
    mr: int,
    mc: int,
) -> bool {
    if piece == 'P' {
        &&& r > 0
        &&& {
            ||| (mr == r - 1 && mc == c && side(s, r - 1, c) == Player::Nobody)
            ||| (r == 6 && mr == 4 && mc == c && side(s, 5, c) == Player::Nobody && side(s, 4, c) == Player::Nobody)
            ||| (mr == r - 1 && abs_diff_is_one(mc, c) && on_board(mr, mc) && side(s, mr, mc) == Player::Black)
            ||| (r == 3 && mr == 2 && 0 <= mc < 8 && en_passant == Some(mc as usize)
                && abs_diff_is_one(c, mc))
        }
    } else {
        ||| (r < 7 && {
            ||| (mr == r + 1 && mc == c && side(s, r + 1, c) == Player::Nobody)
            ||| (r == 1 && mr == 3 && mc == c && side(s, 2, c) == Player::Nobody && side(s, 3, c) == Player::Nobody)
            ||| (mr == r + 1 && abs_diff_is_one(mc, c) && on_board(mr, mc) && side(s, mr, mc) == Player::White)
        })
        ||| (r == 4 && mr == 5 && 0 <= mc < 8 && en_passant == Some(mc as usize)
            && abs_diff_is_one(c, mc))
    }
}

/// A knight jump: two squares one way and one the other, onto a square that
/// does not hold a piece of the knight's side.
pub open spec fn knight_move(piece: char, s: Seq<Seq<Player>>, r: int, c: int, mr: int, mc: int) -> bool {
    let dr = mr - r;
    let dc = mc - c;
    &&& on_board(mr, mc)
    &&& ((dr == 2 || dr == -2) && (dc == 1 || dc == -1) || (dr == 1 || dr == -1) && (dc == 2
        || dc == -2))
    &&& side(s, mr, mc) != player_of(piece)
}

/// A king step onto one of the (up to) nine squares around and under it,
/// when that square is empty or holds an enemy piece.
pub open spec fn king_step(piece: char, s: Seq<Seq<Player>>, r: int, c: int, mr: int, mc: int) -> bool {
    &&& on_board(mr, mc)
    &&& r - 1 <= mr <= r + 1
    &&& c - 1 <= mc <= c + 1
    &&& (side(s, mr, mc) == Player::Nobody || (player_of(piece) != Player::Nobody && side(s, mr, mc)
        != player_of(piece)))
}

// ---------------------------------------------------------------------
// Rays of the sliding pieces

/// `x` moved `k` steps in direction `d` (one of -1, 0, 1).
pub open spec fn step(x: int, d: int, k: int) -> int {
    if d > 0 {
        x + k
    } else if d < 0 {
        x - k
    } else {
        x
    }
}

/// How many steps along direction `(dr, dc)` lead from `(r, c)` to `(mr, mc)`,
/// if they lie on that ray at all.
pub open spec fn ray_index(r: int, c: int, dr: int, dc: int, mr: int, mc: int) -> int {
    if dr > 0 {
        mr - r
    } else if dr < 0 {
        r - mr
    } else if dc > 0 {
        mc - c
    } else {
        c - mc
    }
}

/// A ray may go on past its `j`-th square: that square is empty, or it is
/// the starting square and holds a piece of the mover's side.
pub open spec fn ray_passable(
    piece: char,
    s: Seq<Seq<Player>>,
    r: int,
    c: int,
    dr: int,
    dc: int,
    j: int,
) -> bool {
    let t = side(s, step(r, dr, j), step(c, dc, j));
    t == Player::Nobody || (j == 0 && t == player_of(piece))
}

/// The `k`-th square of the ray is on the board, every square before it can
/// be passed, and it does not hold a piece of the mover's side.
pub open spec fn ray_reaches(
    piece: char,
    s: Seq<Seq<Player>>,
    r: int,
    c: int,
    dr: int,
    dc: int,
    k: int,
) -> bool {
    let t = side(s, step(r, dr, k), step(c, dc, k));
    &&& 0 <= k
    &&& on_board(step(r, dr, k), step(c, dc, k))
    &&& forall|j: int| 0 <= j < k ==> #[trigger] ray_passable(piece, s, r, c, dr, dc, j)
    &&& (t == Player::Nobody || t != player_of(piece))
}

/// `(mr, mc)` is reached along the ray from `(r, c)` in direction `(dr, dc)`.
pub open spec fn ray_move(
    piece: char,
    s: Seq<Seq<Player>>,
    r: int,
    c: int,
    dr: int,
    dc: int,
    mr: int,
    mc: int,
) -> bool {
    let k = ray_index(r, c, dr, dc, mr, mc);
    &&& step(r, dr, k) == mr
    &&& step(c, dc, k) == mc
    &&& ray_reaches(piece, s, r, c, dr, dc, k)
}

/// The starting square holds a piece of the mover's side.
pub open spec fn starts_on_own(piece: char, s: Seq<Seq<Player>>, r: int, c: int) -> bool {
    player_of(piece) != Player::Nobody && side(s, r, c) == player_of(piece)
}

pub open spec fn bishop_move(piece: char, s: Seq<Seq<Player>>, r: int, c: int, mr: int, mc: int) -> bool {
    ||| ray_move(piece, s, r, c, -1, -1, mr, mc)
    ||| ray_move(piece, s, r, c, 1, 1, mr, mc)
    ||| ray_move(piece, s, r, c, 1, -1, mr, mc)
    ||| ray_move(piece, s, r, c, -1, 1, mr, mc)
}

pub open spec fn rook_move(piece: char, s: Seq<Seq<Player>>, r: int, c: int, mr: int, mc: int) -> bool {
    ||| ray_move(piece, s, r, c, -1, 0, mr, mc)
    ||| ray_move(piece, s, r, c, 1, 0, mr, mc)
    ||| ray_move(piece, s, r, c, 0, -1, mr, mc)
    ||| ray_move(piece, s, r, c, 0, 1, mr, mc)
}

// ---------------------------------------------------------------------
// Attacks, check and castling

/// The pseudo-legal moves of `piece` from `(r, c)` other than castling.
/// These are the moves that can capture a king.
pub open spec fn attack_move(
    piece: char,
    s: Seq<Seq<Player>>,
    r: int,
    c: int,
    en_passant: Option<usize>,
    mr: int,
    mc: int,
) -> bool {
    if piece == 'p' || piece == 'P' {
        pawn_move(piece, s, r, c, en_passant, mr, mc)
    } else if piece == 'n' || piece == 'N' {
        knight_move(piece, s, r, c, mr, mc)
    } else if piece == 'b' || piece == 'B' {
        bishop_move(piece, s, r, c, mr, mc)
    } else if piece == 'r' || piece == 'R' {
        rook_move(piece, s, r, c, mr, mc)
    } else if piece == 'q' || piece == 'Q' {
        bishop_move(piece, s, r, c, mr, mc) || rook_move(piece, s, r, c, mr, mc)
    } else if piece == 'k' || piece == 'K' {
        king_step(piece, s, r, c, mr, mc)
    } else {
        false
    }
}

/// The last square, in row-major order among the first `n`, that holds `p`;
/// `(0, 0)` when there is none.
pub open spec fn last_square_of(g: Seq<Seq<char>>, p: char, n: int) -> (int, int)
    decreases n,
{
    if n <= 0 {
        (0, 0)
    } else if cell(g, (n - 1) / 8, (n - 1) % 8) == p {
        ((n - 1) / 8, (n - 1) % 8)
    } else {
        last_square_of(g, p, n - 1)
    }
}

/// Where the king of `player` is taken to stand.
pub open spec fn king_square(g: Seq<Seq<char>>, player: Player) -> (int, int) {
    last_square_of(g, king_of(player), 64)
}

/// Square number `i` (row-major) holds a piece of the opponent of `player`
/// that attacks the king of `player`.
pub open spec fn attacker_at(g: Seq<Seq<char>>, player: Player, en_passant: Option<usize>, i: int) -> bool {
    let p = cell(g, i / 8, i % 8);
    let k = king_square(g, player);
    &&& player_of(p) == player.opponent()
    &&& attack_move(p, shade(g), i / 8, i % 8, en_passant, k.0, k.1)
}

/// The king of `player` is attacked.
pub open spec fn in_check(g: Seq<Seq<char>>, player: Player, en_passant: Option<usize>) -> bool {
    &&& player != Player::Nobody
    &&& exists|i: int| 0 <= i < 64 && #[trigger] attacker_at(g, player, en_passant, i)
}

/// A castling move of the king symbol `piece` onto `(mr, mc)`. The king's
/// square and the square next to it towards the rook must not be attacked.
pub open spec fn castle_move(
    piece: char,
    g: Seq<Seq<char>>,
    en_passant: Option<usize>,
    castling: Castling,
    mr: int,
    mc: int,
) -> bool {
    if piece == 'k' {
        ||| (mr == 0 && mc == 6 && castling.2 && cell(g, 0, 6) == ' ' && cell(g, 0, 5) == ' '
            && cell(g, 0, 7) == 'r' && !in_check(g, Player::Black, en_passant) && !in_check(
            put(put(g, 0, 5, 'k'), 0, 4, ' '),
            Player::Black,
            en_passant,
        ))
        ||| (mr == 0 && mc == 2 && castling.3 && cell(g, 0, 1) == ' ' && cell(g, 0, 2) == ' '
            && cell(g, 0, 3) == ' ' && cell(g, 0, 0) == 'r' && !in_check(
            g,
            Player::Black,
            en_passant,
        ) && !in_check(put(put(g, 0, 3, 'k'), 0, 4, ' '), Player::Black, en_passant))
    } else if piece == 'K' {
        ||| (mr == 7 && mc == 6 && castling.0 && cell(g, 7, 6) == ' ' && cell(g, 7, 5) == ' '
            && cell(g, 7, 7) == 'R' && !in_check(g, Player::White, en_passant) && !in_check(
            put(put(g, 7, 5, 'K'), 7, 4, ' '),
            Player::White,
            en_passant,
        ))
        ||| (mr == 7 && mc == 2 && castling.1 && cell(g, 7, 1) == ' ' && cell(g, 7, 2) == ' '
            && cell(g, 7, 3) == ' ' && cell(g, 7, 0) == 'R' && !in_check(
            g,
            Player::White,
            en_passant,
        ) && !in_check(put(put(g, 7, 3, 'K'), 7, 4, ' '), Player::White, en_passant))
    } else {
        false
    }
}

/// A pseudo-legal move: it follows the piece's pattern and the occupancy
/// rules, whether or not it leaves the mover's own king attacked.
pub open spec fn possible_move(
    piece: char,
    g: Seq<Seq<char>>,
    r: int,
    c: int,
    en_passant: Option<usize>,
    castling: Castling,
    mr: int,
    mc: int,
) -> bool {
    ||| attack_move(piece, shade(g), r, c, en_passant, mr, mc)
    ||| castle_move(piece, g, en_passant, castling, mr, mc)
}

/// The pieces of `player` among the first `n` squares in row-major order,
/// each with its square.
pub open spec fn player_pieces(g: Seq<Seq<char>>, player: Player, n: int) -> Seq<(char, (usize, usize))>
    decreases n,
{
    if n <= 0 {
        seq![]
    } else {
        let p = cell(g, (n - 1) / 8, (n - 1) % 8);
        let before = player_pieces(g, player, n - 1);
        if player != Player::Nobody && player_of(p) == player {
            before.push((p, (((n - 1) / 8) as usize, ((n - 1) % 8) as usize)))
        } else {
            before
        }
    }
}

/// A bishop or a knight of the given side.
pub open spec fn is_minor(p: char, white: bool) -> bool {
    if white {
        p == 'B' || p == 'N'
    } else {
        p == 'b' || p == 'n'
    }
}

/// Two pieces of one side, in board order, are its king and one bishop
/// or knight.
pub open spec fn king_and_minor(first: char, second: char, white: bool) -> bool {
    let king = if white { 'K' } else { 'k' };
    (first == king && is_minor(second, white)) || (second == king && is_minor(first, white))
}

/// Neither side can mate: each side has a single piece (bare kings), or
/// one side has exactly its king and one bishop or knight and the other a
/// bare king.
pub open spec fn insufficient_material(g: Seq<Seq<char>>) -> bool {
    let b = player_pieces(g, Player::Black, 64);
    let w = player_pieces(g, Player::White, 64);
    ||| (b.len() == 1 && w.len() == 1)
    ||| (b.len() == 2 && w.len() == 1 && w[0].0 == 'K' && king_and_minor(b[0].0, b[1].0, false))
    ||| (b.len() == 1 && w.len() == 2 && b[0].0 == 'k' && king_and_minor(w[0].0, w[1].0, true))
}

/// How many of the first `n` squares in row-major order hold `p`.
pub open spec fn count_of(g: Seq<Seq<char>>, p: char, n: int) -> nat
    decreases n,
{
    if n <= 0 {
        0
    } else if cell(g, (n - 1) / 8, (n - 1) % 8) == p {
        count_of(g, p, n - 1) + 1
    } else {
        count_of(g, p, n - 1)
    }
}

/// `full - present`, or zero when `present` is larger.
pub open spec fn shortfall(full: nat, present: nat) -> nat {
    if present < full {
        (full - present) as nat
    } else {
        0
    }
}

/// `k` copies of `p`.
pub open spec fn copies(p: char, k: nat) -> Seq<char> {
    Seq::new(k, |_i: int| p)
}

/// The pieces of a full set (eight pawns, two rooks, two bishops, two
/// knights, a queen) that are not on the board, pawns first, then rooks,
/// bishops, knights and the queen. The king is never missing.
pub open spec fn missing_pieces(g: Seq<Seq<char>>, player: Player) -> Seq<char> {
    if player == Player::Nobody {
        seq![]
    } else {
        let white = player == Player::White;
        let pawn = if white { 'P' } else { 'p' };
        let rook = if white { 'R' } else { 'r' };
        let bishop = if white { 'B' } else { 'b' };
        let knight = if white { 'N' } else { 'n' };
        let queen = if white { 'Q' } else { 'q' };
        copies(pawn, shortfall(8, count_of(g, pawn, 64))) + copies(
            rook,
            shortfall(2, count_of(g, rook, 64)),
        ) + copies(bishop, shortfall(2, count_of(g, bishop, 64))) + copies(
            knight,
            shortfall(2, count_of(g, knight, 64)),
        ) + copies(queen, shortfall(1, count_of(g, queen, 64)))
    }
}

/// The usual value of a piece: pawn 1, knight and bishop 3, rook 5,
/// queen 9, anything else 0.
pub open spec fn piece_value(p: char) -> u8 {
    if p == 'p' || p == 'P' {
        1
    } else if p == 'n' || p == 'N' || p == 'b' || p == 'B' {
        3
    } else if p == 'r' || p == 'R' {
        5
    } else if p == 'q' || p == 'Q' {
        9
    } else {
        0
    }
}

/// The total value of the pieces in `s`.
pub open spec fn total_value(s: Seq<char>) -> int
    decreases s.len(),
{
    if s.len() == 0 {
        0
    } else {
        total_value(s.drop_last()) + piece_value(s.last())
    }
}

/// Every pseudo-legal destination lies on the board.
pub proof fn lemma_possible_on_board(
    piece: char,
    g: Seq<Seq<char>>,
    r: int,
    c: int,
    en_passant: Option<usize>,
    castling: Castling,
    mr: int,
    mc: int,
)
    requires
        on_board(r, c),
        en_passant_ok(en_passant),
        possible_move(piece, g, r, c, en_passant, castling, mr, mc),
    ensures
        on_board(mr, mc),
{
}

} // verus!
