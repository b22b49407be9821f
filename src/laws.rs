use vstd::prelude::*;

use crate::game::{landing_piece, moved_grid, next_castling, next_en_passant, MainGame, Promotion};
use crate::player::Player;
use crate::rules::{
    abs_diff_is_one, attack_move, board_valid, is_symbol, attacker_at, cell, en_passant_ok, in_check, king_of,
    last_square_of, lemma_possible_on_board, on_board, player_of, possible_move, ray_index,
    king_square, ray_move, ray_passable, ray_reaches, shade, side, step, Castling,
};

verus! {

/// The en passant capture of a pawn on `(r, c)` would land on a piece of its
/// own side. Nothing else stops that capture, so this is the one way a
/// pseudo-legal move can end on a friendly piece.
pub open spec fn en_passant_onto_own(piece: char, g: Seq<Seq<char>>, r: int, c: int, en_passant: Option<usize>) -> bool {
    match en_passant {
        Some(e) => {
            ||| (piece == 'P' && r == 3 && abs_diff_is_one(c, e as int) && player_of(
                cell(g, 2, e as int),
            ) == Player::White)
            ||| (piece == 'p' && r == 4 && abs_diff_is_one(c, e as int) && player_of(
                cell(g, 5, e as int),
            ) == Player::Black)
        },
        None => false,
    }
}

/// Every pseudo-legal destination is on the board and does not hold a piece
/// of the mover's side (leaving out an en passant capture onto the mover's
/// own piece, which the rules do not check).
pub proof fn lemma_moves_on_board_not_friendly(
    piece: char,
    g: Seq<Seq<char>>,
    r: int,
    c: int,
    en_passant: Option<usize>,
    castling: Castling,
    mr: int,
    mc: int,
)
    requires
        g.len() == 8,
        forall|i: int| 0 <= i < 8 ==> #[trigger] g[i].len() == 8,
        on_board(r, c),
        en_passant_ok(en_passant),
        !en_passant_onto_own(piece, g, r, c, en_passant),
        possible_move(piece, g, r, c, en_passant, castling, mr, mc),
    ensures
        on_board(mr, mc),
        player_of(cell(g, mr, mc)) != player_of(piece),
{
    assert(side(shade(g), mr, mc) == player_of(cell(g, mr, mc)));
}

/// The directions a sliding piece moves in: diagonals for a bishop, lines
/// for a rook, both for a queen.
pub open spec fn slides_along(piece: char, dr: int, dc: int) -> bool {
    let diagonal = (dr == 1 || dr == -1) && (dc == 1 || dc == -1);
    let line = (dr == 0 && (dc == 1 || dc == -1)) || (dc == 0 && (dr == 1 || dr == -1));
    if piece == 'b' || piece == 'B' {
        diagonal
    } else if piece == 'r' || piece == 'R' {
        line
    } else if piece == 'q' || piece == 'Q' {
        diagonal || line
    } else {
        false
    }
}

/// A bishop, rook or queen standing on `(r, c)` reaches, along each of its
/// directions, every square up to and including the first occupied one when
/// that holds an enemy piece; it never reaches a square beyond an occupied
/// one, nor one that holds a piece of its own side.
pub proof fn lemma_rays_stop_at_first_piece(
    piece: char,
    g: Seq<Seq<char>>,
    r: int,
    c: int,
    en_passant: Option<usize>,
    castling: Castling,
    dr: int,
    dc: int,
    k: int,
)
    requires
        g.len() == 8,
        forall|i: int| 0 <= i < 8 ==> #[trigger] g[i].len() == 8,
        on_board(r, c),
        cell(g, r, c) == piece,
        slides_along(piece, dr, dc),
        1 <= k,
        on_board(step(r, dr, k), step(c, dc, k)),
    ensures
        (forall|j: int| 1 <= j < k ==> cell(g, #[trigger] step(r, dr, j), step(c, dc, j)) == ' ')
            && player_of(cell(g, step(r, dr, k), step(c, dc, k))) != player_of(piece)
            ==> possible_move(
            piece,
            g,
            r,
            c,
            en_passant,
            castling,
            step(r, dr, k),
            step(c, dc, k),
        ),
        (exists|j: int| 1 <= j < k && cell(g, #[trigger] step(r, dr, j), step(c, dc, j)) != ' ')
            ==> !possible_move(
            piece,
            g,
            r,
            c,
            en_passant,
            castling,
            step(r, dr, k),
            step(c, dc, k),
        ),
        player_of(cell(g, step(r, dr, k), step(c, dc, k))) == player_of(piece) ==> !possible_move(
            piece,
            g,
            r,
            c,
            en_passant,
            castling,
            step(r, dr, k),
            step(c, dc, k),
        ),
{
    let s = shade(g);
    let mr = step(r, dr, k);
    let mc = step(c, dc, k);
    assert(ray_index(r, c, dr, dc, mr, mc) == k);
    if forall|j: int| 1 <= j < k ==> cell(g, #[trigger] step(r, dr, j), step(c, dc, j)) == ' ' {
        assert forall|j: int| 0 <= j < k implies #[trigger] ray_passable(piece, s, r, c, dr, dc, j) by {
            if j >= 1 {
                assert(cell(g, step(r, dr, j), step(c, dc, j)) == ' ');
            }
        }
        if player_of(cell(g, mr, mc)) != player_of(piece) {
            assert(ray_reaches(piece, s, r, c, dr, dc, k));
            assert(ray_move(piece, s, r, c, dr, dc, mr, mc));
        }
    }
    if exists|j: int| 1 <= j < k && cell(g, #[trigger] step(r, dr, j), step(c, dc, j)) != ' ' {
        let j = choose|j: int| 1 <= j < k && cell(g, #[trigger] step(r, dr, j), step(c, dc, j)) != ' ';
        assert(!ray_passable(piece, s, r, c, dr, dc, j));
        assert(!ray_reaches(piece, s, r, c, dr, dc, k));
    }
}

/// Square `(mr, mc)` is `k` steps from `(r, c)` along direction `(dr, dc)`
/// of the sliding piece, every square before it is empty, and it does not
/// hold a piece of the mover's side.
pub open spec fn on_ray(piece: char, g: Seq<Seq<char>>, r: int, c: int, dr: int, dc: int, k: int, mr: int, mc: int) -> bool {
    &&& slides_along(piece, dr, dc)
    &&& 1 <= k
    &&& step(r, dr, k) == mr
    &&& step(c, dc, k) == mc
    &&& on_board(mr, mc)
    &&& forall|j: int| 1 <= j < k ==> cell(g, #[trigger] step(r, dr, j), step(c, dc, j)) == ' '
    &&& player_of(cell(g, mr, mc)) != player_of(piece)
}

/// The moves of a bishop, rook or queen standing on `(r, c)` are exactly
/// the squares along its directions up to and including the first occupied
/// one when that holds an enemy piece; its own square is never among them.
pub proof fn lemma_slider_moves_are_rays(
    piece: char,
    g: Seq<Seq<char>>,
    r: int,
    c: int,
    en_passant: Option<usize>,
    castling: Castling,
    mr: int,
    mc: int,
)
    requires
        g.len() == 8,
        forall|i: int| 0 <= i < 8 ==> #[trigger] g[i].len() == 8,
        on_board(r, c),
        cell(g, r, c) == piece,
        piece == 'b' || piece == 'B' || piece == 'r' || piece == 'R' || piece == 'q' || piece == 'Q',
    ensures
        possible_move(piece, g, r, c, en_passant, castling, mr, mc) <==> exists|dr: int, dc: int, k: int|
            #[trigger] on_ray(piece, g, r, c, dr, dc, k, mr, mc),
        !possible_move(piece, g, r, c, en_passant, castling, r, c),
{
    let s = shade(g);
    assert(side(s, r, c) == player_of(piece));
    if slides_along(piece, -1, -1) && ray_move(piece, s, r, c, -1, -1, mr, mc) {
        let k = ray_index(r, c, -1, -1, mr, mc);
        assert(k >= 1);
        assert forall|j: int| 1 <= j < k implies cell(g, #[trigger] step(r, -1, j), step(c, -1, j)) == ' ' by {
            assert(ray_passable(piece, s, r, c, -1, -1, j));
        }
        assert(on_ray(piece, g, r, c, -1, -1, k, mr, mc));
    }
    if slides_along(piece, 1, 1) && ray_move(piece, s, r, c, 1, 1, mr, mc) {
        let k = ray_index(r, c, 1, 1, mr, mc);
        assert(k >= 1);
        assert forall|j: int| 1 <= j < k implies cell(g, #[trigger] step(r, 1, j), step(c, 1, j)) == ' ' by {
            assert(ray_passable(piece, s, r, c, 1, 1, j));
        }
        assert(on_ray(piece, g, r, c, 1, 1, k, mr, mc));
    }
    if slides_along(piece, 1, -1) && ray_move(piece, s, r, c, 1, -1, mr, mc) {
        let k = ray_index(r, c, 1, -1, mr, mc);
        assert(k >= 1);
        assert forall|j: int| 1 <= j < k implies cell(g, #[trigger] step(r, 1, j), step(c, -1, j)) == ' ' by {
            assert(ray_passable(piece, s, r, c, 1, -1, j));
        }
        assert(on_ray(piece, g, r, c, 1, -1, k, mr, mc));
    }
    if slides_along(piece, -1, 1) && ray_move(piece, s, r, c, -1, 1, mr, mc) {
        let k = ray_index(r, c, -1, 1, mr, mc);
        assert(k >= 1);
        assert forall|j: int| 1 <= j < k implies cell(g, #[trigger] step(r, -1, j), step(c, 1, j)) == ' ' by {
            assert(ray_passable(piece, s, r, c, -1, 1, j));
        }
        assert(on_ray(piece, g, r, c, -1, 1, k, mr, mc));
    }
    if slides_along(piece, -1, 0) && ray_move(piece, s, r, c, -1, 0, mr, mc) {
        let k = ray_index(r, c, -1, 0, mr, mc);
        assert(k >= 1);
        assert forall|j: int| 1 <= j < k implies cell(g, #[trigger] step(r, -1, j), step(c, 0, j)) == ' ' by {
            assert(ray_passable(piece, s, r, c, -1, 0, j));
        }
        assert(on_ray(piece, g, r, c, -1, 0, k, mr, mc));
    }
    if slides_along(piece, 1, 0) && ray_move(piece, s, r, c, 1, 0, mr, mc) {
        let k = ray_index(r, c, 1, 0, mr, mc);
        assert(k >= 1);
        assert forall|j: int| 1 <= j < k implies cell(g, #[trigger] step(r, 1, j), step(c, 0, j)) == ' ' by {
            assert(ray_passable(piece, s, r, c, 1, 0, j));
        }
        assert(on_ray(piece, g, r, c, 1, 0, k, mr, mc));
    }
    if slides_along(piece, 0, -1) && ray_move(piece, s, r, c, 0, -1, mr, mc) {
        let k = ray_index(r, c, 0, -1, mr, mc);
        assert(k >= 1);
        assert forall|j: int| 1 <= j < k implies cell(g, #[trigger] step(r, 0, j), step(c, -1, j)) == ' ' by {
            assert(ray_passable(piece, s, r, c, 0, -1, j));
        }
        assert(on_ray(piece, g, r, c, 0, -1, k, mr, mc));
    }
    if slides_along(piece, 0, 1) && ray_move(piece, s, r, c, 0, 1, mr, mc) {
        let k = ray_index(r, c, 0, 1, mr, mc);
        assert(k >= 1);
        assert forall|j: int| 1 <= j < k implies cell(g, #[trigger] step(r, 0, j), step(c, 1, j)) == ' ' by {
            assert(ray_passable(piece, s, r, c, 0, 1, j));
        }
        assert(on_ray(piece, g, r, c, 0, 1, k, mr, mc));
    }
    if exists|dr: int, dc: int, k: int| #[trigger] on_ray(piece, g, r, c, dr, dc, k, mr, mc) {
        let (dr, dc, k) = choose|dr: int, dc: int, k: int| #[trigger] on_ray(piece, g, r, c, dr, dc, k, mr, mc);
        lemma_rays_stop_at_first_piece(piece, g, r, c, en_passant, castling, dr, dc, k);
    }
}

/// A castling right, once lost, stays lost; a king move loses both rights
/// of its side; a rook leaving its home square, or any piece landing on a
/// rook's home square (taking the rook there), loses that rook's right.
pub proof fn lemma_castling_rights(castling: Castling, piece: char, fr: int, fc: int, tr: int, tc: int)
    ensures
        ({
            let n = next_castling(castling, piece, fr, fc, tr, tc);
            &&& (n.0 ==> castling.0) && (n.1 ==> castling.1) && (n.2 ==> castling.2) && (n.3
                ==> castling.3)
            &&& piece == 'K' ==> !n.0 && !n.1
            &&& piece == 'k' ==> !n.2 && !n.3
            &&& (tr == 7 && tc == 7) ==> !n.0
            &&& (tr == 7 && tc == 0) ==> !n.1
            &&& (tr == 0 && tc == 7) ==> !n.2
            &&& (tr == 0 && tc == 0) ==> !n.3
            &&& (piece == 'R' && fr == 7 && fc == 7) ==> !n.0
            &&& (piece == 'R' && fr == 7 && fc == 0) ==> !n.1
            &&& (piece == 'r' && fr == 0 && fc == 7) ==> !n.2
            &&& (piece == 'r' && fr == 0 && fc == 0) ==> !n.3
        }),
{
}

/// Grids that agree on which squares hold `p` agree on the last such
/// square.
proof fn lemma_last_square_agrees(g1: Seq<Seq<char>>, g2: Seq<Seq<char>>, p: char, n: int)
    requires
        0 <= n <= 64,
        forall|i: int|
            0 <= i < 64 ==> (#[trigger] cell(g1, i / 8, i % 8) == p) == (cell(g2, i / 8, i % 8) == p),
    ensures
        last_square_of(g1, p, n) == last_square_of(g2, p, n),
    decreases n,
{
    if n > 0 {
        lemma_last_square_agrees(g1, g2, p, n - 1);
    }
}

/// Whether a king is in check depends only on the attacking pieces, on
/// which squares each side holds, and on where its king stands.
proof fn lemma_in_check_agrees(
    g1: Seq<Seq<char>>,
    g2: Seq<Seq<char>>,
    player: Player,
    en_passant: Option<usize>,
)
    requires
        shade(g1) == shade(g2),
        forall|i: int|
            0 <= i < 64 ==> (#[trigger] cell(g1, i / 8, i % 8) == king_of(player)) == (cell(
                g2,
                i / 8,
                i % 8,
            ) == king_of(player)),
        forall|i: int|
            0 <= i < 64 && #[trigger] cell(g1, i / 8, i % 8) != cell(g2, i / 8, i % 8) ==> player_of(
                cell(g1, i / 8, i % 8),
            ) != player.opponent() && player_of(cell(g2, i / 8, i % 8)) != player.opponent(),
    ensures
        in_check(g1, player, en_passant) == in_check(g2, player, en_passant),
{
    lemma_last_square_agrees(g1, g2, king_of(player), 64);
    assert forall|i: int| 0 <= i < 64 implies #[trigger] attacker_at(g1, player, en_passant, i)
        == attacker_at(g2, player, en_passant, i) by {
        if cell(g1, i / 8, i % 8) != cell(g2, i / 8, i % 8) {
        }
    }
    if in_check(g1, player, en_passant) {
        let i = choose|i: int| 0 <= i < 64 && #[trigger] attacker_at(g1, player, en_passant, i);
        assert(attacker_at(g2, player, en_passant, i));
    }
    if in_check(g2, player, en_passant) {
        let i = choose|i: int| 0 <= i < 64 && #[trigger] attacker_at(g2, player, en_passant, i);
        assert(attacker_at(g1, player, en_passant, i));
    }
}

/// Every legal move is pseudo-legal, and playing it, whatever a pawn is
/// promoted to, leaves the mover's own king unattacked.
pub proof fn lemma_legal_move_keeps_king_safe(
    game: MainGame,
    piece: char,
    from: (int, int),
    to: (int, int),
    promotion: Promotion,
)
    requires
        game.wf(),
        on_board(from.0, from.1),
        game.legal_move(piece, from, to),
    ensures
        possible_move(
            piece,
            game.board@,
            from.0,
            from.1,
            game.en_passant,
            game.castling,
            to.0,
            to.1,
        ),
        !in_check(
            moved_grid(
                game.board@,
                piece,
                from.0,
                from.1,
                to.0,
                to.1,
                game.en_passant,
                game.castling,
                promotion,
            ),
            player_of(piece),
            next_en_passant(piece, from.0, from.1, to.0),
        ),
{
    let g = game.board@;
    lemma_possible_on_board(piece, g, from.0, from.1, game.en_passant, game.castling, to.0, to.1);
    let gq = moved_grid(g, piece, from.0, from.1, to.0, to.1, game.en_passant, game.castling, Promotion::Queen);
    let gp = moved_grid(g, piece, from.0, from.1, to.0, to.1, game.en_passant, game.castling, promotion);
    let player = player_of(piece);
    if landing_piece(piece, to.0, promotion) != landing_piece(piece, to.0, Promotion::Queen) {
        assert forall|r: int, c: int| on_board(r, c) && #[trigger] cell(gq, r, c) != cell(gp, r, c) implies r
            == to.0 && c == to.1 by {}
        assert(shade(gq) =~~= shade(gp));
        assert forall|i: int| 0 <= i < 64 && #[trigger] cell(gq, i / 8, i % 8) != cell(gp, i / 8, i % 8) implies player_of(
                cell(gq, i / 8, i % 8),
            ) != player.opponent() && player_of(cell(gp, i / 8, i % 8)) != player.opponent() by {
            assert(i / 8 == to.0 && i % 8 == to.1);
        }
        lemma_in_check_agrees(gq, gp, player, next_en_passant(piece, from.0, from.1, to.0));
    } else {
        assert(gq == gp);
    }
}

/// A grid of 8 rows of 8 symbols.
pub open spec fn symbol_grid(g: Seq<Seq<char>>) -> bool {
    &&& g.len() == 8
    &&& forall|r: int| 0 <= r < 8 ==> #[trigger] g[r].len() == 8
    &&& board_valid(g)
}

/// The same piece for the other side.
pub open spec fn mirror_symbol(p: char) -> char {
    if p == 'p' { 'P' } else if p == 'P' { 'p' }
    else if p == 'n' { 'N' } else if p == 'N' { 'n' }
    else if p == 'b' { 'B' } else if p == 'B' { 'b' }
    else if p == 'r' { 'R' } else if p == 'R' { 'r' }
    else if p == 'q' { 'Q' } else if p == 'Q' { 'q' }
    else if p == 'k' { 'K' } else if p == 'K' { 'k' }
    else { p }
}

/// The position with the board turned upside down and the colours
/// swapped: what stood on `(r, c)` stands, for the other side, on
/// `(7 - r, c)`.
pub open spec fn mirror_grid(g: Seq<Seq<char>>) -> Seq<Seq<char>> {
    Seq::new(8, |r: int| Seq::new(8, |c: int| mirror_symbol(g[7 - r][c])))
}

/// Square `(r, c)` of `s2` is square `(7 - r, c)` of `s`, owned by the
/// other side.
pub open spec fn mirrored_sides(s: Seq<Seq<Player>>, s2: Seq<Seq<Player>>) -> bool {
    forall|r: int, c: int| on_board(r, c) ==> #[trigger] side(s2, r, c) == side(s, 7 - r, c).opponent()
}

proof fn lemma_mirror_ray(
    p: char,
    s: Seq<Seq<Player>>,
    s2: Seq<Seq<Player>>,
    x: int,
    y: int,
    dr: int,
    dc: int,
    mr: int,
    mc: int,
)
    requires
        mirrored_sides(s, s2),
        player_of(mirror_symbol(p)) == player_of(p).opponent(),
        on_board(x, y),
        -1 <= dr <= 1,
        -1 <= dc <= 1,
        dr != 0 || dc != 0,
    ensures
        ray_move(p, s, x, y, dr, dc, mr, mc) == ray_move(mirror_symbol(p), s2, 7 - x, y, -dr, dc, 7 - mr, mc),
{
    let q = mirror_symbol(p);
    let k = ray_index(x, y, dr, dc, mr, mc);
    assert(ray_index(7 - x, y, -dr, dc, 7 - mr, mc) == k);
    if 0 <= k && on_board(step(x, dr, k), step(y, dc, k)) {
        assert forall|j: int| 0 <= j < k implies #[trigger] ray_passable(p, s, x, y, dr, dc, j)
            == ray_passable(q, s2, 7 - x, y, -dr, dc, j) by {
            assert(on_board(step(x, dr, j), step(y, dc, j)));
            assert(step(7 - x, -dr, j) == 7 - step(x, dr, j));
            assert(side(s2, 7 - step(x, dr, j), step(y, dc, j)) == side(s, step(x, dr, j), step(y, dc, j)).opponent());
        }
        assert(side(s2, 7 - step(x, dr, k), step(y, dc, k)) == side(s, step(x, dr, k), step(y, dc, k)).opponent());
        if ray_reaches(p, s, x, y, dr, dc, k) {
            assert forall|j: int| 0 <= j < k implies #[trigger] ray_passable(q, s2, 7 - x, y, -dr, dc, j) by {
                assert(ray_passable(p, s, x, y, dr, dc, j));
            }
        }
        if ray_reaches(q, s2, 7 - x, y, -dr, dc, k) {
            assert forall|j: int| 0 <= j < k implies #[trigger] ray_passable(p, s, x, y, dr, dc, j) by {
                assert(ray_passable(q, s2, 7 - x, y, -dr, dc, j));
            }
        }
    }
}

proof fn lemma_mirror_attack(
    p: char,
    s: Seq<Seq<Player>>,
    s2: Seq<Seq<Player>>,
    x: int,
    y: int,
    en_passant: Option<usize>,
    kr: int,
    kc: int,
)
    requires
        mirrored_sides(s, s2),
        is_symbol(p),
        on_board(x, y),
        on_board(kr, kc),
    ensures
        attack_move(p, s, x, y, en_passant, kr, kc) == attack_move(
            mirror_symbol(p),
            s2,
            7 - x,
            y,
            en_passant,
            7 - kr,
            kc,
        ),
{
    let q = mirror_symbol(p);
    assert(player_of(q) == player_of(p).opponent());
    if p == 'p' || p == 'P' {
        assert(side(s2, 7 - kr, kc) == side(s, kr, kc).opponent());
        assert(on_board(x + 1, y) ==> side(s2, 7 - (x + 1), y) == side(s, x + 1, y).opponent());
        assert(on_board(x - 1, y) ==> side(s2, 7 - (x - 1), y) == side(s, x - 1, y).opponent());
        assert(side(s2, 5, y) == side(s, 2, y).opponent());
        assert(side(s2, 4, y) == side(s, 3, y).opponent());
        assert(side(s2, 2, y) == side(s, 5, y).opponent());
        assert(side(s2, 3, y) == side(s, 4, y).opponent());
    } else if p == 'n' || p == 'N' || p == 'k' || p == 'K' {
        assert(side(s2, 7 - kr, kc) == side(s, kr, kc).opponent());
    } else if p == 'b' || p == 'B' || p == 'r' || p == 'R' || p == 'q' || p == 'Q' {
        lemma_mirror_ray(p, s, s2, x, y, -1, -1, kr, kc);
        lemma_mirror_ray(p, s, s2, x, y, 1, 1, kr, kc);
        lemma_mirror_ray(p, s, s2, x, y, 1, -1, kr, kc);
        lemma_mirror_ray(p, s, s2, x, y, -1, 1, kr, kc);
        lemma_mirror_ray(p, s, s2, x, y, -1, 0, kr, kc);
        lemma_mirror_ray(p, s, s2, x, y, 1, 0, kr, kc);
        lemma_mirror_ray(p, s, s2, x, y, 0, -1, kr, kc);
        lemma_mirror_ray(p, s, s2, x, y, 0, 1, kr, kc);
    }
}

/// When square number `idx` is the only one that holds `p`, it is the
/// last one among the first `n` squares, for any `n` past it.
proof fn lemma_only_square(g: Seq<Seq<char>>, p: char, idx: int, n: int)
    requires
        0 <= idx < n <= 64,
        cell(g, idx / 8, idx % 8) == p,
        forall|i: int| 0 <= i < 64 && i != idx ==> #[trigger] cell(g, i / 8, i % 8) != p,
    ensures
        last_square_of(g, p, n) == (idx / 8, idx % 8),
    decreases n,
{
    if n - 1 != idx {
        assert(cell(g, (n - 1) / 8, (n - 1) % 8) != p);
        lemma_only_square(g, p, idx, n - 1);
    }
}

/// Square number of `(7 - r, c)` for the square number `i` of `(r, c)`.
pub open spec fn mirror_index(i: int) -> int {
    (7 - i / 8) * 8 + i % 8
}

/// Check is the same for both colours: White's king (the only one on the
/// board) is attacked exactly when Black's king is attacked in the position
/// turned upside down with the colours swapped.
pub proof fn lemma_check_colour_symmetric(g: Seq<Seq<char>>, en_passant: Option<usize>)
    requires
        symbol_grid(g),
        en_passant_ok(en_passant),
        exists|i: int|
            0 <= i < 64 && #[trigger] cell(g, i / 8, i % 8) == 'K' && forall|j: int|
                0 <= j < 64 && j != i ==> #[trigger] cell(g, j / 8, j % 8) != 'K',
    ensures
        in_check(g, Player::White, en_passant) == in_check(mirror_grid(g), Player::Black, en_passant),
{
    let m = mirror_grid(g);
    let s = shade(g);
    let s2 = shade(m);
    let w = choose|i: int|
        0 <= i < 64 && #[trigger] cell(g, i / 8, i % 8) == 'K' && forall|j: int|
            0 <= j < 64 && j != i ==> #[trigger] cell(g, j / 8, j % 8) != 'K';
    assert forall|i: int| 0 <= i < 64 implies mirror_index(i) / 8 == 7 - i / 8 && mirror_index(i) % 8 == i % 8
        && 0 <= #[trigger] mirror_index(i) < 64 && mirror_index(mirror_index(i)) == i by {}
    assert forall|r: int, c: int| on_board(r, c) implies #[trigger] cell(m, r, c) == mirror_symbol(cell(g, 7 - r, c)) by {}
    assert forall|r: int, c: int| on_board(r, c) implies #[trigger] side(s2, r, c) == side(s, 7 - r, c).opponent() by {
        assert(is_symbol(cell(g, 7 - r, c)));
    }
    // The kings.
    let b = mirror_index(w);
    assert(cell(m, b / 8, b % 8) == 'k');
    assert forall|j: int| 0 <= j < 64 && j != b implies #[trigger] cell(m, j / 8, j % 8) != 'k' by {
        let i = mirror_index(j);
        assert(i != w);
        assert(cell(g, i / 8, i % 8) != 'K');
        assert(is_symbol(cell(g, i / 8, i % 8)));
    }
    lemma_only_square(g, 'K', w, 64);
    lemma_only_square(m, 'k', b, 64);
    // The attackers.
    assert forall|i: int| 0 <= i < 64 implies #[trigger] attacker_at(g, Player::White, en_passant, i)
        == attacker_at(m, Player::Black, en_passant, mirror_index(i)) by {
        let p = cell(g, i / 8, i % 8);
        assert(is_symbol(p));
        assert(cell(m, mirror_index(i) / 8, mirror_index(i) % 8) == mirror_symbol(p));
        lemma_mirror_attack(p, s, s2, i / 8, i % 8, en_passant, w / 8, w % 8);
    }
    if in_check(g, Player::White, en_passant) {
        let i = choose|i: int| 0 <= i < 64 && #[trigger] attacker_at(g, Player::White, en_passant, i);
        assert(attacker_at(m, Player::Black, en_passant, mirror_index(i)));
    }
    if in_check(m, Player::Black, en_passant) {
        let j = choose|j: int| 0 <= j < 64 && #[trigger] attacker_at(m, Player::Black, en_passant, j);
        assert(attacker_at(g, Player::White, en_passant, mirror_index(j)));
    }
}

/// The last square holding `p` among the first `n` does hold `p`, unless
/// there is none and it is `(0, 0)`.
proof fn lemma_last_square_holds(g: Seq<Seq<char>>, p: char, n: int)
    requires
        n <= 64,
    ensures
        last_square_of(g, p, n) == (0int, 0int) || ({
            let s = last_square_of(g, p, n);
            on_board(s.0, s.1) && cell(g, s.0, s.1) == p
        }),
    decreases n,
{
    if n > 0 && cell(g, (n - 1) / 8, (n - 1) % 8) != p {
        lemma_last_square_holds(g, p, n - 1);
    }
}

/// Castling never attacks a king: a castling king lands on an empty
/// square, never on the square where the other king is taken to stand. So
/// testing the attackers' pseudo-legal moves, castling included, gives the
/// same answer as `in_check`.
pub proof fn lemma_castling_attacks_no_king(
    g: Seq<Seq<char>>,
    player: Player,
    en_passant: Option<usize>,
    castling: Castling,
    i: int,
)
    requires
        0 <= i < 64,
    ensures
        ({
            let p = cell(g, i / 8, i % 8);
            let k = king_square(g, player);
            possible_move(p, g, i / 8, i % 8, en_passant, castling, k.0, k.1) == attack_move(
                p,
                shade(g),
                i / 8,
                i % 8,
                en_passant,
                k.0,
                k.1,
            )
        }),
{
    lemma_last_square_holds(g, king_of(player), 64);
}

} // verus!
