use chess::board::Chessboard;
use chess::check::{check, is_tie, player_checkmate};
use chess::game::{MainGame, Promotion};
use chess::pieces::Piece;
use chess::player::Player;

fn empty_board() -> Chessboard {
    Chessboard { board: [[' '; 8]; 8] }
}

fn game_with(board: Chessboard, turn: Player) -> MainGame {
    MainGame {
        board,
        selected_piece: ' ',
        selected_piece_pos: (9, 9),
        castling: (true, true, true, true),
        en_passant: None,
        turn,
        turn_count: 1,
        last_move: None,
    }
}

fn sorted(mut v: Vec<(usize, usize)>) -> Vec<(usize, usize)> {
    v.sort();
    v.dedup();
    v
}

fn play(game: &mut MainGame, from: (usize, usize), to: (usize, usize)) -> bool {
    let piece = game.board.board[from.0][from.1];
    let legal = game.get_legal_moves(piece, from);
    game.make_move(piece, from, &legal, to.0, to.1, Promotion::Queen)
}

#[test]
fn starting_position_layout() {
    let b = Chessboard::new();
    assert_eq!(b.board[0], ['r', 'n', 'b', 'q', 'k', 'b', 'n', 'r']);
    assert_eq!(b.board[6], ['P'; 8]);
    assert_eq!(b.board[4], [' '; 8]);
    assert_eq!(b.get(7, 4), 'K');
}

#[test]
fn players_of_symbols() {
    assert_eq!(Piece::get_player(' '), Player::Nobody);
    assert_eq!(Piece::get_player('q'), Player::Black);
    assert_eq!(Piece::get_player('Q'), Player::White);
    assert!(Piece::is_same_player('p', 'k'));
    assert!(!Piece::is_same_player('p', 'K'));
    assert!(Piece::is_opposite_player('p', 'K'));
    assert!(!Piece::is_opposite_player('p', ' '));
    assert!(!Piece::is_opposite_player('R', 'Q'));
    assert_eq!(Player::Black.name(), "Black");
}

#[test]
fn piece_values() {
    assert_eq!(Piece::get_value('p'), 1);
    assert_eq!(Piece::get_value('N'), 3);
    assert_eq!(Piece::get_value('b'), 3);
    assert_eq!(Piece::get_value('R'), 5);
    assert_eq!(Piece::get_value('q'), 9);
    assert_eq!(Piece::get_value('K'), 0);
    assert_eq!(Piece::get_value(' '), 0);
}

#[test]
fn piece_images() {
    assert_eq!(Piece::get_image('p'), "/images/bp.png");
    assert_eq!(Piece::get_image('K'), "/images/wk.png");
    assert_eq!(Piece::get_image('Q'), "/images/wq.png");
    assert_eq!(Piece::get_image(' '), "/images/ep.png");
}

#[test]
fn all_player_pieces_in_row_major_order() {
    let b = Chessboard::new();
    let black = Piece::get_all_player_pieces(Player::Black, b);
    let white = Piece::get_all_player_pieces(Player::White, b);
    assert_eq!(black.len(), 16);
    assert_eq!(white.len(), 16);
    assert_eq!(black[0], ('r', (0, 0)));
    assert_eq!(black[15], ('p', (1, 7)));
    assert_eq!(white[0], ('P', (6, 0)));
    assert_eq!(white[15], ('R', (7, 7)));
    assert!(Piece::get_all_player_pieces(Player::Nobody, b).is_empty());
}

#[test]
fn missing_pieces_and_material() {
    let mut b = Chessboard::new();
    assert!(Piece::get_missing_pieces(Player::White, b).is_empty());
    assert_eq!(Piece::material_difference(b), 0);
    b.set(0, 3, ' ');
    b.set(1, 0, ' ');
    b.set(6, 7, ' ');
    assert_eq!(Piece::get_missing_pieces(Player::Black, b), vec!['p', 'q']);
    assert_eq!(Piece::get_missing_pieces(Player::White, b), vec!['P']);
    assert_eq!(Piece::material_difference(b), 9);
    assert_eq!(Piece::total_value_of(&vec!['p', 'q', 'R', 'k']), 15);
}

#[test]
fn knight_moves_from_start() {
    let b = Chessboard::new();
    let moves = sorted(Piece::get_possible_moves('N', (7, 1), b, None, (true, true, true, true)));
    assert_eq!(moves, vec![(5, 0), (5, 2)]);
}

#[test]
fn pawn_steps_and_captures() {
    let mut b = Chessboard::new();
    let moves = sorted(Piece::get_possible_moves('P', (6, 4), b, None, (true, true, true, true)));
    assert_eq!(moves, vec![(4, 4), (5, 4)]);
    b.set(5, 3, 'n');
    b.set(5, 4, 'b');
    let moves = sorted(Piece::get_possible_moves('P', (6, 4), b, None, (true, true, true, true)));
    assert_eq!(moves, vec![(5, 3)]);
    let moves = sorted(Piece::get_possible_moves('p', (1, 0), b, None, (true, true, true, true)));
    assert_eq!(moves, vec![(2, 0), (3, 0)]);
}

#[test]
fn no_move_lands_on_own_piece_or_off_board() {
    let b = Chessboard::new();
    for r in 0..8 {
        for c in 0..8 {
            let p = b.board[r][c];
            for m in Piece::get_possible_moves(p, (r, c), b, None, (true, true, true, true)) {
                assert!(m.0 < 8 && m.1 < 8);
                assert!(!Piece::is_same_player(p, b.board[m.0][m.1]));
            }
        }
    }
}

#[test]
fn rook_ray_stops_at_pieces() {
    let mut b = empty_board();
    b.set(4, 4, 'R');
    b.set(4, 6, 'p');
    b.set(2, 4, 'N');
    let moves = Piece::get_possible_moves('R', (4, 4), b, None, (false, false, false, false));
    assert!(moves.contains(&(4, 5)));
    assert!(moves.contains(&(4, 6)));
    assert!(!moves.contains(&(4, 7)));
    assert!(moves.contains(&(3, 4)));
    assert!(!moves.contains(&(2, 4)));
    assert!(!moves.contains(&(1, 4)));
    assert!(moves.contains(&(4, 0)));
    assert!(moves.contains(&(7, 4)));
    assert!(!moves.contains(&(4, 4)));
    assert_eq!(sorted(moves).len(), 4 + 1 + 2 + 3);
}

#[test]
fn bishop_and_queen_rays() {
    let mut b = empty_board();
    b.set(3, 3, 'b');
    b.set(5, 5, 'P');
    b.set(1, 1, 'p');
    let moves = sorted(Piece::get_possible_moves('b', (3, 3), b, None, (false, false, false, false)));
    assert_eq!(moves, vec![(0, 6), (1, 5), (2, 2), (2, 4), (4, 2), (4, 4), (5, 1), (5, 5), (6, 0)]);
    b.set(3, 3, 'q');
    let moves = Piece::get_possible_moves('q', (3, 3), b, None, (false, false, false, false));
    assert_eq!(sorted(moves).len(), 9 + 14);
}

#[test]
fn check_is_seen_for_both_sides() {
    let mut b = empty_board();
    b.set(7, 4, 'K');
    b.set(0, 0, 'k');
    b.set(2, 4, 'r');
    assert!(check(b, Player::White, None, (false, false, false, false)));
    assert!(!check(b, Player::Black, None, (false, false, false, false)));
    b.set(5, 4, 'N');
    assert!(!check(b, Player::White, None, (false, false, false, false)));
    assert!(!check(b, Player::Nobody, None, (false, false, false, false)));
}

#[test]
fn check_mirrors_under_colour_swap() {
    let mut b = empty_board();
    b.set(7, 4, 'K');
    b.set(0, 0, 'k');
    b.set(4, 7, 'b');
    let mut m = empty_board();
    m.set(0, 4, 'k');
    m.set(7, 0, 'K');
    m.set(3, 7, 'B');
    assert!(check(b, Player::White, None, (false, false, false, false)));
    assert!(check(m, Player::Black, None, (false, false, false, false)));
    b.set(6, 5, 'P');
    m.set(1, 5, 'p');
    assert!(!check(b, Player::White, None, (false, false, false, false)));
    assert!(!check(m, Player::Black, None, (false, false, false, false)));
}

#[test]
fn pinned_piece_cannot_leave_the_line() {
    let mut b = empty_board();
    b.set(7, 4, 'K');
    b.set(6, 4, 'B');
    b.set(0, 4, 'r');
    b.set(0, 0, 'k');
    let game = game_with(b, Player::White);
    let possible = Piece::get_possible_moves('B', (6, 4), b, None, game.castling);
    assert!(!possible.is_empty());
    assert!(game.get_legal_moves('B', (6, 4)).is_empty());
    let king = sorted(game.get_legal_moves('K', (7, 4)));
    assert_eq!(king, vec![(6, 3), (6, 5), (7, 3), (7, 5)]);
    for m in game.get_legal_moves('K', (7, 4)) {
        let mut after = game;
        assert!(after.make_move('K', (7, 4), &vec![m], m.0, m.1, Promotion::Queen));
        assert!(!check(after.board, Player::White, after.en_passant, after.castling));
    }
}

#[test]
fn filters_keep_only_safe_squares() {
    let mut b = empty_board();
    b.set(7, 4, 'K');
    b.set(0, 4, 'r');
    b.set(0, 7, 'k');
    b.set(5, 0, 'R');
    let game = game_with(b, Player::White);
    let candidates = vec![(5, 4), (5, 1), (9, 9)];
    assert_eq!(game.prevent_selfcheck_moves('R', (5, 0), candidates.clone()), vec![(5, 4)]);
    assert_eq!(game.only_check_preventing_moves('R', (5, 0), candidates.clone()), vec![(5, 4)]);
    assert_eq!(game.only_check_preventing_moves('r', (0, 4), candidates.clone()), candidates);
    assert!(game.prevent_selfcheck_moves('R', (8, 0), vec![(5, 4)]).is_empty());
    assert!(game.get_legal_moves('R', (8, 0)).is_empty());
}

#[test]
fn fools_mate() {
    let mut game = MainGame::new();
    assert!(play(&mut game, (6, 5), (5, 5)));
    assert!(play(&mut game, (1, 4), (3, 4)));
    assert!(play(&mut game, (6, 6), (4, 6)));
    assert!(play(&mut game, (0, 3), (4, 7)));
    assert!(check(game.board, Player::White, game.en_passant, game.castling));
    assert_eq!(player_checkmate(&game), Some(Player::White));
    for (p, pos) in Piece::get_all_player_pieces(Player::White, game.board) {
        assert!(game.get_legal_moves(p, pos).is_empty());
    }
    assert!(!game.has_legal_move(Player::White));
    assert!(!is_tie(&game));
    assert_eq!(game.turn_count, 3);
}

#[test]
fn no_checkmate_at_start() {
    let game = MainGame::new();
    assert_eq!(player_checkmate(&game), None);
    assert!(!is_tie(&game));
    assert!(game.has_legal_move(Player::White));
}

#[test]
fn lone_king_stalemated() {
    let mut b = empty_board();
    b.set(0, 0, 'k');
    b.set(2, 1, 'Q');
    b.set(7, 7, 'K');
    let game = game_with(b, Player::Black);
    assert!(!check(b, Player::Black, None, game.castling));
    assert!(is_tie(&game));
    assert_eq!(player_checkmate(&game), None);
    let white_to_move = game_with(b, Player::White);
    assert!(!is_tie(&white_to_move));
}

#[test]
fn en_passant_capture() {
    let mut b = empty_board();
    b.set(7, 4, 'K');
    b.set(0, 4, 'k');
    b.set(3, 4, 'P');
    b.set(1, 3, 'p');
    let mut game = game_with(b, Player::Black);
    assert!(play(&mut game, (1, 3), (3, 3)));
    assert_eq!(game.en_passant, Some(3));
    let moves = Piece::get_possible_moves('P', (3, 4), game.board, game.en_passant, game.castling);
    assert!(moves.contains(&(2, 3)));
    assert!(play(&mut game, (3, 4), (2, 3)));
    assert_eq!(game.board.board[3][3], ' ');
    assert_eq!(game.board.board[2][3], 'P');
    assert_eq!(game.en_passant, None);
}

#[test]
fn en_passant_lasts_one_move() {
    let mut game = MainGame::new();
    assert!(play(&mut game, (6, 4), (4, 4)));
    assert_eq!(game.en_passant, Some(4));
    assert!(play(&mut game, (0, 6), (2, 5)));
    assert_eq!(game.en_passant, None);
}

#[test]
fn king_move_clears_white_castling() {
    let mut game = MainGame::new();
    game.board.set(6, 4, ' ');
    assert!(play(&mut game, (7, 4), (6, 4)));
    assert_eq!(game.castling, (false, false, true, true));
}

#[test]
fn capturing_rook_at_home_clears_black_castling() {
    let mut b = empty_board();
    b.set(7, 4, 'K');
    b.set(0, 4, 'k');
    b.set(0, 7, 'r');
    b.set(0, 0, 'r');
    b.set(5, 7, 'R');
    let mut game = game_with(b, Player::White);
    game.castling = (false, false, true, true);
    assert!(play(&mut game, (5, 7), (0, 7)));
    assert_eq!(game.castling, (false, false, false, true));
}

#[test]
fn rook_move_clears_its_right() {
    let mut game = MainGame::new();
    game.board.set(6, 0, ' ');
    assert!(play(&mut game, (7, 0), (5, 0)));
    assert_eq!(game.castling, (true, false, true, true));
}

#[test]
fn castling_kingside_moves_the_rook() {
    let mut game = MainGame::new();
    game.board.set(7, 5, ' ');
    game.board.set(7, 6, ' ');
    let moves = game.get_legal_moves('K', (7, 4));
    assert!(moves.contains(&(7, 6)));
    assert!(play(&mut game, (7, 4), (7, 6)));
    assert_eq!(game.board.board[7][4], ' ');
    assert_eq!(game.board.board[7][5], 'R');
    assert_eq!(game.board.board[7][6], 'K');
    assert_eq!(game.board.board[7][7], ' ');
    assert_eq!(game.castling, (false, false, true, true));
}

#[test]
fn castling_queenside_black() {
    let mut game = MainGame::new();
    game.turn = Player::Black;
    for c in 1..4 {
        game.board.set(0, c, ' ');
    }
    assert!(play(&mut game, (0, 4), (0, 2)));
    assert_eq!(game.board.board[0][0], ' ');
    assert_eq!(game.board.board[0][2], 'k');
    assert_eq!(game.board.board[0][3], 'r');
    assert_eq!(game.castling, (true, true, false, false));
}

#[test]
fn no_castling_out_of_check() {
    let mut b = empty_board();
    b.set(7, 4, 'K');
    b.set(7, 7, 'R');
    b.set(0, 4, 'r');
    b.set(0, 0, 'k');
    let game = game_with(b, Player::White);
    let moves = Piece::get_possible_moves('K', (7, 4), b, None, game.castling);
    assert!(!moves.contains(&(7, 6)));
    let mut b2 = b;
    b2.set(0, 4, ' ');
    b2.set(0, 5, 'r');
    let moves = Piece::get_possible_moves('K', (7, 4), b2, None, game.castling);
    assert!(!moves.contains(&(7, 6)));
    let moves = Piece::get_possible_moves('K', (7, 4), b2, None, (false, true, true, true));
    assert!(!moves.contains(&(7, 6)));
}

#[test]
fn promotion_to_chosen_piece() {
    let mut b = empty_board();
    b.set(7, 4, 'K');
    b.set(0, 4, 'k');
    b.set(1, 1, 'P');
    let mut game = game_with(b, Player::White);
    let legal = game.get_legal_moves('P', (1, 1));
    assert!(game.make_move('P', (1, 1), &legal, 0, 1, Promotion::Knight));
    assert_eq!(game.board.board[0][1], 'N');
    let mut b = empty_board();
    b.set(7, 4, 'K');
    b.set(0, 4, 'k');
    b.set(6, 6, 'p');
    let mut game = game_with(b, Player::Black);
    assert!(play(&mut game, (6, 6), (7, 6)));
    assert_eq!(game.board.board[7][6], 'q');
}

#[test]
fn insufficient_material() {
    let mut b = empty_board();
    b.set(7, 4, 'K');
    b.set(0, 4, 'k');
    b.set(4, 4, 'B');
    assert!(is_tie(&game_with(b, Player::White)));
    b.set(4, 4, 'R');
    assert!(!is_tie(&game_with(b, Player::White)));
    b.set(4, 4, ' ');
    assert!(is_tie(&game_with(b, Player::White)));
    b.set(4, 4, 'n');
    assert!(is_tie(&game_with(b, Player::White)));
}

#[test]
fn moves_out_of_turn_are_ignored() {
    let mut game = MainGame::new();
    let before = game.board;
    let legal = game.get_legal_moves('p', (1, 4));
    assert!(!game.make_move('p', (1, 4), &legal, 3, 4, Promotion::Queen));
    assert_eq!(game.board.board, before.board);
    assert_eq!(game.turn, Player::White);
    assert!(!game.make_move('P', (6, 4), &vec![(4, 4)], 9, 4, Promotion::Queen));
    assert!(!game.make_move('P', (6, 4), &vec![(4, 4)], 3, 4, Promotion::Queen));
    assert_eq!(game.turn, Player::White);
}

#[test]
fn turn_count_grows_after_black() {
    let mut game = MainGame::new();
    assert!(play(&mut game, (6, 4), (4, 4)));
    assert_eq!(game.turn_count, 1);
    assert_eq!(game.turn, Player::Black);
    assert!(play(&mut game, (1, 4), (3, 4)));
    assert_eq!(game.turn_count, 2);
    assert_eq!(game.turn, Player::White);
    assert_eq!(game.last_move, Some(((1, 4), (3, 4))));
}

#[test]
fn select_and_drop() {
    let mut game = MainGame::new();
    assert!(!game.select_square(1, 4));
    assert!(!game.select_square(9, 4));
    assert!(game.select_square(6, 4));
    assert_eq!(game.selected_piece, 'P');
    assert_eq!(game.selected_piece_pos, (6, 4));
    assert!(!game.drop_selected(3, 4, Promotion::Queen));
    assert_eq!(game.selected_piece, ' ');
    assert_eq!(game.turn, Player::White);
    assert!(!game.drop_selected(6, 4, Promotion::Queen));
    assert_eq!(game.selected_piece, 'P');
    assert!(game.drop_selected(4, 4, Promotion::Queen));
    assert_eq!(game.board.board[4][4], 'P');
    assert_eq!(game.turn, Player::Black);
}

#[test]
fn minor_pieces_without_king_are_not_a_draw() {
    let mut b = empty_board();
    b.set(0, 0, 'b');
    b.set(0, 1, 'n');
    b.set(7, 7, 'K');
    assert!(check(b, Player::White, None, (false, false, false, false)));
    assert!(!is_tie(&game_with(b, Player::White)));
    let mut b = empty_board();
    b.set(0, 0, 'k');
    b.set(0, 1, 'n');
    b.set(7, 7, 'Q');
    assert!(!is_tie(&game_with(b, Player::White)));
}

#[test]
fn no_moves_from_off_the_board() {
    let b = Chessboard::new();
    assert!(Piece::get_possible_moves('N', (8, 1), b, None, (true, true, true, true)).is_empty());
    assert!(Piece::get_possible_moves('R', (0, 9), b, None, (true, true, true, true)).is_empty());
}

#[test]
fn sliders_list_each_square_once() {
    let mut b = empty_board();
    b.set(3, 3, 'Q');
    b.set(0, 0, 'N');
    for (p, pos) in [('Q', (3, 3)), ('N', (0, 0))] {
        let moves = Piece::get_possible_moves(p, pos, b, None, (false, false, false, false));
        let mut unique = moves.clone();
        unique.sort();
        unique.dedup();
        assert_eq!(unique.len(), moves.len());
    }
}

#[test]
fn restart_only_when_over() {
    let mut game = MainGame::new();
    assert!(!game.restart_if_over(true));
    assert_eq!(game.turn, Player::White);
    assert!(play(&mut game, (6, 5), (5, 5)));
    assert!(play(&mut game, (1, 4), (3, 4)));
    assert!(play(&mut game, (6, 6), (4, 6)));
    assert!(play(&mut game, (0, 3), (4, 7)));
    assert!(game.restart_if_over(false));
    assert_eq!(game.board.board[4][7], 'q');
    assert!(game.restart_if_over(true));
    assert_eq!(game.board.board, Chessboard::new().board);
    assert_eq!(game.turn_count, 1);
    assert_eq!(game.last_move, None);
}
