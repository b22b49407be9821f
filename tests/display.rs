use chess::board::Chessboard;
use chess::game::{MainGame, Promotion, SquareColor};
use chess::notation::move_notation;
use chess::player::Player;

fn play(game: &mut MainGame, from: (usize, usize), to: (usize, usize), promotion: Promotion) -> String {
    let before = *game;
    let piece = game.board.board[from.0][from.1];
    let legal = game.get_legal_moves(piece, from);
    assert!(game.make_move(piece, from, &legal, to.0, to.1, promotion));
    move_notation(&before, game, piece, from, to, promotion)
}

#[test]
fn board_text_dump() {
    let text = Chessboard::new().to_text();
    let expected = "rnbqkbnr\npppppppp\n        \n        \n        \n        \nPPPPPPPP\nRNBQKBNR\n\n";
    assert_eq!(text, expected);
}

#[test]
fn notation_of_simple_moves() {
    let mut game = MainGame::new();
    assert_eq!(play(&mut game, (6, 4), (4, 4), Promotion::Queen), "1. \u{200b}\u{200b}e4\u{200b}\u{200b}");
    assert_eq!(play(&mut game, (0, 6), (2, 5), Promotion::Queen), " N\u{200b}f6\u{200b}\u{200b}\n");
    assert_eq!(play(&mut game, (7, 5), (3, 1), Promotion::Queen), "2. B\u{200b}b5\u{200b}\u{200b}");
    assert_eq!(play(&mut game, (1, 2), (2, 2), Promotion::Queen), " \u{200b}\u{200b}c6\u{200b}\u{200b}\n");
    assert_eq!(play(&mut game, (3, 1), (2, 2), Promotion::Queen), "3. Bxc6\u{200b}\u{200b}");
    assert_eq!(play(&mut game, (1, 3), (2, 2), Promotion::Queen), " \u{200b}dxc6\u{200b}\u{200b}\n");
}

#[test]
fn notation_of_castling_check_and_mate() {
    let mut game = MainGame::new();
    game.board.set(7, 5, ' ');
    game.board.set(7, 6, ' ');
    assert_eq!(play(&mut game, (7, 4), (7, 6), Promotion::Queen), "1. O-O\u{200b}");

    let mut game = MainGame::new();
    play(&mut game, (6, 5), (5, 5), Promotion::Queen);
    play(&mut game, (1, 4), (3, 4), Promotion::Queen);
    play(&mut game, (6, 6), (4, 6), Promotion::Queen);
    assert_eq!(play(&mut game, (0, 3), (4, 7), Promotion::Queen), " Q\u{200b}h4\u{200b}#\n");

    let mut b = Chessboard { board: [[' '; 8]; 8] };
    b.set(7, 4, 'K');
    b.set(0, 0, 'k');
    b.set(4, 1, 'R');
    let mut game = MainGame::new();
    game.board = b;
    game.castling = (false, false, false, false);
    assert_eq!(play(&mut game, (4, 1), (4, 0), Promotion::Queen), "1. R\u{200b}a4\u{200b}+");
}

#[test]
fn notation_of_promotion() {
    let mut b = Chessboard { board: [[' '; 8]; 8] };
    b.set(7, 4, 'K');
    b.set(0, 7, 'k');
    b.set(1, 0, 'P');
    let mut game = MainGame::new();
    game.board = b;
    game.castling = (false, false, false, false);
    assert_eq!(play(&mut game, (1, 0), (0, 0), Promotion::Rook), "1. \u{200b}\u{200b}a8=R+");
}

#[test]
fn square_colors() {
    let mut game = MainGame::new();
    assert_eq!(game.square_color(0, 0, &vec![], None, false, false), SquareColor::Light);
    assert_eq!(game.square_color(0, 1, &vec![], None, false, false), SquareColor::Dark);
    assert!(game.select_square(6, 4));
    let moves = game.get_legal_moves('P', (6, 4));
    assert_eq!(game.square_color(6, 4, &moves, None, false, false), SquareColor::Selected);
    assert_eq!(game.square_color(4, 4, &moves, None, false, false), SquareColor::PossibleMove);
    assert_eq!(game.square_color(7, 4, &moves, None, false, true), SquareColor::Check);
    assert_eq!(game.square_color(1, 4, &vec![(1, 4)], None, false, false), SquareColor::PossibleCapture);
    assert_eq!(game.square_color(7, 0, &moves, Some(Player::White), false, false), SquareColor::Checkmate);
    assert_eq!(game.square_color(0, 0, &moves, None, true, false), SquareColor::Tie);
    assert!(game.drop_selected(4, 4, Promotion::Queen));
    assert_eq!(game.square_color(6, 4, &vec![], None, false, false), SquareColor::LastMoveStart);
    assert_eq!(game.square_color(4, 4, &vec![], None, false, false), SquareColor::LastMoveEnd);
}

#[test]
fn promotion_keys() {
    assert_eq!(Promotion::from_keys(false, false, false, false), Promotion::Queen);
    assert_eq!(Promotion::from_keys(true, true, false, false), Promotion::Queen);
    assert_eq!(Promotion::from_keys(false, true, true, false), Promotion::Rook);
    assert_eq!(Promotion::from_keys(false, false, true, true), Promotion::Knight);
    assert_eq!(Promotion::from_keys(false, false, false, true), Promotion::Bishop);
}
