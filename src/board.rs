use vstd::prelude::*;

use crate::rules::{board_valid, cell, is_symbol, on_board, put};
use crate::text::char_string;

verus! {

/// An 8x8 grid of piece symbols. Row 0 is Black's back rank, row 7 is
/// White's. Upper-case letters are White pieces, lower-case letters Black
/// pieces (`p n b r q k`), and `' '` is an empty square.
#[derive(Clone, Copy)]
pub struct Chessboard {
    pub board: [[char; 8]; 8],
}

impl View for Chessboard {
    type V = Seq<Seq<char>>;

    /// The board as eight rows of eight symbols.
    open spec fn view(&self) -> Seq<Seq<char>> {
        Seq::new(8, |r: int| self.board@[r]@)
    }
}

/// The first `n` rows of a grid, each followed by a line break.
pub open spec fn rows_text(g: Seq<Seq<char>>, n: int) -> Seq<char>
    decreases n,
{
    if n <= 0 {
        seq![]
    } else {
        rows_text(g, n - 1) + g[n - 1] + "\n"@
    }
}

impl Chessboard {
    /// Every square holds a piece letter or `' '`.
    pub open spec fn valid(self) -> bool {
        board_valid(self@)
    }

    /// The board as text for debugging: one line of symbols per row, then
    /// an empty line.
    pub fn to_text(&self) -> (r: String)
        ensures
            r@ == rows_text(self@, 8) + "\n"@,
    {
        let mut text = String::new();
        let mut i: usize = 0;
        while i < 8
            invariant
                i <= 8,
                text@ == rows_text(self@, i as int),
            decreases 8 - i,
        {
            let mut j: usize = 0;
            while j < 8
                invariant
                    i < 8,
                    j <= 8,
                    text@ == rows_text(self@, i as int) + self@[i as int].subrange(0, j as int),
                decreases 8 - j,
            {
                let ghost before = text@;
                text.append(char_string(self.board[i][j]).as_str());
                assert(self@[i as int].subrange(0, j + 1) =~= self@[i as int].subrange(0, j as int).push(self.board[i as int][j as int]));
                assert(text@ =~= rows_text(self@, i as int) + self@[i as int].subrange(0, j + 1));
                j += 1;
            }
            assert(self@[i as int].subrange(0, 8) =~= self@[i as int]);
            text.append("\n");
            i += 1;
        }
        text.append("\n");
        text
    }

    /// The standard starting position.
    pub open spec fn initial() -> Seq<Seq<char>> {
        Seq::new(8, |r: int| Self::initial_row(r))
    }

    /// Row `r` of the standard starting position.
    pub open spec fn initial_row(r: int) -> Seq<char> {
        if r == 0 {
            seq!['r', 'n', 'b', 'q', 'k', 'b', 'n', 'r']
        } else if r == 1 {
            seq!['p', 'p', 'p', 'p', 'p', 'p', 'p', 'p']
        } else if r == 6 {
            seq!['P', 'P', 'P', 'P', 'P', 'P', 'P', 'P']
        } else if r == 7 {
            seq!['R', 'N', 'B', 'Q', 'K', 'B', 'N', 'R']
        } else {
            seq![' ', ' ', ' ', ' ', ' ', ' ', ' ', ' ']
        }
    }

    /// Builds the standard starting position.
    pub fn new() -> (b: Chessboard)
        ensures
            b@ == Self::initial(),
            b.valid(),
    {
        let b = Chessboard {
            board: [
                ['r', 'n', 'b', 'q', 'k', 'b', 'n', 'r'],
                ['p', 'p', 'p', 'p', 'p', 'p', 'p', 'p'],
                [' ', ' ', ' ', ' ', ' ', ' ', ' ', ' '],
                [' ', ' ', ' ', ' ', ' ', ' ', ' ', ' '],
                [' ', ' ', ' ', ' ', ' ', ' ', ' ', ' '],
                [' ', ' ', ' ', ' ', ' ', ' ', ' ', ' '],
                ['P', 'P', 'P', 'P', 'P', 'P', 'P', 'P'],
                ['R', 'N', 'B', 'Q', 'K', 'B', 'N', 'R'],
            ],
        };
        assert(b@ =~~= Self::initial());
        b
    }

    /// The symbol on square `(r, c)`.
    pub fn get(&self, r: usize, c: usize) -> (p: char)
        requires
            r < 8,
            c < 8,
        ensures
            p == cell(self@, r as int, c as int),
    {
        self.board[r][c]
    }

    /// Puts `p` on square `(r, c)`, leaving every other square as it was.
    pub fn set(&mut self, r: usize, c: usize, p: char)
        requires
            r < 8,
            c < 8,
        ensures
            final(self)@ == put(old(self)@, r as int, c as int, p),
            old(self).valid() && is_symbol(p) ==> final(self).valid(),
    {
        self.board[r][c] = p;
        assert(self@ =~~= put(old(self)@, r as int, c as int, p));
        assert forall|i: int, j: int| on_board(i, j) && old(self).valid() && is_symbol(p) implies is_symbol(
            #[trigger] cell(self@, i, j),
        ) by {
            assert(is_symbol(cell(old(self)@, i, j)));
        }
    }
}

} // verus!
