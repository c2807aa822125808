//! What the text of a position says, character by character.
use vstd::prelude::*;

use crate::chess::color::Color;
use crate::chess::fen::{
    board_of_text, empty_board, ep_real, fen_fields, fen_text, lemma_ep_no_space,
    lemma_ranks_no_space, lemma_rights_read, piece_char, piece_of_char, position_of_text,
    ranks_text, row_text, run_text,
};
use crate::chess::piece::Piece;
use crate::chess::position::PositionModel;
use crate::chess::rules::{at_most_at, king_of, lemma_may_take, may_take};
use crate::chess::text::{
    digit_char, digit_value, digits_value, law_decimal, law_split_join, no_space, split,
};

verus! {

/// The letter for a square: a capital letter for a white piece, the small one for a black piece, and
/// a blank for an empty square.
pub open spec fn letter(x: Piece) -> char {
    match x {
        Piece::WhitePawn => 'P',
        Piece::WhiteKnight => 'N',
        Piece::WhiteBishop => 'B',
        Piece::WhiteRook => 'R',
        Piece::WhiteQueen => 'Q',
        Piece::WhiteKing => 'K',
        Piece::BlackPawn => 'p',
        Piece::BlackKnight => 'n',
        Piece::BlackBishop => 'b',
        Piece::BlackRook => 'r',
        Piece::BlackQueen => 'q',
        Piece::BlackKing => 'k',
        Piece::Empty => ' ',
    }
}

/// Whether `c` is a digit from 1 to 8.
pub open spec fn is_run(c: char) -> bool {
    49 <= c as u32 <= 56
}

/// `n` blanks.
pub open spec fn blanks(n: nat) -> Seq<char> {
    Seq::new(n, |i: int| ' ')
}

/// The text `s` with as many blanks in place of each digit as it says.
pub open spec fn expand(s: Seq<char>) -> Seq<char>
    decreases s.len(),
{
    if s.len() == 0 {
        Seq::empty()
    } else if is_run(s.last()) {
        expand(s.drop_last()) + blanks((s.last() as u32 - 48) as nat)
    } else {
        expand(s.drop_last()).push(s.last())
    }
}

/// Texts are expanded one after the other.
proof fn lemma_expand_concat(a: Seq<char>, b: Seq<char>)
    ensures
        expand(a + b) == expand(a) + expand(b),
    decreases b.len(),
{
    if b.len() == 0 {
        assert(a + b =~= a);
        assert(expand(a) + expand(b) =~= expand(a));
    } else {
        lemma_expand_concat(a, b.drop_last());
        assert((a + b).drop_last() =~= a + b.drop_last());
        assert(expand(a + b) =~= expand(a) + expand(b));
    }
}

/// One character is expanded to itself, or to blanks.
proof fn lemma_expand_one(c: char)
    ensures
        expand(seq![c]) == if is_run(c) {
            blanks((c as u32 - 48) as nat)
        } else {
            seq![c]
        },
{
    let s = seq![c];
    assert(s.drop_last() =~= Seq::empty());
    assert(expand(s.drop_last()) =~= Seq::empty());
    assert(expand(s) =~= if is_run(c) {
        blanks((c as u32 - 48) as nat)
    } else {
        seq![c]
    });
}

/// The letters of the squares from `sq` to `end`.
pub open spec fn letters(board: Seq<Piece>, sq: int, end: int) -> Seq<char> {
    Seq::new((end - sq) as nat, |i: int| letter(board[sq + i]))
}

/// The text of a row is expanded to the letters of its squares.
proof fn lemma_row_expanded(board: Seq<Piece>, sq: int, end: int, run: nat)
    requires
        sq <= end,
        run + (end - sq) <= 8,
    ensures
        expand(row_text(board, sq, end, run)) == blanks(run) + letters(board, sq, end),
    decreases end - sq,
{
    let want = blanks(run) + letters(board, sq, end);
    if sq >= end {
        if run == 0 {
            assert(expand(row_text(board, sq, end, run)) =~= want);
        } else {
            lemma_expand_one(digit_char(run));
            assert(expand(row_text(board, sq, end, run)) =~= want);
        }
    } else if board[sq] is Empty {
        lemma_row_expanded(board, sq + 1, end, run + 1);
        assert(blanks(run + 1) + letters(board, sq + 1, end) =~= want);
    } else {
        let c = piece_char(board[sq]);
        let rest = row_text(board, sq + 1, end, 0);
        lemma_row_expanded(board, sq + 1, end, 0);
        lemma_expand_concat(run_text(run) + seq![c], rest);
        lemma_expand_concat(run_text(run), seq![c]);
        lemma_expand_one(c);
        if run > 0 {
            lemma_expand_one(digit_char(run));
        }
        assert(expand(run_text(run)) =~= blanks(run));
        assert(blanks(run) + seq![c] + (blanks(0) + letters(board, sq + 1, end)) =~= want);
    }
}

/// The ranks from `rank` down, expanded.
proof fn lemma_ranks_expanded(board: Seq<Piece>, rank: int, r: int, f: int)
    requires
        0 <= r <= rank < 8,
        0 <= f < 8,
    ensures
        ({
            let s = expand(ranks_text(board, rank));
            &&& s.len() == 9 * rank + 8
            &&& s[9 * (rank - r) + f] == letter(board[8 * r + f])
            &&& r > 0 ==> s[9 * (rank - r) + 8] == '/'
        }),
    decreases rank,
{
    let row = row_text(board, 8 * rank, 8 * rank + 8, 0);
    lemma_row_expanded(board, 8 * rank, 8 * rank + 8, 0);
    let first = blanks(0) + letters(board, 8 * rank, 8 * rank + 8);
    assert(first =~= letters(board, 8 * rank, 8 * rank + 8));
    if rank > 0 {
        let rest = ranks_text(board, rank - 1);
        lemma_expand_concat(row + seq!['/'], rest);
        lemma_expand_concat(row, seq!['/']);
        lemma_expand_one('/');
        if r < rank {
            lemma_ranks_expanded(board, rank - 1, r, f);
        } else {
            lemma_ranks_expanded(board, rank - 1, 0, 0);
        }
    }
}

/// The first field of the text of a position, with blanks in place of the digits, shows the board as
/// white sees it: the letters of the eight ranks from the last to the first, each from the first
/// file to the last, with a slash between each two.
pub proof fn law_fen_board(p: PositionModel, r: int, f: int)
    requires
        0 <= r < 8,
        0 <= f < 8,
    ensures
        ({
            let s = expand(fen_fields(p)[0]);
            &&& s.len() == 71
            &&& s[9 * (7 - r) + f] == letter(p.board[8 * r + f])
            &&& r > 0 ==> s[9 * (7 - r) + 8] == '/'
        }),
{
    lemma_ranks_expanded(p.board, 7, r, f);
}

/// No two digits stand side by side in `s`.
pub open spec fn runs_apart(s: Seq<char>) -> bool {
    forall|i: int, j: int|
        0 <= i < s.len() && 0 <= j < s.len() && is_run(#[trigger] s[i]) && is_run(#[trigger] s[j])
            ==> j != i + 1
}

proof fn lemma_row_runs(board: Seq<Piece>, sq: int, end: int, run: nat)
    ensures
        runs_apart(row_text(board, sq, end, run)),
    decreases end - sq,
{
    if sq < end {
        if board[sq] is Empty {
            lemma_row_runs(board, sq + 1, end, run + 1);
        } else {
            let c = piece_char(board[sq]);
            let rest = row_text(board, sq + 1, end, 0);
            let head = run_text(run) + seq![c];
            let s = head + rest;
            lemma_row_runs(board, sq + 1, end, 0);
            assert(!is_run(c));
            assert forall|i: int, j: int|
                0 <= i < s.len() && 0 <= j < s.len() && is_run(#[trigger] s[i]) && is_run(
                    #[trigger] s[j],
                ) implies j != i + 1 by {
                if i >= head.len() && j >= head.len() {
                    assert(s[i] == rest[i - head.len()]);
                    assert(s[j] == rest[j - head.len()]);
                }
            }
        }
    }
}

proof fn lemma_ranks_runs(board: Seq<Piece>, rank: int)
    ensures
        runs_apart(ranks_text(board, rank)),
    decreases rank,
{
    lemma_row_runs(board, 8 * rank, 8 * rank + 8, 0);
    lemma_row_runs(board, 0, 8, 0);
    if rank > 0 {
        lemma_ranks_runs(board, rank - 1);
        let row = row_text(board, 8 * rank, 8 * rank + 8, 0);
        let head = row + seq!['/'];
        let rest = ranks_text(board, rank - 1);
        let s = head + rest;
        assert forall|i: int, j: int|
            0 <= i < s.len() && 0 <= j < s.len() && is_run(#[trigger] s[i]) && is_run(
                #[trigger] s[j],
            ) implies j != i + 1 by {
            if i < row.len() && j < row.len() {
                assert(s[i] == row[i]);
                assert(s[j] == row[j]);
            } else if i >= head.len() && j >= head.len() {
                assert(s[i] == rest[i - head.len()]);
                assert(s[j] == rest[j - head.len()]);
            } else {
                assert(s[row.len() as int] == '/');
            }
        }
    }
}

/// Each run of empty squares of a rank is one digit in the text of a position.
pub proof fn law_fen_runs(p: PositionModel)
    ensures
        runs_apart(fen_fields(p)[0]),
{
    lemma_ranks_runs(p.board, 7);
}

/// The six fields of the text of a position. The second is `w` or `b` for the side to move. The third
/// has a letter for each castling right, `K` and `Q` for white and `k` and `q` for black, in this
/// order, or a minus sign if there is none. The fourth is the name of the en passant square, or a
/// minus sign. The last two are the rule50 counter and the number of the move in decimal digits.
pub proof fn law_fen_fields(p: PositionModel)
    ensures
        ({
            let f = split(fen_text(p));
            let r = p.castling_rights;
            let ep = p.ep_square.idx as int;
            &&& f == fen_fields(p)
            &&& f.len() == 6
            &&& p.side_to_move is White ==> f[1] == seq!['w']
            &&& p.side_to_move is Black ==> f[1] == seq!['b']
            &&& f[2] == {
                if r.white_king_side || r.white_queen_side || r.black_king_side
                    || r.black_queen_side {
                    (if r.white_king_side {
                        seq!['K']
                    } else {
                        seq![]
                    }) + (if r.white_queen_side {
                        seq!['Q']
                    } else {
                        seq![]
                    }) + (if r.black_king_side {
                        seq!['k']
                    } else {
                        seq![]
                    }) + (if r.black_queen_side {
                        seq!['q']
                    } else {
                        seq![]
                    })
                } else {
                    seq!['-']
                }
            }
            &&& ep < 64 ==> f[3].len() == 2 && f[3][0] as u32 == 97 + ep % 8 && f[3][1] as u32 == 49
                + ep / 8
            &&& ep >= 64 ==> f[3] == seq!['-']
            &&& digits_value(f[4]) == Some(p.rule50_counter as nat)
            &&& digits_value(f[5]) == Some(p.fullmove as nat)
        }),
{
    let f = fen_fields(p);
    lemma_fen_fields_no_space(p);
    law_decimal(p.rule50_counter as nat);
    law_decimal(p.fullmove as nat);
    law_split_join(f);
}

/// No field of the text of a position has a space in it.
pub proof fn lemma_fen_fields_no_space(p: PositionModel)
    ensures
        forall|i: int| 0 <= i < 6 ==> no_space(#[trigger] fen_fields(p)[i]),
{
    lemma_ranks_no_space(p.board, 7);
    lemma_rights_read(p.castling_rights);
    lemma_ep_no_space(p.ep_square);
    law_decimal(p.rule50_counter as nat);
    law_decimal(p.fullmove as nat);
}

/// Where the square on file `f` of rank `r` is shown in what is left of a board that has been read up
/// to `file` on `rank`.
spec fn shown_at(rank: int, file: int, r: int, f: int) -> int {
    if r == rank {
        f - file
    } else {
        8 - file + 1 + 9 * (rank - 1 - r) + f
    }
}

/// What is read of a board from the place `i` of its text on.
#[verifier::rlimit(40)]
proof fn lemma_board_shown(
    s: Seq<char>,
    i: int,
    rank: int,
    file: int,
    board: Seq<Piece>,
    r: int,
    f: int,
)
    requires
        0 <= i <= s.len(),
        0 <= rank < 8,
        0 <= file <= 8,
        board.len() == 64,
        forall|q: int|
            0 <= q < 64 && (q / 8 < rank || (q / 8 == rank && q % 8 >= file))
                ==> #[trigger] board[q] is Empty,
        board_of_text(s, i, rank, file, board) is Some,
        0 <= r < 8,
        0 <= f < 8,
    ensures
        ({
            let b = board_of_text(s, i, rank, file, board)->0;
            let t = expand(s.skip(i));
            &&& b.len() == 64
            &&& t.len() == 9 * rank + 8 - file
            &&& r > rank || (r == rank && f < file) ==> b[8 * r + f] == board[8 * r + f]
            &&& r < rank || (r == rank && f >= file) ==> t[shown_at(rank, file, r, f)] == letter(
                b[8 * r + f],
            )
        }),
    decreases s.len() - i,
{
    let b = board_of_text(s, i, rank, file, board)->0;
    if i < s.len() {
        let c = s[i];
        let rest = s.skip(i + 1);
        assert(s.skip(i) =~= seq![c] + rest);
        lemma_expand_concat(seq![c], rest);
        lemma_expand_one(c);
        if c == '/' {
            assert forall|q: int|
                0 <= q < 64 && (q / 8 < rank - 1 || (q / 8 == rank - 1 && q % 8 >= 0)) implies (
            #[trigger] board[q]) is Empty by {}
            lemma_board_shown(s, i + 1, rank - 1, 0, board, r, f);
        } else if let Some(x) = piece_of_char(c) {
            let next = board.update(8 * rank + file, x);
            assert forall|q: int|
                0 <= q < 64 && (q / 8 < rank || (q / 8 == rank && q % 8 >= file + 1)) implies (
            #[trigger] next[q]) is Empty by {
                assert(board[q] is Empty);
            }
            lemma_board_shown(s, i + 1, rank, file + 1, next, r, f);
            assert(letter(x) == c);
        } else {
            let n = digit_value(c)->0;
            assert forall|q: int|
                0 <= q < 64 && (q / 8 < rank || (q / 8 == rank && q % 8 >= file + n)) implies (
            #[trigger] board[q]) is Empty by {}
            lemma_board_shown(s, i + 1, rank, file + n, board, r, f);
            if r == rank && file <= f < file + n {
                assert(board[8 * r + f] is Empty);
            }
        }
    } else {
        assert(s.skip(i) =~= Seq::empty());
    }
}

/// What is read from a text is what it says: it has six fields, the first shows the board as white
/// sees it once its digits are blanks, the second is `w` or `b` for the side to move, the third has
/// the letters `K`, `Q`, `k` and `q` for the castling rights or a minus sign for none, the fourth is
/// the name of a square or a minus sign, and the last two are the rule50 counter and the number of
/// the move.
pub proof fn law_fen_says(s: Seq<char>, r: int, f: int)
    requires
        position_of_text(s) is Some,
        0 <= r < 8,
        0 <= f < 8,
    ensures
        ({
            let p = position_of_text(s)->0;
            let field = split(s);
            let t = expand(field[0]);
            let ep = field[3];
            &&& field.len() == 6
            &&& p.board.len() == 64
            &&& t.len() == 71
            &&& t[9 * (7 - r) + f] == letter(p.board[8 * r + f])
            &&& p.side_to_move is White <==> field[1] == seq!['w']
            &&& p.side_to_move is Black <==> field[1] == seq!['b']
            &&& field[2].len() > 0
            &&& field[2] == seq!['-'] || forall|i: int|
                0 <= i < field[2].len() ==> {
                    let c = #[trigger] field[2][i];
                    c == 'K' || c == 'Q' || c == 'k' || c == 'q'
                }
            &&& p.castling_rights.white_king_side == field[2].contains('K')
            &&& p.castling_rights.white_queen_side == field[2].contains('Q')
            &&& p.castling_rights.black_king_side == field[2].contains('k')
            &&& p.castling_rights.black_queen_side == field[2].contains('q')
            &&& p.ep_square.idx == 64 || (ep.len() == 2 && ep[0] as u32 == 97 + p.ep_square.idx % 8
                && ep[1] as u32 == 49 + p.ep_square.idx / 8)
            &&& ep == seq!['-'] ==> p.ep_square.idx == 64
            &&& field[4].len() > 0
            &&& field[5].len() > 0
            &&& digits_value(field[4]) == Some(p.rule50_counter as nat)
            &&& digits_value(field[5]) == Some(p.fullmove as nat)
        }),
{
    let p = position_of_text(s)->0;
    let field = split(s);
    assert(field[0].skip(0) =~= field[0]);
    lemma_board_shown(field[0], 0, 7, 0, empty_board(), r, f);
    assert(seq!['w'][0] == 'w');
    assert(seq!['b'][0] == 'b');
    if field[2] == seq!['-'] {
        assert(!field[2].contains('K'));
    }
}

/// An en passant square that is read is kept if it lies on the sixth rank above a black pawn, for
/// white to move, or on the third below a white one, for black to move, and a pawn of the side to
/// move may capture there. `k` is the square of its king, if it has one, and its only one.
pub proof fn law_ep_real(board: Seq<Piece>, ep: int, c: Color, k: int)
    requires
        board.len() == 64,
        0 <= ep < 64,
        board[ep] is Empty,
        at_most_at(board, king_of(c), k),
    ensures
        c is White ==> ep_real(board, ep, c) == (40 <= ep < 48 && board[ep - 8] is BlackPawn && exists|
            a: int,
        | #[trigger] may_take(board, Color::Black, a, ep, ep - 8)),
        c is Black ==> ep_real(board, ep, c) == (16 <= ep < 24 && board[ep + 8] is WhitePawn && exists|
            a: int,
        | #[trigger] may_take(board, Color::White, a, ep, ep + 8)),
{
    if c is White && 40 <= ep < 48 && board[ep - 8] is BlackPawn {
        lemma_may_take(board, Color::Black, ep, ep - 8, k);
    }
    if c is Black && 16 <= ep < 24 && board[ep + 8] is WhitePawn {
        lemma_may_take(board, Color::White, ep, ep + 8, k);
    }
}

} // verus!
