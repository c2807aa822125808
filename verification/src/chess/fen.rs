//! Positions in Forsyth-Edwards notation.
use vstd::prelude::*;

use crate::chess::castling_rights::CastlingRights;
use crate::chess::color::Color;
use crate::chess::coords::{file_of, rank_of, Square};
use crate::chess::piece::Piece;
use crate::chess::piecetype::PieceType;
use crate::chess::position::{ep_possible, ep_possible_exec, Position, PositionModel};
use crate::chess::text::{
    append_decimal, append_space, chars_of, decimal, digit_char, digit_value, join, law_decimal,
    law_split_join, no_space, number_of_text, parse_number, split, split_fields, texts,
};

verus! {

/// The letter of a piece, a capital one if it is white; a space if there is no piece.
pub open spec fn piece_char(p: Piece) -> char {
    match p {
        Piece::WhitePawn => 'P',
        Piece::BlackPawn => 'p',
        Piece::WhiteKnight => 'N',
        Piece::BlackKnight => 'n',
        Piece::WhiteBishop => 'B',
        Piece::BlackBishop => 'b',
        Piece::WhiteRook => 'R',
        Piece::BlackRook => 'r',
        Piece::WhiteQueen => 'Q',
        Piece::BlackQueen => 'q',
        Piece::WhiteKing => 'K',
        Piece::BlackKing => 'k',
        Piece::Empty => ' ',
    }
}

/// The piece with the letter `c`.
pub open spec fn piece_of_char(c: char) -> Option<Piece> {
    match c {
        'P' => Some(Piece::WhitePawn),
        'p' => Some(Piece::BlackPawn),
        'N' => Some(Piece::WhiteKnight),
        'n' => Some(Piece::BlackKnight),
        'B' => Some(Piece::WhiteBishop),
        'b' => Some(Piece::BlackBishop),
        'R' => Some(Piece::WhiteRook),
        'r' => Some(Piece::BlackRook),
        'Q' => Some(Piece::WhiteQueen),
        'q' => Some(Piece::BlackQueen),
        'K' => Some(Piece::WhiteKing),
        'k' => Some(Piece::BlackKing),
        _ => None,
    }
}

/// The letter of a file, `a` for the first.
pub open spec fn file_char(file: int) -> char {
    if file == 0 {
        'a'
    } else if file == 1 {
        'b'
    } else if file == 2 {
        'c'
    } else if file == 3 {
        'd'
    } else if file == 4 {
        'e'
    } else if file == 5 {
        'f'
    } else if file == 6 {
        'g'
    } else {
        'h'
    }
}

/// The name of the square `sq`: its file and its rank.
pub open spec fn square_text(sq: int) -> Seq<char> {
    seq![file_char(file_of(sq)), digit_char((rank_of(sq) + 1) as nat)]
}

/// A run of `n` empty squares.
pub open spec fn run_text(n: nat) -> Seq<char> {
    if n == 0 {
        Seq::empty()
    } else {
        seq![digit_char(n)]
    }
}

/// The squares from `sq` to `end`, with `run` empty squares before them: the letters of the pieces,
/// and the lengths of the runs of empty squares.
pub open spec fn row_text(board: Seq<Piece>, sq: int, end: int, run: nat) -> Seq<char>
    decreases end - sq,
{
    if sq >= end {
        run_text(run)
    } else if board[sq] is Empty {
        row_text(board, sq + 1, end, run + 1)
    } else {
        run_text(run) + seq![piece_char(board[sq])] + row_text(board, sq + 1, end, 0)
    }
}

/// The ranks from `rank` down to the first, with a slash between each two.
pub open spec fn ranks_text(board: Seq<Piece>, rank: int) -> Seq<char>
    decreases rank,
{
    if rank <= 0 {
        row_text(board, 0, 8, 0)
    } else {
        row_text(board, 8 * rank, 8 * rank + 8, 0) + seq!['/'] + ranks_text(board, rank - 1)
    }
}

/// The side to move.
pub open spec fn side_text(c: Color) -> Seq<char> {
    match c {
        Color::White => seq!['w'],
        Color::Black => seq!['b'],
    }
}

/// The letter `c` if `there` holds.
pub open spec fn letter_if(there: bool, c: char) -> Seq<char> {
    if there {
        seq![c]
    } else {
        Seq::empty()
    }
}

/// The castling rights: a letter for each one, a minus sign for none.
pub open spec fn rights_text(r: CastlingRights) -> Seq<char> {
    if r == CastlingRights::spec_none() {
        seq!['-']
    } else {
        letter_if(r.white_king_side, 'K') + letter_if(r.white_queen_side, 'Q') + letter_if(
            r.black_king_side,
            'k',
        ) + letter_if(r.black_queen_side, 'q')
    }
}

/// The en passant square, a minus sign if there is none.
pub open spec fn ep_text(ep: Square) -> Seq<char> {
    if ep.spec_on_board() {
        square_text(ep.idx as int)
    } else {
        seq!['-']
    }
}

/// The six fields of a position.
pub open spec fn fen_fields(p: PositionModel) -> Seq<Seq<char>> {
    seq![
        ranks_text(p.board, 7),
        side_text(p.side_to_move),
        rights_text(p.castling_rights),
        ep_text(p.ep_square),
        decimal(p.rule50_counter as nat),
        decimal(p.fullmove as nat),
    ]
}

/// The text of a position.
pub open spec fn fen_text(p: PositionModel) -> Seq<char> {
    join(fen_fields(p))
}

/// The board that `s` describes from `i` on, if the squares before `file` on `rank` and those on the
/// ranks above it are as on `board`.
pub open spec fn board_of_text(
    s: Seq<char>,
    i: int,
    rank: int,
    file: int,
    board: Seq<Piece>,
) -> Option<Seq<Piece>>
    decreases s.len() - i,
{
    if i >= s.len() {
        if rank == 0 && file == 8 {
            Some(board)
        } else {
            None
        }
    } else if s[i] == '/' {
        if rank > 0 && file == 8 {
            board_of_text(s, i + 1, rank - 1, 0, board)
        } else {
            None
        }
    } else if let Some(p) = piece_of_char(s[i]) {
        if file < 8 {
            board_of_text(s, i + 1, rank, file + 1, board.update(8 * rank + file, p))
        } else {
            None
        }
    } else if let Some(n) = digit_value(s[i]) {
        if n > 0 && file + n <= 8 {
            board_of_text(s, i + 1, rank, file + n, board)
        } else {
            None
        }
    } else {
        None
    }
}

/// The board without a piece.
pub open spec fn empty_board() -> Seq<Piece> {
    Seq::new(64, |i: int| Piece::Empty)
}

/// The side to move that `s` names.
pub open spec fn side_of_text(s: Seq<char>) -> Option<Color> {
    if s == seq!['w'] {
        Some(Color::White)
    } else if s == seq!['b'] {
        Some(Color::Black)
    } else {
        None
    }
}

/// Whether `c` stands for a castling right.
pub open spec fn is_right(c: char) -> bool {
    c == 'K' || c == 'Q' || c == 'k' || c == 'q'
}

/// The castling rights that `s` names: a minus sign, or one or more letters.
pub open spec fn rights_of_text(s: Seq<char>) -> Option<CastlingRights> {
    if s == seq!['-'] {
        Some(CastlingRights::spec_none())
    } else if s.len() > 0 && forall|i: int| 0 <= i < s.len() ==> is_right(#[trigger] s[i]) {
        Some(
            CastlingRights {
                white_king_side: s.contains('K'),
                white_queen_side: s.contains('Q'),
                black_king_side: s.contains('k'),
                black_queen_side: s.contains('q'),
            },
        )
    } else {
        None
    }
}

/// The square that `s` names, or no square for a minus sign.
pub open spec fn ep_of_text(s: Seq<char>) -> Option<Square> {
    if s == seq!['-'] {
        Some(Square::spec_none())
    } else if s.len() == 2 && 97 <= s[0] as u32 <= 104 && 49 <= s[1] as u32 <= 56 {
        Some(Square { idx: (8 * (s[1] as u32 - 49) + (s[0] as u32 - 97)) as u8 })
    } else {
        None
    }
}

/// The square of the pawn that is captured en passant on `ep` by the side `c`.
pub open spec fn pushed_pawn(ep: int, c: Color) -> int {
    match c {
        Color::White => ep - 8,
        Color::Black => ep + 8,
    }
}

/// Whether the side to move `c` can capture en passant on `ep`: a pawn of the other side has just
/// passed it, and a pawn of side `c` may capture it there.
pub open spec fn ep_real(board: Seq<Piece>, ep: int, c: Color) -> bool {
    &&& rank_of(ep) == match c {
        Color::White => 5int,
        Color::Black => 2,
    }
    &&& board[pushed_pawn(ep, c)] == Piece::spec_new(PieceType::Pawn, c.spec_opposite())
    &&& ep_possible(board, ep, pushed_pawn(ep, c), c)
}

/// The position that `s` describes: six fields, as in `fen_fields`. The en passant square is dropped
/// if nothing can be captured there.
pub open spec fn position_of_text(s: Seq<char>) -> Option<PositionModel> {
    let f = split(s);
    if f.len() != 6 {
        None
    } else {
        match (
            board_of_text(f[0], 0, 7, 0, empty_board()),
            side_of_text(f[1]),
            rights_of_text(f[2]),
            ep_of_text(f[3]),
            number_of_text(f[4]),
            number_of_text(f[5]),
        ) {
            (
                Some(board),
                Some(side_to_move),
                Some(castling_rights),
                Some(ep),
                Some(rule50_counter),
                Some(fullmove),
            ) => Some(
                PositionModel {
                    board,
                    side_to_move,
                    ep_square: if ep.spec_on_board() && ep_real(
                        board,
                        ep.idx as int,
                        side_to_move,
                    ) {
                        ep
                    } else {
                        Square::spec_none()
                    },
                    castling_rights,
                    rule50_counter,
                    fullmove,
                },
            ),
            _ => None,
        }
    }
}

/// The text of a row has no space in it.
proof fn lemma_row_no_space(board: Seq<Piece>, sq: int, end: int, run: nat)
    ensures
        no_space(row_text(board, sq, end, run)),
    decreases end - sq,
{
    if sq < end {
        if board[sq] is Empty {
            lemma_row_no_space(board, sq + 1, end, run + 1);
        } else {
            lemma_row_no_space(board, sq + 1, end, 0);
        }
    }
}

/// The text of the ranks has no space in it.
pub proof fn lemma_ranks_no_space(board: Seq<Piece>, rank: int)
    ensures
        no_space(ranks_text(board, rank)),
    decreases rank,
{
    lemma_row_no_space(board, 8 * rank, 8 * rank + 8, 0);
    lemma_row_no_space(board, 0, 8, 0);
    if rank > 0 {
        lemma_ranks_no_space(board, rank - 1);
    }
}

/// The beginning of `board` as it is read: all squares of the ranks above `rank`, and those before
/// `file` on it. The others are empty.
spec fn read_so_far(board: Seq<Piece>, rank: int, file: int) -> Seq<Piece> {
    Seq::new(
        64,
        |sq: int|
            if rank_of(sq) > rank || (rank_of(sq) == rank && file_of(sq) < file) {
                board[sq]
            } else {
                Piece::Empty
            },
    )
}

/// A row is read back from its text.
proof fn lemma_row_read(
    board: Seq<Piece>,
    s: Seq<char>,
    i: int,
    rank: int,
    file: int,
    run: nat,
)
    requires
        board.len() == 64,
        0 <= rank < 8,
        0 <= run <= file <= 8,
        forall|q: int|
            8 * rank + file - run <= q < 8 * rank + file ==> (#[trigger] board[q]) is Empty,
        0 <= i,
        ({
            let row = row_text(board, 8 * rank + file, 8 * rank + 8, run);
            &&& i + row.len() <= s.len()
            &&& s.subrange(i, i + row.len()) == row
        }),
    ensures
        ({
            let row = row_text(board, 8 * rank + file, 8 * rank + 8, run);
            board_of_text(s, i, rank, file - run, read_so_far(board, rank, file - run))
                == board_of_text(s, i + row.len(), rank, 8, read_so_far(board, rank, 8))
        }),
    decreases 8 - file,
{
    let sq = 8 * rank + file;
    let end = 8 * rank + 8;
    let row = row_text(board, sq, end, run);
    let before = read_so_far(board, rank, file - run);
    let here = read_so_far(board, rank, file);
    assert(before =~= here) by {
        assert forall|q: int| 0 <= q < 64 implies before[q] == here[q] by {
            if rank_of(q) == rank && file - run <= file_of(q) < file {
                assert(q == 8 * rank + file_of(q));
            }
        }
    }
    if file == 8 {
        if run > 0 {
            assert(s[i] == s.subrange(i, i + row.len())[0]);
            assert(digit_value(s[i]) == Some(run));
            assert(piece_of_char(s[i]) is None);
        }
    } else if board[sq] is Empty {
        lemma_row_read(board, s, i, rank, file + 1, run + 1);
    } else {
        let rest = row_text(board, sq + 1, end, 0);
        let j = i + run_text(run).len();
        assert(row =~= run_text(run) + (seq![piece_char(board[sq])] + rest));
        assert(s[j] == s.subrange(i, i + row.len())[run_text(run).len() as int]);
        assert(piece_of_char(s[j]) == Some(board[sq]));
        assert(s.subrange(j + 1, j + 1 + rest.len()) =~= rest) by {
            assert(s.subrange(j + 1, j + 1 + rest.len()) =~= s.subrange(i, i + row.len()).skip(
                run_text(run).len() as int + 1,
            ));
        }
        if run > 0 {
            assert(s[i] == s.subrange(i, i + row.len())[0]);
            assert(digit_value(s[i]) == Some(run));
        }
        assert(here.update(sq, board[sq]) =~= read_so_far(board, rank, file + 1)) by {
            assert(rank_of(sq) == rank && file_of(sq) == file);
            assert forall|q: int| 0 <= q < 64 implies here.update(sq, board[sq])[q] == read_so_far(
                board,
                rank,
                file + 1,
            )[q] by {
                if rank_of(q) == rank && file_of(q) == file {
                    assert(q == sq);
                }
            }
        }
        assert(board_of_text(s, i, rank, file - run, before) == board_of_text(
            s,
            j,
            rank,
            file,
            here,
        ));
        assert(board_of_text(s, j, rank, file, here) == board_of_text(
            s,
            j + 1,
            rank,
            file + 1,
            here.update(sq, board[sq]),
        ));
        lemma_row_read(board, s, j + 1, rank, file + 1, 0);
    }
}

/// The ranks of a board are read back from their text.
proof fn lemma_ranks_read(board: Seq<Piece>, s: Seq<char>, i: int, rank: int)
    requires
        board.len() == 64,
        0 <= rank < 8,
        0 <= i <= s.len(),
        s.skip(i) == ranks_text(board, rank),
    ensures
        board_of_text(s, i, rank, 0, read_so_far(board, rank, 0)) == Some(board),
    decreases rank,
{
    let row = row_text(board, 8 * rank, 8 * rank + 8, 0);
    let j = i + row.len();
    assert(s.skip(i).len() == s.len() - i);
    assert(row.len() <= ranks_text(board, rank).len());
    assert(s.subrange(i, j) =~= row) by {
        assert(s.subrange(i, j) =~= s.skip(i).take(row.len() as int));
        assert(ranks_text(board, rank).take(row.len() as int) =~= row);
    }
    lemma_row_read(board, s, i, rank, 0, 0);
    if rank == 0 {
        assert(read_so_far(board, 0, 8) =~= board);
    } else {
        assert(s[j] == s.skip(i)[row.len() as int]);
        assert(s.skip(j + 1) =~= ranks_text(board, rank - 1)) by {
            assert(s.skip(j + 1) =~= s.skip(i).skip(row.len() as int + 1));
            assert(ranks_text(board, rank).skip(row.len() as int + 1) =~= ranks_text(board, rank - 1));
        }
        assert(read_so_far(board, rank, 8) =~= read_so_far(board, rank - 1, 0));
        lemma_ranks_read(board, s, j + 1, rank - 1);
    }
}

/// Castling rights are read back from their text.
pub proof fn lemma_rights_read(r: CastlingRights)
    ensures
        rights_of_text(rights_text(r)) == Some(r),
        no_space(rights_text(r)),
{
    let s = rights_text(r);
    let a = letter_if(r.white_king_side, 'K');
    let b = letter_if(r.white_queen_side, 'Q');
    let c = letter_if(r.black_king_side, 'k');
    let d = letter_if(r.black_queen_side, 'q');
    if r != CastlingRights::spec_none() {
        let k = a.len() as int;
        let l = k + b.len();
        let m = l + c.len();
        assert(s == a + b + c + d);
        if r.white_king_side {
            assert(s[0] == 'K');
        }
        if r.white_queen_side {
            assert(s[k] == 'Q');
        }
        if r.black_king_side {
            assert(s[l] == 'k');
        }
        if r.black_queen_side {
            assert(s[m] == 'q');
        }
        assert(s.len() > 0);
        assert(s[0] != '-');
        assert(seq!['-'][0] == '-');
    }
}

/// An en passant square is read back from its text.
proof fn lemma_ep_read(ep: Square)
    requires
        ep.idx <= 64,
    ensures
        ep_of_text(ep_text(ep)) == Some(ep),
        no_space(ep_text(ep)),
{
    if ep.spec_on_board() {
        let s = ep_text(ep);
        assert(s[1] == digit_char((rank_of(ep.idx as int) + 1) as nat));
        assert(s.len() == 2);
        assert(seq!['-'].len() == 1);
    }
}

/// The text of an en passant square has no space in it.
pub proof fn lemma_ep_no_space(ep: Square)
    ensures
        no_space(ep_text(ep)),
{
}

/// A position is read back from its text, but for an en passant square where nothing can be
/// captured, which is dropped.
pub proof fn law_fen_read(p: PositionModel)
    requires
        p.board.len() == 64,
        p.ep_square.idx <= 64,
    ensures
        ({
            let kept = p.ep_square.idx < 64 && ep_real(
                p.board,
                p.ep_square.idx as int,
                p.side_to_move,
            );
            &&& kept ==> position_of_text(fen_text(p)) == Some(p)
            &&& !kept ==> position_of_text(fen_text(p)) == Some(
                PositionModel { ep_square: Square { idx: 64 }, ..p },
            )
        }),
{
    let f = fen_fields(p);
    lemma_ranks_no_space(p.board, 7);
    lemma_rights_read(p.castling_rights);
    lemma_ep_read(p.ep_square);
    law_decimal(p.rule50_counter as nat);
    law_decimal(p.fullmove as nat);
    law_split_join(f);
    assert(f[0].skip(0) =~= ranks_text(p.board, 7));
    assert(read_so_far(p.board, 7, 0) =~= empty_board());
    lemma_ranks_read(p.board, f[0], 0, 7);
    assert(side_of_text(f[1]) == Some(p.side_to_move)) by {
        assert(seq!['w'][0] == 'w');
        assert(seq!['b'][0] == 'b');
    }
    assert(position_of_text(fen_text(p))->0 =~= (PositionModel {
        ep_square: position_of_text(fen_text(p))->0.ep_square,
        ..p
    }));
}

/// A position is read back from its text, if its en passant square is one where something can be
/// captured.
pub proof fn law_fen_round_trip(p: PositionModel)
    requires
        p.board.len() == 64,
        p.ep_square == Square::spec_none() || (p.ep_square.spec_on_board() && ep_real(
            p.board,
            p.ep_square.idx as int,
            p.side_to_move,
        )),
    ensures
        position_of_text(fen_text(p)) == Some(p),
{
    law_fen_read(p);
}

/// The letter of a piece.
pub fn piece_str(p: Piece) -> (r: &'static str)
    ensures
        r@ == seq![piece_char(p)],
{
    proof {
        reveal_strlit("P");
        reveal_strlit("p");
        reveal_strlit("N");
        reveal_strlit("n");
        reveal_strlit("B");
        reveal_strlit("b");
        reveal_strlit("R");
        reveal_strlit("r");
        reveal_strlit("Q");
        reveal_strlit("q");
        reveal_strlit("K");
        reveal_strlit("k");
        reveal_strlit(" ");
    }
    let r = match p {
        Piece::WhitePawn => "P",
        Piece::BlackPawn => "p",
        Piece::WhiteKnight => "N",
        Piece::BlackKnight => "n",
        Piece::WhiteBishop => "B",
        Piece::BlackBishop => "b",
        Piece::WhiteRook => "R",
        Piece::BlackRook => "r",
        Piece::WhiteQueen => "Q",
        Piece::BlackQueen => "q",
        Piece::WhiteKing => "K",
        Piece::BlackKing => "k",
        Piece::Empty => " ",
    };
    assert(r@ =~= seq![piece_char(p)]);
    r
}

fn file_str(file: u8) -> (r: &'static str)
    requires
        file < 8,
    ensures
        r@ == seq![file_char(file as int)],
{
    proof {
        reveal_strlit("a");
        reveal_strlit("b");
        reveal_strlit("c");
        reveal_strlit("d");
        reveal_strlit("e");
        reveal_strlit("f");
        reveal_strlit("g");
        reveal_strlit("h");
    }
    let r = match file {
        0 => "a",
        1 => "b",
        2 => "c",
        3 => "d",
        4 => "e",
        5 => "f",
        6 => "g",
        _ => "h",
    };
    assert(r@ =~= seq![file_char(file as int)]);
    r
}

/// Appends the name of the square `sq`.
pub fn append_square(out: &mut String, sq: Square)
    requires
        sq.spec_on_board(),
    ensures
        final(out)@ == old(out)@ + square_text(sq.idx as int),
{
    out.append(file_str(sq.file()));
    append_decimal(out, sq.rank() as u32 + 1);
    assert(out@ =~= old(out)@ + square_text(sq.idx as int));
}

fn append_run(out: &mut String, run: u8)
    requires
        run <= 8,
    ensures
        final(out)@ == old(out)@ + run_text(run as nat),
{
    if run > 0 {
        append_decimal(out, run as u32);
    }
    assert(out@ =~= old(out)@ + run_text(run as nat));
}

fn append_row(out: &mut String, board: &[Piece; 64], rank: u8)
    requires
        rank < 8,
    ensures
        final(out)@ == old(out)@ + row_text(board@, 8 * rank as int, 8 * rank as int + 8, 0),
{
    let ghost whole = old(out)@ + row_text(board@, 8 * rank as int, 8 * rank as int + 8, 0);
    let mut file: u8 = 0;
    let mut run: u8 = 0;
    while file < 8
        invariant
            rank < 8,
            run <= file <= 8,
            out@ + row_text(board@, 8 * rank as int + file, 8 * rank as int + 8, run as nat)
                == whole,
        decreases 8 - file,
    {
        let piece = board[(8 * rank + file) as usize];
        if piece == Piece::Empty {
            run = run + 1;
        } else {
            let ghost before = out@;
            append_run(out, run);
            out.append(piece_str(piece));
            proof {
                let rest = row_text(board@, 8 * rank as int + file + 1, 8 * rank as int + 8, 0);
                assert(out@ + rest =~= before + (run_text(run as nat) + seq![piece_char(piece)]
                    + rest));
            }
            run = 0;
        }
        file = file + 1;
    }
    append_run(out, run);
}

fn append_board(out: &mut String, board: &[Piece; 64])
    ensures
        final(out)@ == old(out)@ + ranks_text(board@, 7),
{
    proof {
        reveal_strlit("/");
    }
    let ghost whole = old(out)@ + ranks_text(board@, 7);
    let mut rank: u8 = 7;
    while rank > 0
        invariant
            rank <= 7,
            out@ + ranks_text(board@, rank as int) == whole,
            "/"@ == seq!['/'],
        decreases rank,
    {
        let ghost before = out@;
        append_row(out, board, rank);
        out.append("/");
        proof {
            let row = row_text(board@, 8 * rank as int, 8 * rank as int + 8, 0);
            let rest = ranks_text(board@, rank - 1);
            assert(out@ + rest =~= before + (row + seq!['/'] + rest));
        }
        rank = rank - 1;
    }
    append_row(out, board, 0);
}

fn append_rights(out: &mut String, r: CastlingRights)
    ensures
        final(out)@ == old(out)@ + rights_text(r),
{
    proof {
        reveal_strlit("-");
        reveal_strlit("K");
        reveal_strlit("Q");
        reveal_strlit("k");
        reveal_strlit("q");
    }
    if r == CastlingRights::none() {
        out.append("-");
    } else {
        if r.white_king_side {
            out.append("K");
        }
        if r.white_queen_side {
            out.append("Q");
        }
        if r.black_king_side {
            out.append("k");
        }
        if r.black_queen_side {
            out.append("q");
        }
    }
    assert(out@ =~= old(out)@ + rights_text(r));
}

fn parse_piece(c: char) -> (r: Option<Piece>)
    ensures
        r == piece_of_char(c),
{
    match c {
        'P' => Some(Piece::WhitePawn),
        'p' => Some(Piece::BlackPawn),
        'N' => Some(Piece::WhiteKnight),
        'n' => Some(Piece::BlackKnight),
        'B' => Some(Piece::WhiteBishop),
        'b' => Some(Piece::BlackBishop),
        'R' => Some(Piece::WhiteRook),
        'r' => Some(Piece::BlackRook),
        'Q' => Some(Piece::WhiteQueen),
        'q' => Some(Piece::BlackQueen),
        'K' => Some(Piece::WhiteKing),
        'k' => Some(Piece::BlackKing),
        _ => None,
    }
}

fn parse_board(s: &Vec<char>) -> (r: Option<[Piece; 64]>)
    ensures
        match board_of_text(s@, 0, 7, 0, empty_board()) {
            Some(board) => r is Some && r->0@ == board,
            None => r is None,
        },
{
    let mut board: [Piece; 64] = [Piece::Empty;64];
    let mut rank: u8 = 7;
    let mut file: u8 = 0;
    let mut i: usize = 0;
    assert(board@ =~= empty_board());
    while i < s.len()
        invariant
            i <= s@.len(),
            rank <= 7,
            file <= 8,
            board_of_text(s@, 0, 7, 0, empty_board()) == board_of_text(
                s@,
                i as int,
                rank as int,
                file as int,
                board@,
            ),
        decreases s@.len() - i,
    {
        let c: char = s[i];
        if c == '/' {
            if rank == 0 || file != 8 {
                return None;
            }
            rank = rank - 1;
            file = 0;
        } else if let Some(p) = parse_piece(c) {
            if file >= 8 {
                return None;
            }
            board[(8 * rank + file) as usize] = p;
            file = file + 1;
        } else {
            let n: u32 = c as u32;
            if n < 49 || n > 57 {
                return None;
            }
            let n: u8 = (n - 48) as u8;
            if file + n > 8 {
                return None;
            }
            file = file + n;
        }
        i = i + 1;
    }
    if rank == 0 && file == 8 {
        Some(board)
    } else {
        None
    }
}

fn parse_side(s: &Vec<char>) -> (r: Option<Color>)
    ensures
        r == side_of_text(s@),
{
    proof {
        if s@.len() == 1 {
            assert(s@ =~= seq![s@[0]]);
        }
        assert(seq!['w'].len() == 1 && seq!['w'][0] == 'w');
        assert(seq!['b'].len() == 1 && seq!['b'][0] == 'b');
    }
    if s.len() != 1 {
        None
    } else if s[0] == 'w' {
        Some(Color::White)
    } else if s[0] == 'b' {
        Some(Color::Black)
    } else {
        None
    }
}

fn parse_rights(s: &Vec<char>) -> (r: Option<CastlingRights>)
    ensures
        r == rights_of_text(s@),
{
    proof {
        assert(seq!['-'].len() == 1 && seq!['-'][0] == '-');
        if s@.len() == 1 {
            assert(s@ =~= seq![s@[0]]);
        }
    }
    if s.len() == 0 {
        return None;
    }
    if s.len() == 1 && s[0] == '-' {
        return Some(CastlingRights::none());
    }
    let mut r = CastlingRights::none();
    let mut i: usize = 0;
    while i < s.len()
        invariant
            i <= s@.len(),
            s@ != seq!['-'],
            forall|j: int| 0 <= j < i ==> is_right(#[trigger] s@[j]),
            r.white_king_side == exists|j: int| 0 <= j < i && s@[j] == 'K',
            r.white_queen_side == exists|j: int| 0 <= j < i && s@[j] == 'Q',
            r.black_king_side == exists|j: int| 0 <= j < i && s@[j] == 'k',
            r.black_queen_side == exists|j: int| 0 <= j < i && s@[j] == 'q',
        decreases s@.len() - i,
    {
        let c: char = s[i];
        if c == 'K' {
            r.white_king_side = true;
        } else if c == 'Q' {
            r.white_queen_side = true;
        } else if c == 'k' {
            r.black_king_side = true;
        } else if c == 'q' {
            r.black_queen_side = true;
        } else {
            assert(!is_right(s@[i as int]));
            return None;
        }
        i = i + 1;
    }
    Some(r)
}

fn parse_ep(s: &Vec<char>) -> (r: Option<Square>)
    ensures
        r == ep_of_text(s@),
{
    proof {
        assert(seq!['-'].len() == 1 && seq!['-'][0] == '-');
        if s@.len() == 1 {
            assert(s@ =~= seq![s@[0]]);
        }
    }
    if s.len() == 1 && s[0] == '-' {
        return Some(Square::none());
    }
    if s.len() != 2 {
        return None;
    }
    let file: u32 = s[0] as u32;
    let rank: u32 = s[1] as u32;
    if file < 97 || file > 104 || rank < 49 || rank > 56 {
        return None;
    }
    Some(Square::new((8 * (rank - 49) + (file - 97)) as u8))
}

fn is_ep_real(board: &[Piece; 64], ep: Square, c: Color) -> (r: bool)
    requires
        ep.spec_on_board(),
    ensures
        r == ep_real(board@, ep.idx as int, c),
{
    let pawn = Piece::new(PieceType::Pawn, c.opposite());
    let pushed: u8 = match c {
        Color::White => {
            if ep.rank() != 5 {
                return false;
            }
            ep.idx - 8
        },
        Color::Black => {
            if ep.rank() != 2 {
                return false;
            }
            ep.idx + 8
        },
    };
    board[pushed as usize] == pawn && ep_possible_exec(board, ep.idx, pushed, c)
}

/// Six fields, written one after the other with spaces between them.
pub proof fn lemma_join_six(
    a: Seq<char>,
    b: Seq<char>,
    c: Seq<char>,
    d: Seq<char>,
    e: Seq<char>,
    f: Seq<char>,
)
    ensures
        join(seq![a, b, c, d, e, f]) == (((((a.push(' ') + b).push(' ') + c).push(' ') + d).push(
            ' ',
        ) + e).push(' ') + f),
{
    let sp = seq![' '];
    assert(seq![a, b, c, d, e, f].skip(1) =~= seq![b, c, d, e, f]);
    assert(seq![b, c, d, e, f].skip(1) =~= seq![c, d, e, f]);
    assert(seq![c, d, e, f].skip(1) =~= seq![d, e, f]);
    assert(seq![d, e, f].skip(1) =~= seq![e, f]);
    assert(seq![e, f].skip(1) =~= seq![f]);
    assert(join(seq![f]) == f);
    assert(join(seq![e, f]) == e + sp + f);
    assert(join(seq![d, e, f]) == d + sp + join(seq![e, f]));
    assert(join(seq![c, d, e, f]) == c + sp + join(seq![d, e, f]));
    assert(join(seq![b, c, d, e, f]) == b + sp + join(seq![c, d, e, f]));
    assert(join(seq![a, b, c, d, e, f]) =~= (((((a.push(' ') + b).push(' ') + c).push(' ')
        + d).push(' ') + e).push(' ') + f));
}

impl Position {
    /// The position in Forsyth-Edwards notation.
    pub fn fen(&self) -> (r: String)
        ensures
            r@ == fen_text(self@),
    {
        proof {
            reveal_strlit("w");
            reveal_strlit("b");
            reveal_strlit("-");
            assert("w"@ =~= seq!['w']);
            assert("b"@ =~= seq!['b']);
            assert("-"@ =~= seq!['-']);
        }
        let mut out = String::new();
        append_board(&mut out, &self.board);
        assert(out@ =~= ranks_text(self@.board, 7));
        append_space(&mut out);
        match self.side_to_move {
            Color::White => out.append("w"),
            Color::Black => out.append("b"),
        }
        append_space(&mut out);
        append_rights(&mut out, self.castling_rights);
        append_space(&mut out);
        if self.ep_square.on_board() {
            append_square(&mut out, self.ep_square);
        } else {
            out.append("-");
        }
        append_space(&mut out);
        append_decimal(&mut out, self.rule50_counter as u32);
        append_space(&mut out);
        append_decimal(&mut out, self.fullmove as u32);
        proof {
            lemma_join_six(
                ranks_text(self@.board, 7),
                side_text(self@.side_to_move),
                rights_text(self@.castling_rights),
                ep_text(self@.ep_square),
                decimal(self@.rule50_counter as nat),
                decimal(self@.fullmove as nat),
            );
        }
        out
    }

    /// The position that a text in Forsyth-Edwards notation describes. The en passant square is
    /// dropped if nothing can be captured there.
    pub fn from_fen(fen: &str) -> (r: Option<Position>)
        ensures
            match position_of_text(fen@) {
                Some(p) => r is Some && r->0@ == p,
                None => r is None,
            },
    {
        let fields: Vec<Vec<char>> = split_fields(&chars_of(fen));
        if fields.len() != 6 {
            return None;
        }
        assert forall|i: int| 0 <= i < 6 implies split(fen@)[i] == #[trigger] fields@[i]@ by {
            assert(texts(fields@)[i] == fields@[i]@);
        }
        match (
            parse_board(&fields[0]),
            parse_side(&fields[1]),
            parse_rights(&fields[2]),
            parse_ep(&fields[3]),
            parse_number(&fields[4]),
            parse_number(&fields[5]),
        ) {
            (
                Some(board),
                Some(side_to_move),
                Some(castling_rights),
                Some(ep),
                Some(rule50_counter),
                Some(fullmove),
            ) => {
                let ep_square = if ep.on_board() && is_ep_real(&board, ep, side_to_move) {
                    ep
                } else {
                    Square::none()
                };
                Some(
                    Position {
                        board,
                        side_to_move,
                        ep_square,
                        castling_rights,
                        rule50_counter,
                        fullmove,
                    },
                )
            },
            _ => None,
        }
    }
}

} // verus!
