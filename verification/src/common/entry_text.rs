//! Moves and entries as text.
use vstd::prelude::*;

use crate::chess::chess_move::{Move, MoveType};
use crate::chess::color::Color;
use crate::chess::fen::{
    append_square, fen_text, lemma_join_six, piece_char, piece_str, square_text,
};
use crate::chess::fen_rules::law_fen_fields;
use crate::chess::piece::Piece;
use crate::chess::text::{
    append_decimal, append_signed, append_space, decimal, join, law_decimal, law_signed_decimal,
    law_split_join, lemma_split_concat, no_space, signed_decimal, signed_value, split,
};
use crate::common::entry::{EntryModel, TrainingDataEntry};

verus! {

/// The text of a move: its two squares, and the small letter of the piece that a pawn becomes. Four
/// zeros for a move that moves nothing.
pub open spec fn uci_text(m: Move) -> Seq<char> {
    if !m.on_board() {
        seq!['0', '0', '0', '0']
    } else {
        square_text(m.from.idx as int) + square_text(m.to.idx as int) + if m.mtype is Promotion {
            seq![piece_char(Piece::spec_new(m.promoted.spec_piece_type(), Color::Black))]
        } else {
            Seq::empty()
        }
    }
}

/// The text of an entry: the position, the move, the score, the ply, the result and the draw score.
pub open spec fn entry_text(e: EntryModel) -> Seq<char> {
    join(
        seq![
            fen_text(e.pos),
            uci_text(e.mv),
            signed_decimal(e.score as int),
            decimal(e.ply as nat),
            signed_decimal(e.result as int),
            signed_decimal(e.draw_score as int),
        ],
    )
}

/// The text of a move names its squares, the files by the letters from `a` on and the ranks by the
/// digits from 1 on, and at its end the piece that a pawn becomes, with a small letter for either
/// side.
pub proof fn law_uci(m: Move)
    ensures
        ({
            let s = uci_text(m);
            let f = m.from.idx as int;
            let t = m.to.idx as int;
            let x = m.promoted;
            &&& f >= 64 || t >= 64 ==> s == seq!['0', '0', '0', '0']
            &&& f < 64 && t < 64 ==> {
                &&& s.len() == if m.mtype is Promotion {
                    5int
                } else {
                    4
                }
                &&& s[0] as u32 == 97 + f % 8
                &&& s[1] as u32 == 49 + f / 8
                &&& s[2] as u32 == 97 + t % 8
                &&& s[3] as u32 == 49 + t / 8
                &&& m.mtype is Promotion && (x is WhiteKnight || x is BlackKnight) ==> s[4] == 'n'
                &&& m.mtype is Promotion && (x is WhiteBishop || x is BlackBishop) ==> s[4] == 'b'
                &&& m.mtype is Promotion && (x is WhiteRook || x is BlackRook) ==> s[4] == 'r'
                &&& m.mtype is Promotion && (x is WhiteQueen || x is BlackQueen) ==> s[4] == 'q'
            }
        }),
{
}

/// The text of an entry is that of its position and its move, and four numbers.
proof fn lemma_entry_text(e: EntryModel)
    ensures
        split(entry_text(e)) == split(fen_text(e.pos)) + split(uci_text(e.mv)) + seq![
            signed_decimal(e.score as int),
            decimal(e.ply as nat),
            signed_decimal(e.result as int),
            signed_decimal(e.draw_score as int),
        ],
{
    let a = fen_text(e.pos);
    let b = uci_text(e.mv);
    let last = seq![
        signed_decimal(e.score as int),
        decimal(e.ply as nat),
        signed_decimal(e.result as int),
        signed_decimal(e.draw_score as int),
    ];
    law_signed_decimal(e.score as int);
    law_decimal(e.ply as nat);
    law_signed_decimal(e.result as int);
    law_signed_decimal(e.draw_score as int);
    law_split_join(last);
    let all = seq![a, b] + last;
    assert(all =~= seq![a, b, last[0], last[1], last[2], last[3]]);
    assert(all.skip(1) =~= seq![b] + last);
    assert((seq![b] + last).skip(1) =~= last);
    let t = join(last);
    assert(join(seq![b] + last) == b + seq![' '] + t);
    assert(join(all) == a + seq![' '] + (b + seq![' '] + t));
    lemma_split_concat(b, t);
    lemma_split_concat(a, b + seq![' '] + t);
    assert(split(entry_text(e)) =~= split(a) + split(b) + last);
}

/// The last four fields of the text of an entry, between its spaces, are its score, its ply, its
/// result and its draw score in decimal digits, those below zero with a minus sign.
pub proof fn law_entry_text_numbers(e: EntryModel)
    ensures
        ({
            let f = split(entry_text(e));
            let n = f.len() as int;
            &&& n >= 4
            &&& signed_value(f[n - 4]) == Some(e.score as int)
            &&& signed_value(f[n - 3]) == Some(e.ply as int)
            &&& signed_value(f[n - 2]) == Some(e.result as int)
            &&& signed_value(f[n - 1]) == Some(e.draw_score as int)
        }),
{
    lemma_entry_text(e);
    law_signed_decimal(e.score as int);
    law_signed_decimal(e.ply as int);
    law_signed_decimal(e.result as int);
    law_signed_decimal(e.draw_score as int);
}

/// The text of an entry has eleven fields between its spaces: the six of its position, its move,
/// its score, its ply, its result and its draw score. A promotion is to name the piece that the pawn
/// becomes.
pub proof fn law_entry_text_fields(e: EntryModel)
    requires
        e.mv.mtype is Promotion ==> !(e.mv.promoted is Empty),
    ensures
        ({
            let f = split(entry_text(e));
            &&& f.len() == 11
            &&& f.take(6) == split(fen_text(e.pos))
            &&& f[6] == uci_text(e.mv)
            &&& signed_value(f[7]) == Some(e.score as int)
            &&& signed_value(f[8]) == Some(e.ply as int)
            &&& signed_value(f[9]) == Some(e.result as int)
            &&& signed_value(f[10]) == Some(e.draw_score as int)
        }),
{
    let f = split(entry_text(e));
    lemma_entry_text(e);
    law_entry_text_numbers(e);
    law_fen_fields(e.pos);
    let u = uci_text(e.mv);
    assert(no_space(u));
    law_split_join(seq![u]);
    assert(split(u) == seq![u]);
    assert(f.take(6) =~= split(fen_text(e.pos)));
}

/// Entries that differ in their score, ply, result or draw score have different texts.
pub proof fn law_entry_text_tells(e: EntryModel, other: EntryModel)
    requires
        entry_text(e) == entry_text(other),
    ensures
        e.score == other.score,
        e.ply == other.ply,
        e.result == other.result,
        e.draw_score == other.draw_score,
{
    law_entry_text_numbers(e);
    law_entry_text_numbers(other);
}

impl Move {
    /// The move as text.
    pub fn as_uci(&self) -> (r: String)
        ensures
            r@ == uci_text(*self),
    {
        let mut out = String::new();
        if !self.from.on_board() || !self.to.on_board() {
            proof {
                reveal_strlit("0000");
            }
            out.append("0000");
        } else {
            append_square(&mut out, self.from);
            append_square(&mut out, self.to);
            if self.mtype == MoveType::Promotion {
                out.append(piece_str(Piece::new(self.promoted.piece_type(), Color::Black)));
            }
        }
        assert(out@ =~= uci_text(*self));
        out
    }
}

impl TrainingDataEntry {
    /// The entry as text.
    pub fn text(&self) -> (r: String)
        ensures
            r@ == entry_text(self@),
    {
        let mut out = self.pos.fen();
        append_space(&mut out);
        out.append(self.mv.as_uci().as_str());
        append_space(&mut out);
        append_signed(&mut out, self.score as i32);
        append_space(&mut out);
        append_decimal(&mut out, self.ply as u32);
        append_space(&mut out);
        append_signed(&mut out, self.result as i32);
        append_space(&mut out);
        append_signed(&mut out, self.draw_score as i32);
        proof {
            let e = self@;
            lemma_join_six(
                fen_text(e.pos),
                uci_text(e.mv),
                signed_decimal(e.score as int),
                decimal(e.ply as nat),
                signed_decimal(e.result as int),
                signed_decimal(e.draw_score as int),
            );
        }
        out
    }
}

} // verus!
