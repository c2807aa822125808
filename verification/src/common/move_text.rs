//! How the plies after a stem are stored: for each one its move, its score and its draw score.
use vstd::prelude::*;

use crate::chess::bitboard::{count, count_below, lemma_count_below_bounds, lemma_nth_of_count, nth};
use crate::chess::chess_move::Move;
use crate::chess::position::{pieces_of, PositionModel};
use crate::common::arithmetic::{
    lemma_sum_of_difference, law_unzigzag_zigzag, lemma_used_bits, unzigzag, used_bits,
    wrapping_difference, wrapping_sum, zigzag,
};
use crate::common::bits::{lemma_to_bits_len, lemma_value_of_bits, to_bits, value};
use crate::common::move_numbers::{
    law_move_number, lemma_num_moves, move_of, num_moves, number_of, pseudo_legal,
};
use crate::common::vle::{
    law_vle_round_trip, lemma_read_vle_end, lemma_vle_len, pow16, read_vle, vle_bits,
};

verus! {

/// The bits that choose number `k` among `n`: as many as the largest number takes.
pub open spec fn choice_bits(k: nat, n: nat) -> Seq<bool> {
    to_bits(k, used_bits(n))
}

/// The number chosen among `n` at `o`, and the place behind it. There is none if the bits end
/// before that, or if the number is not below `n`.
pub open spec fn read_choice(bits: Seq<bool>, o: int, n: nat) -> Option<(nat, int)> {
    let end = o + used_bits(n);
    let k = value(bits, o, used_bits(n) as int);
    if end <= bits.len() && k < n {
        Some((k, end))
    } else {
        None
    }
}

/// The bits of the move `m`: which piece of the side to move, and which of its moves.
pub open spec fn move_bits(p: PositionModel, m: Move) -> Seq<bool> {
    let ours = pieces_of(p.board, p.side_to_move);
    choice_bits(count_below(ours, m.from.idx as int), count(ours)) + choice_bits(
        number_of(p, m),
        num_moves(p, m.from.idx as int),
    )
}

/// The move at `o`, and the place behind it.
pub open spec fn read_move(p: PositionModel, bits: Seq<bool>, o: int) -> Option<(Move, int)> {
    let ours = pieces_of(p.board, p.side_to_move);
    match read_choice(bits, o, count(ours)) {
        None => None,
        Some((piece, mid)) => {
            let from = nth(ours, piece as int);
            match read_choice(bits, mid, num_moves(p, from)) {
                None => None,
                Some((k, end)) => match move_of(p, from, k as int) {
                    None => None,
                    Some(m) => Some((m, end)),
                },
            }
        },
    }
}

/// The bits of the number `x` that follows `last`: the difference, in at most four blocks.
pub open spec fn delta_bits(x: i16, last: i16) -> Seq<bool> {
    vle_bits(zigzag(wrapping_difference(x, last)) as nat)
}

/// The number at `o` that follows `last`, and the place behind it.
pub open spec fn read_delta(bits: Seq<bool>, o: int, last: i16) -> Option<(i16, int)> {
    match read_vle(bits, o, 4) {
        None => None,
        Some((v, end)) => Some((wrapping_sum(last, unzigzag(v as u16)), end)),
    }
}

/// What is stored of a ply besides the position.
pub struct Ply {
    pub mv: Move,
    pub score: i16,
    pub draw_score: i16,
}

/// The bits of a ply, the score as what it differs from `last_score`, and the draw score from
/// `last_draw`.
pub open spec fn ply_bits(p: PositionModel, x: Ply, last_score: i16, last_draw: i16) -> Seq<bool> {
    move_bits(p, x.mv) + delta_bits(x.score, last_score) + delta_bits(x.draw_score, last_draw)
}

/// The ply at `o`, and the place behind it.
pub open spec fn read_ply(
    p: PositionModel,
    bits: Seq<bool>,
    o: int,
    last_score: i16,
    last_draw: i16,
) -> Option<(Ply, int)> {
    match read_move(p, bits, o) {
        None => None,
        Some((mv, o2)) => match read_delta(bits, o2, last_score) {
            None => None,
            Some((score, o3)) => match read_delta(bits, o3, last_draw) {
                None => None,
                Some((draw_score, end)) => Some((Ply { mv, score, draw_score }, end)),
            },
        },
    }
}

/// A number below `n` is read back from the bits that chose it.
proof fn lemma_choice(bits: Seq<bool>, o: int, k: nat, n: nat)
    requires
        0 <= o,
        k < n,
        o + used_bits(n) <= bits.len(),
        bits.subrange(o, o + used_bits(n)) == choice_bits(k, n),
    ensures
        read_choice(bits, o, n) == Some((k, o + used_bits(n))),
{
    lemma_used_bits(k, n);
    lemma_value_of_bits(bits, o, k, used_bits(n));
}

/// Sixteen bits make at most four blocks.
pub proof fn lemma_delta_len(x: i16, last: i16)
    ensures
        5 <= delta_bits(x, last).len() <= 20,
        (zigzag(wrapping_difference(x, last)) as nat) < pow16(4),
{
    reveal_with_fuel(pow16, 5);
    lemma_vle_len(zigzag(wrapping_difference(x, last)) as nat, 4);
}

/// A move takes at most sixteen bits.
pub proof fn lemma_move_bits_len(p: PositionModel, m: Move)
    requires
        pseudo_legal(p, m),
    ensures
        move_bits(p, m).len() <= 16,
        move_bits(p, m).len() == used_bits(count(pieces_of(p.board, p.side_to_move))) + used_bits(
            num_moves(p, m.from.idx as int),
        ),
        used_bits(count(pieces_of(p.board, p.side_to_move))) <= 8,
        used_bits(num_moves(p, m.from.idx as int)) <= 8,
        count_below(pieces_of(p.board, p.side_to_move), m.from.idx as int) < count(
            pieces_of(p.board, p.side_to_move),
        ),
{
    let ours = pieces_of(p.board, p.side_to_move);
    let from = m.from.idx as int;
    lemma_nth_of_count(ours, from);
    lemma_count_below_bounds(ours, 0, 64);
    lemma_used_bits(count_below(ours, from), count(ours));
    law_move_number(p, m);
    lemma_num_moves(p, from);
    lemma_used_bits(number_of(p, m), num_moves(p, from));
    lemma_to_bits_len(count_below(ours, from), used_bits(count(ours)));
    lemma_to_bits_len(number_of(p, m), used_bits(num_moves(p, from)));
}

/// A move is read back from the bits that were written for it.
proof fn lemma_read_move(p: PositionModel, m: Move, bits: Seq<bool>, o: int)
    requires
        pseudo_legal(p, m),
        0 <= o,
        o + move_bits(p, m).len() <= bits.len(),
        bits.subrange(o, o + move_bits(p, m).len()) == move_bits(p, m),
    ensures
        read_move(p, bits, o) == Some((m, o + move_bits(p, m).len())),
{
    let ours = pieces_of(p.board, p.side_to_move);
    let from = m.from.idx as int;
    let all = move_bits(p, m);
    let first = choice_bits(count_below(ours, from), count(ours));
    let second = choice_bits(number_of(p, m), num_moves(p, from));
    lemma_move_bits_len(p, m);
    lemma_nth_of_count(ours, from);
    law_move_number(p, m);
    lemma_to_bits_len(count_below(ours, from), used_bits(count(ours)));
    lemma_to_bits_len(number_of(p, m), used_bits(num_moves(p, from)));
    let n1 = first.len() as int;
    assert(bits.subrange(o, o + n1) =~= first) by {
        assert(all.subrange(0, n1) =~= first);
        assert(bits.subrange(o, o + all.len()).subrange(0, n1) =~= bits.subrange(o, o + n1));
    }
    assert(bits.subrange(o + n1, o + all.len()) =~= second) by {
        assert(all.subrange(n1, all.len() as int) =~= second);
        assert(bits.subrange(o, o + all.len()).subrange(n1, all.len() as int) =~= bits.subrange(
            o + n1,
            o + all.len(),
        ));
    }
    lemma_choice(bits, o, count_below(ours, from), count(ours));
    lemma_choice(bits, o + n1, number_of(p, m), num_moves(p, from));
}

/// A number is read back from the bits that were written for it.
proof fn lemma_read_delta(bits: Seq<bool>, o: int, x: i16, last: i16)
    requires
        0 <= o,
        o + delta_bits(x, last).len() <= bits.len(),
        bits.subrange(o, o + delta_bits(x, last).len()) == delta_bits(x, last),
    ensures
        read_delta(bits, o, last) == Some((x, o + delta_bits(x, last).len())),
{
    let d = wrapping_difference(x, last);
    lemma_delta_len(x, last);
    law_vle_round_trip(bits, o, zigzag(d) as nat, 4);
    law_unzigzag_zigzag(d);
    lemma_sum_of_difference(x, last);
}

/// A ply is read back from the bits that were written for it, wherever they stand.
pub proof fn law_ply_round_trip(
    p: PositionModel,
    x: Ply,
    last_score: i16,
    last_draw: i16,
    bits: Seq<bool>,
    o: int,
)
    requires
        pseudo_legal(p, x.mv),
        0 <= o,
        o + ply_bits(p, x, last_score, last_draw).len() <= bits.len(),
        bits.subrange(o, o + ply_bits(p, x, last_score, last_draw).len()) == ply_bits(
            p,
            x,
            last_score,
            last_draw,
        ),
    ensures
        read_ply(p, bits, o, last_score, last_draw) == Some(
            (x, o + ply_bits(p, x, last_score, last_draw).len()),
        ),
{
    let all = ply_bits(p, x, last_score, last_draw);
    let a = move_bits(p, x.mv);
    let b = delta_bits(x.score, last_score);
    let c = delta_bits(x.draw_score, last_draw);
    let here = bits.subrange(o, o + all.len());
    let n1 = a.len() as int;
    let n2 = n1 + b.len();
    assert(bits.subrange(o, o + n1) =~= a) by {
        assert(all.subrange(0, n1) =~= a);
        assert(here.subrange(0, n1) =~= bits.subrange(o, o + n1));
    }
    assert(bits.subrange(o + n1, o + n2) =~= b) by {
        assert(all.subrange(n1, n2) =~= b);
        assert(here.subrange(n1, n2) =~= bits.subrange(o + n1, o + n2));
    }
    assert(bits.subrange(o + n2, o + all.len()) =~= c) by {
        assert(all.subrange(n2, all.len() as int) =~= c);
        assert(here.subrange(n2, all.len() as int) =~= bits.subrange(o + n2, o + all.len()));
    }
    lemma_read_move(p, x.mv, bits, o);
    lemma_read_delta(bits, o + n1, x.score, last_score);
    lemma_read_delta(bits, o + n2, x.draw_score, last_draw);
}

/// A ply that is read ends within the bits, and takes some.
pub proof fn lemma_read_ply_end(
    p: PositionModel,
    bits: Seq<bool>,
    o: int,
    last_score: i16,
    last_draw: i16,
)
    ensures
        read_ply(p, bits, o, last_score, last_draw) matches Some((x, end)) ==> o < end
            <= bits.len(),
{
    if let Some((m, o2)) = read_move(p, bits, o) {
        lemma_read_vle_end(bits, o2, 4);
        if let Some((x, o3)) = read_delta(bits, o2, last_score) {
            lemma_read_vle_end(bits, o3, 4);
        }
    }
}

/// A ply takes between ten and 56 bits.
pub proof fn lemma_ply_bits_len(p: PositionModel, x: Ply, last_score: i16, last_draw: i16)
    requires
        pseudo_legal(p, x.mv),
    ensures
        10 <= ply_bits(p, x, last_score, last_draw).len() <= 56,
{
    lemma_move_bits_len(p, x.mv);
    lemma_delta_len(x.score, last_score);
    lemma_delta_len(x.draw_score, last_draw);
}

} // verus!
