//! The mathematical model of the chess rules this library implements: which
//! moves are pseudo-legal in a position, which squares a piece attacks, what
//! a move does to the board, and when a move is fully legal (does not leave
//! the mover's own king attacked).

use vstd::prelude::*;
use crate::board::{
    Position, color_of, kind_of, file_of, rank_of, on_board, step, ray_in_bounds, sgn, absi,
    lemma_mul_unit, lemma_ray_endpoint, PAWN, KNIGHT, BISHOP, ROOK, QUEEN, KING,
};
use crate::encoding::{Move, Flag, Promotion};

verus! {

/// A bishop direction: one file and one rank per step.
pub open spec fn diag_dir(df: int, dr: int) -> bool {
    (df == 1 || df == -1) && (dr == 1 || dr == -1)
}

/// A rook direction: along a file or along a rank.
pub open spec fn ortho_dir(df: int, dr: int) -> bool {
    ||| (df == 0 && (dr == 1 || dr == -1))
    ||| (dr == 0 && (df == 1 || df == -1))
}

/// A king or queen direction: any of the eight neighbours.
pub open spec fn king_dir(df: int, dr: int) -> bool {
    -1 <= df <= 1 && -1 <= dr <= 1 && !(df == 0 && dr == 0)
}

/// A knight jump: one file and two ranks, or two files and one rank.
pub open spec fn knight_jump(df: int, dr: int) -> bool {
    ||| ((df == 1 || df == -1) && (dr == 2 || dr == -2))
    ||| ((df == 2 || df == -2) && (dr == 1 || dr == -1))
}

/// The directions and ray lengths a piece kind may move along: leapers
/// (knight, king) take exactly one step, sliders up to seven.
pub open spec fn piece_step(kind: int, df: int, dr: int, n: int) -> bool {
    if kind == KNIGHT as int {
        knight_jump(df, dr) && n == 1
    } else if kind == KING as int {
        king_dir(df, dr) && n == 1
    } else if kind == BISHOP as int {
        diag_dir(df, dr) && 1 <= n <= 7
    } else if kind == ROOK as int {
        ortho_dir(df, dr) && 1 <= n <= 7
    } else if kind == QUEEN as int {
        king_dir(df, dr) && 1 <= n <= 7
    } else {
        false
    }
}

/// Every square strictly between the start and the `n`-th step of a ray
/// is empty: a slider cannot jump over pieces.
pub open spec fn clear_path(b: Seq<i8>, from: int, df: int, dr: int, n: int) -> bool {
    forall|k: int| 1 <= k < n ==> b[#[trigger] step(from, df, dr, k)] == 0
}

/// A piece of the given kind, standing on `from`, reaches `to` by its own
/// movement geometry over board `b` (destination occupancy not considered).
pub open spec fn reaches(b: Seq<i8>, kind: int, from: int, to: int) -> bool {
    exists|df: int, dr: int, n: int|
        #[trigger] piece_step(kind, df, dr, n) && ray_in_bounds(from, df, dr, n) && to == step(
            from,
            df,
            dr,
            n,
        ) && clear_path(b, from, df, dr, n)
}

/// A pawn of color `dir` pushes straight forward one rank.
pub open spec fn pawn_push_one(from: int, to: int, dir: int) -> bool {
    &&& on_board(from)
    &&& on_board(to)
    &&& file_of(to) == file_of(from)
    &&& rank_of(to) == rank_of(from) + dir
}

/// A pawn of color `dir` captures one square diagonally forward:
/// one rank ahead and exactly one file to the side.
pub open spec fn pawn_attack_geom(from: int, to: int, dir: int) -> bool {
    &&& on_board(from)
    &&& on_board(to)
    &&& rank_of(to) == rank_of(from) + dir
    &&& (file_of(to) == file_of(from) + 1 || file_of(to) == file_of(from) - 1)
}

/// The rank a color's pawns start on.
pub open spec fn start_rank(color: int) -> int {
    if color == 1 {
        1
    } else {
        6
    }
}

/// The farthest rank for a color: a pawn arriving there must promote.
pub open spec fn promo_rank(color: int) -> int {
    if color == 1 {
        7
    } else {
        0
    }
}

/// The home square of a color's king.
pub open spec fn king_home(color: int) -> int {
    if color == 1 {
        4
    } else {
        60
    }
}

/// The signed piece code of a kind owned by a color.
pub open spec fn owned(kind: i8, color: int) -> i8 {
    if color == 1 {
        kind
    } else {
        (-kind) as i8
    }
}

/// The piece on `src` attacks square `sq` on board `b`: pawns by their
/// capture geometry, every other kind by its movement geometry with a
/// clear path.
pub open spec fn attacks_from(b: Seq<i8>, src: int, sq: int) -> bool {
    &&& on_board(src)
    &&& on_board(sq)
    &&& {
        let pc = b[src] as int;
        if pc == 0 {
            false
        } else if kind_of(pc) == PAWN as int {
            pawn_attack_geom(src, sq, color_of(pc))
        } else {
            reaches(b, kind_of(pc), src, sq)
        }
    }
}

/// Some piece of color `by` attacks square `sq`.
pub open spec fn attacked(b: Seq<i8>, sq: int, by: int) -> bool {
    exists|src: int|
        0 <= src < 64 && color_of(b[src] as int) == by && #[trigger] attacks_from(b, src, sq)
}

/// Kingside castling is available to the side to move: the right is held,
/// both squares between king and rook are empty, and neither the king's
/// square nor either square it crosses or lands on is attacked.
pub open spec fn castle_kingside_ok(p: Position) -> bool {
    let b = p.board@;
    let c = p.active as int;
    let k = king_home(c);
    &&& p.castle_rights(c).0
    &&& b[k + 1] == 0
    &&& b[k + 2] == 0
    &&& !attacked(b, k, -c)
    &&& !attacked(b, k + 1, -c)
    &&& !attacked(b, k + 2, -c)
}

/// Queenside castling is available to the side to move: the right is held,
/// the three squares between king and rook are empty, and neither the
/// king's square nor either square it crosses or lands on is attacked.
pub open spec fn castle_queenside_ok(p: Position) -> bool {
    let b = p.board@;
    let c = p.active as int;
    let k = king_home(c);
    &&& p.castle_rights(c).1
    &&& b[k - 1] == 0
    &&& b[k - 2] == 0
    &&& b[k - 3] == 0
    &&& !attacked(b, k, -c)
    &&& !attacked(b, k - 1, -c)
    &&& !attacked(b, k - 2, -c)
}

/// The move obeys the movement rules of the piece on its from-square in
/// position `p`, with the flag matching the move's semantic effect. King
/// safety is not yet considered.
pub open spec fn pseudo_legal(p: Position, m: Move) -> bool {
    let b = p.board@;
    let c = p.active as int;
    let from = m.from as int;
    let to = m.to as int;
    let pc = b[from] as int;
    &&& on_board(from)
    &&& on_board(to)
    &&& match m.flag {
        Flag::Quiet => {
            &&& color_of(pc) == c
            &&& b[to] == 0
            &&& if kind_of(pc) == PAWN as int {
                pawn_push_one(from, to, c) && rank_of(to) != promo_rank(c)
            } else {
                reaches(b, kind_of(pc), from, to)
            }
        },
        Flag::Capture => {
            &&& color_of(pc) == c
            &&& color_of(b[to] as int) == -c
            &&& if kind_of(pc) == PAWN as int {
                pawn_attack_geom(from, to, c) && rank_of(to) != promo_rank(c)
            } else {
                reaches(b, kind_of(pc), from, to)
            }
        },
        Flag::DoublePush => {
            &&& color_of(pc) == c
            &&& kind_of(pc) == PAWN as int
            &&& rank_of(from) == start_rank(c)
            &&& file_of(to) == file_of(from)
            &&& rank_of(to) == rank_of(from) + 2 * c
            &&& b[step(from, 0, c, 1)] == 0
            &&& b[to] == 0
        },
        Flag::EnPassant => {
            &&& color_of(pc) == c
            &&& kind_of(pc) == PAWN as int
            &&& p.en_passant == Some(m.to)
            &&& pawn_attack_geom(from, to, c)
        },
        Flag::Promote(_) => {
            &&& color_of(pc) == c
            &&& kind_of(pc) == PAWN as int
            &&& b[to] == 0
            &&& pawn_push_one(from, to, c)
            &&& rank_of(to) == promo_rank(c)
        },
        Flag::PromoteCapture(_) => {
            &&& color_of(pc) == c
            &&& kind_of(pc) == PAWN as int
            &&& color_of(b[to] as int) == -c
            &&& pawn_attack_geom(from, to, c)
            &&& rank_of(to) == promo_rank(c)
        },
        Flag::CastleKingside => {
            &&& from == king_home(c)
            &&& to == from + 2
            &&& castle_kingside_ok(p)
        },
        Flag::CastleQueenside => {
            &&& from == king_home(c)
            &&& to == from - 2
            &&& castle_queenside_ok(p)
        },
    }
}

/// A pseudo-legal move that a scan of the from-square produces: everything
/// but castling, which the assembler appends separately.
pub open spec fn square_move(p: Position, m: Move) -> bool {
    &&& pseudo_legal(p, m)
    &&& !(m.flag is CastleKingside)
    &&& !(m.flag is CastleQueenside)
}

/// A non-pawn move of exactly `n` steps along direction (`df`, `dr`):
/// the ray stays on the board, the path is clear, and the flag matches
/// the destination's occupancy.
pub open spec fn slide_move_n(p: Position, m: Move, df: int, dr: int, n: int) -> bool {
    let b = p.board@;
    let c = p.active as int;
    let from = m.from as int;
    &&& ray_in_bounds(from, df, dr, n)
    &&& m.to as int == step(from, df, dr, n)
    &&& clear_path(b, from, df, dr, n)
    &&& match m.flag {
        Flag::Quiet => b[m.to as int] == 0,
        Flag::Capture => color_of(b[m.to as int] as int) == -c,
        _ => false,
    }
}

/// A non-pawn move of at most `cap` steps along one direction.
pub open spec fn dir_move(p: Position, m: Move, df: int, dr: int, cap: int) -> bool {
    exists|n: int| 1 <= n <= cap && #[trigger] slide_move_n(p, m, df, dr, n)
}

/// The directions a piece kind may move along.
pub open spec fn dir_ok(kind: int, df: int, dr: int) -> bool {
    if kind == KNIGHT as int {
        knight_jump(df, dr)
    } else if kind == KING as int {
        king_dir(df, dr)
    } else if kind == BISHOP as int {
        diag_dir(df, dr)
    } else if kind == ROOK as int {
        ortho_dir(df, dr)
    } else if kind == QUEEN as int {
        king_dir(df, dr)
    } else {
        false
    }
}

/// How many steps of one direction a piece kind may take.
pub open spec fn steps_cap(kind: int) -> int {
    if kind == KNIGHT as int || kind == KING as int {
        1
    } else {
        7
    }
}

/// The kind a promotion choice turns the pawn into.
pub open spec fn promo_kind(pk: Promotion) -> i8 {
    match pk {
        Promotion::Knight => KNIGHT,
        Promotion::Bishop => BISHOP,
        Promotion::Rook => ROOK,
        Promotion::Queen => QUEEN,
    }
}

/// The board after the move is played by color `c`: the piece (or the
/// promotion piece) lands on the to-square, the from-square empties, an
/// en-passant capture removes the bypassed pawn, and castling also moves
/// the rook.
pub open spec fn board_after(b: Seq<i8>, c: int, m: Move) -> Seq<i8> {
    let from = m.from as int;
    let to = m.to as int;
    let moved = match m.flag {
        Flag::Promote(pk) => owned(promo_kind(pk), c),
        Flag::PromoteCapture(pk) => owned(promo_kind(pk), c),
        _ => b[from],
    };
    let b1 = b.update(from, 0).update(to, moved);
    match m.flag {
        Flag::EnPassant => b1.update(to - 8 * c, 0),
        Flag::CastleKingside => b1.update(from + 3, 0).update(from + 1, owned(ROOK, c)),
        Flag::CastleQueenside => b1.update(from - 4, 0).update(from - 1, owned(ROOK, c)),
        _ => b1,
    }
}

/// After the move, no king of the moving color stands attacked by the
/// opponent: the move does not leave the mover in check.
pub open spec fn king_safe_after(p: Position, m: Move) -> bool {
    let c = p.active as int;
    let nb = board_after(p.board@, c, m);
    forall|k: int|
        0 <= k < 64 && #[trigger] nb[k] == owned(KING, c) ==> !attacked(nb, k, -c)
}

/// A fully legal move: pseudo-legal and leaving no king of the mover's
/// color attacked.
pub open spec fn legal_move(p: Position, m: Move) -> bool {
    pseudo_legal(p, m) && king_safe_after(p, m)
}

/// The move is a promotion (quiet or capturing).
pub open spec fn is_promotion(f: Flag) -> bool {
    f is Promote || f is PromoteCapture
}

/// Inverting a slider's reachability: the direction and length of the ray
/// that carries a bishop, rook or queen from `src` to `sq` are determined
/// by the two squares' coordinates, and the path along that ray is clear.
pub proof fn lemma_slider_reaches_inv(b: Seq<i8>, kind: int, src: int, sq: int)
    requires
        on_board(src),
        on_board(sq),
        kind == BISHOP as int || kind == ROOK as int || kind == QUEEN as int,
        reaches(b, kind, src, sq),
    ensures
        ({
            let df = file_of(sq) - file_of(src);
            let dr = rank_of(sq) - rank_of(src);
            let n = if absi(df) > absi(dr) {
                absi(df)
            } else {
                absi(dr)
            };
            &&& 1 <= n <= 7
            &&& df == n * sgn(df)
            &&& dr == n * sgn(dr)
            &&& (kind == BISHOP as int ==> absi(df) == absi(dr) && df != 0)
            &&& (kind == ROOK as int ==> (df == 0) != (dr == 0))
            &&& (kind == QUEEN as int ==> (absi(df) == absi(dr) || df == 0 || dr == 0))
            &&& !(df == 0 && dr == 0)
            &&& ray_in_bounds(src, sgn(df), sgn(dr), n)
            &&& sq == step(src, sgn(df), sgn(dr), n)
            &&& clear_path(b, src, sgn(df), sgn(dr), n)
        }),
{
    let (df2, dr2, n2) = choose|df2: int, dr2: int, n2: int|
        #[trigger] piece_step(kind, df2, dr2, n2) && ray_in_bounds(src, df2, dr2, n2) && sq == step(
            src,
            df2,
            dr2,
            n2,
        ) && clear_path(b, src, df2, dr2, n2);
    lemma_ray_endpoint(src, df2, dr2, n2);
    lemma_mul_unit(n2, df2);
    lemma_mul_unit(n2, dr2);
    let df = file_of(sq) - file_of(src);
    let dr = rank_of(sq) - rank_of(src);
    assert(df == n2 * df2 && dr == n2 * dr2);
    assert(df2 == sgn(df) && dr2 == sgn(dr));
    let n = if absi(df) > absi(dr) {
        absi(df)
    } else {
        absi(dr)
    };
    assert(n == n2);
}

/// Playing the move attacks an opposing king: it gives check.
pub open spec fn gives_check(p: Position, m: Move) -> bool {
    let c = p.active as int;
    let nb = board_after(p.board@, c, m);
    exists|k: int|
        0 <= k < 64 && #[trigger] nb[k] == owned(KING, -c) && attacked(nb, k, c)
}

} // verus!
