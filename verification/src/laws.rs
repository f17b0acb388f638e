//! The laws of the move set, proved once against the movement model: move
//! endpoints, the friendly-capture ban, ray continuity, double-push and
//! en-passant conditions, promotion expansion, and castling legality.

use vstd::prelude::*;
use crate::board::{
    Position, color_of, kind_of, file_of, rank_of, on_board, step, ray_in_bounds, absi,
    lemma_square_decompose, lemma_ray_endpoint, lemma_ray_prefix, PAWN,
};
use crate::rules::{
    pseudo_legal, piece_step, clear_path, start_rank, promo_rank, king_home, castle_kingside_ok,
    castle_queenside_ok, pawn_attack_geom,
};
use crate::encoding::{Move, Flag, Promotion};

verus! {

/// Every pseudo-legal move runs between two real squares, and never stays
/// in place.
pub proof fn lemma_move_endpoints(p: Position, m: Move)
    requires
        p.wf(),
        pseudo_legal(p, m),
    ensures
        on_board(m.from as int),
        on_board(m.to as int),
        m.from != m.to,
{
    let from = m.from as int;
    let to = m.to as int;
    lemma_square_decompose(from);
    lemma_square_decompose(to);
    match m.flag {
        Flag::Quiet => {
            let pc = p.board@[from] as int;
            if kind_of(pc) != PAWN as int {
                lemma_slide_apart(p, m);
            }
        },
        Flag::Capture => {
            let pc = p.board@[from] as int;
            if kind_of(pc) != PAWN as int {
                lemma_slide_apart(p, m);
            }
        },
        _ => {},
    }
}

/// A slider or leaper move covers a nonzero distance.
proof fn lemma_slide_apart(p: Position, m: Move)
    requires
        p.wf(),
        pseudo_legal(p, m),
        m.flag is Quiet || m.flag is Capture,
        kind_of(p.board@[m.from as int] as int) != PAWN as int,
    ensures
        m.from != m.to,
{
    let from = m.from as int;
    let to = m.to as int;
    let kind = kind_of(p.board@[from] as int);
    let (df, dr, n) = choose|df: int, dr: int, n: int|
        #[trigger] piece_step(kind, df, dr, n) && ray_in_bounds(from, df, dr, n) && to == step(
            from,
            df,
            dr,
            n,
        ) && clear_path(p.board@, from, df, dr, n);
    lemma_ray_endpoint(from, df, dr, n);
    assert(n * df != 0 || n * dr != 0) by (nonlinear_arith)
        requires
            n >= 1,
            !(df == 0 && dr == 0),
    ;
}

/// No pseudo-legal move lands on a piece of the mover's own color. The
/// en-passant target square is required to be empty, as it is in every
/// position that can arise in play.
pub proof fn lemma_no_friendly_capture(p: Position, m: Move)
    requires
        p.wf(),
        pseudo_legal(p, m),
        m.flag is EnPassant ==> p.board@[m.to as int] == 0,
    ensures
        color_of(p.board@[m.to as int] as int) != p.active as int,
{
}

/// Two consecutive squares of one ray differ by at most one file: a ray
/// that stays in bounds never jumps across a board edge.
pub proof fn lemma_ray_no_file_jump(from: int, df: int, dr: int, n: int, k: int)
    requires
        on_board(from),
        -1 <= df <= 1,
        -1 <= dr <= 1,
        ray_in_bounds(from, df, dr, n),
        1 <= k <= n,
    ensures
        absi(file_of(step(from, df, dr, k)) - file_of(step(from, df, dr, k - 1))) <= 1,
{
    lemma_ray_prefix(from, df, dr, n, k);
    lemma_ray_prefix(from, df, dr, n, k - 1);
    lemma_ray_endpoint(from, df, dr, k);
    lemma_ray_endpoint(from, df, dr, k - 1);
    assert(k * df == (k - 1) * df + df) by (nonlinear_arith);
}

/// A double push comes only from the side's start rank, only two ranks
/// straight ahead, and only with both intermediate squares empty.
pub proof fn lemma_double_push_conditions(p: Position, m: Move)
    requires
        p.wf(),
        pseudo_legal(p, m),
        m.flag is DoublePush,
    ensures
        rank_of(m.from as int) == start_rank(p.active as int),
        p.board@[step(m.from as int, 0, p.active as int, 1)] == 0,
        p.board@[m.to as int] == 0,
        rank_of(m.to as int) == rank_of(m.from as int) + 2 * p.active,
        file_of(m.to as int) == file_of(m.from as int),
{
}

/// The four promotion choices stand or fall together: whenever one
/// promotion of a pawn move is pseudo-legal, so are the other three with
/// the same endpoints, quiet with quiet and capturing with capturing.
pub proof fn lemma_promotion_expansion(p: Position, from: u8, to: u8, a: Promotion, b: Promotion)
    ensures
        pseudo_legal(p, Move { from, to, flag: Flag::Promote(a) }) == pseudo_legal(
            p,
            Move { from, to, flag: Flag::Promote(b) },
        ),
        pseudo_legal(p, Move { from, to, flag: Flag::PromoteCapture(a) }) == pseudo_legal(
            p,
            Move { from, to, flag: Flag::PromoteCapture(b) },
        ),
{
}

/// A pawn move that lands on the farthest rank is never flagged as a plain
/// push or capture: it must carry a promotion flag.
pub proof fn lemma_promotion_required(p: Position, m: Move)
    requires
        p.wf(),
        pseudo_legal(p, m),
        m.flag is Quiet || m.flag is Capture,
        kind_of(p.board@[m.from as int] as int) == PAWN as int,
    ensures
        rank_of(m.to as int) != promo_rank(p.active as int),
{
}

/// An en-passant move is pseudo-legal exactly when the en-passant target
/// is set to its destination and that destination is one rank ahead and
/// one file aside of a pawn of the side to move.
pub proof fn lemma_en_passant_iff(p: Position, m: Move)
    requires
        p.wf(),
        m.flag is EnPassant,
    ensures
        pseudo_legal(p, m) <==> {
            let from = m.from as int;
            let c = p.active as int;
            &&& on_board(from)
            &&& on_board(m.to as int)
            &&& color_of(p.board@[from] as int) == c
            &&& kind_of(p.board@[from] as int) == PAWN as int
            &&& p.en_passant == Some(m.to)
            &&& pawn_attack_geom(from, m.to as int, c)
        },
{
}

/// A castle move is pseudo-legal exactly when the right is held, the
/// squares between king and rook are empty, and neither the king's square
/// nor the squares it crosses or lands on are attacked: flipping any one
/// of those conditions suppresses the move.
pub proof fn lemma_castle_iff(p: Position, m: Move)
    requires
        p.wf(),
    ensures
        m.flag is CastleKingside ==> (pseudo_legal(p, m) <==> m.from as int == king_home(
            p.active as int,
        ) && m.to as int == m.from + 2 && castle_kingside_ok(p)),
        m.flag is CastleQueenside ==> (pseudo_legal(p, m) <==> m.from as int == king_home(
            p.active as int,
        ) && m.to as int == m.from - 2 && castle_queenside_ok(p)),
{
}

} // verus!
