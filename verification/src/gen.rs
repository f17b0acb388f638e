//! The move generators: per-piece pseudo-legal enumeration, castling, the
//! move assembler, and the king-safety filter that turns the pseudo-legal
//! set into the legal one.

use vstd::prelude::*;
use crate::board::{
    Position, board_ok, color_of, kind_of, file_of, rank_of, step, ray_in_bounds,
    lemma_step_extend, lemma_step_unwrap, lemma_square_decompose, lemma_square_compose,
    lemma_ray_endpoint, lemma_ray_prefix, PAWN, KNIGHT, BISHOP, ROOK, QUEEN, KING,
};
use crate::rules::{
    pseudo_legal, legal_move, king_safe_after, attacked, reaches, piece_step, clear_path,
    pawn_attack_geom, owned, board_after, castle_kingside_ok, castle_queenside_ok, square_move,
    slide_move_n, dir_move, dir_ok, steps_cap,
};
use crate::encoding::{Move, Flag, Promotion};
use crate::attack::is_attacked;
use crate::attack::board_attacked;

verus! {

broadcast use vstd::seq_lib::lemma_seq_contains_after_push;

/// Membership in a concatenation splits over the two halves.
pub proof fn lemma_add_contains<A>(a: Seq<A>, b: Seq<A>)
    ensures
        forall|x: A| #[trigger] (a + b).contains(x) <==> a.contains(x) || b.contains(x),
{
    assert forall|x: A| #[trigger] (a + b).contains(x) implies a.contains(x) || b.contains(x) by {
        let i = choose|i: int| 0 <= i < (a + b).len() && (a + b)[i] == x;
        if i < a.len() {
            assert(a[i] == x);
        } else {
            assert(b[i - a.len()] == x);
        }
    }
    assert forall|x: A| a.contains(x) || b.contains(x) implies #[trigger] (a + b).contains(x) by {
        if a.contains(x) {
            let i = choose|i: int| 0 <= i < a.len() && a[i] == x;
            assert((a + b)[i] == x);
        } else {
            let i = choose|i: int| 0 <= i < b.len() && b[i] == x;
            assert((a + b)[a.len() + i] == x);
        }
    }
}

/// The board a pseudo-legal move leaves behind, as a fresh copy; the
/// position snapshot itself is never mutated.
pub(crate) fn apply_move(p: &Position, m: Move) -> (r: Vec<i8>)
    requires
        p.wf(),
        pseudo_legal(*p, m),
    ensures
        r@ == board_after(p.board@, p.active as int, m),
        board_ok(r@),
{
    let c = p.active;
    let mut nb: Vec<i8> = Vec::new();
    let mut i: usize = 0;
    while i < 64
        invariant
            p.wf(),
            i <= 64,
            nb@ == p.board@.take(i as int),
        decreases 64 - i,
    {
        nb.push(p.board[i]);
        proof {
            assert(nb@ =~= p.board@.take(i + 1));
        }
        i = i + 1;
    }
    proof {
        assert(nb@ =~= p.board@);
    }
    let moved: i8 = match m.flag {
        Flag::Promote(pk) => {
            let kd: i8 = match pk {
                Promotion::Knight => KNIGHT,
                Promotion::Bishop => BISHOP,
                Promotion::Rook => ROOK,
                Promotion::Queen => QUEEN,
            };
            if c == 1 {
                kd
            } else {
                -kd
            }
        },
        Flag::PromoteCapture(pk) => {
            let kd: i8 = match pk {
                Promotion::Knight => KNIGHT,
                Promotion::Bishop => BISHOP,
                Promotion::Rook => ROOK,
                Promotion::Queen => QUEEN,
            };
            if c == 1 {
                kd
            } else {
                -kd
            }
        },
        _ => p.board[m.from as usize],
    };
    nb[m.from as usize] = 0;
    nb[m.to as usize] = moved;
    match m.flag {
        Flag::EnPassant => {
            proof {
                lemma_square_decompose(m.to as int);
                lemma_square_compose(file_of(m.to as int), rank_of(m.to as int) - c as int);
            }
            let capsq: usize = if c == 1 {
                (m.to - 8) as usize
            } else {
                (m.to + 8) as usize
            };
            nb[capsq] = 0;
        },
        Flag::CastleKingside => {
            nb[(m.from + 3) as usize] = 0;
            nb[(m.from + 1) as usize] = if c == 1 {
                ROOK
            } else {
                -ROOK
            };
        },
        Flag::CastleQueenside => {
            nb[(m.from - 4) as usize] = 0;
            nb[(m.from - 1) as usize] = if c == 1 {
                ROOK
            } else {
                -ROOK
            };
        },
        _ => {},
    }
    nb
}

/// Whether some king of `king_color` stands attacked by `by` on board `b`.
pub(crate) fn any_king_attacked(b: &Vec<i8>, king_color: i8, by: i8) -> (r: bool)
    requires
        board_ok(b@),
        king_color == 1 || king_color == -1,
    ensures
        r == exists|k: int|
            0 <= k < 64 && #[trigger] b@[k] == owned(KING, king_color as int) && attacked(
                b@,
                k,
                by as int,
            ),
{
    let target: i8 = if king_color == 1 {
        KING
    } else {
        -KING
    };
    let mut i: u8 = 0;
    while i < 64
        invariant
            board_ok(b@),
            i <= 64,
            target == owned(KING, king_color as int),
            forall|k: int|
                0 <= k < i ==> !(#[trigger] b@[k] == target && attacked(b@, k, by as int)),
        decreases 64 - i,
    {
        if b[i as usize] == target {
            if board_attacked(b, i, by) {
                return true;
            }
        }
        i = i + 1;
    }
    false
}

/// Extending the step allowance of a direction keeps every move it already
/// admits.
proof fn lemma_dir_move_mono(p: Position, m: Move, df: int, dr: int, k1: int, k2: int)
    requires
        k1 <= k2,
        dir_move(p, m, df, dr, k1),
    ensures
        dir_move(p, m, df, dr, k2),
{
    let n = choose|n: int| 1 <= n <= k1 && #[trigger] slide_move_n(p, m, df, dr, n);
    assert(1 <= n <= k2 && slide_move_n(p, m, df, dr, n));
}

/// Walks outward from `from` along direction (`df`, `dr`) for at most `cap`
/// steps, appending a quiet move for each empty square reached and a capture
/// when the first enemy piece is met; stops at the board edge, at a file
/// wrap, at a friendly piece, or after a capture.
#[verifier::rlimit(100)]
fn walk_dir(p: &Position, from: u8, df: i8, dr: i8, cap: i8, r: &mut Vec<Move>)
    requires
        p.wf(),
        from < 64,
        -2 <= df <= 2,
        -2 <= dr <= 2,
        !(df == 0 && dr == 0),
        cap == 1 || cap == 7,
    ensures
        forall|m: Move| #[trigger] final(r)@.contains(m) <==> old(r)@.contains(m) || (m.from == from
            && dir_move(*p, m, df as int, dr as int, cap as int)),
{
    let c = p.active;
    let delta: i16 = df as i16 + 8 * (dr as i16);
    let mut cur: i16 = from as i16;
    let mut k: i8 = 0;
    let ghost r0 = r@;
    while k < cap
        invariant_except_break
            p.wf(),
            from < 64,
            -2 <= df <= 2,
            -2 <= dr <= 2,
            !(df == 0 && dr == 0),
            cap == 1 || cap == 7,
            c == p.active,
            delta == df + 8 * (dr as i16),
            0 <= k <= cap,
            ray_in_bounds(from as int, df as int, dr as int, k as int),
            cur == step(from as int, df as int, dr as int, k as int),
            forall|j: int|
                1 <= j <= k ==> p.board@[#[trigger] step(from as int, df as int, dr as int, j)]
                    == 0,
            forall|m: Move| #[trigger] r@.contains(m) <==> r0.contains(m) || (m.from == from
                && dir_move(*p, m, df as int, dr as int, k as int)),
        ensures
            forall|m: Move| #[trigger] r@.contains(m) <==> r0.contains(m) || (m.from == from
                && dir_move(*p, m, df as int, dr as int, cap as int)),
        decreases cap - k,
    {
        let ghost fi = from as int;
        let ghost dfi = df as int;
        let ghost dri = dr as int;
        proof {
            lemma_ray_endpoint(fi, dfi, dri, k as int);
            lemma_step_extend(fi, dfi, dri, k as int + 1);
            assert((k as int + 1) * dfi == k as int * dfi + dfi) by (nonlinear_arith);
            assert((k as int + 1) * dri == k as int * dri + dri) by (nonlinear_arith);
        }
        let nxt: i16 = cur + delta;
        let mut blocked_end: bool = false;
        if nxt < 0 || nxt > 63 {
            blocked_end = true;
        } else {
            let cf: i16 = cur % 8;
            let nf: i16 = nxt % 8;
            if nf - cf > 2 || cf - nf > 2 {
                blocked_end = true;
            }
        }
        if blocked_end {
            proof {
                assert(!ray_in_bounds(fi, dfi, dri, k as int + 1)) by {
                    if ray_in_bounds(fi, dfi, dri, k as int + 1) {
                        lemma_ray_endpoint(fi, dfi, dri, k as int + 1);
                    }
                }
                assert forall|m: Move| #[trigger] r@.contains(m) <==> r0.contains(m) || (m.from
                    == from && dir_move(*p, m, dfi, dri, cap as int)) by {
                    if r@.contains(m) && !r0.contains(m) {
                        lemma_dir_move_mono(*p, m, dfi, dri, k as int, cap as int);
                    }
                    if !r0.contains(m) && m.from == from && dir_move(*p, m, dfi, dri, cap as int) {
                        let n = choose|n: int|
                            1 <= n <= cap && #[trigger] slide_move_n(*p, m, dfi, dri, n);
                        if n > k {
                            lemma_ray_prefix(fi, dfi, dri, n, k as int + 1);
                        }
                        assert(dir_move(*p, m, dfi, dri, k as int));
                    }
                }
            }
            break;
        }
        proof {
            lemma_step_unwrap(cur as int, dfi, dri);
            assert(ray_in_bounds(fi, dfi, dri, k as int + 1));
            lemma_ray_endpoint(fi, dfi, dri, k as int + 1);
        }
        let tpc: i8 = p.board[nxt as usize];
        let friendly: bool = (c == 1 && tpc > 0) || (c == -1 && tpc < 0);
        let enemy: bool = (c == 1 && tpc < 0) || (c == -1 && tpc > 0);
        if friendly {
            proof {
                assert forall|m: Move| #[trigger] r@.contains(m) <==> r0.contains(m) || (m.from
                    == from && dir_move(*p, m, dfi, dri, cap as int)) by {
                    if r@.contains(m) && !r0.contains(m) {
                        lemma_dir_move_mono(*p, m, dfi, dri, k as int, cap as int);
                    }
                    if !r0.contains(m) && m.from == from && dir_move(*p, m, dfi, dri, cap as int) {
                        let n = choose|n: int|
                            1 <= n <= cap && #[trigger] slide_move_n(*p, m, dfi, dri, n);
                        if n > k + 1 {
                            assert(p.board@[step(fi, dfi, dri, k as int + 1)] != 0);
                            assert(!clear_path(p.board@, fi, dfi, dri, n));
                        }
                        assert(n != k + 1);
                        assert(dir_move(*p, m, dfi, dri, k as int));
                    }
                }
            }
            break;
        }
        let mv = Move {
            from,
            to: nxt as u8,
            flag: if enemy {
                Flag::Capture
            } else {
                Flag::Quiet
            },
        };
        let ghost rpre = r@;
        r.push(mv);
        proof {
            assert(slide_move_n(*p, mv, dfi, dri, k as int + 1));
            assert(r@[r@.len() - 1] == mv);
            assert forall|m: Move| rpre.contains(m) implies #[trigger] r@.contains(m) by {
                let i = choose|i: int| 0 <= i < rpre.len() && rpre[i] == m;
                assert(r@[i] == m);
            }
            assert forall|m: Move| #[trigger] r@.contains(m) implies rpre.contains(m) || m
                == mv by {
                let i = choose|i: int| 0 <= i < r@.len() && r@[i] == m;
                if i < rpre.len() {
                    assert(rpre[i] == m);
                }
            }
            assert forall|m: Move| m.from == from && slide_move_n(
                *p,
                m,
                dfi,
                dri,
                k as int + 1,
            ) implies m == mv by {}
            assert forall|m: Move| #[trigger] r@.contains(m) <==> r0.contains(m) || (m.from == from
                && dir_move(*p, m, dfi, dri, k as int + 1)) by {
                if r@.contains(m) {
                    if rpre.contains(m) && !r0.contains(m) {
                        lemma_dir_move_mono(*p, m, dfi, dri, k as int, k as int + 1);
                    }
                    if m == mv {
                        assert(1 <= k as int + 1 <= k as int + 1 && slide_move_n(
                            *p,
                            m,
                            dfi,
                            dri,
                            k as int + 1,
                        ));
                    }
                }
                if !r@.contains(m) && !r0.contains(m) && m.from == from && dir_move(
                    *p,
                    m,
                    dfi,
                    dri,
                    k as int + 1,
                ) {
                    let n = choose|n: int|
                        1 <= n <= k as int + 1 && #[trigger] slide_move_n(*p, m, dfi, dri, n);
                    if n == k + 1 {
                        assert(m == mv);
                    } else {
                        assert(dir_move(*p, m, dfi, dri, k as int));
                        assert(rpre.contains(m));
                    }
                    assert(false);
                }
            }
        }
        if enemy {
            proof {
                assert forall|m: Move| #[trigger] r@.contains(m) <==> r0.contains(m) || (m.from
                    == from && dir_move(*p, m, dfi, dri, cap as int)) by {
                    if r@.contains(m) && !r0.contains(m) {
                        lemma_dir_move_mono(*p, m, dfi, dri, k as int + 1, cap as int);
                    }
                    if !r0.contains(m) && m.from == from && dir_move(*p, m, dfi, dri, cap as int) {
                        let n = choose|n: int|
                            1 <= n <= cap && #[trigger] slide_move_n(*p, m, dfi, dri, n);
                        if n > k + 1 {
                            assert(p.board@[step(fi, dfi, dri, k as int + 1)] != 0);
                            assert(!clear_path(p.board@, fi, dfi, dri, n));
                        }
                        assert(n <= k + 1);
                        assert(dir_move(*p, m, dfi, dri, k as int + 1));
                    }
                }
            }
            break;
        }
        proof {
            assert(tpc == 0);
        }
        cur = nxt;
        k = k + 1;
    }
}

/// A move found by walking one of a piece's directions is a pseudo-legal
/// move of that piece.
proof fn lemma_dir_move_square(p: Position, from: u8, m: Move, df: int, dr: int)
    requires
        p.wf(),
        from < 64,
        color_of(p.board@[from as int] as int) == p.active as int,
        kind_of(p.board@[from as int] as int) != PAWN as int,
        m.from == from,
        dir_ok(kind_of(p.board@[from as int] as int), df, dr),
        dir_move(p, m, df, dr, steps_cap(kind_of(p.board@[from as int] as int))),
    ensures
        square_move(p, m),
{
    let kind = kind_of(p.board@[from as int] as int);
    let n = choose|n: int|
        1 <= n <= steps_cap(kind) && #[trigger] slide_move_n(p, m, df, dr, n);
    lemma_ray_endpoint(from as int, df, dr, n);
    assert(piece_step(kind, df, dr, n));
    assert(reaches(p.board@, kind, m.from as int, m.to as int));
}

/// Conversely, every pseudo-legal move of a non-pawn piece lies along one
/// of its directions.
proof fn lemma_square_dir_move(p: Position, from: u8, m: Move)
    requires
        p.wf(),
        from < 64,
        color_of(p.board@[from as int] as int) == p.active as int,
        kind_of(p.board@[from as int] as int) != PAWN as int,
        m.from == from,
        square_move(p, m),
    ensures
        exists|df: int, dr: int|
            #[trigger] dir_ok(kind_of(p.board@[from as int] as int), df, dr) && dir_move(
                p,
                m,
                df,
                dr,
                steps_cap(kind_of(p.board@[from as int] as int)),
            ),
{
    let kind = kind_of(p.board@[from as int] as int);
    assert(m.flag is Quiet || m.flag is Capture);
    assert(reaches(p.board@, kind, m.from as int, m.to as int));
    let (df2, dr2, n2) = choose|df2: int, dr2: int, n2: int|
        #[trigger] piece_step(kind, df2, dr2, n2) && ray_in_bounds(m.from as int, df2, dr2, n2)
            && m.to as int == step(m.from as int, df2, dr2, n2) && clear_path(
            p.board@,
            m.from as int,
            df2,
            dr2,
            n2,
        );
    assert(dir_ok(kind, df2, dr2));
    assert(1 <= n2 <= steps_cap(kind) && slide_move_n(p, m, df2, dr2, n2));
    assert(dir_move(p, m, df2, dr2, steps_cap(kind)));
}

/// All pseudo-legal moves of the non-pawn piece of the side to move that
/// stands on `from`.
#[verifier::rlimit(100)]
pub(crate) fn piece_moves(p: &Position, from: u8) -> (r: Vec<Move>)
    requires
        p.wf(),
        from < 64,
        color_of(p.board@[from as int] as int) == p.active as int,
        kind_of(p.board@[from as int] as int) != PAWN as int,
    ensures
        forall|m: Move| #[trigger] r@.contains(m) <==> m.from == from && square_move(*p, m),
{
    let pc: i8 = p.board[from as usize];
    let kind: i8 = if pc < 0 {
        -pc
    } else {
        pc
    };
    let mut r: Vec<Move> = Vec::new();
    if kind == KNIGHT {
        walk_dir(p, from, 1, 2, 1, &mut r);
        walk_dir(p, from, 2, 1, 1, &mut r);
        walk_dir(p, from, -1, 2, 1, &mut r);
        walk_dir(p, from, -2, 1, 1, &mut r);
        walk_dir(p, from, 1, -2, 1, &mut r);
        walk_dir(p, from, 2, -1, 1, &mut r);
        walk_dir(p, from, -1, -2, 1, &mut r);
        walk_dir(p, from, -2, -1, 1, &mut r);
    } else if kind == BISHOP {
        walk_dir(p, from, 1, 1, 7, &mut r);
        walk_dir(p, from, 1, -1, 7, &mut r);
        walk_dir(p, from, -1, 1, 7, &mut r);
        walk_dir(p, from, -1, -1, 7, &mut r);
    } else if kind == ROOK {
        walk_dir(p, from, 1, 0, 7, &mut r);
        walk_dir(p, from, -1, 0, 7, &mut r);
        walk_dir(p, from, 0, 1, 7, &mut r);
        walk_dir(p, from, 0, -1, 7, &mut r);
    } else if kind == QUEEN {
        walk_dir(p, from, 1, 1, 7, &mut r);
        walk_dir(p, from, 1, -1, 7, &mut r);
        walk_dir(p, from, -1, 1, 7, &mut r);
        walk_dir(p, from, -1, -1, 7, &mut r);
        walk_dir(p, from, 1, 0, 7, &mut r);
        walk_dir(p, from, -1, 0, 7, &mut r);
        walk_dir(p, from, 0, 1, 7, &mut r);
        walk_dir(p, from, 0, -1, 7, &mut r);
    } else {
        walk_dir(p, from, 1, 1, 1, &mut r);
        walk_dir(p, from, 1, -1, 1, &mut r);
        walk_dir(p, from, -1, 1, 1, &mut r);
        walk_dir(p, from, -1, -1, 1, &mut r);
        walk_dir(p, from, 1, 0, 1, &mut r);
        walk_dir(p, from, -1, 0, 1, &mut r);
        walk_dir(p, from, 0, 1, 1, &mut r);
        walk_dir(p, from, 0, -1, 1, &mut r);
    }
    proof {
        let kd = kind as int;
        assert(kd == kind_of(p.board@[from as int] as int));
        assert(steps_cap(kd) == (if kind == KNIGHT || kind == KING {
            1int
        } else {
            7int
        }));
        assert forall|m: Move| #[trigger] r@.contains(m) implies m.from == from && square_move(
            *p,
            m,
        ) by {
            if kind == KNIGHT {
                if dir_move(*p, m, 1, 2, 1) {
                    lemma_dir_move_square(*p, from, m, 1, 2);
                }
                if dir_move(*p, m, 2, 1, 1) {
                    lemma_dir_move_square(*p, from, m, 2, 1);
                }
                if dir_move(*p, m, -1, 2, 1) {
                    lemma_dir_move_square(*p, from, m, -1, 2);
                }
                if dir_move(*p, m, -2, 1, 1) {
                    lemma_dir_move_square(*p, from, m, -2, 1);
                }
                if dir_move(*p, m, 1, -2, 1) {
                    lemma_dir_move_square(*p, from, m, 1, -2);
                }
                if dir_move(*p, m, 2, -1, 1) {
                    lemma_dir_move_square(*p, from, m, 2, -1);
                }
                if dir_move(*p, m, -1, -2, 1) {
                    lemma_dir_move_square(*p, from, m, -1, -2);
                }
                if dir_move(*p, m, -2, -1, 1) {
                    lemma_dir_move_square(*p, from, m, -2, -1);
                }
            }
            let cap = steps_cap(kd);
            if dir_move(*p, m, 1, 1, cap) && dir_ok(kd, 1, 1) {
                lemma_dir_move_square(*p, from, m, 1, 1);
            }
            if dir_move(*p, m, 1, -1, cap) && dir_ok(kd, 1, -1) {
                lemma_dir_move_square(*p, from, m, 1, -1);
            }
            if dir_move(*p, m, -1, 1, cap) && dir_ok(kd, -1, 1) {
                lemma_dir_move_square(*p, from, m, -1, 1);
            }
            if dir_move(*p, m, -1, -1, cap) && dir_ok(kd, -1, -1) {
                lemma_dir_move_square(*p, from, m, -1, -1);
            }
            if dir_move(*p, m, 1, 0, cap) && dir_ok(kd, 1, 0) {
                lemma_dir_move_square(*p, from, m, 1, 0);
            }
            if dir_move(*p, m, -1, 0, cap) && dir_ok(kd, -1, 0) {
                lemma_dir_move_square(*p, from, m, -1, 0);
            }
            if dir_move(*p, m, 0, 1, cap) && dir_ok(kd, 0, 1) {
                lemma_dir_move_square(*p, from, m, 0, 1);
            }
            if dir_move(*p, m, 0, -1, cap) && dir_ok(kd, 0, -1) {
                lemma_dir_move_square(*p, from, m, 0, -1);
            }
        }
        assert forall|m: Move| m.from == from && square_move(*p, m) implies #[trigger] r@.contains(
            m,
        ) by {
            lemma_square_dir_move(*p, from, m);
            let (df2, dr2) = choose|df2: int, dr2: int|
                #[trigger] dir_ok(kd, df2, dr2) && dir_move(*p, m, df2, dr2, steps_cap(kd));
        }
    }
    r
}

/// The straight-ahead pawn moves from `from`: single push, double push
/// from the start rank, and the quiet promotion expansion.
#[verifier::rlimit(100)]
fn pawn_forward(p: &Position, from: u8, r: &mut Vec<Move>)
    requires
        p.wf(),
        from < 64,
        color_of(p.board@[from as int] as int) == p.active as int,
        kind_of(p.board@[from as int] as int) == PAWN as int,
    ensures
        forall|m: Move| #[trigger] final(r)@.contains(m) <==> old(r)@.contains(m) || (m.from == from
            && square_move(*p, m) && (m.flag is Quiet || m.flag is DoublePush || m.flag
            is Promote)),
{
    let c = p.active;
    let ff: u8 = from % 8;
    let fr: u8 = from / 8;
    proof {
        lemma_square_decompose(from as int);
    }
    let one: i16 = from as i16 + 8 * (c as i16);
    if 0 <= one && one <= 63 {
        proof {
            lemma_square_compose(ff as int, fr as int + c as int);
        }
        if p.board[one as usize] == 0 {
            let promo: bool = if c == 1 {
                one >= 56
            } else {
                one <= 7
            };
            if promo {
                r.push(Move { from, to: one as u8, flag: Flag::Promote(Promotion::Knight) });
                r.push(Move { from, to: one as u8, flag: Flag::Promote(Promotion::Bishop) });
                r.push(Move { from, to: one as u8, flag: Flag::Promote(Promotion::Rook) });
                r.push(Move { from, to: one as u8, flag: Flag::Promote(Promotion::Queen) });
            } else {
                r.push(Move { from, to: one as u8, flag: Flag::Quiet });
                let start_ok: bool = if c == 1 {
                    fr == 1
                } else {
                    fr == 6
                };
                if start_ok {
                    let two: i16 = one + 8 * (c as i16);
                    proof {
                        lemma_square_compose(ff as int, fr as int + 2 * (c as int));
                    }
                    if p.board[two as usize] == 0 {
                        r.push(Move { from, to: two as u8, flag: Flag::DoublePush });
                    }
                }
            }
        }
    }
    proof {
        assert forall|m: Move| m.from == from && square_move(*p, m) && (m.flag is Quiet || m.flag
            is DoublePush || m.flag is Promote) implies #[trigger] r@.contains(m) by {
            lemma_square_decompose(m.to as int);
        }
    }
}

/// The diagonal pawn moves from `from` toward file offset `dfx`: the
/// capture, its promotion expansion, and en passant.
#[verifier::rlimit(100)]
fn pawn_side(p: &Position, from: u8, dfx: i8, r: &mut Vec<Move>)
    requires
        p.wf(),
        from < 64,
        color_of(p.board@[from as int] as int) == p.active as int,
        kind_of(p.board@[from as int] as int) == PAWN as int,
        dfx == 1 || dfx == -1,
    ensures
        forall|m: Move| #[trigger] final(r)@.contains(m) <==> old(r)@.contains(m) || (m.from == from
            && square_move(*p, m) && (m.flag is Capture || m.flag is EnPassant || m.flag
            is PromoteCapture) && file_of(m.to as int) == file_of(from as int) + dfx),
{
    let c = p.active;
    let ff: u8 = from % 8;
    let fr: u8 = from / 8;
    proof {
        lemma_square_decompose(from as int);
    }
    let one: i16 = from as i16 + 8 * (c as i16);
    let in_file: bool = if dfx == 1 {
        ff < 7
    } else {
        ff > 0
    };
    if 0 <= one && one <= 63 && in_file {
        let to: i16 = one + dfx as i16;
        proof {
            lemma_square_compose(ff as int + dfx as int, fr as int + c as int);
        }
        let tpc: i8 = p.board[to as usize];
        let enemy: bool = (c == 1 && tpc < 0) || (c == -1 && tpc > 0);
        let promo: bool = if c == 1 {
            to >= 56
        } else {
            to <= 7
        };
        if enemy {
            if promo {
                r.push(Move { from, to: to as u8, flag: Flag::PromoteCapture(Promotion::Knight) });
                r.push(Move { from, to: to as u8, flag: Flag::PromoteCapture(Promotion::Bishop) });
                r.push(Move { from, to: to as u8, flag: Flag::PromoteCapture(Promotion::Rook) });
                r.push(Move { from, to: to as u8, flag: Flag::PromoteCapture(Promotion::Queen) });
            } else {
                r.push(Move { from, to: to as u8, flag: Flag::Capture });
            }
        }
        let ep_hit: bool = match p.en_passant {
            Some(t) => t as i16 == to,
            None => false,
        };
        if ep_hit {
            r.push(Move { from, to: to as u8, flag: Flag::EnPassant });
        }
    }
    proof {
        assert forall|m: Move| m.from == from && square_move(*p, m) && (m.flag is Capture || m.flag
            is EnPassant || m.flag is PromoteCapture) && file_of(m.to as int) == file_of(
            from as int,
        ) + dfx implies #[trigger] r@.contains(m) by {
            lemma_square_decompose(m.to as int);
        }
    }
}

/// All pseudo-legal moves of the pawn of the side to move standing on
/// `from`: single push, double push from the start rank, diagonal captures,
/// en passant, and the four-way promotion expansion on the farthest rank.
pub(crate) fn pawn_moves(p: &Position, from: u8) -> (r: Vec<Move>)
    requires
        p.wf(),
        from < 64,
        color_of(p.board@[from as int] as int) == p.active as int,
        kind_of(p.board@[from as int] as int) == PAWN as int,
    ensures
        forall|m: Move| #[trigger] r@.contains(m) <==> m.from == from && square_move(*p, m),
{
    let mut r: Vec<Move> = Vec::new();
    pawn_forward(p, from, &mut r);
    pawn_side(p, from, 1, &mut r);
    pawn_side(p, from, -1, &mut r);
    proof {
        assert forall|m: Move| m.from == from && square_move(*p, m) implies #[trigger] r@.contains(
            m,
        ) by {
            if !(m.flag is Quiet || m.flag is DoublePush || m.flag is Promote) {
                assert(m.flag is Capture || m.flag is EnPassant || m.flag is PromoteCapture);
                assert(pawn_attack_geom(m.from as int, m.to as int, p.active as int));
                assert(file_of(m.to as int) == file_of(from as int) + 1 || file_of(m.to as int)
                    == file_of(from as int) - 1);
            }
        }
    }
    r
}

/// The castling moves available to the side to move: a right must be held,
/// the squares between king and rook empty, and neither the king's square
/// nor any square it crosses or lands on attacked by the opponent.
pub(crate) fn castle_moves(p: &Position) -> (r: Vec<Move>)
    requires
        p.wf(),
    ensures
        forall|m: Move| #[trigger] r@.contains(m) <==> (m.flag is CastleKingside || m.flag
            is CastleQueenside) && pseudo_legal(*p, m),
{
    let mut r: Vec<Move> = Vec::new();
    let c = p.active;
    let op: i8 = -c;
    let k: u8 = if c == 1 {
        4
    } else {
        60
    };
    let rights: (bool, bool) = if c == 1 {
        (p.kingside_a, p.queenside_a)
    } else {
        (p.kingside_b, p.queenside_b)
    };
    let c1: bool = rights.0 && p.board[(k + 1) as usize] == 0 && p.board[(k + 2) as usize] == 0
        && !is_attacked(p, k, op) && !is_attacked(p, k + 1, op) && !is_attacked(p, k + 2, op);
    let c2: bool = rights.1 && p.board[(k - 1) as usize] == 0 && p.board[(k - 2) as usize] == 0
        && p.board[(k - 3) as usize] == 0 && !is_attacked(p, k, op) && !is_attacked(p, k - 1, op)
        && !is_attacked(p, k - 2, op);
    let m1 = Move { from: k, to: k + 2, flag: Flag::CastleKingside };
    let m2 = Move { from: k, to: k - 2, flag: Flag::CastleQueenside };
    if c1 {
        r.push(m1);
    }
    if c2 {
        r.push(m2);
    }
    proof {
        assert(c1 == castle_kingside_ok(*p));
        assert(c2 == castle_queenside_ok(*p));
        if c1 {
            assert(r@[0] == m1);
        }
        if c2 {
            assert(r@[r@.len() - 1] == m2);
        }
        assert forall|m: Move| #[trigger] r@.contains(m) implies (m.flag is CastleKingside || m.flag
            is CastleQueenside) && pseudo_legal(*p, m) by {
            let i = choose|i: int| 0 <= i < r@.len() && r@[i] == m;
            assert(m == m1 || m == m2);
        }
        assert forall|m: Move|
            (m.flag is CastleKingside || m.flag is CastleQueenside) && pseudo_legal(
                *p,
                m,
            ) implies #[trigger] r@.contains(m) by {
            if m.flag is CastleKingside {
                assert(m == m1);
                assert(r@[0] == m);
            } else {
                assert(m == m2);
                assert(r@[r@.len() - 1] == m);
            }
        }
    }
    r
}

/// The move assembler: scans all 64 squares, dispatches each piece of the
/// side to move to its generator, and appends the castling moves. The
/// result is exactly the pseudo-legal move set of the position.
pub fn pseudo_moves(p: &Position) -> (r: Vec<Move>)
    requires
        p.wf(),
    ensures
        forall|m: Move| #[trigger] r@.contains(m) <==> pseudo_legal(*p, m),
{
    let c = p.active;
    let mut r: Vec<Move> = Vec::new();
    let mut i: u8 = 0;
    while i < 64
        invariant
            p.wf(),
            c == p.active,
            i <= 64,
            forall|m: Move| #[trigger] r@.contains(m) <==> square_move(*p, m) && (m.from as int)
                < i as int,
        decreases 64 - i,
    {
        let pc: i8 = p.board[i as usize];
        let friendly: bool = (c == 1 && pc > 0) || (c == -1 && pc < 0);
        if friendly {
            let kind: i8 = if pc < 0 {
                -pc
            } else {
                pc
            };
            let mut v: Vec<Move> = if kind == PAWN {
                pawn_moves(p, i)
            } else {
                piece_moves(p, i)
            };
            let ghost rpre = r@;
            let ghost vv = v@;
            r.append(&mut v);
            proof {
                lemma_add_contains(rpre, vv);
            }
        }
        i = i + 1;
    }
    let mut cm = castle_moves(p);
    let ghost rpre = r@;
    let ghost cc = cm@;
    r.append(&mut cm);
    proof {
        lemma_add_contains(rpre, cc);
    }
    r
}

/// All fully legal moves of the position: the pseudo-legal set, with every
/// move that would leave a king of the mover's own color attacked filtered
/// out.
pub fn moves(p: &Position) -> (r: Vec<Move>)
    requires
        p.wf(),
    ensures
        forall|m: Move| #[trigger] r@.contains(m) <==> legal_move(*p, m),
{
    let pl = pseudo_moves(p);
    let c = p.active;
    let op: i8 = -c;
    let mut r: Vec<Move> = Vec::new();
    let mut i: usize = 0;
    while i < pl.len()
        invariant
            p.wf(),
            c == p.active,
            op == -c,
            i <= pl@.len(),
            forall|m: Move| #[trigger] pl@.contains(m) <==> pseudo_legal(*p, m),
            forall|m: Move| #[trigger] r@.contains(m) <==> legal_move(*p, m) && (exists|j: int|
                0 <= j < i && pl@[j] == m),
        decreases pl@.len() - i,
    {
        let m = pl[i];
        proof {
            assert(pl@.contains(m));
        }
        let nb = apply_move(p, m);
        let in_check = any_king_attacked(&nb, c, op);
        if !in_check {
            r.push(m);
        }
        proof {
            assert(in_check == !king_safe_after(*p, m));
            assert(pl@[i as int] == m);
        }
        i = i + 1;
    }
    proof {
        assert forall|m: Move| legal_move(*p, m) implies #[trigger] r@.contains(m) by {
            assert(pl@.contains(m));
            let j = choose|j: int| 0 <= j < pl@.len() && pl@[j] == m;
            assert(0 <= j < pl@.len() && pl@[j] == m);
        }
    }
    r
}

} // verus!
