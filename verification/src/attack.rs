//! The attack detector: whether a piece on one square attacks another, and
//! whether any piece of a color attacks a square. This underlies castling
//! legality and the king-safety filter.

use vstd::prelude::*;
use crate::board::{
    Position, board_ok, color_of, file_of, rank_of, step, ray_in_bounds, sgn, absi,
    lemma_mul_unit, lemma_step_extend, lemma_square_decompose, lemma_ray_endpoint,
    lemma_ray_prefix, PAWN, KNIGHT, BISHOP, ROOK, QUEEN, KING,
};
use crate::rules::{
    attacks_from, attacked, reaches, piece_step, clear_path, lemma_slider_reaches_inv,
};

verus! {

/// Whether the piece standing on `src` (if any) attacks square `sq`.
#[verifier::rlimit(60)]
pub(crate) fn attacks_from_exec(b: &Vec<i8>, src: u8, sq: u8) -> (r: bool)
    requires
        board_ok(b@),
        src < 64,
        sq < 64,
    ensures
        r == attacks_from(b@, src as int, sq as int),
{
    proof {
        lemma_square_decompose(src as int);
        lemma_square_decompose(sq as int);
    }
    let pc: i8 = b[src as usize];
    if pc == 0 {
        return false;
    }
    let kind: i8 = if pc < 0 {
        -pc
    } else {
        pc
    };
    let df: i8 = (sq % 8) as i8 - (src % 8) as i8;
    let dr: i8 = (sq / 8) as i8 - (src / 8) as i8;
    if kind == PAWN {
        let dir: i8 = if pc > 0 {
            1
        } else {
            -1
        };
        return dr == dir && (df == 1 || df == -1);
    }
    if kind == KNIGHT || kind == KING {
        let hit: bool = if kind == KNIGHT {
            ((df == 1 || df == -1) && (dr == 2 || dr == -2)) || ((df == 2 || df == -2) && (dr == 1
                || dr == -1))
        } else {
            -1 <= df && df <= 1 && -1 <= dr && dr <= 1 && !(df == 0 && dr == 0)
        };
        proof {
            let kd = kind as int;
            if hit {
                assert(sq as int == step(src as int, df as int, dr as int, 1));
                assert(piece_step(kd, df as int, dr as int, 1));
                assert(ray_in_bounds(src as int, df as int, dr as int, 1));
                assert(reaches(b@, kd, src as int, sq as int));
            }
            if reaches(b@, kd, src as int, sq as int) {
                let (df2, dr2, n2) = choose|df2: int, dr2: int, n2: int|
                    #[trigger] piece_step(kd, df2, dr2, n2) && ray_in_bounds(
                        src as int,
                        df2,
                        dr2,
                        n2,
                    ) && sq as int == step(src as int, df2, dr2, n2) && clear_path(
                        b@,
                        src as int,
                        df2,
                        dr2,
                        n2,
                    );
                lemma_ray_endpoint(src as int, df2, dr2, n2);
                lemma_mul_unit(n2, df2);
                lemma_mul_unit(n2, dr2);
                assert(df2 == df as int && dr2 == dr as int);
                assert(hit);
            }
        }
        return hit;
    }
    // Sliding pieces: bishop, rook, queen.
    let absf: i8 = if df < 0 {
        -df
    } else {
        df
    };
    let absr: i8 = if dr < 0 {
        -dr
    } else {
        dr
    };
    let diag: bool = absf == absr && absf != 0;
    let ortho: bool = (df == 0 && dr != 0) || (df != 0 && dr == 0);
    let dir_ok: bool = if kind == BISHOP {
        diag
    } else if kind == ROOK {
        ortho
    } else {
        diag || ortho
    };
    if !dir_ok {
        proof {
            if reaches(b@, kind as int, src as int, sq as int) {
                lemma_slider_reaches_inv(b@, kind as int, src as int, sq as int);
            }
        }
        return false;
    }
    let n: i8 = if absf > absr {
        absf
    } else {
        absr
    };
    let sf: i8 = if df > 0 {
        1
    } else if df < 0 {
        -1
    } else {
        0
    };
    let sr: i8 = if dr > 0 {
        1
    } else if dr < 0 {
        -1
    } else {
        0
    };
    proof {
        lemma_mul_unit(n as int, sf as int);
        lemma_mul_unit(n as int, sr as int);
        assert(ray_in_bounds(src as int, sf as int, sr as int, n as int));
        lemma_ray_endpoint(src as int, sf as int, sr as int, n as int);
        assert(sq as int == step(src as int, sf as int, sr as int, n as int));
    }
    let delta: i16 = sf as i16 + 8 * (sr as i16);
    let mut cur: i16 = src as i16;
    let mut k: i8 = 1;
    while k < n
        invariant
            board_ok(b@),
            src < 64,
            sq < 64,
            1 <= k <= n <= 7,
            kind == BISHOP || kind == ROOK || kind == QUEEN,
            b@[src as int] != 0,
            kind as int == crate::board::kind_of(b@[src as int] as int),
            df as int == file_of(sq as int) - file_of(src as int),
            dr as int == rank_of(sq as int) - rank_of(src as int),
            n as int == (if absi(df as int) > absi(dr as int) {
                absi(df as int)
            } else {
                absi(dr as int)
            }),
            sf == sgn(df as int) && sr == sgn(dr as int),
            delta == sf + 8 * (sr as i16),
            ray_in_bounds(src as int, sf as int, sr as int, n as int),
            sq as int == step(src as int, sf as int, sr as int, n as int),
            cur == step(src as int, sf as int, sr as int, k - 1),
            forall|j: int|
                1 <= j < k ==> b@[#[trigger] step(src as int, sf as int, sr as int, j)] == 0,
        decreases n - k,
    {
        proof {
            lemma_ray_prefix(src as int, sf as int, sr as int, n as int, k as int);
            lemma_ray_endpoint(src as int, sf as int, sr as int, k as int);
            lemma_step_extend(src as int, sf as int, sr as int, k as int);
        }
        cur = cur + delta;
        if b[cur as usize] != 0 {
            proof {
                if reaches(b@, kind as int, src as int, sq as int) {
                    lemma_slider_reaches_inv(b@, kind as int, src as int, sq as int);
                    assert(b@[step(src as int, sf as int, sr as int, k as int)] == 0);
                }
            }
            return false;
        }
        k = k + 1;
    }
    proof {
        assert(clear_path(b@, src as int, sf as int, sr as int, n as int));
        assert(piece_step(kind as int, sf as int, sr as int, n as int));
        assert(reaches(b@, kind as int, src as int, sq as int));
    }
    true
}

/// Whether any piece of color `by` on board `b` attacks square `sq`.
pub(crate) fn board_attacked(b: &Vec<i8>, sq: u8, by: i8) -> (r: bool)
    requires
        board_ok(b@),
        sq < 64,
    ensures
        r == attacked(b@, sq as int, by as int),
{
    let mut i: u8 = 0;
    while i < 64
        invariant
            board_ok(b@),
            sq < 64,
            i <= 64,
            forall|s: int|
                0 <= s < i ==> !(color_of(b@[s] as int) == by && #[trigger] attacks_from(
                    b@,
                    s,
                    sq as int,
                )),
        decreases 64 - i,
    {
        let pc: i8 = b[i as usize];
        let col: i8 = if pc > 0 {
            1
        } else if pc < 0 {
            -1
        } else {
            0
        };
        if col == by {
            if attacks_from_exec(b, i, sq) {
                return true;
            }
        }
        i = i + 1;
    }
    false
}

/// Whether any piece of color `by` attacks square `sq` in position `p`.
/// This is the square-attack query behind castling legality and the
/// king-safety filter.
pub fn is_attacked(p: &Position, sq: u8, by: i8) -> (r: bool)
    requires
        p.wf(),
        sq < 64,
    ensures
        r == attacked(p.board@, sq as int, by as int),
{
    board_attacked(&p.board, sq, by)
}

} // verus!
