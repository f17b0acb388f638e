//! The position snapshot and the square geometry: files, ranks, steps along a
//! direction, and the lemmas that connect flat square indices to file/rank
//! coordinates.

use vstd::prelude::*;

verus! {

/// Piece kinds, as the magnitude of a signed piece code.
pub const PAWN: i8 = 1;
pub const KNIGHT: i8 = 2;
pub const BISHOP: i8 = 3;
pub const ROOK: i8 = 4;
pub const QUEEN: i8 = 5;
pub const KING: i8 = 6;

/// A read-only snapshot of a chess position. Each of the 64 squares holds a
/// signed piece code: zero is empty, the sign is the owning color (+1 side A,
/// -1 side B), the magnitude is the piece kind.
pub struct Position {
    /// 64 squares, rank-major: square index = 8 * rank + file.
    pub board: Vec<i8>,
    /// The side to move: +1 or -1.
    pub active: i8,
    /// Side A (+1) may still castle kingside / queenside.
    pub kingside_a: bool,
    pub queenside_a: bool,
    /// Side B (-1) may still castle kingside / queenside.
    pub kingside_b: bool,
    pub queenside_b: bool,
    /// The en-passant target square, when the previous move was a double push.
    pub en_passant: Option<u8>,
}

/// A valid board image: 64 squares, each piece code in range.
pub open spec fn board_ok(b: Seq<i8>) -> bool {
    &&& b.len() == 64
    &&& forall|i: int| 0 <= i < 64 ==> -6 <= #[trigger] b[i] <= 6
}

impl Position {
    /// Structural validity of a snapshot: 64 squares, piece codes in range,
    /// a proper side to move, and an on-board en-passant target when set.
    pub open spec fn wf(self) -> bool {
        &&& board_ok(self.board@)
        &&& (self.active == 1i8 || self.active == -1i8)
        &&& match self.en_passant {
            Some(t) => t < 64,
            None => true,
        }
    }

    /// The castling-rights pair (kingside, queenside) of a color.
    pub open spec fn castle_rights(self, color: int) -> (bool, bool) {
        if color == 1 {
            (self.kingside_a, self.queenside_a)
        } else {
            (self.kingside_b, self.queenside_b)
        }
    }
}

/// The color of a piece code: +1, -1, or 0 for an empty square.
pub open spec fn color_of(pc: int) -> int {
    if pc > 0 {
        1
    } else if pc < 0 {
        -1
    } else {
        0
    }
}

/// The kind of a piece code: its magnitude.
pub open spec fn kind_of(pc: int) -> int {
    if pc >= 0 {
        pc
    } else {
        -pc
    }
}

/// The file (column) of a square index.
pub open spec fn file_of(sq: int) -> int {
    sq % 8
}

/// The rank (row) of a square index.
pub open spec fn rank_of(sq: int) -> int {
    sq / 8
}

pub open spec fn on_board(sq: int) -> bool {
    0 <= sq < 64
}

/// The square reached from `from` after `n` steps of the direction
/// (`df` files, `dr` ranks) in flat-index arithmetic.
pub open spec fn step(from: int, df: int, dr: int, n: int) -> int {
    from + n * (df + 8 * dr)
}

/// The ray of `n` steps of (`df`, `dr`) from `from` stays on the board:
/// its endpoint's file and rank coordinates are both in range. Together
/// with `lemma_ray_prefix` this keeps every intermediate square on board.
pub open spec fn ray_in_bounds(from: int, df: int, dr: int, n: int) -> bool {
    &&& 0 <= file_of(from) + n * df < 8
    &&& 0 <= rank_of(from) + n * dr < 8
}

/// The sign of an integer.
pub open spec fn sgn(x: int) -> int {
    if x > 0 {
        1
    } else if x < 0 {
        -1
    } else {
        0
    }
}

/// The magnitude of an integer.
pub open spec fn absi(x: int) -> int {
    if x >= 0 {
        x
    } else {
        -x
    }
}

/// Multiplication by a unit factor, spelled out for the linear solver.
pub proof fn lemma_mul_unit(n: int, d: int)
    ensures
        n == 1 ==> n * d == d,
        d == 0 ==> n * d == 0,
        d == 1 ==> n * d == n,
        d == -1 ==> n * d == -n,
{
    assert(n == 1 ==> n * d == d) by (nonlinear_arith);
    assert(d == 0 ==> n * d == 0) by (nonlinear_arith);
    assert(d == 1 ==> n * d == n) by (nonlinear_arith);
    assert(d == -1 ==> n * d == -n) by (nonlinear_arith);
}

/// One more step along a direction adds one direction delta to the index.
pub proof fn lemma_step_extend(from: int, df: int, dr: int, k: int)
    ensures
        step(from, df, dr, k) == step(from, df, dr, k - 1) + (df + 8 * dr),
{
    assert(k * (df + 8 * dr) == (k - 1) * (df + 8 * dr) + (df + 8 * dr)) by (nonlinear_arith);
}

/// A square index decomposes into its rank and file.
pub proof fn lemma_square_decompose(sq: int)
    requires
        on_board(sq),
    ensures
        sq == 8 * rank_of(sq) + file_of(sq),
        0 <= file_of(sq) < 8,
        0 <= rank_of(sq) < 8,
{
}

/// A square built from in-range coordinates has exactly those coordinates.
pub proof fn lemma_square_compose(f: int, r: int)
    requires
        0 <= f < 8,
        0 <= r < 8,
    ensures
        on_board(8 * r + f),
        file_of(8 * r + f) == f,
        rank_of(8 * r + f) == r,
{
    vstd::arithmetic::div_mod::lemma_fundamental_div_mod_converse(8 * r + f, 8, r, f);
}

/// One flat-index step that lands on the board and moves at most two files
/// is an honest geometric step: it cannot have wrapped around a board edge.
/// A wrapped step always shows a file jump of six or more.
pub proof fn lemma_step_unwrap(cur: int, df: int, dr: int)
    requires
        on_board(cur),
        on_board(cur + df + 8 * dr),
        -2 <= df <= 2,
        -2 <= dr <= 2,
        -2 <= file_of(cur + df + 8 * dr) - file_of(cur) <= 2,
    ensures
        file_of(cur + df + 8 * dr) == file_of(cur) + df,
        rank_of(cur + df + 8 * dr) == rank_of(cur) + dr,
{
    let f = file_of(cur);
    let r = rank_of(cur);
    let nxt = cur + df + 8 * dr;
    lemma_square_decompose(cur);
    if 0 <= f + df < 8 {
        vstd::arithmetic::div_mod::lemma_fundamental_div_mod_converse(nxt, 8, r + dr, f + df);
    } else if f + df < 0 {
        vstd::arithmetic::div_mod::lemma_fundamental_div_mod_converse(
            nxt,
            8,
            r + dr - 1,
            f + df + 8,
        );
    } else {
        vstd::arithmetic::div_mod::lemma_fundamental_div_mod_converse(
            nxt,
            8,
            r + dr + 1,
            f + df - 8,
        );
    }
}

/// An in-bounds ray's endpoint is on the board, at the coordinates the
/// direction arithmetic promises.
pub proof fn lemma_ray_endpoint(from: int, df: int, dr: int, n: int)
    requires
        on_board(from),
        ray_in_bounds(from, df, dr, n),
    ensures
        on_board(step(from, df, dr, n)),
        file_of(step(from, df, dr, n)) == file_of(from) + n * df,
        rank_of(step(from, df, dr, n)) == rank_of(from) + n * dr,
{
    let f = file_of(from);
    let r = rank_of(from);
    lemma_square_decompose(from);
    assert(step(from, df, dr, n) == 8 * (r + n * dr) + (f + n * df)) by (nonlinear_arith)
        requires
            from == 8 * r + f,
    ;
    lemma_square_compose(f + n * df, r + n * dr);
}

/// Every prefix of an in-bounds ray is itself in bounds: the file and rank
/// coordinates move monotonically from the start toward the endpoint.
pub proof fn lemma_ray_prefix(from: int, df: int, dr: int, n: int, k: int)
    requires
        on_board(from),
        ray_in_bounds(from, df, dr, n),
        0 <= k <= n,
    ensures
        ray_in_bounds(from, df, dr, k),
{
    lemma_square_decompose(from);
    assert(0 <= file_of(from) + k * df < 8) by (nonlinear_arith)
        requires
            0 <= file_of(from) < 8,
            0 <= file_of(from) + n * df < 8,
            0 <= k <= n,
    ;
    assert(0 <= rank_of(from) + k * dr < 8) by (nonlinear_arith)
        requires
            0 <= rank_of(from) < 8,
            0 <= rank_of(from) + n * dr < 8,
            0 <= k <= n,
    ;
}

} // verus!
