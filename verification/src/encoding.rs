//! Compact move encoding: a move is packed losslessly into a 16-bit value
//! (6 bits from-square, 6 bits to-square, 4 bits flag), so that the search
//! layer can store and compare moves by raw equality.

use vstd::prelude::*;
use crate::board::on_board;

verus! {

/// The piece kind a promoting pawn turns into.
#[derive(Clone, Copy, PartialEq, Eq, Structural, Debug)]
pub enum Promotion {
    Knight,
    Bishop,
    Rook,
    Queen,
}

/// The semantic tag of a move.
#[derive(Clone, Copy, PartialEq, Eq, Structural, Debug)]
pub enum Flag {
    Quiet,
    DoublePush,
    CastleKingside,
    CastleQueenside,
    Capture,
    EnPassant,
    Promote(Promotion),
    PromoteCapture(Promotion),
}

/// A decoded move: from-square, to-square, and flag.
#[derive(Clone, Copy, PartialEq, Eq, Structural, Debug)]
pub struct Move {
    pub from: u8,
    pub to: u8,
    pub flag: Flag,
}

impl Move {
    /// Both endpoints are real squares.
    pub open spec fn wf(self) -> bool {
        on_board(self.from as int) && on_board(self.to as int)
    }
}

pub open spec fn promo_code(p: Promotion) -> int {
    match p {
        Promotion::Knight => 0,
        Promotion::Bishop => 1,
        Promotion::Rook => 2,
        Promotion::Queen => 3,
    }
}

/// The 4-bit code of a flag. Codes 6 and 7 are unused.
pub open spec fn flag_code(f: Flag) -> int {
    match f {
        Flag::Quiet => 0,
        Flag::DoublePush => 1,
        Flag::CastleKingside => 2,
        Flag::CastleQueenside => 3,
        Flag::Capture => 4,
        Flag::EnPassant => 5,
        Flag::Promote(p) => 8 + promo_code(p),
        Flag::PromoteCapture(p) => 12 + promo_code(p),
    }
}

/// The flag a 4-bit code stands for, `None` for the two unused codes.
pub open spec fn code_flag(c: int) -> Option<Flag> {
    if c == 0 {
        Some(Flag::Quiet)
    } else if c == 1 {
        Some(Flag::DoublePush)
    } else if c == 2 {
        Some(Flag::CastleKingside)
    } else if c == 3 {
        Some(Flag::CastleQueenside)
    } else if c == 4 {
        Some(Flag::Capture)
    } else if c == 5 {
        Some(Flag::EnPassant)
    } else if c == 8 {
        Some(Flag::Promote(Promotion::Knight))
    } else if c == 9 {
        Some(Flag::Promote(Promotion::Bishop))
    } else if c == 10 {
        Some(Flag::Promote(Promotion::Rook))
    } else if c == 11 {
        Some(Flag::Promote(Promotion::Queen))
    } else if c == 12 {
        Some(Flag::PromoteCapture(Promotion::Knight))
    } else if c == 13 {
        Some(Flag::PromoteCapture(Promotion::Bishop))
    } else if c == 14 {
        Some(Flag::PromoteCapture(Promotion::Rook))
    } else if c == 15 {
        Some(Flag::PromoteCapture(Promotion::Queen))
    } else {
        None
    }
}

/// The packed 16-bit value of a move.
pub open spec fn pack_spec(m: Move) -> int {
    m.from + 64 * m.to + 4096 * flag_code(m.flag)
}

/// The move a 16-bit value decodes to, `None` when the flag bits are unused.
pub open spec fn unpack_spec(v: int) -> Option<Move> {
    match code_flag(v / 4096) {
        Some(f) => Some(Move { from: (v % 64) as u8, to: ((v / 64) % 64) as u8, flag: f }),
        None => None,
    }
}

/// Decoding undoes encoding: packing is lossless for every valid move.
pub proof fn lemma_unpack_pack(m: Move)
    requires
        m.wf(),
    ensures
        unpack_spec(pack_spec(m)) == Some(m),
        0 <= pack_spec(m) <= u16::MAX,
{
    let v = pack_spec(m);
    let code = flag_code(m.flag);
    assert(0 <= code < 16 && code != 6 && code != 7);
    vstd::arithmetic::div_mod::lemma_fundamental_div_mod_converse(
        v,
        64,
        m.to + 64 * code,
        m.from as int,
    );
    vstd::arithmetic::div_mod::lemma_fundamental_div_mod_converse(
        m.to + 64 * code,
        64,
        code,
        m.to as int,
    );
    vstd::arithmetic::div_mod::lemma_fundamental_div_mod_converse(
        v,
        4096,
        code,
        m.from + 64 * m.to,
    );
}

/// Encoding undoes decoding: a value that decodes to a move is that
/// move's encoding.
pub proof fn lemma_pack_unpack(v: u16)
    requires
        unpack_spec(v as int) is Some,
    ensures
        unpack_spec(v as int)->0.wf(),
        pack_spec(unpack_spec(v as int)->0) == v,
{
    let vi = v as int;
    vstd::arithmetic::div_mod::lemma_fundamental_div_mod(vi, 64);
    vstd::arithmetic::div_mod::lemma_fundamental_div_mod(vi / 64, 64);
    vstd::arithmetic::div_mod::lemma_div_denominator(vi, 64, 64);
    assert(vi / 64 / 64 == vi / 4096);
}

/// Equal packed values come from equal moves: two moves agree on
/// (from, to, flag) exactly when their encodings are equal.
pub proof fn lemma_pack_injective(a: Move, b: Move)
    requires
        a.wf(),
        b.wf(),
        pack_spec(a) == pack_spec(b),
    ensures
        a == b,
{
    lemma_unpack_pack(a);
    lemma_unpack_pack(b);
}

/// Packs a move into its 16-bit encoding.
pub fn pack(m: Move) -> (r: u16)
    requires
        m.wf(),
    ensures
        r == pack_spec(m),
{
    proof {
        lemma_unpack_pack(m);
    }
    let code: u16 = match m.flag {
        Flag::Quiet => 0,
        Flag::DoublePush => 1,
        Flag::CastleKingside => 2,
        Flag::CastleQueenside => 3,
        Flag::Capture => 4,
        Flag::EnPassant => 5,
        Flag::Promote(Promotion::Knight) => 8,
        Flag::Promote(Promotion::Bishop) => 9,
        Flag::Promote(Promotion::Rook) => 10,
        Flag::Promote(Promotion::Queen) => 11,
        Flag::PromoteCapture(Promotion::Knight) => 12,
        Flag::PromoteCapture(Promotion::Bishop) => 13,
        Flag::PromoteCapture(Promotion::Rook) => 14,
        Flag::PromoteCapture(Promotion::Queen) => 15,
    };
    m.from as u16 + 64 * (m.to as u16) + 4096 * code
}

/// Unpacks a 16-bit value back into a move; `None` when the flag bits
/// hold one of the two unused codes.
pub fn unpack(v: u16) -> (r: Option<Move>)
    ensures
        r == unpack_spec(v as int),
        r is Some ==> r->0.wf() && pack_spec(r->0) == v,
{
    let code: u16 = v / 4096;
    let from: u8 = (v % 64) as u8;
    let to: u8 = ((v / 64) % 64) as u8;
    proof {
        vstd::arithmetic::div_mod::lemma_fundamental_div_mod(v as int, 64);
        vstd::arithmetic::div_mod::lemma_fundamental_div_mod(v as int / 64, 64);
        vstd::arithmetic::div_mod::lemma_fundamental_div_mod(v as int, 4096);
        assert(v as int / 64 == (from + 64 * (to + 64 * code)) / 64);
        vstd::arithmetic::div_mod::lemma_fundamental_div_mod_converse(
            v as int,
            4096,
            code as int,
            v as int - 4096 * code,
        );
    }
    let flag: Option<Flag> = if code == 0 {
        Some(Flag::Quiet)
    } else if code == 1 {
        Some(Flag::DoublePush)
    } else if code == 2 {
        Some(Flag::CastleKingside)
    } else if code == 3 {
        Some(Flag::CastleQueenside)
    } else if code == 4 {
        Some(Flag::Capture)
    } else if code == 5 {
        Some(Flag::EnPassant)
    } else if code == 8 {
        Some(Flag::Promote(Promotion::Knight))
    } else if code == 9 {
        Some(Flag::Promote(Promotion::Bishop))
    } else if code == 10 {
        Some(Flag::Promote(Promotion::Rook))
    } else if code == 11 {
        Some(Flag::Promote(Promotion::Queen))
    } else if code == 12 {
        Some(Flag::PromoteCapture(Promotion::Knight))
    } else if code == 13 {
        Some(Flag::PromoteCapture(Promotion::Bishop))
    } else if code == 14 {
        Some(Flag::PromoteCapture(Promotion::Rook))
    } else if code == 15 {
        Some(Flag::PromoteCapture(Promotion::Queen))
    } else {
        None
    };
    match flag {
        Some(f) => Some(Move { from, to, flag: f }),
        None => None,
    }
}

} // verus!
