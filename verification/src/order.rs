//! The search-ordering adapter: a prioritized move sequence for the search
//! layer, layering the two caller-supplied hint moves, then promotions,
//! then check-giving moves, then the remaining legal moves.

use vstd::prelude::*;
use crate::board::Position;
use crate::encoding::{
    Move, Flag, pack, pack_spec, unpack_spec, lemma_unpack_pack, lemma_pack_unpack,
};
use crate::rules::{legal_move, is_promotion, gives_check};
use crate::gen::{moves, apply_move, any_king_attacked};

verus! {

broadcast use vstd::seq_lib::lemma_seq_contains_after_push;

/// An encoded legal promotion move of the position.
pub open spec fn packed_promo(p: Position, v: u16) -> bool {
    match unpack_spec(v as int) {
        Some(m) => legal_move(p, m) && is_promotion(m.flag),
        None => false,
    }
}

/// An encoded legal non-promotion move of the position that gives check.
pub open spec fn packed_check(p: Position, v: u16) -> bool {
    match unpack_spec(v as int) {
        Some(m) => legal_move(p, m) && !is_promotion(m.flag) && gives_check(p, m),
        None => false,
    }
}

/// An encoded legal move of the position that is neither a promotion nor
/// gives check.
pub open spec fn packed_rest(p: Position, v: u16) -> bool {
    match unpack_spec(v as int) {
        Some(m) => legal_move(p, m) && !is_promotion(m.flag) && !gives_check(p, m),
        None => false,
    }
}

/// Packs each move of a list in order.
fn pack_all(ms: &Vec<Move>) -> (r: Vec<u16>)
    requires
        forall|mm: Move| #[trigger] ms@.contains(mm) ==> mm.wf(),
    ensures
        r@.len() == ms@.len(),
        forall|t: int| 0 <= t < ms@.len() ==> r@[t] == pack_spec(ms@[t]),
{
    let mut r: Vec<u16> = Vec::new();
    let mut idx: usize = 0;
    while idx < ms.len()
        invariant
            idx <= ms@.len(),
            r@.len() == idx,
            forall|mm: Move| #[trigger] ms@.contains(mm) ==> mm.wf(),
            forall|t: int| 0 <= t < idx ==> r@[t] == pack_spec(ms@[t]),
        decreases ms@.len() - idx,
    {
        let m = ms[idx];
        proof {
            assert(ms@.contains(m));
        }
        r.push(pack(m));
        idx = idx + 1;
    }
    r
}

/// The prioritized move sequence handed to the search: first the two hint
/// moves, unchecked and without deduplication; then every legal promotion;
/// then every other legal move that gives check; then the remaining legal
/// moves. The ordering biases search, it does not change the legal set.
#[verifier::rlimit(100)]
pub fn mv_gen(p: &Position, best: u16, second: u16) -> (r: Vec<u16>)
    requires
        p.wf(),
    ensures
        r@.len() >= 2,
        r@[0] == best,
        r@[1] == second,
        exists|i: int, j: int|
            #![trigger r@.subrange(i, j)]
            2 <= i <= j <= r@.len() && (forall|v: u16|
                #[trigger] r@.subrange(2, i).contains(v) <==> packed_promo(*p, v)) && (forall|
                v: u16,
            |
                #[trigger] r@.subrange(i, j).contains(v) <==> packed_check(*p, v)) && (forall|
                v: u16,
            |
                #[trigger] r@.subrange(j, r@.len() as int).contains(v) <==> packed_rest(*p, v)),
{
    let ml = moves(p);
    let c = p.active;
    let op: i8 = -c;
    let mut w1: Vec<Move> = Vec::new();
    let mut w2: Vec<Move> = Vec::new();
    let mut w3: Vec<Move> = Vec::new();
    let mut idx: usize = 0;
    while idx < ml.len()
        invariant
            p.wf(),
            c == p.active,
            op == -c,
            idx <= ml@.len(),
            forall|mm: Move| #[trigger] ml@.contains(mm) <==> legal_move(*p, mm),
            forall|mm: Move| #[trigger] w1@.contains(mm) <==> legal_move(*p, mm) && is_promotion(
                mm.flag,
            ) && (exists|jj: int| 0 <= jj < idx && ml@[jj] == mm),
            forall|mm: Move| #[trigger] w2@.contains(mm) <==> legal_move(*p, mm) && !is_promotion(
                mm.flag,
            ) && gives_check(*p, mm) && (exists|jj: int| 0 <= jj < idx && ml@[jj] == mm),
            forall|mm: Move| #[trigger] w3@.contains(mm) <==> legal_move(*p, mm) && !is_promotion(
                mm.flag,
            ) && !gives_check(*p, mm) && (exists|jj: int| 0 <= jj < idx && ml@[jj] == mm),
        decreases ml@.len() - idx,
    {
        let m = ml[idx];
        proof {
            assert(ml@.contains(m));
            assert(ml@[idx as int] == m);
        }
        let promo: bool = match m.flag {
            Flag::Promote(_) => true,
            Flag::PromoteCapture(_) => true,
            _ => false,
        };
        if promo {
            w1.push(m);
        } else {
            let nb = apply_move(p, m);
            let check = any_king_attacked(&nb, op, c);
            if check {
                w2.push(m);
            } else {
                w3.push(m);
            }
        }
        proof {
            assert forall|mm: Move| legal_move(*p, mm) && is_promotion(mm.flag) && (exists|jj: int|
                0 <= jj < idx + 1 && ml@[jj] == mm) implies #[trigger] w1@.contains(mm) by {
                let jj = choose|jj: int| 0 <= jj < idx + 1 && ml@[jj] == mm;
                if jj < idx {
                    assert(exists|j2: int| 0 <= j2 < idx && ml@[j2] == mm);
                } else {
                    assert(mm == m);
                }
            }
            assert forall|mm: Move| legal_move(*p, mm) && !is_promotion(mm.flag) && gives_check(
                *p,
                mm,
            ) && (exists|jj: int| 0 <= jj < idx + 1 && ml@[jj] == mm) implies #[trigger] w2@
                .contains(mm) by {
                let jj = choose|jj: int| 0 <= jj < idx + 1 && ml@[jj] == mm;
                if jj < idx {
                    assert(exists|j2: int| 0 <= j2 < idx && ml@[j2] == mm);
                } else {
                    assert(mm == m);
                }
            }
            assert forall|mm: Move| legal_move(*p, mm) && !is_promotion(mm.flag) && !gives_check(
                *p,
                mm,
            ) && (exists|jj: int| 0 <= jj < idx + 1 && ml@[jj] == mm) implies #[trigger] w3@
                .contains(mm) by {
                let jj = choose|jj: int| 0 <= jj < idx + 1 && ml@[jj] == mm;
                if jj < idx {
                    assert(exists|j2: int| 0 <= j2 < idx && ml@[j2] == mm);
                } else {
                    assert(mm == m);
                }
            }
        }
        idx = idx + 1;
    }
    let mut v1 = pack_all(&w1);
    let mut v2 = pack_all(&w2);
    let mut v3 = pack_all(&w3);
    let mut r: Vec<u16> = Vec::new();
    r.push(best);
    r.push(second);
    let ghost g1 = v1@;
    let ghost g2 = v2@;
    let ghost g3 = v3@;
    r.append(&mut v1);
    r.append(&mut v2);
    r.append(&mut v3);
    proof {
        let i = 2 + g1.len() as int;
        let j = i + g2.len() as int;
        assert(r@.subrange(2, i) =~= g1);
        assert(r@.subrange(i, j) =~= g2);
        assert(r@.subrange(j, r@.len() as int) =~= g3);
        assert forall|v: u16| #[trigger] g1.contains(v) implies packed_promo(*p, v) by {
            let t = choose|t: int| 0 <= t < g1.len() && g1[t] == v;
            assert(w1@.contains(w1@[t]));
            lemma_unpack_pack(w1@[t]);
        }
        assert forall|v: u16| packed_promo(*p, v) implies #[trigger] g1.contains(v) by {
            let m = unpack_spec(v as int)->0;
            lemma_pack_unpack(v);
            assert(ml@.contains(m));
            let jj = choose|jj: int| 0 <= jj < ml@.len() && ml@[jj] == m;
            assert(0 <= jj < idx && ml@[jj] == m);
            assert(w1@.contains(m));
            let t = choose|t: int| 0 <= t < w1@.len() && w1@[t] == m;
            assert(g1[t] == v);
        }
        assert forall|v: u16| #[trigger] g2.contains(v) implies packed_check(*p, v) by {
            let t = choose|t: int| 0 <= t < g2.len() && g2[t] == v;
            assert(w2@.contains(w2@[t]));
            lemma_unpack_pack(w2@[t]);
        }
        assert forall|v: u16| packed_check(*p, v) implies #[trigger] g2.contains(v) by {
            let m = unpack_spec(v as int)->0;
            lemma_pack_unpack(v);
            assert(ml@.contains(m));
            let jj = choose|jj: int| 0 <= jj < ml@.len() && ml@[jj] == m;
            assert(0 <= jj < idx && ml@[jj] == m);
            assert(w2@.contains(m));
            let t = choose|t: int| 0 <= t < w2@.len() && w2@[t] == m;
            assert(g2[t] == v);
        }
        assert forall|v: u16| #[trigger] g3.contains(v) implies packed_rest(*p, v) by {
            let t = choose|t: int| 0 <= t < g3.len() && g3[t] == v;
            assert(w3@.contains(w3@[t]));
            lemma_unpack_pack(w3@[t]);
        }
        assert forall|v: u16| packed_rest(*p, v) implies #[trigger] g3.contains(v) by {
            let m = unpack_spec(v as int)->0;
            lemma_pack_unpack(v);
            assert(ml@.contains(m));
            let jj = choose|jj: int| 0 <= jj < ml@.len() && ml@[jj] == m;
            assert(0 <= jj < idx && ml@[jj] == m);
            assert(w3@.contains(m));
            let t = choose|t: int| 0 <= t < w3@.len() && w3@[t] == m;
            assert(g3[t] == v);
        }
        assert(2 <= i <= j <= r@.len());
    }
    r
}

} // verus!
