use movegen::board::{Position, BISHOP, KING, KNIGHT, PAWN, QUEEN, ROOK};
use movegen::encoding::{Flag, Move, Promotion};
use movegen::gen::{moves, pseudo_moves};

fn plain(board: Vec<i8>, active: i8) -> Position {
    Position {
        board,
        active,
        kingside_a: false,
        queenside_a: false,
        kingside_b: false,
        queenside_b: false,
        en_passant: None,
    }
}

fn board_with(pieces: &[(u8, i8)]) -> Vec<i8> {
    let mut b = vec![0i8; 64];
    for (sq, pc) in pieces {
        b[*sq as usize] = *pc;
    }
    b
}

fn starting_position() -> Position {
    let mut b = vec![0i8; 64];
    let back = [ROOK, KNIGHT, BISHOP, QUEEN, KING, BISHOP, KNIGHT, ROOK];
    for f in 0..8 {
        b[f] = back[f];
        b[8 + f] = PAWN;
        b[48 + f] = -PAWN;
        b[56 + f] = -back[f];
    }
    Position {
        board: b,
        active: 1,
        kingside_a: true,
        queenside_a: true,
        kingside_b: true,
        queenside_b: true,
        en_passant: None,
    }
}

fn has(ms: &[Move], from: u8, to: u8, flag: Flag) -> bool {
    ms.iter().any(|m| *m == Move { from, to, flag })
}

#[test]
fn starting_position_has_twenty_legal_moves() {
    let ms = moves(&starting_position());
    assert_eq!(ms.len(), 20);
}

#[test]
fn starting_pawn_gets_single_and_double_push() {
    let ms = moves(&starting_position());
    assert!(has(&ms, 12, 20, Flag::Quiet));
    assert!(has(&ms, 12, 28, Flag::DoublePush));
}

#[test]
fn generated_moves_stay_on_the_board() {
    for p in [starting_position(), {
        let mut q = starting_position();
        q.active = -1;
        q
    }] {
        for m in pseudo_moves(&p) {
            assert!(m.from < 64);
            assert!(m.to < 64);
            assert_ne!(m.from, m.to);
        }
    }
}

#[test]
fn no_move_lands_on_a_friendly_piece() {
    let p = starting_position();
    for m in pseudo_moves(&p) {
        assert!(p.board[m.to as usize] * p.active <= 0);
    }
}

#[test]
fn double_push_needs_the_start_rank_and_empty_path() {
    let p = plain(board_with(&[(28, PAWN)]), 1);
    let ms = moves(&p);
    assert!(has(&ms, 28, 36, Flag::Quiet));
    assert!(!ms.iter().any(|m| m.flag == Flag::DoublePush));

    let blocked = plain(board_with(&[(12, PAWN), (28, -PAWN)]), 1);
    let ms = moves(&blocked);
    assert!(has(&ms, 12, 20, Flag::Quiet));
    assert!(!ms.iter().any(|m| m.flag == Flag::DoublePush));

    let shut = plain(board_with(&[(12, PAWN), (20, -PAWN)]), 1);
    let ms = moves(&shut);
    assert!(!ms.iter().any(|m| m.from == 12));
}

#[test]
fn promotion_expands_to_exactly_four_moves() {
    let p = plain(board_with(&[(52, PAWN)]), 1);
    let ms = moves(&p);
    let from52: Vec<&Move> = ms.iter().filter(|m| m.from == 52).collect();
    assert_eq!(from52.len(), 4);
    for pk in [Promotion::Knight, Promotion::Bishop, Promotion::Rook, Promotion::Queen] {
        assert!(has(&ms, 52, 60, Flag::Promote(pk)));
    }
}

#[test]
fn capturing_promotion_keeps_the_capture_status() {
    let p = plain(board_with(&[(52, PAWN), (59, -ROOK), (60, -KNIGHT)]), 1);
    let ms = moves(&p);
    let from52: Vec<&Move> = ms.iter().filter(|m| m.from == 52).collect();
    assert_eq!(from52.len(), 4);
    for pk in [Promotion::Knight, Promotion::Bishop, Promotion::Rook, Promotion::Queen] {
        assert!(has(&ms, 52, 59, Flag::PromoteCapture(pk)));
        assert!(!has(&ms, 52, 60, Flag::Promote(pk)));
    }
}

#[test]
fn en_passant_comes_exactly_from_the_set_target() {
    let mut p = plain(board_with(&[(36, PAWN), (35, -PAWN)]), 1);
    p.en_passant = Some(43);
    let ms = moves(&p);
    assert!(has(&ms, 36, 43, Flag::EnPassant));

    p.en_passant = None;
    let ms = moves(&p);
    assert!(!ms.iter().any(|m| m.flag == Flag::EnPassant));

    p.en_passant = Some(41);
    let ms = moves(&p);
    assert!(!ms.iter().any(|m| m.flag == Flag::EnPassant));
}

#[test]
fn en_passant_respects_file_adjacency() {
    let mut p = plain(board_with(&[(39, PAWN)]), 1);
    p.en_passant = Some(48);
    let ms = moves(&p);
    assert!(!ms.iter().any(|m| m.flag == Flag::EnPassant));
}

#[test]
fn rook_rays_stop_at_blockers_and_captures() {
    let p = plain(board_with(&[(0, ROOK), (2, -BISHOP), (8, PAWN)]), 1);
    let ms = moves(&p);
    assert!(has(&ms, 0, 1, Flag::Quiet));
    assert!(has(&ms, 0, 2, Flag::Capture));
    assert!(!ms.iter().any(|m| m.from == 0 && m.to == 3));
    assert!(!ms.iter().any(|m| m.from == 0 && m.to == 8));
}

#[test]
fn knight_in_the_corner_has_two_moves() {
    let p = plain(board_with(&[(7, KNIGHT)]), 1);
    let ms = moves(&p);
    assert_eq!(ms.len(), 2);
    assert!(has(&ms, 7, 13, Flag::Quiet));
    assert!(has(&ms, 7, 22, Flag::Quiet));
}

#[test]
fn bishop_ray_never_wraps_around_the_edge() {
    let p = plain(board_with(&[(7, BISHOP)]), 1);
    let ms = moves(&p);
    assert_eq!(ms.len(), 7);
    for k in 1..8u8 {
        assert!(has(&ms, 7, 7 + 7 * k, Flag::Quiet));
    }
    assert!(!ms.iter().any(|m| m.to == 16));
}

#[test]
fn queen_combines_rook_and_bishop_rays() {
    let p = plain(board_with(&[(0, QUEEN)]), 1);
    let ms = moves(&p);
    assert_eq!(ms.len(), 21);
}

#[test]
fn castling_appears_when_all_conditions_hold() {
    let mut p = plain(board_with(&[(4, KING), (0, ROOK), (7, ROOK)]), 1);
    p.kingside_a = true;
    p.queenside_a = true;
    let ms = moves(&p);
    assert!(has(&ms, 4, 6, Flag::CastleKingside));
    assert!(has(&ms, 4, 2, Flag::CastleQueenside));
}

#[test]
fn attacked_transit_square_suppresses_only_that_castle() {
    let mut p = plain(board_with(&[(4, KING), (0, ROOK), (7, ROOK), (13, -ROOK)]), 1);
    p.kingside_a = true;
    p.queenside_a = true;
    let ms = moves(&p);
    assert!(!has(&ms, 4, 6, Flag::CastleKingside));
    assert!(has(&ms, 4, 2, Flag::CastleQueenside));
}

#[test]
fn withheld_right_or_blocker_suppresses_castling() {
    let mut p = plain(board_with(&[(4, KING), (0, ROOK), (7, ROOK)]), 1);
    p.kingside_a = false;
    p.queenside_a = true;
    let ms = moves(&p);
    assert!(!has(&ms, 4, 6, Flag::CastleKingside));
    assert!(has(&ms, 4, 2, Flag::CastleQueenside));

    let mut q = plain(board_with(&[(4, KING), (0, ROOK), (7, ROOK), (1, KNIGHT)]), 1);
    q.kingside_a = true;
    q.queenside_a = true;
    let ms = moves(&q);
    assert!(has(&ms, 4, 6, Flag::CastleKingside));
    assert!(!has(&ms, 4, 2, Flag::CastleQueenside));
}

#[test]
fn castling_while_in_check_is_refused() {
    let mut p = plain(board_with(&[(4, KING), (7, ROOK), (12, -ROOK)]), 1);
    p.kingside_a = true;
    let ms = moves(&p);
    assert!(!has(&ms, 4, 6, Flag::CastleKingside));
}

#[test]
fn a_pinned_rook_may_not_leave_the_file() {
    let p = plain(board_with(&[(4, KING), (12, ROOK), (60, -ROOK)]), 1);
    let ms = moves(&p);
    assert!(has(&ms, 12, 20, Flag::Quiet));
    assert!(!has(&ms, 12, 11, Flag::Quiet));
    assert!(has(&ms, 12, 60, Flag::Capture));
}

#[test]
fn the_king_may_not_step_into_an_attacked_square() {
    let p = plain(board_with(&[(4, KING), (15, -ROOK)]), 1);
    let ms = moves(&p);
    assert!(!has(&ms, 4, 12, Flag::Quiet));
    assert!(!has(&ms, 4, 11, Flag::Quiet));
    assert!(has(&ms, 4, 3, Flag::Quiet));
}

#[test]
fn pseudo_moves_keep_king_exposing_replies_that_moves_filters() {
    let p = plain(board_with(&[(4, KING), (12, ROOK), (60, -ROOK)]), 1);
    let pseudo = pseudo_moves(&p);
    let legal = moves(&p);
    assert!(has(&pseudo, 12, 11, Flag::Quiet));
    assert!(!has(&legal, 12, 11, Flag::Quiet));
    for m in &legal {
        assert!(pseudo.contains(m));
    }
}
