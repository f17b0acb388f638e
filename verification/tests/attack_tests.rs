use movegen::attack::is_attacked;
use movegen::board::{Position, BISHOP, KING, KNIGHT, PAWN, QUEEN, ROOK};

fn bare(board: Vec<i8>, active: i8) -> Position {
    Position {
        board,
        active,
        kingside_a: false,
        queenside_a: false,
        kingside_b: false,
        queenside_b: false,
        en_passant: None,
    }
}

fn board_with(pieces: &[(u8, i8)]) -> Vec<i8> {
    let mut b = vec![0i8; 64];
    for (sq, pc) in pieces {
        b[*sq as usize] = *pc;
    }
    b
}

#[test]
fn rook_attacks_along_open_rank() {
    let p = bare(board_with(&[(0, ROOK)]), 1);
    assert!(is_attacked(&p, 7, 1));
    assert!(is_attacked(&p, 56, 1));
    assert!(!is_attacked(&p, 9, 1));
}

#[test]
fn blocker_cuts_the_rook_ray() {
    let p = bare(board_with(&[(0, ROOK), (4, PAWN)]), 1);
    assert!(is_attacked(&p, 3, 1));
    assert!(is_attacked(&p, 4, 1));
    assert!(!is_attacked(&p, 5, 1));
    assert!(!is_attacked(&p, 7, 1));
}

#[test]
fn pawn_attacks_only_its_two_diagonals() {
    let p = bare(board_with(&[(28, PAWN)]), 1);
    assert!(is_attacked(&p, 35, 1));
    assert!(is_attacked(&p, 37, 1));
    assert!(!is_attacked(&p, 36, 1));
    assert!(!is_attacked(&p, 19, 1));
    let q = bare(board_with(&[(28, -PAWN)]), 1);
    assert!(is_attacked(&q, 19, -1));
    assert!(is_attacked(&q, 21, -1));
    assert!(!is_attacked(&q, 35, -1));
}

#[test]
fn knight_attack_does_not_wrap_files() {
    let p = bare(board_with(&[(0, KNIGHT)]), 1);
    assert!(is_attacked(&p, 17, 1));
    assert!(is_attacked(&p, 10, 1));
    assert!(!is_attacked(&p, 15, 1));
}

#[test]
fn king_attacks_adjacent_squares_only() {
    let p = bare(board_with(&[(4, KING)]), 1);
    assert!(is_attacked(&p, 3, 1));
    assert!(is_attacked(&p, 5, 1));
    assert!(is_attacked(&p, 12, 1));
    assert!(is_attacked(&p, 13, 1));
    assert!(!is_attacked(&p, 6, 1));
    assert!(!is_attacked(&p, 20, 1));
}

#[test]
fn bishop_and_queen_attack_diagonals() {
    let p = bare(board_with(&[(0, BISHOP)]), 1);
    assert!(is_attacked(&p, 63, 1));
    assert!(!is_attacked(&p, 8, 1));
    let q = bare(board_with(&[(0, QUEEN)]), 1);
    assert!(is_attacked(&q, 63, 1));
    assert!(is_attacked(&q, 8, 1));
    assert!(is_attacked(&q, 7, 1));
}

#[test]
fn attacker_color_is_respected() {
    let p = bare(board_with(&[(0, ROOK)]), 1);
    assert!(!is_attacked(&p, 7, -1));
    let q = bare(board_with(&[(0, -ROOK)]), 1);
    assert!(is_attacked(&q, 7, -1));
    assert!(!is_attacked(&q, 7, 1));
}
