use movegen::board::{Position, KING, PAWN, ROOK};
use movegen::encoding::{pack, unpack, Flag, Promotion};
use movegen::gen::moves;
use movegen::order::mv_gen;

fn plain(board: Vec<i8>, active: i8) -> Position {
    Position {
        board,
        active,
        kingside_a: false,
        queenside_a: false,
        kingside_b: false,
        queenside_b: false,
        en_passant: None,
    }
}

fn board_with(pieces: &[(u8, i8)]) -> Vec<i8> {
    let mut b = vec![0i8; 64];
    for (sq, pc) in pieces {
        b[*sq as usize] = *pc;
    }
    b
}

fn is_promo_flag(f: Flag) -> bool {
    matches!(f, Flag::Promote(_) | Flag::PromoteCapture(_))
}

#[test]
fn hints_come_first_and_unchanged() {
    let p = plain(board_with(&[(0, ROOK)]), 1);
    let seq = mv_gen(&p, 1111, 2222);
    assert!(seq.len() >= 2);
    assert_eq!(seq[0], 1111);
    assert_eq!(seq[1], 2222);
}

#[test]
fn promotions_precede_all_other_generated_moves() {
    let p = plain(board_with(&[(52, PAWN), (0, ROOK)]), 1);
    let seq = mv_gen(&p, 0, 0);
    let flags: Vec<Flag> = seq[2..]
        .iter()
        .map(|v| unpack(*v).expect("generated moves decode").flag)
        .collect();
    let first_plain = flags.iter().position(|f| !is_promo_flag(*f));
    if let Some(b) = first_plain {
        for f in &flags[b..] {
            assert!(!is_promo_flag(*f));
        }
    }
    assert!(flags.iter().filter(|f| is_promo_flag(**f)).count() == 4);
}

#[test]
fn checking_moves_precede_the_rest() {
    // A rook on a1 against a bare king on h8: rook moves to the a-file or
    // the first rank give check; everything else follows them.
    let p = plain(board_with(&[(0, ROOK), (63, -KING)]), 1);
    let seq = mv_gen(&p, 0, 0);
    let gives_check_to_h8 = |to: u8| -> bool { to % 8 == 7 || to / 8 == 7 };
    let tos: Vec<u8> = seq[2..]
        .iter()
        .map(|v| unpack(*v).expect("generated moves decode").to)
        .collect();
    let first_quiet = tos.iter().position(|t| !gives_check_to_h8(*t)).unwrap();
    for t in &tos[..first_quiet] {
        assert!(gives_check_to_h8(*t));
    }
    for t in &tos[first_quiet..] {
        assert!(!gives_check_to_h8(*t));
    }
}

#[test]
fn ordering_covers_exactly_the_legal_moves() {
    let p = plain(board_with(&[(52, PAWN), (0, ROOK), (63, -KING)]), 1);
    let seq = mv_gen(&p, 9, 9);
    let mut generated: Vec<u16> = seq[2..].to_vec();
    let mut legal: Vec<u16> = moves(&p).iter().map(|m| pack(*m)).collect();
    generated.sort();
    legal.sort();
    assert_eq!(generated, legal);
}
