use movegen::encoding::{pack, unpack, Flag, Move, Promotion};

fn all_flags() -> Vec<Flag> {
    vec![
        Flag::Quiet,
        Flag::DoublePush,
        Flag::CastleKingside,
        Flag::CastleQueenside,
        Flag::Capture,
        Flag::EnPassant,
        Flag::Promote(Promotion::Knight),
        Flag::Promote(Promotion::Bishop),
        Flag::Promote(Promotion::Rook),
        Flag::Promote(Promotion::Queen),
        Flag::PromoteCapture(Promotion::Knight),
        Flag::PromoteCapture(Promotion::Bishop),
        Flag::PromoteCapture(Promotion::Rook),
        Flag::PromoteCapture(Promotion::Queen),
    ]
}

#[test]
fn round_trip_every_flag() {
    for flag in all_flags() {
        let m = Move { from: 12, to: 28, flag };
        let v = pack(m);
        assert_eq!(unpack(v), Some(m));
    }
}

#[test]
fn round_trip_extreme_squares() {
    for flag in all_flags() {
        for (from, to) in [(0u8, 63u8), (63, 0), (7, 56), (56, 7)] {
            let m = Move { from, to, flag };
            assert_eq!(unpack(pack(m)), Some(m));
        }
    }
}

#[test]
fn unused_flag_codes_decode_to_none() {
    assert_eq!(unpack(6 << 12), None);
    assert_eq!(unpack((7 << 12) | 1234), None);
}

#[test]
fn equal_encodings_mean_equal_moves() {
    let mut seen: Vec<(u16, Move)> = Vec::new();
    for flag in all_flags() {
        for from in [0u8, 1, 30, 63] {
            for to in [0u8, 5, 47, 63] {
                let m = Move { from, to, flag };
                let v = pack(m);
                for (v2, m2) in &seen {
                    assert_eq!(*v2 == v, *m2 == m);
                }
                seen.push((v, m));
            }
        }
    }
}

#[test]
fn pack_layout_is_stable() {
    let m = Move { from: 3, to: 11, flag: Flag::Capture };
    assert_eq!(pack(m), 3 + 64 * 11 + 4096 * 4);
}
