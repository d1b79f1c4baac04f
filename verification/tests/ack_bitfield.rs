use battle_arena_2000::ack_bitfield::AckBitfield;

/// Reference model: 32 plain booleans, aged one slot at a time exactly as
/// the window describes itself — every bit moves down one place, the top
/// slot is stamped on the first step of an advance and left empty on the
/// later ones.
fn model_shift(model: &mut [bool; 32], shifts: u32) {
    for j in 0..31 {
        model[j] = model[j + 1];
    }
    model[31] = true;
    for _ in 1..shifts {
        for j in 0..31 {
            model[j] = model[j + 1];
        }
        model[31] = false;
    }
}

#[test]
fn ack_bitfield_matches_reference_model() {
    // A fixed linear-congruential stream drives a long mixed action
    // sequence against the boolean reference model.
    let mut state: u32 = 0x1234_5678;
    let mut step = move || {
        state = state.wrapping_mul(1_664_525).wrapping_add(1_013_904_223);
        state
    };

    let mut bitfield = AckBitfield(0);
    let mut model = [false; 32];

    for _ in 0..500 {
        match step() % 3 {
            0 => {
                let index = (step() % 32) as u8;
                bitfield.set(index);
                model[index as usize] = true;
            }
            1 => {
                let index = (step() % 32) as u8;
                assert_eq!(bitfield.get(index), model[index as usize]);
            }
            _ => {
                let shifts = step() % 40 + 1;
                bitfield.shift(shifts);
                model_shift(&mut model, shifts);
            }
        }
        for index in 0..32u8 {
            assert_eq!(bitfield.get(index), model[index as usize]);
        }
    }
}

#[test]
fn shift_one_ages_and_stamps() {
    let mut bitfield = AckBitfield(0);
    bitfield.set(5);
    bitfield.shift(1);
    assert!(bitfield.get(4));
    assert!(bitfield.get(31));
    assert!(!bitfield.get(5));
    assert!(!bitfield.get(0));
}

#[test]
fn shift_edges() {
    // Advancing by the full width leaves only the stamped top bit, aged all
    // the way down; advancing past the width leaves nothing.
    let mut bitfield = AckBitfield(u32::MAX);
    bitfield.shift(32);
    assert_eq!(bitfield, AckBitfield(1));

    let mut bitfield = AckBitfield(u32::MAX);
    bitfield.shift(33);
    assert_eq!(bitfield, AckBitfield(0));

    let mut bitfield = AckBitfield(u32::MAX);
    bitfield.shift(1_000_000);
    assert_eq!(bitfield, AckBitfield(0));

    let mut bitfield = AckBitfield(0b1010);
    bitfield.shift(2);
    assert_eq!(bitfield.0, (0b0101u32 | 0x8000_0000) >> 1);
}

#[test]
fn bitfield_byte_round_trip() {
    let mut state: u32 = 0xcafe_f00d;
    for _ in 0..200 {
        state = state.wrapping_mul(1_664_525).wrapping_add(1_013_904_223);
        let b = AckBitfield(state);
        assert_eq!(AckBitfield::from_bytes(&b.to_bytes()), b);
    }
    for raw in [0u32, 1, u32::MAX, 0x8000_0000] {
        let b = AckBitfield(raw);
        assert_eq!(AckBitfield::from_bytes(&b.to_bytes()), b);
    }
    assert_eq!(AckBitfield(0x0102_0304).to_bytes(), [1, 2, 3, 4]);
}
