//! Integer arithmetic on singles against the arithmetic of the machine.

use resource_pool::binary32::{meets_threshold, ratio, FOUR_FIFTHS, ONE};

fn next(state: &mut u64) -> u64 {
    *state = state.wrapping_mul(6364136223846793005).wrapping_add(1442695040888963407);
    *state >> 11
}

#[test]
fn constants_are_the_encodings_they_are_named_for() {
    assert_eq!(FOUR_FIFTHS, 0.8f32.to_bits());
    assert_eq!(ONE, 1.0f32.to_bits());
}

#[test]
fn small_ratios_are_those_of_the_machine() {
    for whole in 1usize..300 {
        for part in 0..=whole {
            let expected = part as f32 / whole as f32;
            assert_eq!(ratio(part, whole), expected.to_bits(), "{} / {}", part, whole);
        }
    }
}

#[test]
fn large_ratios_are_those_of_the_machine() {
    let mut state: u64 = 12345;
    for round in 0..200_000u32 {
        let a = (next(&mut state) << (round % 12)) as usize >> (round % 50);
        let b = (next(&mut state) << (round % 7)) as usize >> (round % 37);
        let (part, whole) = if a <= b { (a, b) } else { (b, a) };
        if whole > 0 {
            let expected = part as f32 / whole as f32;
            assert_eq!(ratio(part, whole), expected.to_bits(), "{} / {}", part, whole);
        }
    }
}

#[test]
fn ratios_at_the_edges_of_rounding_are_those_of_the_machine() {
    let edges = [
        1usize,
        0xff_ffff,
        0x100_0000,
        0x100_0001,
        0x100_0003,
        0x1ff_fffe,
        0x1ff_ffff,
        0x200_0000,
        0x200_0002,
        0x200_0006,
        usize::MAX / 2,
        usize::MAX - 1,
        usize::MAX,
    ];
    for whole in edges {
        for part in edges {
            if part <= whole {
                let expected = part as f32 / whole as f32;
                assert_eq!(ratio(part, whole), expected.to_bits(), "{} / {}", part, whole);
            }
        }
    }
}

#[test]
fn thresholds_are_met_as_on_the_machine() {
    let thresholds = [
        0.0f32,
        -0.0,
        -1.0,
        0.25,
        0.5,
        0.75,
        0.78125,
        0.8,
        0.97,
        1.0,
        1.5,
        1e-45,
        1e-10,
        f32::INFINITY,
        f32::NEG_INFINITY,
        f32::NAN,
        -f32::NAN,
    ];
    for threshold in thresholds {
        for whole in 0usize..120 {
            for part in 0..=whole {
                let expected = threshold <= part as f32 / whole as f32;
                assert_eq!(
                    meets_threshold(part, whole, threshold.to_bits()),
                    expected,
                    "{} / {} against {}",
                    part,
                    whole,
                    threshold
                );
            }
        }
    }
}
