use lapis::{max_consecutive_bits, ones_count};

fn bit(v: u32, i: u32) -> bool {
    (v >> i) & 1 == 1
}

fn scan_transitions(v: u32, width: u32) -> u8 {
    let mut count = 0;
    let mut i = 0;
    while i + 1 < width && i + 1 < 32 {
        if bit(v, i) != bit(v, i + 1) {
            count += 1;
        }
        i += 1;
    }
    count
}

fn scan_longest_run(v: u32) -> u8 {
    let mut best = 0;
    let mut lo = 0;
    while lo < 32 {
        let mut len = 1;
        while lo + len < 32 && bit(v, lo + len) == bit(v, lo) {
            len += 1;
        }
        if len > best {
            best = len;
        }
        lo += 1;
    }
    best as u8
}

fn samples() -> Vec<u32> {
    let mut values = vec![
        0,
        u32::MAX,
        1,
        0x8000_0000,
        0x5555_5555,
        0xAAAA_AAAA,
        0x8E89_BED6,
        0x0000_FFFF,
        0xFFFF_0000,
        0x00FF_00FF,
        0x7FFF_FFFF,
        0xFFFF_FFFE,
    ];
    let mut x: u32 = 0x2545_F491;
    for _ in 0..2000 {
        x ^= x << 13;
        x ^= x >> 17;
        x ^= x << 5;
        values.push(x);
    }
    values
}

#[test]
fn transition_count() {
    assert_eq!(lapis::transition_count(0b01, 32), 1);
    assert_eq!(lapis::transition_count(0b010, 32), 2);
    assert_eq!(lapis::transition_count(0b011, 32), 1);
    assert_eq!(lapis::transition_count(0b0110, 32), 2);
    assert_eq!(lapis::transition_count(0b0111, 32), 1);
    assert_eq!(lapis::transition_count(0b0101, 32), 3);
}

#[test]
fn transition_count_of_constant_words_is_zero() {
    assert_eq!(lapis::transition_count(0, 32), 0);
    assert_eq!(lapis::transition_count(u32::MAX, 32), 0);
}

#[test]
fn transition_count_of_alternating_word() {
    assert_eq!(lapis::transition_count(0x5555_5555, 32), 31);
    assert_eq!(lapis::transition_count(0xAAAA_AAAA, 32), 31);
    assert_eq!(lapis::transition_count(0x5555_5555, 16), 15);
    assert_eq!(lapis::transition_count(0x5555_5555, 8), 7);
}

#[test]
fn transition_count_sees_the_topmost_pair() {
    assert_eq!(lapis::transition_count(0x8000_0000, 32), 1);
    assert_eq!(lapis::transition_count(0x8000_0000, 31), 0);
    assert_eq!(lapis::transition_count(0x7FFF_FFFF, 32), 1);
}

#[test]
fn transition_count_stays_inside_its_window() {
    assert_eq!(lapis::transition_count(0xFFFF_0000, 16), 0);
    assert_eq!(lapis::transition_count(0xFFFF_0000, 17), 1);
    assert_eq!(lapis::transition_count(0xAB99_254A, 16), 12);
    assert_eq!(lapis::transition_count(0xAB99_254A, 32), 23);
    assert_eq!(lapis::transition_count(0x00FF_00FF, 8), 0);
    assert_eq!(lapis::transition_count(0x00FF_00FF, 9), 1);
}

#[test]
fn transition_count_of_narrow_windows_is_zero() {
    assert_eq!(lapis::transition_count(0x5555_5555, 0), 0);
    assert_eq!(lapis::transition_count(0x5555_5555, 1), 0);
    assert_eq!(lapis::transition_count(0x5555_5555, 2), 1);
}

#[test]
fn transition_count_treats_wide_windows_as_the_whole_word() {
    assert_eq!(lapis::transition_count(0x5555_5555, 33), 31);
    assert_eq!(lapis::transition_count(0x6AAA_8B2D, u32::MAX), 25);
}

#[test]
fn transition_count_agrees_with_a_plain_scan() {
    for v in samples() {
        for width in [0, 1, 2, 6, 8, 16, 31, 32, 40] {
            assert_eq!(lapis::transition_count(v, width), scan_transitions(v, width));
        }
    }
}

#[test]
fn transition_count_agrees_with_the_rotated_word() {
    for v in samples() {
        let around = (v ^ v.rotate_left(1)).count_ones();
        let wrap = if bit(v, 31) != bit(v, 0) { 1 } else { 0 };
        assert_eq!(lapis::transition_count(v, 32) as u32, around - wrap);
        assert_eq!(ones_count(v ^ v.rotate_left(1), 32) as u32, around);
    }
}

#[test]
fn ones_count_of_known_words() {
    assert_eq!(ones_count(0, 32), 0);
    assert_eq!(ones_count(u32::MAX, 32), 32);
    assert_eq!(ones_count(0x8000_0000, 32), 1);
    assert_eq!(ones_count(0x8000_0000, 31), 0);
    assert_eq!(ones_count(0xCD61_3E30, 8), 2);
    assert_eq!(ones_count(0xCD61_3E30, 32), 15);
    assert_eq!(ones_count(0x1234_5678, 8), 4);
    assert_eq!(ones_count(u32::MAX, 0), 0);
    assert_eq!(ones_count(u32::MAX, 100), 32);
}

#[test]
fn ones_count_agrees_with_the_machine() {
    for v in samples() {
        assert_eq!(ones_count(v, 32) as u32, v.count_ones());
        assert_eq!(ones_count(v, 8) as u32, (v & 0xff).count_ones());
        assert_eq!(ones_count(v, 16) as u32, (v & 0xffff).count_ones());
    }
}

#[test]
fn max_consecutive_bits_of_constant_words_is_32() {
    assert_eq!(max_consecutive_bits(0), 32);
    assert_eq!(max_consecutive_bits(u32::MAX), 32);
}

#[test]
fn max_consecutive_bits_of_known_words() {
    assert_eq!(max_consecutive_bits(0x5555_5555), 1);
    assert_eq!(max_consecutive_bits(0xAAAA_AAAA), 1);
    assert_eq!(max_consecutive_bits(1), 31);
    assert_eq!(max_consecutive_bits(0x8000_0000), 31);
    assert_eq!(max_consecutive_bits(0x0000_003F), 26);
    assert_eq!(max_consecutive_bits(0x0000_FFFF), 16);
    assert_eq!(max_consecutive_bits(0x00FF_00FF), 8);
    assert_eq!(max_consecutive_bits(0xF0F0_F0F0), 4);
    assert_eq!(max_consecutive_bits(0x0101_0101), 7);
    assert_eq!(max_consecutive_bits(0x892F_902B), 6);
    assert_eq!(max_consecutive_bits(0x94E3_BF91), 7);
    assert_eq!(max_consecutive_bits(0x8E89_BED6), 5);
}

#[test]
fn max_consecutive_bits_agrees_with_a_plain_scan() {
    for v in samples() {
        assert_eq!(max_consecutive_bits(v), scan_longest_run(v));
    }
}
