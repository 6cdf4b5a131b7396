use fastdivide::DividerU64;

fn histogram(vals: &[u64], min: u64, interval: u64, output: &mut [usize]) {
    let divide = DividerU64::divide_by(interval).unwrap();
    for &val in vals {
        if val < min {
            continue;
        }
        let bucket_id = divide.divide(val - min) as usize;
        if bucket_id < output.len() {
            output[bucket_id] += 1;
        }
    }
}

fn next_random(state: &mut u64) -> u64 {
    let mut x = *state;
    x ^= x << 13;
    x ^= x >> 7;
    x ^= x << 17;
    *state = x;
    x
}

#[test]
fn test_libdivide() {
    for d in (1u64..100u64)
        .chain(vec![2048, 234234131223u64].into_iter())
        .chain((5..63).map(|i| 1 << i))
    {
        let divider = DividerU64::divide_by(d).unwrap();
        for i in (0u64..10_000).chain(vec![2048, 234234131223u64, 1 << 43, 1 << 43 + 1]) {
            assert_eq!(divider.divide(i), i / d);
        }
    }
}

#[test]
fn ten_by_three() {
    assert_eq!(DividerU64::divide_by(3).unwrap().divide(10), 3);
}

#[test]
fn zero_by_six() {
    assert_eq!(DividerU64::divide_by(6).unwrap().divide(0), 0);
}

#[test]
fn a_large_dividend_by_a_large_divisor() {
    let divider = DividerU64::divide_by(234234131223).unwrap();
    assert_eq!(divider.divide(1 << 43), (1u64 << 43) / 234234131223);
    assert_eq!(divider.divide(1 << 43), 37);
}

#[test]
fn histogram_reuses_one_divider() {
    let mut output = vec![0; 3];
    histogram(&[0u64, 1u64, 4u64, 36u64, 2u64, 1u64], 1u64, 3u64, &mut output[..]);
    assert_eq!(output, vec![3, 1, 0]);
}

#[test]
fn zero_divided_by_anything_is_zero() {
    let mut state: u64 = 0x2545F4914F6CDD1D;
    for d in (1u64..2000).chain((0..2000).map(|_| next_random(&mut state) | 1)) {
        assert_eq!(DividerU64::divide_by(d).unwrap().divide(0), 0, "divisor {}", d);
    }
}

#[test]
fn a_divisor_divided_by_itself_is_one() {
    let mut state: u64 = 0x9E3779B97F4A7C15;
    for d in (1u64..2000)
        .chain((0..2000).map(|_| next_random(&mut state) | 1))
        .chain((0..64).map(|k| 1u64 << k))
        .chain(vec![u64::MAX - 1, u64::MAX])
    {
        let divider = DividerU64::divide_by(d).unwrap();
        assert_eq!(divider.divide(d), 1, "divisor {}", d);
        assert_eq!(divider.divide(d - 1), 0, "divisor {}", d);
        if d < u64::MAX {
            assert_eq!(divider.divide(d + 1), if d == 1 { 2 } else { 1 }, "divisor {}", d);
        }
    }
}

#[test]
fn dividing_by_one_changes_nothing() {
    let divider = DividerU64::divide_by(1).unwrap();
    assert_eq!(divider.divide(u64::MAX), u64::MAX);
    assert_eq!(divider.divide(0), 0);
    assert_eq!(divider.divide(1), 1);
    assert_eq!(divider.divide(152342341), 152342341);
}

#[test]
fn powers_of_two_divide_by_shifting() {
    for k in 0u8..=62 {
        let d = 1u64 << k;
        let divider = DividerU64::divide_by(d).unwrap();
        assert_eq!(divider, DividerU64::BitShift(k));
        for n in [0, 1, d - 1, d, d + 1, 3 * d - 1, 3 * d, u64::MAX - 1, u64::MAX] {
            assert_eq!(divider.divide(n), n >> k, "{} / 2^{}", n, k);
            assert_eq!(divider.divide(n), n / d, "{} / 2^{}", n, k);
        }
    }
    let top = DividerU64::divide_by(1 << 63).unwrap();
    assert_eq!(top.divide(u64::MAX), 1);
    assert_eq!(top.divide((1 << 63) - 1), 0);
}

#[test]
fn small_divisors_exhaustively() {
    for d in 1u64..=1024 {
        let divider = DividerU64::divide_by(d).unwrap();
        for n in 0u64..=4096 {
            assert_eq!(divider.divide(n), n / d, "{} / {}", n, d);
        }
        for n in (u64::MAX - 4096)..=u64::MAX {
            assert_eq!(divider.divide(n), n / d, "{} / {}", n, d);
        }
    }
}

#[test]
fn multiples_of_the_divisor_and_their_neighbours() {
    let mut state: u64 = 0xD1B54A32D192ED03;
    for _ in 0..20_000 {
        let d = (next_random(&mut state) >> (next_random(&mut state) % 64)).max(1);
        let divider = DividerU64::divide_by(d).unwrap();
        let k = next_random(&mut state) % (u64::MAX / d).max(1);
        let multiple = k * d;
        assert_eq!(divider.divide(multiple), k, "{} / {}", multiple, d);
        if multiple > 0 {
            assert_eq!(divider.divide(multiple - 1), k - 1, "{} / {}", multiple - 1, d);
        }
        if d > 1 && multiple < u64::MAX {
            assert_eq!(divider.divide(multiple + 1), k, "{} / {}", multiple + 1, d);
        }
    }
}

#[test]
fn sampled_divisors_and_dividends() {
    let mut state: u64 = 0x9E3779B97F4A7C15;
    for _ in 0..100_000 {
        let d = next_random(&mut state);
        let n = next_random(&mut state);
        if d == 0 {
            continue;
        }
        let divider = DividerU64::divide_by(d).unwrap();
        assert_eq!(divider.divide(n), n / d, "{} / {}", n, d);
    }
}

#[test]
fn sampled_divisors_of_every_width() {
    let mut state: u64 = 0xA0761D6478BD642F;
    for width in 1u32..=64 {
        for _ in 0..500 {
            let d = (next_random(&mut state) >> (64 - width)) | (1 << (width - 1));
            let divider = DividerU64::divide_by(d).unwrap();
            for n in [
                0,
                1,
                d,
                d.wrapping_mul(3),
                next_random(&mut state),
                u64::MAX - 1,
                u64::MAX,
            ] {
                assert_eq!(divider.divide(n), n / d, "{} / {}", n, d);
            }
        }
    }
}

#[test]
fn sampled_dividends_by_seven() {
    let divider = DividerU64::divide_by(7).unwrap();
    let mut state: u64 = 0xE7037ED1A0B428DB;
    for _ in 0..100_000 {
        let n = next_random(&mut state);
        assert_eq!(divider.divide(n), n / 7);
    }
}

#[test]
fn sampled_dividends_by_eleven() {
    let divider = DividerU64::divide_by(11).unwrap();
    let mut state: u64 = 0x8EBC6AF09C88C6E3;
    for _ in 0..10_000 {
        let n = next_random(&mut state);
        assert_eq!(divider.divide(n), n / 11);
    }
}

#[test]
fn the_largest_divisors_and_dividends() {
    for d in [
        (1u64 << 63) - 1,
        1 << 63,
        (1 << 63) + 1,
        16622961153692232416,
        u64::MAX - 1,
        u64::MAX,
    ] {
        let divider = DividerU64::divide_by(d).unwrap();
        for n in [0, 1, d - 1, d, d.saturating_add(1), u64::MAX - 1, u64::MAX] {
            assert_eq!(divider.divide(n), n / d, "{} / {}", n, d);
        }
    }
}

#[test]
fn a_shift_discards_low_bits() {
    assert_eq!(DividerU64::BitShift(0).divide(1000), 1000);
    assert_eq!(DividerU64::BitShift(5).divide(1000), 31);
    assert_eq!(DividerU64::BitShift(63).divide(u64::MAX), 1);
}

#[test]
fn a_fast_divider_keeps_the_high_word_of_the_product() {
    // (magic * n) / 2^(64 + shift)
    let half = DividerU64::Fast { magic: 1 << 63, shift: 0 };
    assert_eq!(half.divide(10), 5);
    assert_eq!(half.divide(11), 5);
    let all_ones = DividerU64::Fast { magic: u64::MAX, shift: 0 };
    assert_eq!(all_ones.divide(u64::MAX), u64::MAX - 1);
    assert_eq!(all_ones.divide(1), 0);
    assert_eq!(all_ones.divide(0), 0);
    let shifted = DividerU64::Fast { magic: 1 << 63, shift: 2 };
    assert_eq!(shifted.divide(80), 10);
    let eleven = DividerU64::Fast { magic: 13415813871788764812, shift: 3 };
    assert_eq!(eleven.divide(152342341), 13849303);
}

#[test]
fn a_general_divider_multiplies_by_65_bits() {
    // ((2^64 + magic_low) * n) / 2^(65 + shift)
    let leading_bit_only = DividerU64::General { magic_low: 0, shift: 0 };
    assert_eq!(leading_bit_only.divide(10), 5);
    assert_eq!(leading_bit_only.divide(u64::MAX), u64::MAX / 2);
    let all_ones = DividerU64::General { magic_low: u64::MAX, shift: 0 };
    assert_eq!(all_ones.divide(u64::MAX), u64::MAX - 1);
    assert_eq!(all_ones.divide(1), 0);
    assert_eq!(all_ones.divide(2), 1);
    let seven = DividerU64::General { magic_low: 2635249153387078803, shift: 2 };
    assert_eq!(seven.divide(152342341), 21763191);
    assert_eq!(seven.divide(u64::MAX), 2635249153387078802);
}
